//! Core library of a RINA IPC process running over a UDP underlay.
//!
//! The crate holds the protocol subsystems that make recursive networking
//! work: the Resource Information Base (RIB) with its bounded change log and
//! snapshot codec, the CDAP request/response layer, the enrollment state
//! machine, EFCP per-flow transport, the relaying and multiplexing task,
//! the route resolver and the address pool.  Every function here carries a
//! contract checked by Verus; the unverified I/O shell (sockets, files,
//! timers) lives outside this crate and hands in plain values.

use vstd::prelude::*;

pub mod cdap;
pub mod clock;
pub mod codec;
pub mod config;
pub mod directory;
pub mod efcp;
pub mod enrollment;
pub mod error;
pub mod fal;
pub mod inter_ipcp_fal;
pub mod ipcp;
pub mod pdu;
pub mod policies;
pub mod rib;
pub mod rmt;
pub mod routing;
pub mod shim;
pub mod strutil;
pub mod wire;

verus! {

broadcast use vstd::seq_lib::group_seq_lib_default, vstd::seq::group_seq_axioms, vstd::std_specs::vec::group_vec_axioms;

/// Reserved RINA address: `0` means "unassigned", used by a member before
/// enrollment has assigned it an address.
pub const UNASSIGNED_ADDR: u64 = 0;

/// The reserved, unassigned address.
pub fn reserved_addr() -> (r: u64)
    ensures
        r == UNASSIGNED_ADDR,
{
    UNASSIGNED_ADDR
}

/// A Distributed IPC Facility: the scope of communication a set of
/// cooperating IPC processes provides, with its shared state.
#[derive(Debug)]
pub struct Dif {
    /// Name of this DIF.
    pub name: String,
    /// The shared object store.
    pub rib: rib::Rib,
    /// Name resolution for this DIF.
    pub directory: directory::Directory,
    /// Addresses of the member processes.
    pub member_addresses: Vec<u64>,
}

impl Dif {
    /// A DIF with the given name and no members.
    pub fn new_with_name(name: String) -> (r: Self)
        ensures
            r.name@ == name@,
            r.member_addresses@ == Seq::<u64>::empty(),
            r.rib.wf(),
            r.directory.wf(),
    {
        Dif {
            name,
            rib: rib::Rib::new(),
            directory: directory::Directory::new(),
            member_addresses: Vec::new(),
        }
    }

    /// A DIF with a default name and no members.
    pub fn new() -> (r: Self)
        ensures
            r.name@ == "default-dif"@,
            r.member_addresses@ == Seq::<u64>::empty(),
            r.rib.wf(),
            r.directory.wf(),
    {
        let mut name = String::new();
        name.append("default-dif");
        Self::new_with_name(name)
    }

    /// Adds a member address, unless it is already one.
    #[verifier::loop_isolation(false)]
    pub fn add_member(&mut self, address: u64)
        ensures
            final(self).member_addresses@ == (if old(self).member_addresses@.contains(address) {
                old(self).member_addresses@
            } else {
                old(self).member_addresses@.push(address)
            }),
            final(self).name == old(self).name,
    {
        let n = self.member_addresses.len();
        let mut i: usize = 0;
        while i < n
            invariant
                i <= n,
                self == old(self),
                n == self.member_addresses@.len(),
                forall|k: int| 0 <= k < i ==> (#[trigger] self.member_addresses@[k]) != address,
            decreases n - i,
        {
            if self.member_addresses[i] == address {
                proof {
                    assert(self.member_addresses@.contains(address));
                }
                return ;
            }
            i = i + 1;
        }
        proof {
            if old(self).member_addresses@.contains(address) {
                let j = choose|j: int|
                    0 <= j < old(self).member_addresses@.len() && old(
                        self,
                    ).member_addresses@[j] == address;
                assert(false);
            }
        }
        self.member_addresses.push(address);
    }

    /// Removes every occurrence of a member address.
    #[verifier::loop_isolation(false)]
    pub fn remove_member(&mut self, address: u64)
        ensures
            final(self).member_addresses@ == old(self).member_addresses@.filter(
                |a: u64| a != address,
            ),
            final(self).name == old(self).name,
    {
        let ghost w = self.member_addresses@;
        let ghost p = |a: u64| a != address;
        let mut kept: Vec<u64> = Vec::new();
        let n = self.member_addresses.len();
        let mut i: usize = 0;
        proof {
            reveal_with_fuel(Seq::filter, 2);
            assert(kept@ =~= w.take(0).filter(p));
        }
        while i < n
            invariant
                i <= n,
                self == old(self),
                n == self.member_addresses@.len(),
                kept@ == w.take(i as int).filter(p),
            decreases n - i,
        {
            let ghost taken = w.take(i as int);
            let ghost cur = w[i as int];
            let a = self.member_addresses[i];
            if a != address {
                kept.push(a);
            }
            proof {
                reveal_with_fuel(Seq::filter, 2);
                assert(w.take(i as int + 1).drop_last() =~= taken);
                assert(w.take(i as int + 1).last() == cur);
                if p(cur) {
                    assert(w.take(i as int + 1).filter(p) =~= taken.filter(p).push(cur));
                } else {
                    assert(w.take(i as int + 1).filter(p) =~= taken.filter(p));
                }
            }
            i = i + 1;
        }
        proof {
            assert(w.take(w.len() as int) =~= w);
        }
        self.member_addresses = kept;
    }

    /// The number of member processes.
    pub fn member_count(&self) -> (r: usize)
        ensures
            r == self.member_addresses@.len(),
    {
        self.member_addresses.len()
    }
}

impl Default for Dif {
    /// A DIF with a default name.
    fn default() -> (r: Self)
        ensures
            r.member_addresses@ == Seq::<u64>::empty(),
    {
        Self::new()
    }
}

} // verus!
