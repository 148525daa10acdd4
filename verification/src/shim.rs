//! The verified face of the UDP shim: the RINA-address to socket-address
//! map it keeps.  The socket itself, and the encoding and decoding of PDUs
//! on their way through it, are driven from outside this crate with
//! [`crate::pdu::Pdu::serialize`] and [`crate::pdu::Pdu::deserialize`].

use vstd::prelude::*;

verus! {

broadcast use vstd::seq_lib::group_seq_lib_default, vstd::seq::group_seq_axioms, vstd::std_specs::vec::group_vec_axioms;

/// One peer mapping.
#[derive(Debug)]
pub struct AddressMapping {
    /// The peer's RINA address.
    pub rina_addr: u64,
    /// The peer's socket address (`host:port`).
    pub socket_addr: String,
}

/// Model of one mapping.
pub struct AddressMappingModel {
    pub rina_addr: u64,
    pub socket_addr: Seq<char>,
}

impl View for AddressMapping {
    type V = AddressMappingModel;

    open spec fn view(&self) -> AddressMappingModel {
        AddressMappingModel { rina_addr: self.rina_addr, socket_addr: self.socket_addr@ }
    }
}

/// Model of the mapping list.
pub open spec fn mappings_model(s: Seq<AddressMapping>) -> Seq<AddressMappingModel> {
    Seq::new(s.len(), |i: int| s[i]@)
}

/// Index of the mapping for a RINA address, or -1.
pub open spec fn spec_mapping_index(maps: Seq<AddressMappingModel>, rina_addr: u64) -> int
    decreases maps.len(),
{
    if maps.len() == 0 {
        -1
    } else if maps[0].rina_addr == rina_addr {
        0
    } else {
        let r = spec_mapping_index(maps.drop_first(), rina_addr);
        if r == -1 {
            -1
        } else {
            r + 1
        }
    }
}

proof fn lemma_mapping_index(maps: Seq<AddressMappingModel>, rina_addr: u64)
    ensures
        spec_mapping_index(maps, rina_addr) == -1 <==> (forall|k: int|
            0 <= k < maps.len() ==> (#[trigger] maps[k]).rina_addr != rina_addr),
        spec_mapping_index(maps, rina_addr) != -1 ==> 0 <= spec_mapping_index(maps, rina_addr)
            < maps.len() && maps[spec_mapping_index(maps, rina_addr)].rina_addr == rina_addr && (
        forall|k: int|
            0 <= k < spec_mapping_index(maps, rina_addr) ==> (#[trigger] maps[k]).rina_addr
                != rina_addr),
    decreases maps.len(),
{
    if maps.len() > 0 {
        let tail = maps.drop_first();
        lemma_mapping_index(tail, rina_addr);
        assert(forall|k: int| 0 <= k < tail.len() ==> #[trigger] tail[k] == maps[k + 1]);
        if maps[0].rina_addr != rina_addr {
            let r = spec_mapping_index(tail, rina_addr);
            if r == -1 {
                assert forall|k: int| 0 <= k < maps.len() implies (#[trigger] maps[k]).rina_addr
                    != rina_addr by {
                    if k > 0 {
                        assert(tail[k - 1] == maps[k]);
                    }
                }
            } else {
                assert(maps[r + 1] == tail[r]);
                assert forall|k: int| 0 <= k < r + 1 implies (#[trigger] maps[k]).rina_addr
                    != rina_addr by {
                    if k > 0 {
                        assert(tail[k - 1] == maps[k]);
                    }
                }
            }
        }
    }
}

/// The RINA-address to socket-address map of the UDP shim.  `register_peer`
/// upserts, so a peer's underlay address can move.
#[derive(Debug)]
pub struct AddressMapper {
    mappings: Vec<AddressMapping>,
}

impl View for AddressMapper {
    type V = Seq<AddressMappingModel>;

    closed spec fn view(&self) -> Seq<AddressMappingModel> {
        mappings_model(self.mappings@)
    }
}

impl AddressMapper {
    /// At most one mapping per RINA address.
    pub open spec fn wf(&self) -> bool {
        forall|i: int, j: int|
            0 <= i < j < self@.len() ==> (#[trigger] self@[i]).rina_addr != (
            #[trigger] self@[j]).rina_addr
    }

    /// An empty map.
    pub fn new() -> (r: Self)
        ensures
            r.wf(),
            r@ == Seq::<AddressMappingModel>::empty(),
    {
        let r = AddressMapper { mappings: Vec::new() };
        proof {
            assert(mappings_model(r.mappings@) =~= Seq::<AddressMappingModel>::empty());
        }
        r
    }

    #[verifier::loop_isolation(false)]
    fn find_mapping(&self, rina_addr: u64) -> (r: Option<usize>)
        ensures
            match r {
                Some(i) => spec_mapping_index(self@, rina_addr) == i as int && i < self@.len()
                    && self@[i as int].rina_addr == rina_addr,
                None => spec_mapping_index(self@, rina_addr) == -1,
            },
    {
        let mut i: usize = 0;
        while i < self.mappings.len()
            invariant
                i <= self.mappings@.len(),
                forall|k: int| 0 <= k < i ==> (#[trigger] self@[k]).rina_addr != rina_addr,
            decreases self.mappings@.len() - i,
        {
            if self.mappings[i].rina_addr == rina_addr {
                proof {
                    assert(self@[i as int].rina_addr == rina_addr);
                    lemma_mapping_index(self@, rina_addr);
                    assert(spec_mapping_index(self@, rina_addr) == i as int);
                }
                return Some(i);
            }
            i = i + 1;
        }
        proof {
            lemma_mapping_index(self@, rina_addr);
        }
        None
    }

    /// Inserts or overwrites the mapping for `rina_addr`.
    pub fn add_mapping(&mut self, rina_addr: u64, socket_addr: String)
        requires
            old(self).wf(),
        ensures
            final(self).wf(),
            ({
                let m = AddressMappingModel { rina_addr, socket_addr: socket_addr@ };
                let i = spec_mapping_index(old(self)@, rina_addr);
                if i == -1 {
                    final(self)@ == old(self)@.push(m)
                } else {
                    final(self)@ == old(self)@.update(i, m)
                }
            }),
    {
        let ghost pre = mappings_model(self.mappings@);
        let mapping = AddressMapping { rina_addr, socket_addr };
        let ghost mm = mapping@;
        match self.find_mapping(rina_addr) {
            Some(i) => {
                self.mappings.set(i, mapping);
                proof {
                    assert(mappings_model(self.mappings@) =~= pre.update(i as int, mm));
                    let post = mappings_model(self.mappings@);
                    assert forall|a: int, b: int|
                        0 <= a < b < post.len() implies (#[trigger] post[a]).rina_addr != (
                    #[trigger] post[b]).rina_addr by {
                        if a == i as int {
                            assert(post[a] == mm);
                        } else {
                            assert(post[a] == pre[a]);
                        }
                        if b == i as int {
                            assert(post[b] == mm);
                        } else {
                            assert(post[b] == pre[b]);
                        }
                        assert(pre[a].rina_addr != pre[b].rina_addr);
                        assert(mm.rina_addr == pre[i as int].rina_addr);
                    }
                }
            },
            None => {
                proof {
                    lemma_mapping_index(pre, rina_addr);
                }
                self.mappings.push(mapping);
                proof {
                    assert(mappings_model(self.mappings@) =~= pre.push(mm));
                    let post = mappings_model(self.mappings@);
                    assert forall|a: int, b: int|
                        0 <= a < b < post.len() implies (#[trigger] post[a]).rina_addr != (
                    #[trigger] post[b]).rina_addr by {
                        if b < pre.len() {
                            assert(post[a] == pre[a] && post[b] == pre[b]);
                        } else {
                            assert(post[b] == mm);
                            assert(post[a] == pre[a]);
                        }
                    }
                }
            },
        }
    }

    /// The socket address registered for `rina_addr`, if any.
    pub fn lookup(&self, rina_addr: u64) -> (r: Option<String>)
        ensures
            ({
                let i = spec_mapping_index(self@, rina_addr);
                match r {
                    Some(s) => i != -1 && s@ == self@[i].socket_addr,
                    None => i == -1,
                }
            }),
    {
        match self.find_mapping(rina_addr) {
            Some(i) => {
                let mut s = String::new();
                s.append(self.mappings[i].socket_addr.as_str());
                Some(s)
            },
            None => None,
        }
    }

    /// Forgets the mapping for `rina_addr`, if any.
    pub fn remove_mapping(&mut self, rina_addr: u64)
        requires
            old(self).wf(),
        ensures
            final(self).wf(),
            spec_mapping_index(final(self)@, rina_addr) == -1,
            ({
                let i = spec_mapping_index(old(self)@, rina_addr);
                if i == -1 {
                    final(self)@ == old(self)@
                } else {
                    final(self)@ == old(self)@.remove(i)
                }
            }),
    {
        let ghost pre = mappings_model(self.mappings@);
        match self.find_mapping(rina_addr) {
            None => {
                proof {
                    lemma_mapping_index(pre, rina_addr);
                }
            },
            Some(i) => {
                self.mappings.remove(i);
                proof {
                    let post = mappings_model(self.mappings@);
                    assert(post =~= pre.remove(i as int));
                    assert forall|a: int, b: int|
                        0 <= a < b < post.len() implies (#[trigger] post[a]).rina_addr != (
                    #[trigger] post[b]).rina_addr by {
                        let aa = if a < i as int {
                            a
                        } else {
                            a + 1
                        };
                        let bb = if b < i as int {
                            b
                        } else {
                            b + 1
                        };
                        assert(post[a] == pre[aa]);
                        assert(post[b] == pre[bb]);
                        assert(pre[aa].rina_addr != pre[bb].rina_addr);
                    }
                    lemma_mapping_index(post, rina_addr);
                    assert forall|k: int|
                        0 <= k < post.len() implies (#[trigger] post[k]).rina_addr != rina_addr by {
                        let kk = if k < i as int {
                            k
                        } else {
                            k + 1
                        };
                        assert(post[k] == pre[kk]);
                        assert(pre[i as int].rina_addr == rina_addr);
                        assert(pre[kk].rina_addr != pre[i as int].rina_addr || kk == i);
                    }
                }
            },
        }
    }

    /// The number of registered peers.
    pub fn mapping_count(&self) -> (r: usize)
        ensures
            r == self@.len(),
    {
        self.mappings.len()
    }
}

impl Default for AddressMapper {
    /// An empty map.
    fn default() -> (r: Self)
        ensures
            r.wf(),
            r@ == Seq::<AddressMappingModel>::empty(),
    {
        Self::new()
    }
}

} // verus!
