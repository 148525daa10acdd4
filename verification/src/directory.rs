//! Directory service (name to address resolution) and the address pool a
//! bootstrap node allocates member addresses from.

use vstd::prelude::*;
use crate::strutil::str_eq;

verus! {

broadcast use vstd::seq_lib::group_seq_lib_default, vstd::seq::group_seq_axioms, vstd::std_specs::vec::group_vec_axioms;

/// One directory entry: a name registered at one or more addresses.
#[derive(Debug)]
pub struct DirectoryEntry {
    /// Application or process name.
    pub name: String,
    /// Addresses where this name is registered.
    pub addresses: Vec<u64>,
    /// Unix seconds of the last registration.
    pub timestamp: u64,
}

/// Model of a directory entry.
pub struct DirectoryEntryModel {
    pub name: Seq<char>,
    pub addresses: Seq<u64>,
    pub timestamp: u64,
}

impl View for DirectoryEntry {
    type V = DirectoryEntryModel;

    open spec fn view(&self) -> DirectoryEntryModel {
        DirectoryEntryModel {
            name: self.name@,
            addresses: self.addresses@,
            timestamp: self.timestamp,
        }
    }
}

/// Model of the entry list.
pub open spec fn entries_model(s: Seq<DirectoryEntry>) -> Seq<DirectoryEntryModel> {
    Seq::new(s.len(), |i: int| s[i]@)
}

/// Index of the entry with the given name, or -1.
pub open spec fn spec_entry_index(entries: Seq<DirectoryEntryModel>, name: Seq<char>) -> int
    decreases entries.len(),
{
    if entries.len() == 0 {
        -1
    } else if entries[0].name == name {
        0
    } else {
        let r = spec_entry_index(entries.drop_first(), name);
        if r == -1 {
            -1
        } else {
            r + 1
        }
    }
}

proof fn lemma_entry_index(entries: Seq<DirectoryEntryModel>, name: Seq<char>)
    ensures
        spec_entry_index(entries, name) == -1 <==> (forall|k: int|
            0 <= k < entries.len() ==> (#[trigger] entries[k]).name != name),
        spec_entry_index(entries, name) != -1 ==> 0 <= spec_entry_index(entries, name)
            < entries.len() && entries[spec_entry_index(entries, name)].name == name && (forall|
            k: int,
        |
            0 <= k < spec_entry_index(entries, name) ==> (#[trigger] entries[k]).name != name),
    decreases entries.len(),
{
    if entries.len() > 0 {
        let tail = entries.drop_first();
        lemma_entry_index(tail, name);
        assert(forall|k: int| 0 <= k < tail.len() ==> #[trigger] tail[k] == entries[k + 1]);
        if entries[0].name != name {
            let r = spec_entry_index(tail, name);
            if r == -1 {
                assert forall|k: int| 0 <= k < entries.len() implies (#[trigger] entries[k]).name
                    != name by {
                    if k > 0 {
                        assert(tail[k - 1] == entries[k]);
                    }
                }
            } else {
                assert(entries[r + 1] == tail[r]);
                assert forall|k: int| 0 <= k < r + 1 implies (#[trigger] entries[k]).name
                    != name by {
                    if k > 0 {
                        assert(tail[k - 1] == entries[k]);
                    }
                }
            }
        }
    }
}

/// The address list after adding one address, without duplicating it.
pub open spec fn spec_with_address(addrs: Seq<u64>, address: u64) -> Seq<u64> {
    if addrs.contains(address) {
        addrs
    } else {
        addrs.push(address)
    }
}

/// The entry as it stands right after a registration.
pub open spec fn spec_registered_entry(
    name: Seq<char>,
    addresses: Seq<u64>,
    timestamp: u64,
) -> DirectoryEntryModel {
    DirectoryEntryModel { name, addresses, timestamp }
}

/// The directory: registered names and their addresses.
#[derive(Debug)]
pub struct Directory {
    entries: Vec<DirectoryEntry>,
}

impl View for Directory {
    type V = Seq<DirectoryEntryModel>;

    closed spec fn view(&self) -> Seq<DirectoryEntryModel> {
        entries_model(self.entries@)
    }
}

impl Directory {
    /// Names are unique and no entry is empty.
    pub open spec fn wf(&self) -> bool {
        &&& forall|i: int, j: int|
            0 <= i < j < self@.len() ==> (#[trigger] self@[i]).name != (#[trigger] self@[j]).name
        &&& forall|i: int| 0 <= i < self@.len() ==> (#[trigger] self@[i]).addresses.len() > 0
    }

    /// An empty directory.
    pub fn new() -> (r: Self)
        ensures
            r.wf(),
            r@ == Seq::<DirectoryEntryModel>::empty(),
    {
        let r = Directory { entries: Vec::new() };
        proof {
            assert(entries_model(r.entries@) =~= Seq::<DirectoryEntryModel>::empty());
        }
        r
    }

    #[verifier::loop_isolation(false)]
    fn find_entry(&self, name: &str) -> (r: Option<usize>)
        ensures
            match r {
                Some(i) => spec_entry_index(self@, name@) == i as int && i < self@.len()
                    && self@[i as int].name == name@,
                None => spec_entry_index(self@, name@) == -1,
            },
    {
        let mut i: usize = 0;
        while i < self.entries.len()
            invariant
                i <= self.entries@.len(),
                forall|k: int| 0 <= k < i ==> (#[trigger] self@[k]).name != name@,
            decreases self.entries@.len() - i,
        {
            if str_eq(self.entries[i].name.as_str(), name) {
                proof {
                    assert(self@[i as int].name == name@);
                    lemma_entry_index(self@, name@);
                    assert(spec_entry_index(self@, name@) == i as int);
                }
                return Some(i);
            }
            i = i + 1;
        }
        proof {
            lemma_entry_index(self@, name@);
        }
        None
    }

    /// Registers `name` at `address`, stamping the entry with `now`.  A new
    /// name gets a fresh entry; an existing one gains the address unless it
    /// is already present.
    #[verifier::loop_isolation(false)]
    pub fn register_at(&mut self, name: String, address: u64, now: u64) -> (r: Result<(), String>)
        requires
            old(self).wf(),
        ensures
            final(self).wf(),
            r is Ok,
            ({
                let i = spec_entry_index(old(self)@, name@);
                if i == -1 {
                    final(self)@ == old(self)@.push(
                        DirectoryEntryModel {
                            name: name@,
                            addresses: seq![address],
                            timestamp: now,
                        },
                    )
                } else {
                    final(self)@ == old(self)@.update(
                        i,
                        DirectoryEntryModel {
                            name: name@,
                            addresses: spec_with_address(old(self)@[i].addresses, address),
                            timestamp: now,
                        },
                    )
                }
            }),
    {
        let ghost pre = entries_model(self.entries@);
        match self.find_entry(name.as_str()) {
            None => {
                let mut addresses: Vec<u64> = Vec::new();
                addresses.push(address);
                let entry = DirectoryEntry { name, addresses, timestamp: now };
                let ghost em = entry@;
                self.entries.push(entry);
                proof {
                    assert(em.addresses =~= seq![address]);
                    assert(entries_model(self.entries@) =~= pre.push(em));
                    lemma_entry_index(pre, em.name);
                    let post = entries_model(self.entries@);
                    assert forall|a: int, b: int|
                        0 <= a < b < post.len() implies (#[trigger] post[a]).name != (
                    #[trigger] post[b]).name by {
                        if b < pre.len() {
                            assert(post[a] == pre[a] && post[b] == pre[b]);
                        } else {
                            assert(post[b] == em);
                            assert(post[a] == pre[a]);
                        }
                    }
                }
                Ok(())
            },
            Some(i) => {
                let mut entry = self.entries.remove(i);
                proof {
                    assert(entry@ == pre[i as int]);
                }
                let mut found = false;
                let n = entry.addresses.len();
                let mut k: usize = 0;
                while k < n
                    invariant
                        k <= n,
                        n == entry.addresses@.len(),
                        found == entry.addresses@.take(k as int).contains(address),
                    decreases n - k,
                {
                    let ghost taken = entry.addresses@.take(k as int);
                    if entry.addresses[k] == address {
                        found = true;
                    }
                    proof {
                        assert(entry.addresses@.take(k as int + 1) =~= taken.push(
                            entry.addresses@[k as int],
                        ));
                        if !found {
                            assert(!entry.addresses@.take(k as int + 1).contains(address));
                        } else {
                            if taken.contains(address) {
                                let w = choose|w: int|
                                    0 <= w < taken.len() && taken[w] == address;
                                assert(entry.addresses@.take(k as int + 1)[w] == address);
                            } else {
                                assert(entry.addresses@.take(k as int + 1)[k as int] == address);
                            }
                            assert(entry.addresses@.take(k as int + 1).contains(address));
                        }
                    }
                    k = k + 1;
                }
                proof {
                    assert(entry.addresses@.take(n as int) =~= entry.addresses@);
                }
                if !found {
                    entry.addresses.push(address);
                }
                entry.timestamp = now;
                let ghost em = entry@;
                self.entries.insert(i, entry);
                proof {
                    assert(entries_model(self.entries@) =~= pre.update(i as int, em));
                    let post = entries_model(self.entries@);
                    assert forall|a: int, b: int|
                        0 <= a < b < post.len() implies (#[trigger] post[a]).name != (
                    #[trigger] post[b]).name by {
                        if a == i as int {
                            assert(post[a] == em);
                        } else {
                            assert(post[a] == pre[a]);
                        }
                        if b == i as int {
                            assert(post[b] == em);
                        } else {
                            assert(post[b] == pre[b]);
                        }
                        assert(pre[a].name != pre[b].name);
                        assert(em.name == pre[i as int].name);
                    }
                }
                Ok(())
            },
        }
    }

    /// Registers `name` at `address`, stamped with the current system time.
    pub fn register(&mut self, name: String, address: u64) -> (r: Result<(), String>)
        requires
            old(self).wf(),
        ensures
            final(self).wf(),
            r is Ok,
            ({
                let i = spec_entry_index(old(self)@, name@);
                if i == -1 {
                    exists|ts: u64|
                        final(self)@ == old(self)@.push(
                            #[trigger] spec_registered_entry(name@, seq![address], ts),
                        )
                } else {
                    exists|ts: u64|
                        final(self)@ == old(self)@.update(
                            i,
                            #[trigger] spec_registered_entry(
                                name@,
                                spec_with_address(old(self)@[i].addresses, address),
                                ts,
                            ),
                        )
                }
            }),
    {
        let now = crate::clock::unix_now_secs();
        let r = self.register_at(name, address, now);
        proof {
            let i = spec_entry_index(old(self)@, name@);
            if i == -1 {
                assert(final(self)@ == old(self)@.push(
                    spec_registered_entry(name@, seq![address], now),
                ));
                assert(exists|ts: u64|
                    final(self)@ == old(self)@.push(
                        #[trigger] spec_registered_entry(name@, seq![address], ts),
                    ));
            } else {
                let addrs = spec_with_address(old(self)@[i].addresses, address);
                assert(final(self)@ == old(self)@.update(
                    i,
                    spec_registered_entry(name@, addrs, now),
                ));
                assert(exists|ts: u64|
                    final(self)@ == old(self)@.update(
                        i,
                        #[trigger] spec_registered_entry(
                            name@,
                            spec_with_address(old(self)@[i].addresses, address),
                            ts,
                        ),
                    ));
            }
        }
        r
    }

    /// Removes `address` from the entry for `name`; the entry disappears
    /// when its last address goes.  Fails exactly when the name is unknown.
    #[verifier::loop_isolation(false)]
    pub fn unregister(&mut self, name: &str, address: u64) -> (r: Result<(), String>)
        requires
            old(self).wf(),
        ensures
            final(self).wf(),
            ({
                let i = spec_entry_index(old(self)@, name@);
                match r {
                    Ok(_) => {
                        let kept = old(self)@[i].addresses.filter(|a: u64| a != address);
                        &&& i != -1
                        &&& (kept.len() == 0 ==> final(self)@ == old(self)@.remove(i))
                        &&& (kept.len() > 0 ==> final(self)@ == old(self)@.update(
                            i,
                            DirectoryEntryModel {
                                name: old(self)@[i].name,
                                addresses: kept,
                                timestamp: old(self)@[i].timestamp,
                            },
                        ))
                    },
                    Err(_) => i == -1 && final(self)@ == old(self)@,
                }
            }),
    {
        let ghost pre = entries_model(self.entries@);
        match self.find_entry(name) {
            None => {
                let mut msg = String::new();
                msg.append("name not found: ");
                msg.append(name);
                Err(msg)
            },
            Some(i) => {
                let mut entry = self.entries.remove(i);
                proof {
                    assert(entry@ == pre[i as int]);
                }
                let ghost pre_addrs = entry.addresses@;
                let mut kept: Vec<u64> = Vec::new();
                let n = entry.addresses.len();
                let mut k: usize = 0;
                proof {
                    assert(kept@ =~= pre_addrs.take(0).filter(|a: u64| a != address));
                }
                while k < n
                    invariant
                        k <= n,
                        n == entry.addresses@.len(),
                        entry.addresses@ == pre_addrs,
                        kept@ == pre_addrs.take(k as int).filter(|a: u64| a != address),
                    decreases n - k,
                {
                    let ghost taken = pre_addrs.take(k as int);
                    let ghost cur = pre_addrs[k as int];
                    let a = entry.addresses[k];
                    if a != address {
                        kept.push(a);
                    }
                    proof {
                        let p = |x: u64| x != address;
                        reveal_with_fuel(Seq::filter, 2);
                        assert(pre_addrs.take(k as int + 1).drop_last() =~= taken);
                        assert(pre_addrs.take(k as int + 1).last() == cur);
                        if p(cur) {
                            assert(pre_addrs.take(k as int + 1).filter(p) =~= taken.filter(
                                p,
                            ).push(cur));
                        } else {
                            assert(pre_addrs.take(k as int + 1).filter(p) =~= taken.filter(p));
                        }
                    }
                    k = k + 1;
                }
                proof {
                    assert(pre_addrs.take(n as int) =~= pre_addrs);
                }
                if kept.len() == 0 {
                    proof {
                        assert(entries_model(self.entries@) =~= pre.remove(i as int));
                        let post = entries_model(self.entries@);
                        assert forall|a: int, b: int|
                            0 <= a < b < post.len() implies (#[trigger] post[a]).name != (
                        #[trigger] post[b]).name by {
                            let aa = if a < i as int {
                                a
                            } else {
                                a + 1
                            };
                            let bb = if b < i as int {
                                b
                            } else {
                                b + 1
                            };
                            assert(post[a] == pre[aa]);
                            assert(post[b] == pre[bb]);
                            assert(pre[aa].name != pre[bb].name);
                        }
                    }
                    Ok(())
                } else {
                    entry.addresses = kept;
                    let ghost em = entry@;
                    self.entries.insert(i, entry);
                    proof {
                        assert(entries_model(self.entries@) =~= pre.update(i as int, em));
                        let post = entries_model(self.entries@);
                        assert forall|a: int, b: int|
                            0 <= a < b < post.len() implies (#[trigger] post[a]).name != (
                        #[trigger] post[b]).name by {
                            if a == i as int {
                                assert(post[a] == em);
                            } else {
                                assert(post[a] == pre[a]);
                            }
                            if b == i as int {
                                assert(post[b] == em);
                            } else {
                                assert(post[b] == pre[b]);
                            }
                            assert(pre[a].name != pre[b].name);
                            assert(em.name == pre[i as int].name);
                        }
                    }
                    Ok(())
                }
            },
        }
    }

    /// The addresses registered for `name`, if any.
    pub fn resolve(&self, name: &str) -> (r: Option<Vec<u64>>)
        ensures
            ({
                let i = spec_entry_index(self@, name@);
                match r {
                    Some(addrs) => i != -1 && addrs@ == self@[i].addresses,
                    None => i == -1,
                }
            }),
    {
        match self.find_entry(name) {
            None => None,
            Some(i) => {
                let addrs = self.entries[i].addresses.clone();
                proof {
                    assert(addrs@ =~= self@[spec_entry_index(self@, name@)].addresses);
                }
                Some(addrs)
            },
        }
    }

    /// All registered names, in registration order.
    #[verifier::loop_isolation(false)]
    pub fn list_names(&self) -> (r: Vec<String>)
        ensures
            crate::rib::strings_model(r@) == self@.map_values(|e: DirectoryEntryModel| e.name),
    {
        let mut out: Vec<String> = Vec::new();
        let mut i: usize = 0;
        while i < self.entries.len()
            invariant
                i <= self.entries@.len(),
                crate::rib::strings_model(out@) == self@.take(i as int).map_values(
                    |e: DirectoryEntryModel| e.name,
                ),
            decreases self.entries@.len() - i,
        {
            let ghost pre = crate::rib::strings_model(out@);
            out.push(self.entries[i].name.clone());
            proof {
                assert(crate::rib::strings_model(out@) =~= pre.push(self@[i as int].name));
                assert(self@.take(i as int + 1).map_values(|e: DirectoryEntryModel| e.name)
                    =~= self@.take(i as int).map_values(|e: DirectoryEntryModel| e.name).push(
                    self@[i as int].name,
                ));
            }
            i = i + 1;
        }
        proof {
            assert(self@.take(self@.len() as int) =~= self@);
        }
        out
    }

    /// The number of registered names.
    pub fn count(&self) -> (r: usize)
        ensures
            r == self@.len(),
    {
        self.entries.len()
    }

    /// Forgets every entry.
    pub fn clear(&mut self)
        ensures
            final(self)@ == Seq::<DirectoryEntryModel>::empty(),
            final(self).wf(),
    {
        self.entries.clear();
        proof {
            assert(entries_model(self.entries@) =~= Seq::<DirectoryEntryModel>::empty());
        }
    }
}

impl Default for Directory {
    /// An empty directory.
    fn default() -> (r: Self)
        ensures
            r.wf(),
            r@ == Seq::<DirectoryEntryModel>::empty(),
    {
        Self::new()
    }
}

// ---------------------------------------------------------------------------
// Address pool
// ---------------------------------------------------------------------------
/// Model of the address pool.
pub struct AddressPoolModel {
    pub start: u64,
    pub end: u64,
    pub assigned: Seq<u64>,
}

/// The pool of dynamically assignable addresses, an inclusive range.
/// Allocation hands out the lowest free address and fails only when every
/// address of the range is taken.
#[derive(Debug)]
pub struct AddressPool {
    start: u64,
    end: u64,
    assigned: Vec<u64>,
}

impl View for AddressPool {
    type V = AddressPoolModel;

    closed spec fn view(&self) -> AddressPoolModel {
        AddressPoolModel { start: self.start, end: self.end, assigned: self.assigned@ }
    }
}

impl AddressPool {
    /// Assigned addresses are unique and inside the range.
    pub open spec fn wf(&self) -> bool {
        &&& forall|i: int, j: int|
            0 <= i < j < self@.assigned.len() ==> (#[trigger] self@.assigned[i]) != (
            #[trigger] self@.assigned[j])
        &&& forall|i: int|
            0 <= i < self@.assigned.len() ==> self@.start <= (#[trigger] self@.assigned[i])
                <= self@.end
    }

    /// A pool over the inclusive range `[start, end]`, nothing assigned.
    pub fn new(start: u64, end: u64) -> (r: Self)
        ensures
            r.wf(),
            r@.start == start,
            r@.end == end,
            r@.assigned == Seq::<u64>::empty(),
    {
        AddressPool { start, end, assigned: Vec::new() }
    }

    #[verifier::loop_isolation(false)]
    fn is_assigned(&self, addr: u64) -> (r: bool)
        ensures
            r == self@.assigned.contains(addr),
    {
        let mut i: usize = 0;
        while i < self.assigned.len()
            invariant
                i <= self.assigned@.len(),
                forall|k: int| 0 <= k < i ==> (#[trigger] self@.assigned[k]) != addr,
            decreases self.assigned@.len() - i,
        {
            if self.assigned[i] == addr {
                return true;
            }
            i = i + 1;
        }
        false
    }

    /// Allocates the lowest free address of the range.  The result is never
    /// an address that is already assigned, so successive allocations are
    /// pairwise distinct; the call fails exactly when the whole range is
    /// assigned.
    #[verifier::loop_isolation(false)]
    pub fn allocate(&mut self) -> (r: Result<u64, String>)
        requires
            old(self).wf(),
        ensures
            final(self).wf(),
            final(self)@.start == old(self)@.start,
            final(self)@.end == old(self)@.end,
            match r {
                Ok(addr) => {
                    &&& old(self)@.start <= addr <= old(self)@.end
                    &&& !old(self)@.assigned.contains(addr)
                    &&& forall|a: u64|
                        old(self)@.start <= a < addr ==> old(self)@.assigned.contains(a)
                    &&& final(self)@.assigned == old(self)@.assigned.push(addr)
                },
                Err(_) => {
                    &&& forall|a: u64|
                        old(self)@.start <= a <= old(self)@.end ==> old(
                            self,
                        )@.assigned.contains(a)
                    &&& final(self)@ == old(self)@
                },
            },
    {
        if self.start > self.end {
            let mut msg = String::new();
            msg.append("Address pool exhausted");
            return Err(msg);
        }
        let mut addr: u64 = self.start;
        while self.is_assigned(addr)
            invariant
                self.start <= addr <= self.end,
                self@ == old(self)@,
                forall|a: u64| self.start <= a < addr ==> (#[trigger] self@.assigned.contains(a)),
            decreases self.end - addr,
        {
            if addr == self.end {
                proof {
                    assert forall|a: u64|
                        self.start <= a <= self.end implies (#[trigger] self@.assigned.contains(
                        a,
                    )) by {
                        if a < self.end {
                            assert(self@.assigned.contains(a));
                        } else {
                            assert(a == self.end);
                        }
                    }
                }
                let mut msg = String::new();
                msg.append("Address pool exhausted");
                return Err(msg);
            }
            addr = addr + 1;
        }
        let ghost pre = self.assigned@;
        self.assigned.push(addr);
        proof {
            let post = self.assigned@;
            assert forall|a: int, b: int| 0 <= a < b < post.len() implies (#[trigger] post[a]) != (
            #[trigger] post[b]) by {
                if b < pre.len() {
                    assert(post[a] == pre[a] && post[b] == pre[b]);
                } else {
                    assert(post[b] == addr);
                    assert(post[a] == pre[a]);
                    assert(pre.contains(pre[a]));
                }
            }
        }
        Ok(addr)
    }

    /// Returns `address` to the pool, making it allocatable again.  Fails
    /// exactly when it is outside the range or not currently assigned.
    #[verifier::loop_isolation(false)]
    pub fn release(&mut self, address: u64) -> (r: Result<(), String>)
        requires
            old(self).wf(),
        ensures
            final(self).wf(),
            final(self)@.start == old(self)@.start,
            final(self)@.end == old(self)@.end,
            match r {
                Ok(_) => {
                    &&& old(self)@.start <= address <= old(self)@.end
                    &&& old(self)@.assigned.contains(address)
                    &&& !final(self)@.assigned.contains(address)
                    &&& forall|a: u64|
                        a != address ==> (#[trigger] final(self)@.assigned.contains(a)) == old(
                            self,
                        )@.assigned.contains(a)
                },
                Err(_) => final(self)@ == old(self)@ && (address < old(self)@.start || address
                    > old(self)@.end || !old(self)@.assigned.contains(address)),
            },
    {
        if address < self.start || address > self.end {
            let mut msg = String::new();
            msg.append("Address out of pool range");
            return Err(msg);
        }
        let n = self.assigned.len();
        let mut i: usize = 0;
        while i < n
            invariant
                i <= n,
                self@ == old(self)@,
                n == self.assigned@.len(),
                forall|k: int| 0 <= k < i ==> (#[trigger] self@.assigned[k]) != address,
            decreases n - i,
        {
            if self.assigned[i] == address {
                let ghost pre = self.assigned@;
                self.assigned.remove(i);
                proof {
                    assert(pre == old(self)@.assigned);
                    let post = self.assigned@;
                    assert(post =~= pre.remove(i as int));
                    assert forall|a: int, b: int|
                        0 <= a < b < post.len() implies (#[trigger] post[a]) != (
                    #[trigger] post[b]) by {
                        let aa = if a < i as int {
                            a
                        } else {
                            a + 1
                        };
                        let bb = if b < i as int {
                            b
                        } else {
                            b + 1
                        };
                        assert(post[a] == old(self)@.assigned[aa]);
                        assert(post[b] == old(self)@.assigned[bb]);
                        assert(old(self)@.assigned[aa] != old(self)@.assigned[bb]);
                    }
                    assert forall|a: u64| a != address implies (#[trigger] post.contains(a)) == (
                    pre.contains(a)) by {
                        if post.contains(a) {
                            let j = choose|j: int| 0 <= j < post.len() && post[j] == a;
                            let jj = if j < i as int {
                                j
                            } else {
                                j + 1
                            };
                            assert(pre[jj] == a);
                        }
                        if pre.contains(a) {
                            let j = choose|j: int| 0 <= j < pre.len() && pre[j] == a;
                            assert(j != i);
                            let jj = if j < i as int {
                                j
                            } else {
                                j - 1
                            };
                            assert(post[jj] == a);
                        }
                    }
                    assert(!post.contains(address)) by {
                        if post.contains(address) {
                            let j = choose|j: int| 0 <= j < post.len() && post[j] == address;
                            let jj = if j < i as int {
                                j
                            } else {
                                j + 1
                            };
                            assert(old(self)@.assigned[jj] == address);
                            assert(jj != i);
                            assert(old(self)@.assigned[i as int] == address);
                            assert(old(self)@.assigned[jj] != old(self)@.assigned[i as int]);
                        }
                    }
                }
                return Ok(());
            }
            i = i + 1;
        }
        let mut msg = String::new();
        msg.append("Address was not allocated");
        Err(msg)
    }

    /// Whether `address` is currently assigned.
    pub fn is_allocated(&self, address: u64) -> (r: bool)
        ensures
            r == self@.assigned.contains(address),
    {
        self.is_assigned(address)
    }

    /// How many addresses are currently assigned.
    pub fn allocated_count(&self) -> (r: usize)
        ensures
            r == self@.assigned.len(),
    {
        self.assigned.len()
    }

    /// The size of the range.
    pub fn capacity(&self) -> (r: u64)
        requires
            self@.start <= self@.end,
            self@.end - self@.start < u64::MAX,
        ensures
            r == self@.end - self@.start + 1,
    {
        self.end - self.start + 1
    }

    /// How many addresses are still free.
    pub fn available_count(&self) -> (r: u64)
        requires
            self.wf(),
            self@.start <= self@.end,
            self@.end - self@.start < u64::MAX,
            self@.assigned.len() <= self@.end - self@.start + 1,
        ensures
            r == self@.end - self@.start + 1 - self@.assigned.len(),
    {
        self.capacity() - self.allocated_count() as u64
    }
}

} // verus!
