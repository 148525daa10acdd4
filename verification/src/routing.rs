//! Route resolution: unified static and dynamic next-hop lookup with TTL
//! expiry and snapshot persistence of dynamic routes.
//!
//! Static routes live in the RIB under `/routing/static/{dst}`; dynamic
//! routes, learned during enrollment, live under `/routing/dynamic/{dst}`
//! with their expiry metadata cached here.  Resolution prefers static
//! routes; an expired dynamic route is removed and resolution fails.

use vstd::prelude::*;
use crate::error::{AriError, RibError, RmtError};
use crate::rib::{Rib, RibValue, RibValueModel, spec_lookup, spec_field_lookup, spec_index_of,
    spec_log_append};
use crate::strutil::{spec_static_route_name, spec_dynamic_route_name, static_route_name,
    dynamic_route_name};

verus! {

broadcast use vstd::seq_lib::group_seq_lib_default, vstd::seq::group_seq_axioms, vstd::std_specs::vec::group_vec_axioms;

/// Metadata of one dynamic route, as persisted in route snapshots.
#[derive(Debug)]
pub struct RouteMetadata {
    /// RINA address of the destination.
    pub destination: u64,
    /// Next-hop socket address of the UDP underlay (`host:port`).
    pub next_hop_address: String,
    /// Unix seconds when the route was created.
    pub created_at: u64,
    /// Time to live in seconds; 0 means the route never expires.
    pub ttl_seconds: u64,
}

/// Model of a route's metadata.
pub struct RouteMetadataModel {
    pub destination: u64,
    pub next_hop_address: Seq<char>,
    pub created_at: u64,
    pub ttl_seconds: u64,
}

impl View for RouteMetadata {
    type V = RouteMetadataModel;

    open spec fn view(&self) -> RouteMetadataModel {
        RouteMetadataModel {
            destination: self.destination,
            next_hop_address: self.next_hop_address@,
            created_at: self.created_at,
            ttl_seconds: self.ttl_seconds,
        }
    }
}

impl Clone for RouteMetadata {
    /// Cloning keeps the route's model.
    fn clone(&self) -> (r: Self)
        ensures
            r@ == self@,
    {
        RouteMetadata {
            destination: self.destination,
            next_hop_address: self.next_hop_address.clone(),
            created_at: self.created_at,
            ttl_seconds: self.ttl_seconds,
        }
    }
}

/// Expired at `now`: a finite TTL whose age has been exceeded.
pub open spec fn spec_expired(m: RouteMetadataModel, now: u64) -> bool {
    m.ttl_seconds > 0 && (if now >= m.created_at {
        now - m.created_at
    } else {
        0
    }) > m.ttl_seconds
}

/// Seconds of life left at `now`; `u64::MAX` for a route that never expires.
pub open spec fn spec_remaining_ttl(m: RouteMetadataModel, now: u64) -> u64 {
    if m.ttl_seconds == 0 {
        u64::MAX
    } else {
        let age = if now >= m.created_at {
            now - m.created_at
        } else {
            0
        };
        if m.ttl_seconds >= age {
            (m.ttl_seconds - age) as u64
        } else {
            0
        }
    }
}

impl RouteMetadata {
    /// Whether the route has expired as of `now` (Unix seconds).
    pub fn is_expired_at(&self, now: u64) -> (r: bool)
        ensures
            r == spec_expired(self@, now),
    {
        if self.ttl_seconds == 0 {
            return false;
        }
        let age = if now >= self.created_at {
            now - self.created_at
        } else {
            0
        };
        age > self.ttl_seconds
    }

    /// Whether the route has expired as of the current system time.
    pub fn is_expired(&self) -> (r: bool)
        ensures
            exists|now: u64| r == #[trigger] spec_expired(self@, now),
    {
        let now = crate::clock::unix_now_secs();
        let r = self.is_expired_at(now);
        proof {
            assert(r == spec_expired(self@, now));
        }
        r
    }

    /// Seconds of life left as of `now`.
    pub fn remaining_ttl_at(&self, now: u64) -> (r: u64)
        ensures
            r == spec_remaining_ttl(self@, now),
    {
        if self.ttl_seconds == 0 {
            return u64::MAX;
        }
        let age = if now >= self.created_at {
            now - self.created_at
        } else {
            0
        };
        if self.ttl_seconds >= age {
            self.ttl_seconds - age
        } else {
            0
        }
    }

    /// Seconds of life left as of the current system time.
    pub fn remaining_ttl(&self) -> (r: u64)
        ensures
            exists|now: u64| r == #[trigger] spec_remaining_ttl(self@, now),
    {
        let now = crate::clock::unix_now_secs();
        let r = self.remaining_ttl_at(now);
        proof {
            assert(r == spec_remaining_ttl(self@, now));
        }
        r
    }
}

/// Model of a route list.
pub open spec fn routes_model(s: Seq<RouteMetadata>) -> Seq<RouteMetadataModel> {
    Seq::new(s.len(), |i: int| s[i]@)
}

/// A persisted snapshot of the dynamic routes.
#[derive(Debug)]
pub struct RouteSnapshot {
    /// Format version, currently 1.
    pub version: u32,
    /// Unix seconds when the snapshot was taken.
    pub snapshot_time: u64,
    /// The dynamic routes with their metadata.
    pub routes: Vec<RouteMetadata>,
}

impl RouteSnapshot {
    /// A fresh snapshot of these routes, stamped with `snapshot_time`.
    pub fn new_at(routes: Vec<RouteMetadata>, snapshot_time: u64) -> (r: Self)
        ensures
            r.version == 1,
            r.snapshot_time == snapshot_time,
            routes_model(r.routes@) == routes_model(routes@),
    {
        RouteSnapshot { version: 1, snapshot_time, routes }
    }

    /// A fresh snapshot stamped with the current system time.
    pub fn new(routes: Vec<RouteMetadata>) -> (r: Self)
        ensures
            r.version == 1,
            routes_model(r.routes@) == routes_model(routes@),
    {
        let now = crate::clock::unix_now_secs();
        Self::new_at(routes, now)
    }

    /// The routes that have not expired as of `now`: exactly those not
    /// satisfying the expiry predicate are kept, in order.
    #[verifier::loop_isolation(false)]
    pub fn filter_valid_at(&self, now: u64) -> (r: Vec<RouteMetadata>)
        ensures
            routes_model(r@) == routes_model(self.routes@).filter(
                |m: RouteMetadataModel| !spec_expired(m, now),
            ),
    {
        let ghost w = routes_model(self.routes@);
        let ghost p = |m: RouteMetadataModel| !spec_expired(m, now);
        let mut out: Vec<RouteMetadata> = Vec::new();
        let mut i: usize = 0;
        proof {
            assert(routes_model(out@) =~= w.take(0).filter(p));
        }
        while i < self.routes.len()
            invariant
                i <= self.routes@.len(),
                routes_model(out@) == w.take(i as int).filter(p),
            decreases self.routes@.len() - i,
        {
            let ghost pre = routes_model(out@);
            let ghost taken = w.take(i as int);
            let ghost cur = w[i as int];
            if !self.routes[i].is_expired_at(now) {
                out.push(self.routes[i].clone());
                proof {
                    assert(routes_model(out@) =~= pre.push(cur));
                }
            }
            proof {
                reveal_with_fuel(Seq::filter, 2);
                assert(w.take(i as int + 1).drop_last() =~= taken);
                assert(w.take(i as int + 1).last() == cur);
                if p(cur) {
                    assert(w.take(i as int + 1).filter(p) =~= taken.filter(p).push(cur));
                } else {
                    assert(w.take(i as int + 1).filter(p) =~= taken.filter(p));
                }
            }
            i = i + 1;
        }
        proof {
            assert(w.take(w.len() as int) =~= w);
        }
        out
    }

    /// The routes not expired as of the current system time.
    pub fn filter_valid(&self) -> (r: Vec<RouteMetadata>)
        ensures
            exists|now: u64|
                routes_model(r@) == routes_model(self.routes@).filter(
                    |m: RouteMetadataModel| !spec_expired(m, #[trigger] spec_now_witness(now)),
                ),
    {
        let now = crate::clock::unix_now_secs();
        let r = self.filter_valid_at(now);
        proof {
            assert(spec_now_witness(now) == now);
            assert(routes_model(r@) == routes_model(self.routes@).filter(
                |m: RouteMetadataModel| !spec_expired(m, spec_now_witness(now)),
            ));
        }
        r
    }
}

/// Identity on clock samples; gives the existential a stable trigger.
pub open spec fn spec_now_witness(now: u64) -> u64 {
    now
}

/// Configuration of the route resolver.
#[derive(Debug)]
pub struct RouteResolverConfig {
    /// Whether dynamic routes are persisted to a snapshot file.
    pub enable_persistence: bool,
    /// Path of the snapshot file.
    pub snapshot_path: String,
    /// TTL given to new dynamic routes when none is passed; 0 never expires.
    pub default_ttl_seconds: u64,
    /// Seconds between automatic snapshots; 0 disables them.
    pub snapshot_interval_seconds: u64,
}

impl Default for RouteResolverConfig {
    /// Persistence off, one-hour TTL, five-minute snapshot interval.
    fn default() -> (r: Self)
        ensures
            r.enable_persistence == false,
            r.default_ttl_seconds == 3600,
            r.snapshot_interval_seconds == 300,
            r.snapshot_path@ == "dynamic-routes.toml"@,
    {
        let mut path = String::new();
        path.append("dynamic-routes.toml");
        RouteResolverConfig {
            enable_persistence: false,
            snapshot_path: path,
            default_ttl_seconds: 3600,
            snapshot_interval_seconds: 300,
        }
    }
}

/// Index of the cached route for `dst`, or -1.
pub open spec fn spec_route_index(cache: Seq<RouteMetadataModel>, dst: u64) -> int
    decreases cache.len(),
{
    if cache.len() == 0 {
        -1
    } else if cache[0].destination == dst {
        0
    } else {
        let r = spec_route_index(cache.drop_first(), dst);
        if r == -1 {
            -1
        } else {
            r + 1
        }
    }
}

proof fn lemma_route_index(cache: Seq<RouteMetadataModel>, dst: u64)
    ensures
        spec_route_index(cache, dst) == -1 <==> (forall|k: int|
            0 <= k < cache.len() ==> (#[trigger] cache[k]).destination != dst),
        spec_route_index(cache, dst) != -1 ==> 0 <= spec_route_index(cache, dst) < cache.len()
            && cache[spec_route_index(cache, dst)].destination == dst && (forall|k: int|
            0 <= k < spec_route_index(cache, dst) ==> (#[trigger] cache[k]).destination != dst),
    decreases cache.len(),
{
    if cache.len() > 0 {
        let tail = cache.drop_first();
        lemma_route_index(tail, dst);
        assert(forall|k: int| 0 <= k < tail.len() ==> #[trigger] tail[k] == cache[k + 1]);
        if cache[0].destination != dst {
            let r = spec_route_index(tail, dst);
            if r == -1 {
                assert forall|k: int|
                    0 <= k < cache.len() implies (#[trigger] cache[k]).destination != dst by {
                    if k > 0 {
                        assert(tail[k - 1] == cache[k]);
                    }
                }
            } else {
                assert(cache[r + 1] == tail[r]);
                assert forall|k: int| 0 <= k < r + 1 implies (#[trigger] cache[k]).destination
                    != dst by {
                    if k > 0 {
                        assert(tail[k - 1] == cache[k]);
                    }
                }
            }
        }
    }
}

/// The cache after inserting or overwriting the entry for a destination:
/// an unknown destination is appended, a known one is replaced in place,
/// so the cache keeps exactly one entry per destination.
pub open spec fn spec_upsert_route(
    cache: Seq<RouteMetadataModel>,
    md: RouteMetadataModel,
) -> Seq<RouteMetadataModel> {
    let i = spec_route_index(cache, md.destination);
    if i == -1 {
        cache.push(md)
    } else {
        cache.update(i, md)
    }
}

/// Adding a route for the same destination twice leaves exactly what a
/// single add of the second route leaves: the second call overwrites the
/// first, and the cache never gains a duplicate entry.
pub proof fn lemma_add_route_idempotent(
    cache: Seq<RouteMetadataModel>,
    m1: RouteMetadataModel,
    m2: RouteMetadataModel,
)
    requires
        m1.destination == m2.destination,
        forall|i: int, j: int|
            0 <= i < j < cache.len() ==> (#[trigger] cache[i]).destination != (
            #[trigger] cache[j]).destination,
    ensures
        spec_upsert_route(spec_upsert_route(cache, m1), m2) == spec_upsert_route(cache, m2),
        spec_upsert_route(cache, m1).len() == spec_upsert_route(spec_upsert_route(cache, m1), m2).len(),
{
    let dst = m1.destination;
    lemma_route_index(cache, dst);
    let i = spec_route_index(cache, dst);
    if i == -1 {
        let c1 = cache.push(m1);
        lemma_route_index(c1, dst);
        assert(spec_route_index(c1, dst) == cache.len()) by {
            assert(c1[cache.len() as int].destination == dst);
            let j = spec_route_index(c1, dst);
            assert(j != -1);
            if j < cache.len() {
                assert(c1[j] == cache[j]);
            }
        }
        assert(c1.update(cache.len() as int, m2) =~= cache.push(m2));
    } else {
        let c1 = cache.update(i, m1);
        lemma_route_index(c1, dst);
        assert(spec_route_index(c1, dst) == i) by {
            assert(c1[i].destination == dst);
            let j = spec_route_index(c1, dst);
            assert(j != -1);
            if j < i {
                assert(c1[j] == cache[j]);
                assert(cache[j].destination != dst);
            }
        }
        assert(c1.update(i, m2) =~= cache.update(i, m2));
    }
}

/// The RIB value stored for a dynamic route.
pub open spec fn spec_route_value(next_hop: Seq<char>, dst: u64) -> RibValueModel {
    RibValueModel::Struct(
        seq![
            ("next_hop_address"@, RibValueModel::String(next_hop)),
            ("next_hop_rina_addr"@, RibValueModel::Integer(dst as i64)),
        ],
    )
}

/// The next hop a set of RIB objects records for `dst` under `name`: the
/// string in the `next_hop_address` field of a struct-valued object.
pub open spec fn spec_hop_in(
    objs: Seq<crate::rib::RibObjectModel>,
    name: Seq<char>,
) -> Option<Seq<char>> {
    match spec_lookup(objs, name) {
        None => None,
        Some(o) => match o.value {
            RibValueModel::Struct(fields) => match spec_field_lookup(
                fields,
                "next_hop_address"@,
            ) {
                Some(RibValueModel::String(s)) => Some(s),
                _ => None,
            },
            _ => None,
        },
    }
}

/// The RIB object a dynamic-route installation writes for `dst` at `now`:
/// created fresh under the next version, or overwritten in place with the
/// modification stamp never moving backwards.
pub open spec fn spec_written_route_object(
    pre: Seq<crate::rib::RibObjectModel>,
    dst: u64,
    hop: Seq<char>,
    counter: u64,
    now: u64,
) -> crate::rib::RibObjectModel {
    let name = spec_dynamic_route_name(dst);
    let i = spec_index_of(pre, name);
    if i == -1 {
        crate::rib::spec_object(name, "route"@, spec_route_value(hop, dst), (counter + 1) as u64, now)
    } else {
        crate::rib::spec_object(
            name,
            pre[i].class,
            spec_route_value(hop, dst),
            (counter + 1) as u64,
            if now >= pre[i].last_modified {
                now
            } else {
                pre[i].last_modified
            },
        )
    }
}

/// The RIB's objects after a dynamic-route installation for `dst`.
pub open spec fn spec_rib_after_route_write(
    pre: Seq<crate::rib::RibObjectModel>,
    dst: u64,
    hop: Seq<char>,
    counter: u64,
    now: u64,
) -> Seq<crate::rib::RibObjectModel> {
    let name = spec_dynamic_route_name(dst);
    let i = spec_index_of(pre, name);
    let obj = spec_written_route_object(pre, dst, hop, counter, now);
    if i == -1 {
        pre.push(obj)
    } else {
        pre.update(i, obj)
    }
}

/// A snapshot route survives loading at `now`: it has not expired and has
/// life left.  A route at exactly its TTL boundary is discarded rather
/// than re-installed with TTL 0, which would never expire.
pub open spec fn spec_loadable(m: RouteMetadataModel, now: u64) -> bool {
    !spec_expired(m, now) && spec_remaining_ttl(m, now) > 0
}

/// The metadata cache after loading a snapshot at `now`: every surviving
/// route upserted in order, created at `now` with its remaining TTL.
pub open spec fn spec_load_cache(
    cache: Seq<RouteMetadataModel>,
    routes: Seq<RouteMetadataModel>,
    now: u64,
) -> Seq<RouteMetadataModel>
    decreases routes.len(),
{
    if routes.len() == 0 {
        cache
    } else {
        let rest = routes.drop_first();
        if spec_loadable(routes[0], now) {
            spec_load_cache(
                spec_upsert_route(
                    cache,
                    spec_route_md(
                        routes[0].destination,
                        routes[0].next_hop_address,
                        now,
                        spec_remaining_ttl(routes[0], now),
                    ),
                ),
                rest,
                now,
            )
        } else {
            spec_load_cache(cache, rest, now)
        }
    }
}

/// Loading one more snapshot route at the end of the batch.
proof fn lemma_load_cache_snoc(
    cache: Seq<RouteMetadataModel>,
    routes: Seq<RouteMetadataModel>,
    x: RouteMetadataModel,
    now: u64,
)
    ensures
        spec_load_cache(cache, routes.push(x), now) == (if spec_loadable(x, now) {
            spec_upsert_route(
                spec_load_cache(cache, routes, now),
                spec_route_md(x.destination, x.next_hop_address, now, spec_remaining_ttl(x, now)),
            )
        } else {
            spec_load_cache(cache, routes, now)
        }),
    decreases routes.len(),
{
    reveal_with_fuel(spec_load_cache, 3);
    if routes.len() == 0 {
        assert(routes.push(x)[0] == x);
        assert(routes.push(x).drop_first() =~= Seq::<RouteMetadataModel>::empty());
    } else {
        assert(routes.push(x)[0] == routes[0]);
        assert(routes.push(x).drop_first() =~= routes.drop_first().push(x));
        if spec_loadable(routes[0], now) {
            lemma_load_cache_snoc(
                spec_upsert_route(
                    cache,
                    spec_route_md(
                        routes[0].destination,
                        routes[0].next_hop_address,
                        now,
                        spec_remaining_ttl(routes[0], now),
                    ),
                ),
                routes.drop_first(),
                x,
                now,
            );
        } else {
            lemma_load_cache_snoc(cache, routes.drop_first(), x, now);
        }
    }
}

/// A name present in the store stays present when a new object is appended.
proof fn lemma_presence_after_push(
    pre: Seq<crate::rib::RibObjectModel>,
    o: crate::rib::RibObjectModel,
    n: Seq<char>,
)
    requires
        spec_index_of(pre, n) != -1,
    ensures
        spec_index_of(pre.push(o), n) != -1,
{
    crate::rib::lemma_index_of(pre, n);
    crate::rib::lemma_index_of(pre.push(o), n);
    let i = spec_index_of(pre, n);
    assert(pre.push(o)[i].name == n);
}

/// A name present in the store stays present when an object is overwritten
/// in place without changing its name.
proof fn lemma_presence_after_update(
    pre: Seq<crate::rib::RibObjectModel>,
    i: int,
    o: crate::rib::RibObjectModel,
    n: Seq<char>,
)
    requires
        spec_index_of(pre, n) != -1,
        0 <= i < pre.len(),
        o.name == pre[i].name,
    ensures
        spec_index_of(pre.update(i, o), n) != -1,
{
    crate::rib::lemma_index_of(pre, n);
    crate::rib::lemma_index_of(pre.update(i, o), n);
    let j = spec_index_of(pre, n);
    assert(pre.update(i, o)[j].name == n);
}

/// Statistics over the cached dynamic routes.
#[derive(Debug, Clone, Copy, PartialEq, Eq, Structural)]
pub struct RouteStats {
    pub total_dynamic_routes: usize,
    pub expired_routes: usize,
    pub valid_routes: usize,
}

/// The route resolver: owns the dynamic-route metadata cache and reads and
/// writes routes through the RIB handed to each call.
#[derive(Debug)]
pub struct RouteResolver {
    /// Configuration for persistence and TTL.
    pub config: RouteResolverConfig,
    metadata_cache: Vec<RouteMetadata>,
}

impl View for RouteResolver {
    type V = Seq<RouteMetadataModel>;

    closed spec fn view(&self) -> Seq<RouteMetadataModel> {
        routes_model(self.metadata_cache@)
    }
}

impl RouteResolver {
    /// The TTL given to routes added without an explicit one.
    pub closed spec fn spec_default_ttl(&self) -> u64 {
        self.config.default_ttl_seconds
    }

    /// At most one cached entry per destination.
    pub open spec fn wf(&self) -> bool {
        forall|i: int, j: int|
            0 <= i < j < self@.len() ==> (#[trigger] self@[i]).destination != (
            #[trigger] self@[j]).destination
    }

    /// A resolver with an empty cache.
    pub fn new(config: RouteResolverConfig) -> (r: Self)
        ensures
            r.wf(),
            r@ == Seq::<RouteMetadataModel>::empty(),
    {
        let r = RouteResolver { config, metadata_cache: Vec::new() };
        proof {
            assert(routes_model(r.metadata_cache@) =~= Seq::<RouteMetadataModel>::empty());
        }
        r
    }

    #[verifier::loop_isolation(false)]
    fn find_route(&self, dst: u64) -> (r: Option<usize>)
        ensures
            match r {
                Some(i) => spec_route_index(self@, dst) == i as int && i < self@.len()
                    && self@[i as int].destination == dst,
                None => spec_route_index(self@, dst) == -1,
            },
    {
        let mut i: usize = 0;
        while i < self.metadata_cache.len()
            invariant
                i <= self.metadata_cache@.len(),
                forall|k: int| 0 <= k < i ==> (#[trigger] self@[k]).destination != dst,
            decreases self.metadata_cache@.len() - i,
        {
            if self.metadata_cache[i].destination == dst {
                proof {
                    assert(self@[i as int].destination == dst);
                    lemma_route_index(self@, dst);
                    assert(spec_route_index(self@, dst) == i as int);
                }
                return Some(i);
            }
            i = i + 1;
        }
        proof {
            lemma_route_index(self@, dst);
        }
        None
    }

    /// Installs (or refreshes) the dynamic route for `dst`, created at
    /// `now` with the given TTL (the configured default when `None`).
    /// Idempotent on the cache: the entry for `dst` is overwritten, never
    /// duplicated.  The RIB object `/routing/dynamic/{dst}` is created, or
    /// updated when it already exists.
    pub fn add_dynamic_route_at(
        &mut self,
        rib: &mut Rib,
        dst: u64,
        next_hop: String,
        ttl_seconds: Option<u64>,
        now: u64,
    ) -> (r: Result<(), AriError>)
        requires
            old(self).wf(),
            old(rib).wf(),
            old(rib)@.version_counter < u64::MAX,
        ensures
            final(self).wf(),
            final(rib).wf(),
            r is Ok,
            final(self)@ == spec_upsert_route(
                old(self)@,
                RouteMetadataModel {
                    destination: dst,
                    next_hop_address: next_hop@,
                    created_at: now,
                    ttl_seconds: spec_ttl_or(ttl_seconds, old(self).spec_default_ttl()),
                },
            ),
            final(rib)@.objects == spec_rib_after_route_write(
                old(rib)@.objects,
                dst,
                next_hop@,
                old(rib)@.version_counter,
                now,
            ),
            final(rib)@.version_counter == old(rib)@.version_counter + 1,
            spec_hop_in(final(rib)@.objects, spec_dynamic_route_name(dst)) == Some(next_hop@),
            final(rib)@.log.max_size == old(rib)@.log.max_size,
            final(rib)@.log.changes == spec_log_append(
                old(rib)@.log.changes,
                old(rib)@.log.max_size,
                if spec_index_of(old(rib)@.objects, spec_dynamic_route_name(dst)) == -1 {
                    crate::rib::RibChangeModel::Created(
                        spec_written_route_object(
                            old(rib)@.objects,
                            dst,
                            next_hop@,
                            old(rib)@.version_counter,
                            now,
                        ),
                    )
                } else {
                    crate::rib::RibChangeModel::Updated(
                        spec_written_route_object(
                            old(rib)@.objects,
                            dst,
                            next_hop@,
                            old(rib)@.version_counter,
                            now,
                        ),
                    )
                },
            ),
    {
        let ghost gnh = next_hop@;
        let ttl = match ttl_seconds {
            Some(t) => t,
            None => self.config.default_ttl_seconds,
        };
        let metadata = RouteMetadata {
            destination: dst,
            next_hop_address: next_hop.clone(),
            created_at: now,
            ttl_seconds: ttl,
        };
        let route_name = dynamic_route_name(dst);
        let mut fields: Vec<(String, RibValue)> = Vec::new();
        let mut f1 = String::new();
        f1.append("next_hop_address");
        fields.push((f1, RibValue::String(next_hop)));
        let mut f2 = String::new();
        f2.append("next_hop_rina_addr");
        fields.push((f2, RibValue::Integer(dst as i64)));
        let value = RibValue::Struct(fields);
        proof {
            crate::rib::lemma_fields_model(fields@);
            assert(crate::rib::fields_model(fields@) =~= spec_route_value(gnh, dst)->Struct_0);
            assert(value@ == spec_route_value(gnh, dst));
        }
        let ghost pre_objs = rib@.objects;
        let exists_already = match rib.read(route_name.as_str()) {
            Some(_) => true,
            None => false,
        };
        let outcome: Result<(), RibError> = if exists_already {
            rib.update_at(route_name.as_str(), value, now)
        } else {
            let mut class = String::new();
            class.append("route");
            rib.create_at(route_name, class, value, now)
        };
        match outcome {
            Err(e) => {
                // A present route makes the update succeed and an absent one
                // makes the create succeed, so neither branch can fail.
                proof {
                    assert(false);
                }
                return Err(AriError::Rib(RibError::OperationFailed(e.message())));
            },
            Ok(_) => {},
        }
        proof {
            let name = spec_dynamic_route_name(dst);
            let i = spec_index_of(pre_objs, name);
            if exists_already {
                assert(i != -1);
                assert(rib@.objects == pre_objs.update(
                    i,
                    crate::rib::spec_object(
                        name,
                        pre_objs[i].class,
                        spec_route_value(gnh, dst),
                        (old(rib)@.version_counter + 1) as u64,
                        if now >= pre_objs[i].last_modified {
                            now
                        } else {
                            pre_objs[i].last_modified
                        },
                    ),
                ));
            } else {
                assert(i == -1);
                assert(rib@.objects == pre_objs.push(
                    crate::rib::spec_object(
                        name,
                        "route"@,
                        spec_route_value(gnh, dst),
                        (old(rib)@.version_counter + 1) as u64,
                        now,
                    ),
                ));
            }
        }
        let ghost pre = routes_model(self.metadata_cache@);
        let ghost mdm = metadata@;
        match self.find_route(dst) {
            Some(i) => {
                let ghost pre2 = routes_model(self.metadata_cache@);
                self.metadata_cache.set(i, metadata);
                proof {
                    assert(routes_model(self.metadata_cache@) =~= pre2.update(i as int, mdm));
                    let post = routes_model(self.metadata_cache@);
                    assert forall|a: int, b: int|
                        0 <= a < b < post.len() implies (#[trigger] post[a]).destination != (
                    #[trigger] post[b]).destination by {
                        if a == i as int {
                            assert(post[a] == mdm);
                        } else {
                            assert(post[a] == pre2[a]);
                        }
                        if b == i as int {
                            assert(post[b] == mdm);
                        } else {
                            assert(post[b] == pre2[b]);
                        }
                        assert(pre2[a].destination != pre2[b].destination);
                        assert(mdm.destination == pre2[i as int].destination);
                    }
                }
            },
            None => {
                let ghost pre2 = routes_model(self.metadata_cache@);
                self.metadata_cache.push(metadata);
                proof {
                    lemma_route_index(pre2, dst);
                    assert(routes_model(self.metadata_cache@) =~= pre2.push(mdm));
                    let post = routes_model(self.metadata_cache@);
                    assert forall|a: int, b: int|
                        0 <= a < b < post.len() implies (#[trigger] post[a]).destination != (
                    #[trigger] post[b]).destination by {
                        if b < pre2.len() {
                            assert(post[a] == pre2[a] && post[b] == pre2[b]);
                        } else {
                            assert(post[b] == mdm);
                            assert(post[a] == pre2[a]);
                        }
                    }
                }
            },
        }
        proof {
            lemma_hop_in_after_write(old(rib)@.objects, rib@.objects, dst, gnh);
        }
        Ok(())
    }

    /// Installs the dynamic route, stamped with the current system time.
    pub fn add_dynamic_route(
        &mut self,
        rib: &mut Rib,
        dst: u64,
        next_hop: String,
        ttl_seconds: Option<u64>,
    ) -> (r: Result<(), AriError>)
        requires
            old(self).wf(),
            old(rib).wf(),
            old(rib)@.version_counter < u64::MAX,
        ensures
            final(self).wf(),
            final(rib).wf(),
            r is Ok,
            final(rib)@.version_counter == old(rib)@.version_counter + 1,
            exists|now: u64|
                final(self)@ == spec_upsert_route(
                    old(self)@,
                    #[trigger] spec_route_md(
                        dst,
                        next_hop@,
                        now,
                        spec_ttl_or(ttl_seconds, old(self).spec_default_ttl()),
                    ),
                ) && final(rib)@.objects == spec_rib_after_route_write(
                    old(rib)@.objects,
                    dst,
                    next_hop@,
                    old(rib)@.version_counter,
                    now,
                ),
    {
        let now = crate::clock::unix_now_secs();
        let r = match self.add_dynamic_route_at(rib, dst, next_hop, ttl_seconds, now) {
            Ok(_) => {
                proof {
                    assert(self@ == spec_upsert_route(
                        old(self)@,
                        spec_route_md(
                            dst,
                            next_hop@,
                            now,
                            spec_ttl_or(ttl_seconds, old(self).spec_default_ttl()),
                        ),
                    ) && rib@.objects == spec_rib_after_route_write(
                        old(rib)@.objects,
                        dst,
                        next_hop@,
                        old(rib)@.version_counter,
                        now,
                    ));
                }
                Ok(())
            },
            Err(e) => Err(e),
        };
        r
    }

    /// Removes the dynamic route for `dst` from the RIB and the cache;
    /// fails exactly when the RIB holds no such route, changing nothing.
    pub fn remove_dynamic_route(&mut self, rib: &mut Rib, dst: u64) -> (r: Result<(), AriError>)
        requires
            old(self).wf(),
            old(rib).wf(),
            old(rib)@.version_counter < u64::MAX,
        ensures
            final(self).wf(),
            final(rib).wf(),
            r is Ok <==> spec_lookup(old(rib)@.objects, spec_dynamic_route_name(dst)) is Some,
            match r {
                Ok(_) => {
                    let i = spec_index_of(old(rib)@.objects, spec_dynamic_route_name(dst));
                    let j = spec_route_index(old(self)@, dst);
                    &&& final(rib)@.objects == old(rib)@.objects.remove(i)
                    &&& spec_lookup(final(rib)@.objects, spec_dynamic_route_name(dst)) is None
                    &&& final(rib)@.version_counter == old(rib)@.version_counter + 1
                    &&& spec_route_index(final(self)@, dst) == -1
                    &&& final(self)@ == (if j == -1 {
                        old(self)@
                    } else {
                        old(self)@.remove(j)
                    })
                },
                Err(_) => final(self)@ == old(self)@ && final(rib)@ == old(rib)@,
            },
    {
        let route_name = dynamic_route_name(dst);
        match rib.delete_at(route_name.as_str(), crate::clock::unix_now_secs()) {
            Err(e) => Err(AriError::Rib(RibError::OperationFailed(e.message()))),
            Ok(_) => {
                proof {
                    let name = spec_dynamic_route_name(dst);
                    let i = spec_index_of(old(rib)@.objects, name);
                    crate::rib::lemma_index_of(old(rib)@.objects, name);
                    let post = rib@.objects;
                    crate::rib::lemma_index_of(post, name);
                    assert forall|k: int| 0 <= k < post.len() implies (#[trigger] post[k]).name
                        != name by {
                        let kk = if k < i {
                            k
                        } else {
                            k + 1
                        };
                        assert(post[k] == old(rib)@.objects[kk]);
                        assert(old(rib)@.objects[i].name == name);
                        assert(old(rib)@.objects[kk].name != old(rib)@.objects[i].name || kk == i);
                    }
                }
                let ghost pre = routes_model(self.metadata_cache@);
                match self.find_route(dst) {
                    Some(i) => {
                        self.metadata_cache.remove(i);
                        proof {
                            let post = routes_model(self.metadata_cache@);
                            assert(post =~= pre.remove(i as int));
                            assert forall|a: int, b: int|
                                0 <= a < b < post.len() implies (#[trigger] post[a]).destination
                                != (#[trigger] post[b]).destination by {
                                let aa = if a < i as int {
                                    a
                                } else {
                                    a + 1
                                };
                                let bb = if b < i as int {
                                    b
                                } else {
                                    b + 1
                                };
                                assert(post[a] == pre[aa]);
                                assert(post[b] == pre[bb]);
                                assert(pre[aa].destination != pre[bb].destination);
                            }
                            lemma_route_index(post, dst);
                            assert forall|k: int|
                                0 <= k < post.len() implies (#[trigger] post[k]).destination
                                != dst by {
                                let kk = if k < i as int {
                                    k
                                } else {
                                    k + 1
                                };
                                assert(post[k] == pre[kk]);
                                assert(pre[i as int].destination == dst);
                                assert(pre[kk].destination != pre[i as int].destination || kk == i);
                            }
                        }
                        Ok(())
                    },
                    None => {
                        proof {
                            lemma_route_index(routes_model(self.metadata_cache@), dst);
                        }
                        Ok(())
                    },
                }
            },
        }
    }

    /// Resolves the next hop for `dst`: a static route wins with exactly
    /// its stored hop; otherwise a live dynamic route answers with its hop;
    /// an expired dynamic route is removed from the RIB and the cache and
    /// the resolution fails with `RouteNotFound`, as it does when no usable
    /// route exists at all.  Only the expired-route removal changes state.
    pub fn resolve_next_hop_at(&mut self, rib: &mut Rib, dst: u64, now: u64) -> (r: Result<
        String,
        AriError,
    >)
        requires
            old(self).wf(),
            old(rib).wf(),
            old(rib)@.version_counter < u64::MAX,
        ensures
            final(self).wf(),
            final(rib).wf(),
            spec_hop_in(old(rib)@.objects, spec_static_route_name(dst)) matches Some(h) ==> (
            r matches Ok(hop) && hop@ == h),
            match r {
                Ok(hop) => {
                    &&& (spec_hop_in(old(rib)@.objects, spec_static_route_name(dst)) == Some(hop@)
                        || (spec_hop_in(old(rib)@.objects, spec_static_route_name(dst)) is None
                        && spec_hop_in(old(rib)@.objects, spec_dynamic_route_name(dst)) == Some(
                        hop@,
                    )))
                    &&& final(rib)@ == old(rib)@
                    &&& final(self)@ == old(self)@
                },
                Err(e) => {
                    let j = spec_route_index(old(self)@, dst);
                    let expired_entry = j != -1 && spec_expired(old(self)@[j], now);
                    let dyn_present = spec_lookup(
                        old(rib)@.objects,
                        spec_dynamic_route_name(dst),
                    ) is Some;
                    &&& spec_hop_in(old(rib)@.objects, spec_static_route_name(dst)) is None
                    &&& e matches AriError::Rmt(RmtError::RouteNotFound(d)) && d == dst
                    &&& (if dyn_present && expired_entry {
                        spec_lookup(final(rib)@.objects, spec_dynamic_route_name(dst)) is None
                            && spec_route_index(final(self)@, dst) == -1
                    } else {
                        &&& final(rib)@ == old(rib)@
                        &&& final(self)@ == old(self)@
                        &&& (dyn_present ==> spec_hop_in(
                            old(rib)@.objects,
                            spec_dynamic_route_name(dst),
                        ) is None)
                    })
                },
            },
    {
        let static_name = static_route_name(dst);
        match rib.read(static_name.as_str()) {
            Some(obj) => {
                match obj.value.struct_get("next_hop_address") {
                    Some(v) => {
                        match v.as_string() {
                            Some(s) => {
                                let mut hop = String::new();
                                hop.append(s);
                                return Ok(hop);
                            },
                            None => {},
                        }
                    },
                    None => {},
                }
            },
            None => {},
        }
        let dynamic_name = dynamic_route_name(dst);
        let dyn_exists = match rib.read(dynamic_name.as_str()) {
            Some(_) => true,
            None => false,
        };
        if dyn_exists {
            let expired = match self.find_route(dst) {
                Some(i) => self.metadata_cache[i].is_expired_at(now),
                None => false,
            };
            if expired {
                let removed = self.remove_dynamic_route(rib, dst);
                proof {
                    assert(removed is Ok);
                }
                return Err(AriError::Rmt(RmtError::RouteNotFound(dst)));
            }
            match rib.read(dynamic_name.as_str()) {
                Some(obj) => {
                    match obj.value.struct_get("next_hop_address") {
                        Some(v) => {
                            match v.as_string() {
                                Some(s) => {
                                    let mut hop = String::new();
                                    hop.append(s);
                                    return Ok(hop);
                                },
                                None => {},
                            }
                        },
                        None => {},
                    }
                },
                None => {},
            }
        }
        Err(AriError::Rmt(RmtError::RouteNotFound(dst)))
    }

    /// Loads a snapshot at `now`: exactly the entries satisfying the
    /// expiry predicate, and those at their TTL boundary with no life left,
    /// are discarded; every other route is re-installed, in the RIB and in
    /// the cache, created at `now` with its remaining TTL.  Returns how
    /// many routes were loaded; the call cannot fail.
    #[verifier::loop_isolation(false)]
    pub fn load_from_snapshot_at(&mut self, rib: &mut Rib, snapshot: &RouteSnapshot, now: u64) -> (r:
        Result<usize, AriError>)
        requires
            old(self).wf(),
            old(rib).wf(),
            old(rib)@.version_counter + snapshot.routes@.len() <= u64::MAX,
        ensures
            final(self).wf(),
            final(rib).wf(),
            r matches Ok(n) && n as nat == routes_model(snapshot.routes@).filter(
                |m: RouteMetadataModel| spec_loadable(m, now),
            ).len(),
            final(self)@ == spec_load_cache(old(self)@, routes_model(snapshot.routes@), now),
            forall|k: int|
                0 <= k < snapshot.routes@.len() && spec_loadable(
                    #[trigger] routes_model(snapshot.routes@)[k],
                    now,
                ) ==> spec_lookup(
                    final(rib)@.objects,
                    spec_dynamic_route_name(routes_model(snapshot.routes@)[k].destination),
                ) is Some,
    {
        let ghost models = routes_model(snapshot.routes@);
        let ghost p = |m: RouteMetadataModel| spec_loadable(m, now);
        let mut loaded: usize = 0;
        let mut i: usize = 0;
        proof {
            reveal_with_fuel(Seq::filter, 2);
            assert(models.take(0).filter(p) =~= Seq::<RouteMetadataModel>::empty());
            assert(spec_load_cache(old(self)@, models.take(0), now) == old(self)@);
        }
        while i < snapshot.routes.len()
            invariant
                i <= snapshot.routes@.len(),
                loaded as nat == models.take(i as int).filter(p).len(),
                loaded <= i,
                self.wf(),
                rib.wf(),
                rib@.version_counter == old(rib)@.version_counter + loaded,
                self@ == spec_load_cache(old(self)@, models.take(i as int), now),
                forall|k: int|
                    0 <= k < i && spec_loadable(#[trigger] models[k], now) ==> spec_index_of(
                        rib@.objects,
                        spec_dynamic_route_name(models[k].destination),
                    ) != -1,
            decreases snapshot.routes@.len() - i,
        {
            let ghost taken = models.take(i as int);
            let ghost cur = models[i as int];
            let ghost pre_objs = rib@.objects;
            let ghost pre_counter = rib@.version_counter;
            let md = &snapshot.routes[i];
            let remaining = md.remaining_ttl_at(now);
            if !md.is_expired_at(now) && remaining > 0 {
                let hop = md.next_hop_address.clone();
                let added = self.add_dynamic_route_at(
                    rib,
                    md.destination,
                    hop,
                    Some(remaining),
                    now,
                );
                proof {
                    assert(added is Ok);
                    // The freshly written route is present, and every route
                    // written earlier stays present: the write either appends
                    // a new object or overwrites one in place, keeping its
                    // name.
                    let name = spec_dynamic_route_name(cur.destination);
                    assert(spec_lookup(rib@.objects, name) is Some);
                    crate::rib::lemma_index_of(rib@.objects, name);
                    assert forall|k: int|
                        0 <= k < i + 1 && spec_loadable(#[trigger] models[k], now) implies
                        spec_index_of(
                            rib@.objects,
                            spec_dynamic_route_name(models[k].destination),
                        ) != -1 by {
                        let nk = spec_dynamic_route_name(models[k].destination);
                        if k < i as int {
                            let j = spec_index_of(pre_objs, name);
                            if j == -1 {
                                lemma_presence_after_push(
                                    pre_objs,
                                    spec_written_route_object(
                                        pre_objs,
                                        cur.destination,
                                        cur.next_hop_address,
                                        pre_counter,
                                        now,
                                    ),
                                    nk,
                                );
                            } else {
                                crate::rib::lemma_index_of(pre_objs, name);
                                lemma_presence_after_update(
                                    pre_objs,
                                    j,
                                    spec_written_route_object(
                                        pre_objs,
                                        cur.destination,
                                        cur.next_hop_address,
                                        pre_counter,
                                        now,
                                    ),
                                    nk,
                                );
                            }
                        }
                    }
                }
                loaded = loaded + 1;
            }
            proof {
                reveal_with_fuel(Seq::filter, 2);
                assert(models.take(i as int + 1).drop_last() =~= taken);
                assert(models.take(i as int + 1).last() == cur);
                if p(cur) {
                    assert(models.take(i as int + 1).filter(p) =~= taken.filter(p).push(cur));
                } else {
                    assert(models.take(i as int + 1).filter(p) =~= taken.filter(p));
                }
                assert(taken.push(cur) =~= models.take(i as int + 1));
                lemma_load_cache_snoc(old(self)@, taken, cur, now);
            }
            i = i + 1;
        }
        proof {
            assert(models.take(models.len() as int) =~= models);
            models.lemma_filter_len(p);
        }
        Ok(loaded)
    }

    /// A snapshot of the cached dynamic routes, stamped with `now`.
    #[verifier::loop_isolation(false)]
    /// Records in the cache a dynamic route already standing in the RIB
    /// (the enrollment handler writes that object itself), created at
    /// `now` with the given TTL (the configured default when `None`).
    /// Idempotent: the entry for `dst` is overwritten, never duplicated.
    pub fn note_route_at(&mut self, dst: u64, next_hop: String, ttl_seconds: Option<u64>, now: u64)
        requires
            old(self).wf(),
        ensures
            final(self).wf(),
            final(self).spec_default_ttl() == old(self).spec_default_ttl(),
            final(self)@ == spec_upsert_route(
                old(self)@,
                RouteMetadataModel {
                    destination: dst,
                    next_hop_address: next_hop@,
                    created_at: now,
                    ttl_seconds: spec_ttl_or(ttl_seconds, old(self).spec_default_ttl()),
                },
            ),
    {
        let ttl = match ttl_seconds {
            Some(t) => t,
            None => self.config.default_ttl_seconds,
        };
        let metadata = RouteMetadata {
            destination: dst,
            next_hop_address: next_hop,
            created_at: now,
            ttl_seconds: ttl,
        };
        let ghost mdm = metadata@;
        match self.find_route(dst) {
            Some(i) => {
                let ghost pre2 = routes_model(self.metadata_cache@);
                self.metadata_cache.set(i, metadata);
                proof {
                    assert(routes_model(self.metadata_cache@) =~= pre2.update(i as int, mdm));
                    let post = routes_model(self.metadata_cache@);
                    assert forall|a: int, b: int|
                        0 <= a < b < post.len() implies (#[trigger] post[a]).destination != (
                    #[trigger] post[b]).destination by {
                        if a == i as int {
                            assert(post[a] == mdm);
                        } else {
                            assert(post[a] == pre2[a]);
                        }
                        if b == i as int {
                            assert(post[b] == mdm);
                        } else {
                            assert(post[b] == pre2[b]);
                        }
                        assert(pre2[a].destination != pre2[b].destination);
                        assert(mdm.destination == pre2[i as int].destination);
                    }
                }
            },
            None => {
                let ghost pre2 = routes_model(self.metadata_cache@);
                self.metadata_cache.push(metadata);
                proof {
                    lemma_route_index(pre2, dst);
                    assert(routes_model(self.metadata_cache@) =~= pre2.push(mdm));
                    let post = routes_model(self.metadata_cache@);
                    assert forall|a: int, b: int|
                        0 <= a < b < post.len() implies (#[trigger] post[a]).destination != (
                    #[trigger] post[b]).destination by {
                        if b < pre2.len() {
                            assert(post[a] == pre2[a] && post[b] == pre2[b]);
                        } else {
                            assert(post[b] == mdm);
                            assert(post[a] == pre2[a]);
                        }
                    }
                }
            },
        }
    }

    pub fn snapshot_at(&self, now: u64) -> (r: RouteSnapshot)
        ensures
            r.version == 1,
            r.snapshot_time == now,
            routes_model(r.routes@) == self@,
    {
        let mut routes: Vec<RouteMetadata> = Vec::new();
        let mut i: usize = 0;
        proof {
            assert(routes_model(routes@) =~= self@.take(0));
        }
        while i < self.metadata_cache.len()
            invariant
                i <= self.metadata_cache@.len(),
                routes_model(routes@) == self@.take(i as int),
            decreases self.metadata_cache@.len() - i,
        {
            let ghost pre = routes_model(routes@);
            routes.push(self.metadata_cache[i].clone());
            proof {
                assert(routes_model(routes@) =~= pre.push(self@[i as int]));
                assert(self@.take(i as int + 1) =~= self@.take(i as int).push(self@[i as int]));
            }
            i = i + 1;
        }
        proof {
            assert(self@.take(self@.len() as int) =~= self@);
        }
        RouteSnapshot::new_at(routes, now)
    }

    /// Counts of all, expired and live cached routes as of `now`.
    #[verifier::loop_isolation(false)]
    pub fn get_stats_at(&self, now: u64) -> (r: RouteStats)
        ensures
            r.total_dynamic_routes == self@.len(),
            r.expired_routes as nat == self@.filter(
                |m: RouteMetadataModel| spec_expired(m, now),
            ).len(),
            r.valid_routes == r.total_dynamic_routes - r.expired_routes,
    {
        let ghost p = |m: RouteMetadataModel| spec_expired(m, now);
        let mut expired: usize = 0;
        let mut i: usize = 0;
        proof {
            reveal_with_fuel(Seq::filter, 2);
            assert(self@.take(0).filter(p) =~= Seq::<RouteMetadataModel>::empty());
        }
        while i < self.metadata_cache.len()
            invariant
                i <= self.metadata_cache@.len(),
                expired as nat == self@.take(i as int).filter(p).len(),
                expired <= i,
            decreases self.metadata_cache@.len() - i,
        {
            let ghost taken = self@.take(i as int);
            let ghost cur = self@[i as int];
            if self.metadata_cache[i].is_expired_at(now) {
                expired = expired + 1;
            }
            proof {
                reveal_with_fuel(Seq::filter, 2);
                assert(self@.take(i as int + 1).drop_last() =~= taken);
                assert(self@.take(i as int + 1).last() == cur);
                if p(cur) {
                    assert(self@.take(i as int + 1).filter(p) =~= taken.filter(p).push(cur));
                } else {
                    assert(self@.take(i as int + 1).filter(p) =~= taken.filter(p));
                }
            }
            i = i + 1;
        }
        proof {
            assert(self@.take(self@.len() as int) =~= self@);
            self@.lemma_filter_len(p);
        }
        let total = self.metadata_cache.len();
        RouteStats {
            total_dynamic_routes: total,
            expired_routes: expired,
            valid_routes: total - expired,
        }
    }
}

/// The TTL actually used: the explicit one, or the default.
pub open spec fn spec_ttl_or(ttl_seconds: Option<u64>, dflt: u64) -> u64 {
    match ttl_seconds {
        Some(t) => t,
        None => dflt,
    }
}

/// The route metadata a dynamic-route installation records.
pub open spec fn spec_route_md(
    dst: u64,
    next_hop: Seq<char>,
    created_at: u64,
    ttl_seconds: u64,
) -> RouteMetadataModel {
    RouteMetadataModel { destination: dst, next_hop_address: next_hop, created_at, ttl_seconds }
}

/// After creating or updating the dynamic-route object, the RIB records a
/// next hop for the destination.
proof fn lemma_hop_in_after_write(
    pre: Seq<crate::rib::RibObjectModel>,
    post: Seq<crate::rib::RibObjectModel>,
    dst: u64,
    next_hop: Seq<char>,
)
    requires
        ({
            let name = spec_dynamic_route_name(dst);
            let i = spec_index_of(pre, name);
            (i == -1 && exists|v: u64, ts: u64|
                post == pre.push(
                    #[trigger] crate::rib::spec_object(
                        name,
                        "route"@,
                        spec_route_value(next_hop, dst),
                        v,
                        ts,
                    ),
                )) || (i != -1 && exists|v: u64, ts: u64|
                post == pre.update(
                    i,
                    #[trigger] crate::rib::spec_object(
                        name,
                        pre[i].class,
                        spec_route_value(next_hop, dst),
                        v,
                        ts,
                    ),
                ))
        }),
        forall|a: int, b: int|
            0 <= a < b < pre.len() ==> (#[trigger] pre[a]).name != (#[trigger] pre[b]).name,
    ensures
        spec_hop_in(post, spec_dynamic_route_name(dst)) == Some(next_hop),
{
    let name = spec_dynamic_route_name(dst);
    crate::rib::lemma_index_of(pre, name);
    let i = spec_index_of(pre, name);
    crate::rib::lemma_index_of(post, name);
    if i == -1 {
        assert(post[pre.len() as int].name == name);
        let j = spec_index_of(post, name);
        assert(j != -1);
        if j < pre.len() {
            assert(post[j] == pre[j]);
        }
        assert(j == pre.len());
        assert(post[j].value == spec_route_value(next_hop, dst));
    } else {
        assert(post[i].name == name);
        let j = spec_index_of(post, name);
        assert(j != -1);
        if j < i {
            assert(post[j] == pre[j]);
            assert(pre[j].name != name);
        }
        assert(j == i);
        assert(post[j].value == spec_route_value(next_hop, dst));
    }
    let j = spec_index_of(post, name);
    assert(spec_lookup(post, name) == Some(post[j]));
    reveal_with_fuel(spec_field_lookup, 3);
    assert(spec_field_lookup(
        spec_route_value(next_hop, dst)->Struct_0,
        "next_hop_address"@,
    ) == Some(RibValueModel::String(next_hop))) by {
        let fields = spec_route_value(next_hop, dst)->Struct_0;
        assert(fields[0].0 == "next_hop_address"@);
    }
}

} // verus!
