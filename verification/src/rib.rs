//! Resource Information Base (RIB).
//!
//! The RIB is the node's authoritative object store: named, versioned,
//! class-tagged objects, a bounded change log for incremental
//! synchronization, and version-based merging of snapshots from peers.
//!
//! Every object name is unique, versions are assigned from a strictly
//! increasing counter, and the change log keeps the most recent changes in
//! version order, evicting the oldest when full.

use vstd::prelude::*;
use crate::error::RibError;
use crate::strutil::str_eq;

verus! {

broadcast use vstd::seq_lib::group_seq_lib_default, vstd::seq::group_seq_axioms, vstd::std_specs::vec::group_vec_axioms;

// ---------------------------------------------------------------------------
// Values and objects
// ---------------------------------------------------------------------------
/// A value stored in the RIB.
#[derive(Debug)]
pub enum RibValue {
    String(String),
    Integer(i64),
    Boolean(bool),
    Bytes(Vec<u8>),
    /// A mapping from field names to nested values.
    Struct(Vec<(String, RibValue)>),
}

/// Mathematical model of a [`RibValue`]: strings and byte vectors become
/// sequences.
pub enum RibValueModel {
    String(Seq<char>),
    Integer(i64),
    Boolean(bool),
    Bytes(Seq<u8>),
    Struct(Seq<(Seq<char>, RibValueModel)>),
}

/// Model of a field list of a [`RibValue::Struct`].
pub open spec fn fields_model(s: Seq<(String, RibValue)>) -> Seq<(Seq<char>, RibValueModel)>
    decreases s,
{
    if s.len() == 0 {
        Seq::empty()
    } else {
        seq![(s[0].0@, value_model(s[0].1))] + fields_model(s.drop_first())
    }
}

/// Model of a [`RibValue`].
pub open spec fn value_model(v: RibValue) -> RibValueModel
    decreases v,
{
    match v {
        RibValue::String(s) => RibValueModel::String(s@),
        RibValue::Integer(i) => RibValueModel::Integer(i),
        RibValue::Boolean(b) => RibValueModel::Boolean(b),
        RibValue::Bytes(bs) => RibValueModel::Bytes(bs@),
        RibValue::Struct(fields) => RibValueModel::Struct(fields_model(fields@)),
    }
}

impl View for RibValue {
    type V = RibValueModel;

    open spec fn view(&self) -> RibValueModel {
        value_model(*self)
    }
}

/// The field-list model indexes elementwise.
pub proof fn lemma_fields_model(s: Seq<(String, RibValue)>)
    ensures
        fields_model(s).len() == s.len(),
        forall|i: int|
            0 <= i < s.len() ==> #[trigger] fields_model(s)[i] == (s[i].0@, value_model(s[i].1)),
    decreases s.len(),
{
    if s.len() > 0 {
        lemma_fields_model(s.drop_first());
    }
}

impl RibValue {
    /// The string inside, if this is a string value.
    pub fn as_string(&self) -> (r: Option<&str>)
        ensures
            match r {
                Some(s) => self@ matches RibValueModel::String(m) && m == s@,
                None => !(self@ is String),
            },
    {
        match self {
            RibValue::String(s) => Some(s.as_str()),
            _ => None,
        }
    }

    /// The integer inside, if this is an integer value.
    pub fn as_integer(&self) -> (r: Option<i64>)
        ensures
            match r {
                Some(i) => self@ == RibValueModel::Integer(i),
                None => !(self@ is Integer),
            },
    {
        match self {
            RibValue::Integer(i) => Some(*i),
            _ => None,
        }
    }

    /// The boolean inside, if this is a boolean value.
    pub fn as_boolean(&self) -> (r: Option<bool>)
        ensures
            match r {
                Some(b) => self@ == RibValueModel::Boolean(b),
                None => !(self@ is Boolean),
            },
    {
        match self {
            RibValue::Boolean(b) => Some(*b),
            _ => None,
        }
    }

    /// Looks a field up by name, if this is a struct value.
    #[verifier::loop_isolation(false)]
    pub fn struct_get(&self, key: &str) -> (r: Option<&RibValue>)
        ensures
            match r {
                Some(v) => self@ matches RibValueModel::Struct(fields)
                    && spec_field_lookup(fields, key@) == Some(v@),
                None => self@ matches RibValueModel::Struct(fields) ==> spec_field_lookup(
                    fields,
                    key@,
                ) is None,
            },
    {
        match self {
            RibValue::Struct(fields) => {
                proof {
                    lemma_fields_model(fields@);
                }
                let mut i: usize = 0;
                while i < fields.len()
                    invariant
                        i <= fields@.len(),
                        fields_model(fields@).len() == fields@.len(),
                        forall|k: int|
                            0 <= k < fields@.len() ==> #[trigger] fields_model(fields@)[k] == (
                            fields@[k].0@,
                            value_model(fields@[k].1),
                            ),
                        forall|k: int| 0 <= k < i ==> fields_model(fields@)[k].0 != key@,
                    decreases fields@.len() - i,
                {
                    if str_eq(fields[i].0.as_str(), key) {
                        proof {
                            assert(fields_model(fields@)[i as int] == (
                                fields@[i as int].0@,
                                value_model(fields@[i as int].1),
                            ));
                            assert(fields_model(fields@)[i as int].0 == key@);
                            lemma_field_lookup_found(fields_model(fields@), key@, i as int);
                            assert(spec_field_lookup(fields_model(fields@), key@) == Some(
                                value_model(fields@[i as int].1),
                            ));
                            assert(self is Struct && *fields == self->Struct_0);
                            assert(self@ == RibValueModel::Struct(fields_model(fields@)));
                        }
                        return Some(&fields[i].1);
                    }
                    i = i + 1;
                }
                proof {
                    lemma_field_lookup_missing(fields_model(fields@), key@);
                }
                None
            },
            _ => None,
        }
    }
}

/// First field with the given name in a struct field list.
pub open spec fn spec_field_lookup(fields: Seq<(Seq<char>, RibValueModel)>, key: Seq<char>) -> Option<
    RibValueModel,
>
    decreases fields.len(),
{
    if fields.len() == 0 {
        None
    } else if fields[0].0 == key {
        Some(fields[0].1)
    } else {
        spec_field_lookup(fields.drop_first(), key)
    }
}

proof fn lemma_field_lookup_found(fields: Seq<(Seq<char>, RibValueModel)>, key: Seq<char>, i: int)
    requires
        0 <= i < fields.len(),
        fields[i].0 == key,
        forall|k: int| 0 <= k < i ==> fields[k].0 != key,
    ensures
        spec_field_lookup(fields, key) == Some(fields[i].1),
    decreases i,
{
    if i > 0 {
        lemma_field_lookup_found(fields.drop_first(), key, i - 1);
    }
}

proof fn lemma_field_lookup_missing(fields: Seq<(Seq<char>, RibValueModel)>, key: Seq<char>)
    requires
        forall|k: int| 0 <= k < fields.len() ==> fields[k].0 != key,
    ensures
        spec_field_lookup(fields, key) is None,
    decreases fields.len(),
{
    if fields.len() > 0 {
        lemma_field_lookup_missing(fields.drop_first(), key);
    }
}

impl Clone for RibValue {
    /// Cloning keeps the value's model.
    #[verifier::loop_isolation(false)]
    fn clone(&self) -> (r: Self)
        ensures
            r@ == self@,
        decreases *self,
    {
        match self {
            RibValue::String(s) => RibValue::String(s.clone()),
            RibValue::Integer(i) => RibValue::Integer(*i),
            RibValue::Boolean(b) => RibValue::Boolean(*b),
            RibValue::Bytes(bs) => {
                let copy = bs.clone();
                assert(copy@ =~= bs@);
                RibValue::Bytes(copy)
            },
            RibValue::Struct(fields) => {
                let mut out: Vec<(String, RibValue)> = Vec::new();
                let mut i: usize = 0;
                while i < fields.len()
                    invariant
                        i <= fields@.len(),
                        out@.len() == i,
                        forall|k: int|
                            0 <= k < i ==> #[trigger] out@[k].0@ == fields@[k].0@ && value_model(
                                out@[k].1,
                            ) == value_model(fields@[k].1),
                    decreases fields@.len() - i,
                {
                    proof {
                        assert(self is Struct && *fields == self->Struct_0);
                        assert(decreases_to!(*self => self->Struct_0));
                        assert(decreases_to!(*fields => fields@));
                        assert(decreases_to!(fields@ => fields@[i as int]));
                        assert(decreases_to!(*self => fields@[i as int].1));
                    }
                    let ghost pre_out = out@;
                    let name = fields[i].0.clone();
                    let val = fields[i].1.clone();
                    out.push((name, val));
                    proof {
                        assert forall|k: int|
                            0 <= k < i + 1 implies #[trigger] out@[k].0@ == fields@[k].0@
                            && value_model(out@[k].1) == value_model(fields@[k].1) by {
                            if k < i as int {
                                assert(out@[k] == pre_out[k]);
                            } else {
                                assert(out@[k].0@ == fields@[k].0@);
                                assert(value_model(out@[k].1) == value_model(fields@[k].1));
                            }
                        }
                    }
                    i = i + 1;
                }
                proof {
                    lemma_fields_model(out@);
                    lemma_fields_model(fields@);
                    assert(fields_model(out@) =~= fields_model(fields@));
                }
                RibValue::Struct(out)
            },
        }
    }
}

/// An object stored in the RIB, with its synchronization metadata.
#[derive(Debug)]
pub struct RibObject {
    /// Unique hierarchical name (e.g. `/routing/static/1002`).
    pub name: String,
    /// Object class tag (e.g. `route`, `neighbor`, `dif_info`).
    pub class: String,
    /// The stored value.
    pub value: RibValue,
    /// Version assigned by the owning RIB; strictly increasing per RIB.
    pub version: u64,
    /// Unix seconds of the last modification.
    pub last_modified: u64,
}

/// Mathematical model of a [`RibObject`].
pub struct RibObjectModel {
    pub name: Seq<char>,
    pub class: Seq<char>,
    pub value: RibValueModel,
    pub version: u64,
    pub last_modified: u64,
}

impl View for RibObject {
    type V = RibObjectModel;

    open spec fn view(&self) -> RibObjectModel {
        RibObjectModel {
            name: self.name@,
            class: self.class@,
            value: self.value@,
            version: self.version,
            last_modified: self.last_modified,
        }
    }
}

impl Clone for RibObject {
    /// Cloning keeps the object's model.
    fn clone(&self) -> (r: Self)
        ensures
            r@ == self@,
    {
        RibObject {
            name: self.name.clone(),
            class: self.class.clone(),
            value: self.value.clone(),
            version: self.version,
            last_modified: self.last_modified,
        }
    }
}

// ---------------------------------------------------------------------------
// Changes and the change log
// ---------------------------------------------------------------------------
/// One RIB mutation, as recorded for incremental synchronization.
#[derive(Debug)]
pub enum RibChange {
    /// An object was created.
    Created(RibObject),
    /// An object was updated.
    Updated(RibObject),
    /// An object was deleted; `version` is freshly assigned to the deletion.
    Deleted { name: String, version: u64, timestamp: u64 },
}

/// Mathematical model of a [`RibChange`].
pub enum RibChangeModel {
    Created(RibObjectModel),
    Updated(RibObjectModel),
    Deleted { name: Seq<char>, version: u64, timestamp: u64 },
}

impl RibChangeModel {
    /// The version the change carries.
    pub open spec fn spec_version(self) -> u64 {
        match self {
            RibChangeModel::Created(o) => o.version,
            RibChangeModel::Updated(o) => o.version,
            RibChangeModel::Deleted { version, .. } => version,
        }
    }
}

impl View for RibChange {
    type V = RibChangeModel;

    open spec fn view(&self) -> RibChangeModel {
        match self {
            RibChange::Created(o) => RibChangeModel::Created(o@),
            RibChange::Updated(o) => RibChangeModel::Updated(o@),
            RibChange::Deleted { name, version, timestamp } => RibChangeModel::Deleted {
                name: name@,
                version: *version,
                timestamp: *timestamp,
            },
        }
    }
}

impl Clone for RibChange {
    /// Cloning keeps the change's model.
    fn clone(&self) -> (r: Self)
        ensures
            r@ == self@,
    {
        match self {
            RibChange::Created(o) => RibChange::Created(o.clone()),
            RibChange::Updated(o) => RibChange::Updated(o.clone()),
            RibChange::Deleted { name, version, timestamp } => RibChange::Deleted {
                name: name.clone(),
                version: *version,
                timestamp: *timestamp,
            },
        }
    }
}

impl RibChange {
    /// The version number carried by this change.
    pub fn version(&self) -> (r: u64)
        ensures
            r == self@.spec_version(),
    {
        match self {
            RibChange::Created(o) => o.version,
            RibChange::Updated(o) => o.version,
            RibChange::Deleted { version, .. } => *version,
        }
    }

    /// The name of the object this change affects.
    pub fn object_name(&self) -> (r: &str)
        ensures
            match self@ {
                RibChangeModel::Created(o) => r@ == o.name,
                RibChangeModel::Updated(o) => r@ == o.name,
                RibChangeModel::Deleted { name, .. } => r@ == name,
            },
    {
        match self {
            RibChange::Created(o) => o.name.as_str(),
            RibChange::Updated(o) => o.name.as_str(),
            RibChange::Deleted { name, .. } => name.as_str(),
        }
    }
}

/// Model of a sequence of changes.
pub open spec fn changes_model(s: Seq<RibChange>) -> Seq<RibChangeModel> {
    Seq::new(s.len(), |i: int| s[i]@)
}

/// The changes with version strictly greater than `v`, oldest first.
pub open spec fn spec_changes_since(log: Seq<RibChangeModel>, v: u64) -> Seq<RibChangeModel> {
    log.filter(|c: RibChangeModel| c.spec_version() > v)
}

/// Filtering distributes over appending one change at the end.
proof fn lemma_changes_since_snoc(log: Seq<RibChangeModel>, c: RibChangeModel, v: u64)
    ensures
        spec_changes_since(log.push(c), v) == spec_changes_since(log, v) + (if c.spec_version()
            > v {
            seq![c]
        } else {
            Seq::<RibChangeModel>::empty()
        }),
{
    let pred = |x: RibChangeModel| x.spec_version() > v;
    reveal_with_fuel(Seq::filter, 2);
    assert(log.push(c).drop_last() =~= log);
    assert(log.push(c).last() == c);
    if c.spec_version() > v {
        assert(log.push(c).filter(pred) =~= log.filter(pred) + seq![c]);
    } else {
        assert(log.push(c).filter(pred) =~= log.filter(pred) + Seq::<RibChangeModel>::empty());
    }
}

/// Every change reported since a later version is also reported since any
/// earlier version: for `v1 <= v2`, the changes since `v1` are a superset
/// of the changes since `v2`.
pub proof fn lemma_changes_since_superset(log: Seq<RibChangeModel>, v1: u64, v2: u64)
    requires
        v1 <= v2,
    ensures
        forall|c: RibChangeModel|
            spec_changes_since(log, v2).contains(c) ==> spec_changes_since(log, v1).contains(c),
{
    let p1 = |x: RibChangeModel| x.spec_version() > v1;
    let p2 = |x: RibChangeModel| x.spec_version() > v2;
    assert forall|c: RibChangeModel|
        spec_changes_since(log, v2).contains(c) implies spec_changes_since(
        log,
        v1,
    ).contains(c) by {
        log.lemma_filter_contains_rev(p2, c);
        let i = choose|i: int| 0 <= i < log.len() && log[i] == c;
        log.lemma_filter_contains(p1, i);
    }
}

/// Model of the change log.
pub struct RibChangeLogModel {
    pub changes: Seq<RibChangeModel>,
    pub max_size: nat,
    pub oldest_version: u64,
}

/// Bounded log of recent RIB changes, oldest first.
///
/// When full, the oldest change is evicted and `oldest_version` advances
/// past it, so `get_changes_since` can tell a caller that it fell behind.
#[derive(Debug)]
pub struct RibChangeLog {
    changes: Vec<RibChange>,
    max_size: usize,
    oldest_version: u64,
}

impl View for RibChangeLog {
    type V = RibChangeLogModel;

    closed spec fn view(&self) -> RibChangeLogModel {
        RibChangeLogModel {
            changes: changes_model(self.changes@),
            max_size: self.max_size as nat,
            oldest_version: self.oldest_version,
        }
    }
}

/// A log appended under the eviction policy.
pub open spec fn spec_log_append(
    log: Seq<RibChangeModel>,
    cap: nat,
    c: RibChangeModel,
) -> Seq<RibChangeModel> {
    if log.len() >= cap {
        log.drop_first().push(c)
    } else {
        log.push(c)
    }
}

/// The oldest available version after an eviction.
pub open spec fn spec_oldest_after(
    log: Seq<RibChangeModel>,
    cap: nat,
    oldest: u64,
) -> u64 {
    if log.len() >= cap && log.len() > 0 {
        if log[0].spec_version() == u64::MAX {
            u64::MAX
        } else {
            (log[0].spec_version() + 1) as u64
        }
    } else {
        oldest
    }
}

impl RibChangeLog {
    /// Well-formed: bounded, never over capacity.
    pub open spec fn wf(&self) -> bool {
        &&& self@.max_size >= 1
        &&& self@.changes.len() <= self@.max_size
    }

    /// Creates an empty change log retaining at most `max_size` changes.
    pub fn new(max_size: usize) -> (r: Self)
        requires
            max_size >= 1,
        ensures
            r.wf(),
            r@.changes == Seq::<RibChangeModel>::empty(),
            r@.max_size == max_size as nat,
            r@.oldest_version == 0,
    {
        let r = RibChangeLog { changes: Vec::new(), max_size, oldest_version: 0 };
        proof {
            assert(changes_model(r.changes@) =~= Seq::<RibChangeModel>::empty());
        }
        r
    }

    /// Appends a change, evicting the oldest entry when at capacity.
    pub fn log_change(&mut self, change: RibChange)
        requires
            old(self).wf(),
        ensures
            final(self).wf(),
            final(self)@.changes == spec_log_append(
                old(self)@.changes,
                old(self)@.max_size,
                change@,
            ),
            final(self)@.oldest_version == spec_oldest_after(
                old(self)@.changes,
                old(self)@.max_size,
                old(self)@.oldest_version,
            ),
            final(self)@.max_size == old(self)@.max_size,
    {
        if self.changes.len() >= self.max_size {
            let removed = self.changes.remove(0);
            let v = removed.version();
            if v == u64::MAX {
                self.oldest_version = u64::MAX;
            } else {
                self.oldest_version = v + 1;
            }
            proof {
                assert(changes_model(self.changes@) =~= changes_model(
                    old(self).changes@,
                ).drop_first());
            }
        }
        let ghost mid = changes_model(self.changes@);
        self.changes.push(change);
        proof {
            assert(changes_model(self.changes@) =~= mid.push(change@));
        }
    }

    /// All changes with version strictly greater than `since_version`,
    /// oldest first; fails exactly when that version has already been
    /// evicted, in which case the caller must fall back to a full sync.
    pub fn get_changes_since(&self, since_version: u64) -> (r: Result<Vec<RibChange>, RibError>)
        ensures
            match r {
                Ok(cs) => since_version >= self@.oldest_version && changes_model(cs@)
                    == spec_changes_since(self@.changes, since_version),
                Err(e) => since_version < self@.oldest_version && e matches RibError::OperationFailed(_),
            },
    {
        if since_version < self.oldest_version {
            let mut msg = String::new();
            msg.append("version too old, full sync required");
            return Err(RibError::OperationFailed(msg));
        }
        let mut out: Vec<RibChange> = Vec::new();
        let mut i: usize = 0;
        while i < self.changes.len()
            invariant
                i <= self.changes@.len(),
                changes_model(out@) == spec_changes_since(
                    changes_model(self.changes@.take(i as int)),
                    since_version,
                ),
            decreases self.changes@.len() - i,
        {
            let ghost pre = changes_model(out@);
            let ghost logpre = changes_model(self.changes@.take(i as int));
            let c = &self.changes[i];
            if c.version() > since_version {
                out.push(c.clone());
                proof {
                    assert(changes_model(out@) =~= pre.push(self.changes@[i as int]@));
                }
            }
            proof {
                assert(changes_model(self.changes@.take(i as int + 1)) =~= logpre.push(
                    self.changes@[i as int]@,
                ));
                lemma_changes_since_snoc(logpre, self.changes@[i as int]@, since_version);
            }
            i = i + 1;
        }
        proof {
            assert(self.changes@.take(self.changes@.len() as int) =~= self.changes@);
            assert(changes_model(self.changes@) =~= self@.changes);
        }
        Ok(out)
    }

    /// The version of the newest change, or 0 when the log is empty.
    pub fn current_version(&self) -> (r: u64)
        ensures
            r == spec_current_version(self@.changes),
    {
        if self.changes.len() == 0 {
            0
        } else {
            self.changes[self.changes.len() - 1].version()
        }
    }

    /// The number of retained changes.
    pub fn len(&self) -> (r: usize)
        ensures
            r == self@.changes.len(),
    {
        self.changes.len()
    }

    /// True when no changes are retained.
    pub fn is_empty(&self) -> (r: bool)
        ensures
            r == (self@.changes.len() == 0),
    {
        self.changes.len() == 0
    }

    /// Records that remote changes up to `version` have been applied, so
    /// that `current_version` reflects them, without re-logging the remote
    /// changes themselves.  A synthetic deletion entry serves as the marker.
    pub fn update_version_marker(&mut self, version: u64, timestamp: u64)
        requires
            old(self).wf(),
        ensures
            final(self).wf(),
            final(self)@.max_size == old(self)@.max_size,
            spec_current_version(final(self)@.changes) >= version,
            spec_current_version(final(self)@.changes) >= spec_current_version(
                old(self)@.changes,
            ),
            if old(self)@.changes.len() > 0 && version <= spec_current_version(
                old(self)@.changes,
            ) {
                final(self)@ == old(self)@
            } else {
                final(self)@.changes == spec_log_append(
                    old(self)@.changes,
                    old(self)@.max_size,
                    RibChangeModel::Deleted {
                        name: spec_marker_name(version),
                        version,
                        timestamp,
                    },
                ) && final(self)@.oldest_version == spec_oldest_after(
                    old(self)@.changes,
                    old(self)@.max_size,
                    old(self)@.oldest_version,
                )
            },
    {
        if self.changes.len() > 0 {
            let last = self.changes[self.changes.len() - 1].version();
            if version <= last {
                return ;
            }
        }
        let mut name = String::new();
        name.append("__sync_marker_");
        let digits = crate::strutil::u64_to_string(version);
        name.append(digits.as_str());
        let marker = RibChange::Deleted { name, version, timestamp };
        self.log_change(marker);
        proof {
            let post = final(self)@.changes;
            assert(post[post.len() - 1].spec_version() == version);
        }
    }
}

/// The name of the synthetic change that marks a remotely applied version.
pub open spec fn spec_marker_name(version: u64) -> Seq<char> {
    "__sync_marker_"@ + crate::strutil::spec_u64_digits(version)
}

/// The change log after remote changes up to `maxv` were applied at `ts`:
/// the incoming changes are never re-logged; at most one synthetic marker
/// is appended, under the eviction rule, and only when `maxv` is ahead of
/// the newest logged version.
pub open spec fn spec_log_after_sync(
    log: RibChangeLogModel,
    maxv: u64,
    ts: u64,
) -> RibChangeLogModel {
    if maxv == 0 || (log.changes.len() > 0 && maxv <= spec_current_version(log.changes)) {
        log
    } else {
        RibChangeLogModel {
            changes: spec_log_append(
                log.changes,
                log.max_size,
                RibChangeModel::Deleted { name: spec_marker_name(maxv), version: maxv, timestamp: ts },
            ),
            max_size: log.max_size,
            oldest_version: spec_oldest_after(log.changes, log.max_size, log.oldest_version),
        }
    }
}

/// The version of the newest change in a log, or 0 when it is empty.
pub open spec fn spec_current_version(log: Seq<RibChangeModel>) -> u64 {
    if log.len() == 0 {
        0
    } else {
        log[log.len() - 1].spec_version()
    }
}


// ---------------------------------------------------------------------------
// The object store
// ---------------------------------------------------------------------------
/// Model of a sequence of stored objects.
pub open spec fn objects_model(s: Seq<RibObject>) -> Seq<RibObjectModel> {
    Seq::new(s.len(), |i: int| s[i]@)
}

/// Model of a sequence of object names.
pub open spec fn strings_model(s: Seq<String>) -> Seq<Seq<char>> {
    Seq::new(s.len(), |i: int| s[i]@)
}

/// Index of the first object with the given name, or -1 when absent.
pub open spec fn spec_index_of(objs: Seq<RibObjectModel>, name: Seq<char>) -> int
    decreases objs.len(),
{
    if objs.len() == 0 {
        -1
    } else if objs[0].name == name {
        0
    } else {
        let r = spec_index_of(objs.drop_first(), name);
        if r == -1 {
            -1
        } else {
            r + 1
        }
    }
}

/// The first object with the given name, if any.
pub open spec fn spec_lookup(objs: Seq<RibObjectModel>, name: Seq<char>) -> Option<RibObjectModel> {
    let i = spec_index_of(objs, name);
    if i == -1 {
        None
    } else {
        Some(objs[i])
    }
}

/// No two stored objects share a name.
pub open spec fn spec_names_unique(objs: Seq<RibObjectModel>) -> bool {
    forall|i: int, j: int|
        0 <= i < j < objs.len() ==> (#[trigger] objs[i]).name != (#[trigger] objs[j]).name
}

/// Basic properties of `spec_index_of`.
pub proof fn lemma_index_of(objs: Seq<RibObjectModel>, name: Seq<char>)
    ensures
        spec_index_of(objs, name) == -1 <==> (forall|k: int|
            0 <= k < objs.len() ==> (#[trigger] objs[k]).name != name),
        spec_index_of(objs, name) != -1 ==> 0 <= spec_index_of(objs, name) < objs.len()
            && objs[spec_index_of(objs, name)].name == name && (forall|k: int|
            0 <= k < spec_index_of(objs, name) ==> (#[trigger] objs[k]).name != name),
    decreases objs.len(),
{
    if objs.len() > 0 {
        let tail = objs.drop_first();
        lemma_index_of(tail, name);
        assert(forall|k: int| 0 <= k < tail.len() ==> #[trigger] tail[k] == objs[k + 1]);
        if objs[0].name == name {
            assert(spec_index_of(objs, name) == 0);
        } else {
            let r = spec_index_of(tail, name);
            if r == -1 {
                assert forall|k: int| 0 <= k < objs.len() implies (#[trigger] objs[k]).name
                    != name by {
                    if k > 0 {
                        assert(tail[k - 1] == objs[k]);
                    }
                }
            } else {
                assert(spec_index_of(objs, name) == r + 1);
                assert(objs[r + 1] == tail[r]);
                assert forall|k: int| 0 <= k < r + 1 implies (#[trigger] objs[k]).name != name by {
                    if k > 0 {
                        assert(tail[k - 1] == objs[k]);
                    }
                }
            }
        }
    }
}

/// A freshly built object model.
pub open spec fn spec_object(
    name: Seq<char>,
    class: Seq<char>,
    value: RibValueModel,
    version: u64,
    last_modified: u64,
) -> RibObjectModel {
    RibObjectModel { name, class, value, version, last_modified }
}

/// Model of the whole RIB.
pub struct RibModel {
    pub objects: Seq<RibObjectModel>,
    pub version_counter: u64,
    pub log: RibChangeLogModel,
}

/// The Resource Information Base: the node's versioned object store with a
/// bounded change log for incremental synchronization.
#[derive(Debug)]
pub struct Rib {
    objects: Vec<RibObject>,
    version_counter: u64,
    change_log: RibChangeLog,
}

impl View for Rib {
    type V = RibModel;

    closed spec fn view(&self) -> RibModel {
        RibModel {
            objects: objects_model(self.objects@),
            version_counter: self.version_counter,
            log: self.change_log@,
        }
    }
}

impl Rib {
    /// Well-formed: unique names, versions dominated by the counter, and a
    /// bounded change log whose entries' versions are also dominated.
    pub open spec fn wf(&self) -> bool {
        &&& spec_names_unique(self@.objects)
        &&& forall|i: int|
            0 <= i < self@.objects.len() ==> (#[trigger] self@.objects[i]).version
                <= self@.version_counter
        &&& self@.log.max_size >= 1
        &&& self@.log.changes.len() <= self@.log.max_size
        &&& forall|i: int|
            0 <= i < self@.log.changes.len() ==> (#[trigger] self@.log.changes[i]).spec_version()
                <= self@.version_counter
    }

    /// Creates an empty RIB with the default change-log capacity of 1000.
    pub fn new() -> (r: Self)
        ensures
            r.wf(),
            r@.objects == Seq::<RibObjectModel>::empty(),
            r@.version_counter == 0,
            r@.log.changes == Seq::<RibChangeModel>::empty(),
            r@.log.max_size == 1000,
            r@.log.oldest_version == 0,
    {
        Self::with_change_log_size(1000)
    }

    /// Creates an empty RIB retaining at most `change_log_size` changes.
    pub fn with_change_log_size(change_log_size: usize) -> (r: Self)
        requires
            change_log_size >= 1,
        ensures
            r.wf(),
            r@.objects == Seq::<RibObjectModel>::empty(),
            r@.version_counter == 0,
            r@.log.changes == Seq::<RibChangeModel>::empty(),
            r@.log.max_size == change_log_size as nat,
            r@.log.oldest_version == 0,
    {
        let r = Rib {
            objects: Vec::new(),
            version_counter: 0,
            change_log: RibChangeLog::new(change_log_size),
        };
        proof {
            assert(objects_model(r.objects@) =~= Seq::<RibObjectModel>::empty());
        }
        r
    }

    /// Index of the object with this name, if present.
    #[verifier::loop_isolation(false)]
    fn find_index(&self, name: &str) -> (r: Option<usize>)
        ensures
            match r {
                Some(i) => i < self@.objects.len() && self@.objects[i as int].name == name@
                    && spec_index_of(self@.objects, name@) == i as int,
                None => spec_index_of(self@.objects, name@) == -1,
            },
    {
        let mut i: usize = 0;
        while i < self.objects.len()
            invariant
                i <= self.objects@.len(),
                forall|k: int| 0 <= k < i ==> (#[trigger] self@.objects[k]).name != name@,
            decreases self.objects@.len() - i,
        {
            if str_eq(self.objects[i].name.as_str(), name) {
                proof {
                    lemma_index_of(self@.objects, name@);
                }
                return Some(i);
            }
            i = i + 1;
        }
        proof {
            lemma_index_of(self@.objects, name@);
        }
        None
    }

    /// Creates an object under a fresh version, stamped with `now` (Unix
    /// seconds).  Fails exactly when the name is already taken.  The fresh
    /// version is strictly greater than the version of every object already
    /// in the store.
    pub fn create_at(&mut self, name: String, class: String, value: RibValue, now: u64) -> (r:
        Result<(), RibError>)
        requires
            old(self).wf(),
            old(self)@.version_counter < u64::MAX,
        ensures
            final(self).wf(),
            final(self)@.log.max_size == old(self)@.log.max_size,
            match r {
                Ok(_) => {
                    let obj = spec_object(
                        name@,
                        class@,
                        value@,
                        (old(self)@.version_counter + 1) as u64,
                        now,
                    );
                    &&& spec_lookup(old(self)@.objects, name@) is None
                    &&& final(self)@.objects == old(self)@.objects.push(obj)
                    &&& final(self)@.version_counter == old(self)@.version_counter + 1
                    &&& final(self)@.log.changes == spec_log_append(
                        old(self)@.log.changes,
                        old(self)@.log.max_size,
                        RibChangeModel::Created(obj),
                    )
                    &&& spec_current_version(final(self)@.log.changes) == obj.version
                    &&& forall|k: int|
                        0 <= k < old(self)@.objects.len() ==> (#[trigger] old(
                            self,
                        )@.objects[k]).version < obj.version
                },
                Err(e) => {
                    &&& e matches RibError::AlreadyExists(n) && n@ == name@
                    &&& spec_lookup(old(self)@.objects, name@) is Some
                    &&& final(self)@ == old(self)@
                },
            },
    {
        match self.find_index(name.as_str()) {
            Some(_) => Err(RibError::AlreadyExists(name)),
            None => {
                proof {
                    lemma_index_of(self@.objects, name@);
                }
                let version = self.version_counter + 1;
                self.version_counter = version;
                let obj = RibObject { name, class, value, version, last_modified: now };
                let logged = RibChange::Created(obj.clone());
                let ghost pre_log = self.change_log@.changes;
                self.change_log.log_change(logged);
                let ghost pre_objs = objects_model(self.objects@);
                self.objects.push(obj);
                proof {
                    assert(objects_model(self.objects@) =~= pre_objs.push(obj@));
                    let post = final(self)@.log.changes;
                    assert(post[post.len() - 1].spec_version() == version);
                    assert forall|i: int|
                        0 <= i < post.len() implies (#[trigger] post[i]).spec_version()
                        <= final(self)@.version_counter by {
                        if i < post.len() - 1 {
                            if pre_log.len() >= old(self)@.log.max_size {
                                assert(post[i] == pre_log[i + 1]);
                            } else {
                                assert(post[i] == pre_log[i]);
                            }
                        }
                    }
                }
                Ok(())
            },
        }
    }

    /// Creates an object stamped with the current system time.
    pub fn create(&mut self, name: String, class: String, value: RibValue) -> (r: Result<
        (),
        RibError,
    >)
        requires
            old(self).wf(),
            old(self)@.version_counter < u64::MAX,
        ensures
            final(self).wf(),
            final(self)@.log.max_size == old(self)@.log.max_size,
            match r {
                Ok(_) => {
                    &&& spec_lookup(old(self)@.objects, name@) is None
                    &&& final(self)@.version_counter == old(self)@.version_counter + 1
                    &&& spec_current_version(final(self)@.log.changes) == old(
                        self,
                    )@.version_counter + 1
                    &&& exists|ts: u64|
                        final(self)@.objects == old(self)@.objects.push(
                            #[trigger] spec_object(
                                name@,
                                class@,
                                value@,
                                (old(self)@.version_counter + 1) as u64,
                                ts,
                            ),
                        )
                },
                Err(e) => e matches RibError::AlreadyExists(n) && n@ == name@ && spec_lookup(
                    old(self)@.objects,
                    name@,
                ) is Some && final(self)@ == old(self)@,
            },
    {
        let now = crate::clock::unix_now_secs();
        let r = self.create_at(name, class, value, now);
        proof {
            if r is Ok {
                assert(final(self)@.objects == old(self)@.objects.push(
                    spec_object(
                        name@,
                        class@,
                        value@,
                        (old(self)@.version_counter + 1) as u64,
                        now,
                    ),
                ));
            }
        }
        r
    }

    /// Reads an object by name.
    pub fn read(&self, name: &str) -> (r: Option<RibObject>)
        ensures
            match r {
                Some(o) => spec_lookup(self@.objects, name@) == Some(o@),
                None => spec_lookup(self@.objects, name@) is None,
            },
    {
        match self.find_index(name) {
            Some(i) => Some(self.objects[i].clone()),
            None => None,
        }
    }

    /// Replaces an object's value under a fresh version, stamped with `now`
    /// but never moving the modification stamp backwards.  Fails exactly
    /// when the name is unknown.  The new version is strictly greater than
    /// the old one, and the stamp does not decrease.
    pub fn update_at(&mut self, name: &str, value: RibValue, now: u64) -> (r: Result<(), RibError>)
        requires
            old(self).wf(),
            old(self)@.version_counter < u64::MAX,
        ensures
            final(self).wf(),
            final(self)@.log.max_size == old(self)@.log.max_size,
            match r {
                Ok(_) => {
                    let i = spec_index_of(old(self)@.objects, name@);
                    let prev = old(self)@.objects[i];
                    let stamp = if now >= prev.last_modified {
                        now
                    } else {
                        prev.last_modified
                    };
                    let obj = spec_object(
                        name@,
                        prev.class,
                        value@,
                        (old(self)@.version_counter + 1) as u64,
                        stamp,
                    );
                    &&& i != -1
                    &&& final(self)@.objects == old(self)@.objects.update(i, obj)
                    &&& final(self)@.version_counter == old(self)@.version_counter + 1
                    &&& obj.version > prev.version
                    &&& obj.last_modified >= prev.last_modified
                    &&& final(self)@.log.changes == spec_log_append(
                        old(self)@.log.changes,
                        old(self)@.log.max_size,
                        RibChangeModel::Updated(obj),
                    )
                    &&& spec_current_version(final(self)@.log.changes) == obj.version
                },
                Err(e) => {
                    &&& e matches RibError::NotFound(n) && n@ == name@
                    &&& spec_lookup(old(self)@.objects, name@) is None
                    &&& final(self)@ == old(self)@
                },
            },
    {
        match self.find_index(name) {
            None => {
                proof {
                    lemma_index_of(self@.objects, name@);
                }
                let mut n = String::new();
                n.append(name);
                Err(RibError::NotFound(n))
            },
            Some(i) => {
                let version = self.version_counter + 1;
                self.version_counter = version;
                let prev_stamp = self.objects[i].last_modified;
                let stamp = if now >= prev_stamp {
                    now
                } else {
                    prev_stamp
                };
                let mut n = String::new();
                n.append(name);
                let class = self.objects[i].class.clone();
                let obj = RibObject { name: n, class, value, version, last_modified: stamp };
                let logged = RibChange::Updated(obj.clone());
                let ghost pre_log = self.change_log@.changes;
                self.change_log.log_change(logged);
                let ghost pre_objs = objects_model(self.objects@);
                self.objects.set(i, obj);
                proof {
                    assert(objects_model(self.objects@) =~= pre_objs.update(i as int, obj@));
                    let post = final(self)@.log.changes;
                    assert(post[post.len() - 1].spec_version() == version);
                    assert forall|k: int|
                        0 <= k < post.len() implies (#[trigger] post[k]).spec_version()
                        <= final(self)@.version_counter by {
                        if k < post.len() - 1 {
                            if pre_log.len() >= old(self)@.log.max_size {
                                assert(post[k] == pre_log[k + 1]);
                            } else {
                                assert(post[k] == pre_log[k]);
                            }
                        }
                    }
                    let post_objs = final(self)@.objects;
                    assert forall|a: int, b: int|
                        0 <= a < b < post_objs.len() implies (#[trigger] post_objs[a]).name != (
                    #[trigger] post_objs[b]).name by {
                        assert(old(self)@.objects[a].name != old(self)@.objects[b].name);
                    }
                }
                Ok(())
            },
        }
    }

    /// Replaces an object's value, stamped with the current system time.
    pub fn update(&mut self, name: &str, value: RibValue) -> (r: Result<(), RibError>)
        requires
            old(self).wf(),
            old(self)@.version_counter < u64::MAX,
        ensures
            final(self).wf(),
            final(self)@.log.max_size == old(self)@.log.max_size,
            match r {
                Ok(_) => {
                    let i = spec_index_of(old(self)@.objects, name@);
                    let prev = old(self)@.objects[i];
                    &&& i != -1
                    &&& final(self)@.version_counter == old(self)@.version_counter + 1
                    &&& old(self)@.version_counter + 1 > prev.version
                    &&& spec_current_version(final(self)@.log.changes) == old(
                        self,
                    )@.version_counter + 1
                    &&& exists|stamp: u64|
                        stamp >= prev.last_modified && final(self)@.objects == old(
                            self,
                        )@.objects.update(
                            i,
                            #[trigger] spec_object(
                                name@,
                                prev.class,
                                value@,
                                (old(self)@.version_counter + 1) as u64,
                                stamp,
                            ),
                        )
                },
                Err(e) => {
                    &&& e matches RibError::NotFound(n) && n@ == name@
                    &&& spec_lookup(old(self)@.objects, name@) is None
                    &&& final(self)@ == old(self)@
                },
            },
    {
        let now = crate::clock::unix_now_secs();
        let r = self.update_at(name, value, now);
        proof {
            if r is Ok {
                let i = spec_index_of(old(self)@.objects, name@);
                let prev = old(self)@.objects[i];
                let stamp = if now >= prev.last_modified {
                    now
                } else {
                    prev.last_modified
                };
                let obj = spec_object(
                    name@,
                    prev.class,
                    value@,
                    (old(self)@.version_counter + 1) as u64,
                    stamp,
                );
                assert(final(self)@.objects == old(self)@.objects.update(i, obj));
            }
        }
        r
    }

    /// Deletes an object, logging the deletion under a fresh version
    /// stamped with `now`.  Fails exactly when the name is unknown.
    pub fn delete_at(&mut self, name: &str, now: u64) -> (r: Result<(), RibError>)
        requires
            old(self).wf(),
            old(self)@.version_counter < u64::MAX,
        ensures
            final(self).wf(),
            final(self)@.log.max_size == old(self)@.log.max_size,
            match r {
                Ok(_) => {
                    let i = spec_index_of(old(self)@.objects, name@);
                    &&& i != -1
                    &&& final(self)@.objects == old(self)@.objects.remove(i)
                    &&& final(self)@.version_counter == old(self)@.version_counter + 1
                    &&& final(self)@.log.changes == spec_log_append(
                        old(self)@.log.changes,
                        old(self)@.log.max_size,
                        RibChangeModel::Deleted {
                            name: name@,
                            version: (old(self)@.version_counter + 1) as u64,
                            timestamp: now,
                        },
                    )
                    &&& spec_current_version(final(self)@.log.changes) == old(
                        self,
                    )@.version_counter + 1
                },
                Err(e) => {
                    &&& e matches RibError::NotFound(n) && n@ == name@
                    &&& spec_lookup(old(self)@.objects, name@) is None
                    &&& final(self)@ == old(self)@
                },
            },
    {
        match self.find_index(name) {
            None => {
                proof {
                    lemma_index_of(self@.objects, name@);
                }
                let mut n = String::new();
                n.append(name);
                Err(RibError::NotFound(n))
            },
            Some(i) => {
                let version = self.version_counter + 1;
                self.version_counter = version;
                let mut n = String::new();
                n.append(name);
                let logged = RibChange::Deleted { name: n, version, timestamp: now };
                let ghost pre_log = self.change_log@.changes;
                self.change_log.log_change(logged);
                let ghost pre_objs = objects_model(self.objects@);
                self.objects.remove(i);
                proof {
                    assert(objects_model(self.objects@) =~= pre_objs.remove(i as int));
                    let post = final(self)@.log.changes;
                    assert(post[post.len() - 1].spec_version() == version);
                    assert forall|k: int|
                        0 <= k < post.len() implies (#[trigger] post[k]).spec_version()
                        <= final(self)@.version_counter by {
                        if k < post.len() - 1 {
                            if pre_log.len() >= old(self)@.log.max_size {
                                assert(post[k] == pre_log[k + 1]);
                            } else {
                                assert(post[k] == pre_log[k]);
                            }
                        }
                    }
                    let post_objs = final(self)@.objects;
                    assert forall|a: int, b: int|
                        0 <= a < b < post_objs.len() implies (#[trigger] post_objs[a]).name != (
                    #[trigger] post_objs[b]).name by {
                        let pre = old(self)@.objects;
                        let aa = if a < i as int {
                            a
                        } else {
                            a + 1
                        };
                        let bb = if b < i as int {
                            b
                        } else {
                            b + 1
                        };
                        assert(post_objs[a] == pre[aa]);
                        assert(post_objs[b] == pre[bb]);
                        assert(pre[aa].name != pre[bb].name);
                    }
                }
                Ok(())
            },
        }
    }

    /// Deletes an object, stamping the deletion with the current system time.
    pub fn delete(&mut self, name: &str) -> (r: Result<(), RibError>)
        requires
            old(self).wf(),
            old(self)@.version_counter < u64::MAX,
        ensures
            final(self).wf(),
            final(self)@.log.max_size == old(self)@.log.max_size,
            match r {
                Ok(_) => {
                    let i = spec_index_of(old(self)@.objects, name@);
                    &&& i != -1
                    &&& final(self)@.objects == old(self)@.objects.remove(i)
                    &&& final(self)@.version_counter == old(self)@.version_counter + 1
                    &&& spec_current_version(final(self)@.log.changes) == old(
                        self,
                    )@.version_counter + 1
                },
                Err(e) => {
                    &&& e matches RibError::NotFound(n) && n@ == name@
                    &&& spec_lookup(old(self)@.objects, name@) is None
                    &&& final(self)@ == old(self)@
                },
            },
    {
        let now = crate::clock::unix_now_secs();
        self.delete_at(name, now)
    }

    /// Names of all objects of the given class, in store order.
    #[verifier::loop_isolation(false)]
    pub fn list_by_class(&self, class: &str) -> (r: Vec<String>)
        ensures
            strings_model(r@) == self@.objects.filter(
                |o: RibObjectModel| o.class == class@,
            ).map_values(|o: RibObjectModel| o.name),
    {
        let mut out: Vec<String> = Vec::new();
        let mut i: usize = 0;
        while i < self.objects.len()
            invariant
                i <= self.objects@.len(),
                strings_model(out@) == self@.objects.take(i as int).filter(
                    |o: RibObjectModel| o.class == class@,
                ).map_values(|o: RibObjectModel| o.name),
            decreases self.objects@.len() - i,
        {
            let ghost pre = strings_model(out@);
            let ghost taken = self@.objects.take(i as int);
            let ghost cur = self@.objects[i as int];
            if str_eq(self.objects[i].class.as_str(), class) {
                out.push(self.objects[i].name.clone());
                proof {
                    assert(strings_model(out@) =~= pre.push(cur.name));
                }
            }
            proof {
                let p = |o: RibObjectModel| o.class == class@;
                reveal_with_fuel(Seq::filter, 2);
                assert(self@.objects.take(i as int + 1).drop_last() =~= taken);
                assert(self@.objects.take(i as int + 1).last() == cur);
                if p(cur) {
                    assert(self@.objects.take(i as int + 1).filter(p) =~= taken.filter(p).push(
                        cur,
                    ));
                    assert(taken.filter(p).push(cur).map_values(|o: RibObjectModel| o.name)
                        =~= taken.filter(p).map_values(|o: RibObjectModel| o.name).push(cur.name));
                } else {
                    assert(self@.objects.take(i as int + 1).filter(p) =~= taken.filter(p));
                }
            }
            i = i + 1;
        }
        proof {
            assert(self@.objects.take(self@.objects.len() as int) =~= self@.objects);
        }
        out
    }

    /// Names of all stored objects, in store order.
    #[verifier::loop_isolation(false)]
    pub fn list_all(&self) -> (r: Vec<String>)
        ensures
            strings_model(r@) == self@.objects.map_values(|o: RibObjectModel| o.name),
    {
        let mut out: Vec<String> = Vec::new();
        let mut i: usize = 0;
        while i < self.objects.len()
            invariant
                i <= self.objects@.len(),
                strings_model(out@) == self@.objects.take(i as int).map_values(
                    |o: RibObjectModel| o.name,
                ),
            decreases self.objects@.len() - i,
        {
            let ghost pre = strings_model(out@);
            out.push(self.objects[i].name.clone());
            proof {
                assert(strings_model(out@) =~= pre.push(self@.objects[i as int].name));
                assert(self@.objects.take(i as int + 1).map_values(|o: RibObjectModel| o.name)
                    =~= self@.objects.take(i as int).map_values(|o: RibObjectModel| o.name).push(
                    self@.objects[i as int].name,
                ));
            }
            i = i + 1;
        }
        proof {
            assert(self@.objects.take(self@.objects.len() as int) =~= self@.objects);
        }
        out
    }

    /// The current value of the version counter.
    pub fn current_version_counter(&self) -> (r: u64)
        ensures
            r == self@.version_counter,
    {
        self.version_counter
    }

    /// Whether the version counter can still assign a fresh version.
    pub fn version_counter_room(&self) -> (r: bool)
        ensures
            r == (self@.version_counter < u64::MAX),
    {
        self.version_counter < u64::MAX
    }

    /// The number of stored objects.
    pub fn count(&self) -> (r: usize)
        ensures
            r == self@.objects.len(),
    {
        self.objects.len()
    }

    /// Removes every object; the change log and version counter stay.
    pub fn clear(&mut self)
        ensures
            final(self)@.objects == Seq::<RibObjectModel>::empty(),
            final(self)@.version_counter == old(self)@.version_counter,
            final(self)@.log == old(self)@.log,
            old(self).wf() ==> final(self).wf(),
    {
        self.objects.clear();
        proof {
            assert(objects_model(self.objects@) =~= Seq::<RibObjectModel>::empty());
        }
    }

    /// Copies of all stored objects, in store order.
    pub fn get_all_objects(&self) -> (r: Vec<RibObject>)
        ensures
            objects_model(r@) == self@.objects,
    {
        let mut out: Vec<RibObject> = Vec::new();
        let mut i: usize = 0;
        while i < self.objects.len()
            invariant
                i <= self.objects@.len(),
                objects_model(out@) == objects_model(self.objects@).take(i as int),
            decreases self.objects@.len() - i,
        {
            let ghost pre = objects_model(out@);
            out.push(self.objects[i].clone());
            proof {
                assert(objects_model(out@) =~= pre.push(self.objects@[i as int]@));
                assert(objects_model(self.objects@).take(i as int + 1) =~= objects_model(
                    self.objects@,
                ).take(i as int).push(self.objects@[i as int]@));
            }
            i = i + 1;
        }
        proof {
            assert(objects_model(self.objects@).take(self.objects@.len() as int) =~= objects_model(
                self.objects@,
            ));
        }
        out
    }

    /// All changes with version strictly greater than `since_version`,
    /// oldest first; fails exactly when that version has been evicted.
    pub fn get_changes_since(&self, since_version: u64) -> (r: Result<Vec<RibChange>, RibError>)
        ensures
            match r {
                Ok(cs) => since_version >= self@.log.oldest_version && changes_model(cs@)
                    == spec_changes_since(self@.log.changes, since_version),
                Err(e) => since_version < self@.log.oldest_version && e matches RibError::OperationFailed(_),
            },
    {
        self.change_log.get_changes_since(since_version)
    }

    /// The version of the newest change, or 0 when the log is empty.
    pub fn current_version(&self) -> (r: u64)
        ensures
            r == spec_current_version(self@.log.changes),
    {
        self.change_log.current_version()
    }
}

impl Default for Rib {
    /// An empty RIB with the default change-log capacity.
    fn default() -> (r: Self)
        ensures
            r.wf(),
            r@.objects == Seq::<RibObjectModel>::empty(),
            r@.version_counter == 0,
    {
        Self::new()
    }
}


// ---------------------------------------------------------------------------
// Merging snapshots and applying remote changes
// ---------------------------------------------------------------------------
/// The larger of two versions.
pub open spec fn spec_max_u64(a: u64, b: u64) -> u64 {
    if a >= b {
        a
    } else {
        b
    }
}

/// The highest version among a batch of objects, 0 for an empty batch.
pub open spec fn spec_max_version(s: Seq<RibObjectModel>) -> u64
    decreases s.len(),
{
    if s.len() == 0 {
        0
    } else {
        spec_max_u64(s[0].version, spec_max_version(s.drop_first()))
    }
}

/// Whether merging `o` into `m` changes the store: the name is new, or the
/// incoming version is strictly higher.
pub open spec fn spec_merge_applies(m: Seq<RibObjectModel>, o: RibObjectModel) -> bool {
    let i = spec_index_of(m, o.name);
    i == -1 || o.version > m[i].version
}

/// One object merged under the "highest version wins" rule.
pub open spec fn spec_merge_one(m: Seq<RibObjectModel>, o: RibObjectModel) -> Seq<RibObjectModel> {
    let i = spec_index_of(m, o.name);
    if i == -1 {
        m.push(o)
    } else if o.version > m[i].version {
        m.update(i, o)
    } else {
        m
    }
}

/// A batch of objects merged left to right.
pub open spec fn spec_merge(m: Seq<RibObjectModel>, inc: Seq<RibObjectModel>) -> Seq<
    RibObjectModel,
>
    decreases inc.len(),
{
    if inc.len() == 0 {
        m
    } else {
        spec_merge(spec_merge_one(m, inc[0]), inc.drop_first())
    }
}

/// How many objects of the batch change the store.
pub open spec fn spec_merge_count(m: Seq<RibObjectModel>, inc: Seq<RibObjectModel>) -> nat
    decreases inc.len(),
{
    if inc.len() == 0 {
        0
    } else {
        (if spec_merge_applies(m, inc[0]) {
            1nat
        } else {
            0nat
        }) + spec_merge_count(spec_merge_one(m, inc[0]), inc.drop_first())
    }
}

/// Merging one more object at the end of the batch.
proof fn lemma_merge_snoc(m: Seq<RibObjectModel>, s: Seq<RibObjectModel>, x: RibObjectModel)
    ensures
        spec_merge(m, s.push(x)) == spec_merge_one(spec_merge(m, s), x),
        spec_merge_count(m, s.push(x)) == spec_merge_count(m, s) + (if spec_merge_applies(
            spec_merge(m, s),
            x,
        ) {
            1nat
        } else {
            0nat
        }),
    decreases s.len(),
{
    reveal_with_fuel(spec_merge, 3);
    reveal_with_fuel(spec_merge_count, 3);
    if s.len() == 0 {
        assert(s.push(x)[0] == x);
        assert(s.push(x).drop_first() =~= Seq::<RibObjectModel>::empty());
    } else {
        assert(s.push(x)[0] == s[0]);
        assert(s.push(x).drop_first() =~= s.drop_first().push(x));
        lemma_merge_snoc(spec_merge_one(m, s[0]), s.drop_first(), x);
    }
}

/// The highest version of one more object at the end of the batch.
proof fn lemma_max_version_snoc(s: Seq<RibObjectModel>, x: RibObjectModel)
    ensures
        spec_max_version(s.push(x)) == spec_max_u64(spec_max_version(s), x.version),
    decreases s.len(),
{
    reveal_with_fuel(spec_max_version, 3);
    if s.len() == 0 {
        assert(s.push(x)[0] == x);
        assert(s.push(x).drop_first() =~= Seq::<RibObjectModel>::empty());
    } else {
        assert(s.push(x)[0] == s[0]);
        assert(s.push(x).drop_first() =~= s.drop_first().push(x));
        lemma_max_version_snoc(s.drop_first(), x);
    }
}

/// The highest version dominates every version in the batch.
pub proof fn lemma_max_version_dominates(s: Seq<RibObjectModel>)
    ensures
        forall|k: int| 0 <= k < s.len() ==> (#[trigger] s[k]).version <= spec_max_version(s),
    decreases s.len(),
{
    if s.len() > 0 {
        lemma_max_version_dominates(s.drop_first());
        assert forall|k: int| 0 <= k < s.len() implies (#[trigger] s[k]).version
            <= spec_max_version(s) by {
            if k > 0 {
                assert(s.drop_first()[k - 1] == s[k]);
                assert(s.drop_first()[k - 1].version <= spec_max_version(s.drop_first()));
            }
        }
    }
}

proof fn lemma_unique_push(m: Seq<RibObjectModel>, o: RibObjectModel)
    requires
        spec_names_unique(m),
        forall|k: int| 0 <= k < m.len() ==> (#[trigger] m[k]).name != o.name,
    ensures
        spec_names_unique(m.push(o)),
{
    let post = m.push(o);
    assert forall|i: int, j: int|
        0 <= i < j < post.len() implies (#[trigger] post[i]).name != (#[trigger] post[j]).name by {
        if j < m.len() {
            assert(m[i].name != m[j].name);
        } else {
            assert(post[j] == o);
            assert(post[i] == m[i]);
        }
    }
}

proof fn lemma_unique_update(m: Seq<RibObjectModel>, i: int, o: RibObjectModel)
    requires
        spec_names_unique(m),
        0 <= i < m.len(),
        o.name == m[i].name,
    ensures
        spec_names_unique(m.update(i, o)),
{
    let post = m.update(i, o);
    assert forall|a: int, b: int|
        0 <= a < b < post.len() implies (#[trigger] post[a]).name != (#[trigger] post[b]).name by {
        assert(m[a].name != m[b].name);
    }
}

proof fn lemma_unique_remove(m: Seq<RibObjectModel>, i: int)
    requires
        spec_names_unique(m),
        0 <= i < m.len(),
    ensures
        spec_names_unique(m.remove(i)),
{
    let post = m.remove(i);
    assert forall|a: int, b: int|
        0 <= a < b < post.len() implies (#[trigger] post[a]).name != (#[trigger] post[b]).name by {
        let aa = if a < i {
            a
        } else {
            a + 1
        };
        let bb = if b < i {
            b
        } else {
            b + 1
        };
        assert(post[a] == m[aa]);
        assert(post[b] == m[bb]);
        assert(m[aa].name != m[bb].name);
    }
}

impl Rib {
    /// Merges a batch of objects under the "highest version wins" rule,
    /// stamping the synchronization marker with `now`.  Returns how many
    /// objects were inserted or replaced.  The version counter advances to
    /// the highest version seen, so later local creations stay monotonic.
    #[verifier::loop_isolation(false)]
    pub fn merge_objects_at(&mut self, incoming: Vec<RibObject>, now: u64) -> (r: usize)
        requires
            old(self).wf(),
        ensures
            final(self).wf(),
            final(self)@.log.max_size == old(self)@.log.max_size,
            final(self)@.objects == spec_merge(old(self)@.objects, objects_model(incoming@)),
            r == spec_merge_count(old(self)@.objects, objects_model(incoming@)),
            final(self)@.version_counter == spec_max_u64(
                old(self)@.version_counter,
                spec_max_version(objects_model(incoming@)),
            ),
            spec_current_version(final(self)@.log.changes) >= spec_max_version(
                objects_model(incoming@),
            ),
            spec_current_version(final(self)@.log.changes) >= spec_current_version(
                old(self)@.log.changes,
            ),
            final(self)@.log == spec_log_after_sync(
                old(self)@.log,
                spec_max_version(objects_model(incoming@)),
                now,
            ),
    {
        let ghost orig = old(self)@.objects;
        let ghost inc = objects_model(incoming@);
        let mut merged: usize = 0;
        let mut maxv: u64 = 0;
        let mut j: usize = 0;
        while j < incoming.len()
            invariant
                j <= incoming@.len(),
                merged <= j,
                self.version_counter == old(self)@.version_counter,
                self.change_log@ == old(self)@.log,
                objects_model(self.objects@) == spec_merge(orig, inc.take(j as int)),
                merged as nat == spec_merge_count(orig, inc.take(j as int)),
                maxv == spec_max_version(inc.take(j as int)),
                spec_names_unique(objects_model(self.objects@)),
                forall|k: int|
                    0 <= k < objects_model(self.objects@).len() ==> (#[trigger] objects_model(
                        self.objects@,
                    )[k]).version <= spec_max_u64(old(self)@.version_counter, maxv),
            decreases incoming@.len() - j,
        {
            let ghost cur = objects_model(self.objects@);
            let ghost taken = inc.take(j as int);
            let obj = incoming[j].clone();
            proof {
                assert(obj@ == inc[j as int]);
                assert(inc.take(j as int + 1) =~= taken.push(inc[j as int]));
                lemma_merge_snoc(orig, taken, inc[j as int]);
                lemma_max_version_snoc(taken, inc[j as int]);
            }
            if obj.version > maxv {
                maxv = obj.version;
            }
            let ghost pre_objs = objects_model(self.objects@);
            match self.find_index(obj.name.as_str()) {
                Some(i) => {
                    if obj.version > self.objects[i].version {
                        proof {
                            lemma_unique_update(pre_objs, i as int, obj@);
                        }
                        self.objects.set(i, obj);
                        merged = merged + 1;
                        proof {
                            assert(objects_model(self.objects@) =~= pre_objs.update(
                                i as int,
                                inc[j as int],
                            ));
                        }
                    } else {
                        proof {
                            assert(spec_merge_one(cur, inc[j as int]) == cur);
                        }
                    }
                },
                None => {
                    proof {
                        lemma_index_of(pre_objs, obj@.name);
                        lemma_unique_push(pre_objs, obj@);
                    }
                    self.objects.push(obj);
                    merged = merged + 1;
                    proof {
                        assert(objects_model(self.objects@) =~= pre_objs.push(inc[j as int]));
                    }
                },
            }
            j = j + 1;
        }
        proof {
            assert(inc.take(inc.len() as int) =~= inc);
        }
        if maxv > 0 {
            if maxv > self.version_counter {
                self.version_counter = maxv;
            }
            let ghost pre_log = self.change_log@;
            self.change_log.update_version_marker(maxv, now);
            proof {
                let post = final(self)@.log.changes;
                if !(pre_log.changes.len() > 0 && maxv <= spec_current_version(
                    pre_log.changes,
                )) {
                    assert forall|k: int|
                        0 <= k < post.len() implies (#[trigger] post[k]).spec_version()
                        <= final(self)@.version_counter by {
                        if k < post.len() - 1 {
                            if pre_log.changes.len() >= pre_log.max_size {
                                assert(post[k] == pre_log.changes[k + 1]);
                            } else {
                                assert(post[k] == pre_log.changes[k]);
                            }
                        }
                    }
                }
            }
        }
        merged
    }

    /// Merges a batch of objects, stamping the marker with the system time.
    pub fn merge_objects(&mut self, incoming: Vec<RibObject>) -> (r: usize)
        requires
            old(self).wf(),
        ensures
            final(self).wf(),
            final(self)@.log.max_size == old(self)@.log.max_size,
            final(self)@.objects == spec_merge(old(self)@.objects, objects_model(incoming@)),
            r == spec_merge_count(old(self)@.objects, objects_model(incoming@)),
            final(self)@.version_counter == spec_max_u64(
                old(self)@.version_counter,
                spec_max_version(objects_model(incoming@)),
            ),
            spec_current_version(final(self)@.log.changes) >= spec_max_version(
                objects_model(incoming@),
            ),
            exists|ts: u64|
                final(self)@.log == #[trigger] spec_log_after_sync(
                    old(self)@.log,
                    spec_max_version(objects_model(incoming@)),
                    ts,
                ),
    {
        let now = crate::clock::unix_now_secs();
        let r = self.merge_objects_at(incoming, now);
        proof {
            assert(final(self)@.log == spec_log_after_sync(
                old(self)@.log,
                spec_max_version(objects_model(incoming@)),
                now,
            ));
        }
        r
    }
}

// ---------------------------------------------------------------------------
// Applying remote changes
// ---------------------------------------------------------------------------
/// Whether applying `c` to `m` changes the store.
pub open spec fn spec_apply_applies(m: Seq<RibObjectModel>, c: RibChangeModel) -> bool {
    match c {
        RibChangeModel::Created(o) => spec_index_of(m, o.name) == -1,
        RibChangeModel::Updated(o) => {
            let i = spec_index_of(m, o.name);
            i == -1 || o.version > m[i].version
        },
        RibChangeModel::Deleted { name, .. } => spec_index_of(m, name) != -1,
    }
}

/// One remote change applied to the store.
pub open spec fn spec_apply_one(m: Seq<RibObjectModel>, c: RibChangeModel) -> Seq<RibObjectModel> {
    match c {
        RibChangeModel::Created(o) => if spec_index_of(m, o.name) == -1 {
            m.push(o)
        } else {
            m
        },
        RibChangeModel::Updated(o) => {
            let i = spec_index_of(m, o.name);
            if i == -1 {
                m.push(o)
            } else if o.version > m[i].version {
                m.update(i, o)
            } else {
                m
            }
        },
        RibChangeModel::Deleted { name, .. } => {
            let i = spec_index_of(m, name);
            if i == -1 {
                m
            } else {
                m.remove(i)
            }
        },
    }
}

/// A batch of remote changes applied left to right.
pub open spec fn spec_apply(m: Seq<RibObjectModel>, cs: Seq<RibChangeModel>) -> Seq<RibObjectModel>
    decreases cs.len(),
{
    if cs.len() == 0 {
        m
    } else {
        spec_apply(spec_apply_one(m, cs[0]), cs.drop_first())
    }
}

/// How many changes of the batch change the store.
pub open spec fn spec_apply_count(m: Seq<RibObjectModel>, cs: Seq<RibChangeModel>) -> nat
    decreases cs.len(),
{
    if cs.len() == 0 {
        0
    } else {
        (if spec_apply_applies(m, cs[0]) {
            1nat
        } else {
            0nat
        }) + spec_apply_count(spec_apply_one(m, cs[0]), cs.drop_first())
    }
}

/// The highest version among a batch of changes, 0 for an empty batch.
pub open spec fn spec_changes_max(cs: Seq<RibChangeModel>) -> u64
    decreases cs.len(),
{
    if cs.len() == 0 {
        0
    } else {
        spec_max_u64(cs[0].spec_version(), spec_changes_max(cs.drop_first()))
    }
}

/// Applying one more change at the end of the batch.
proof fn lemma_apply_snoc(m: Seq<RibObjectModel>, s: Seq<RibChangeModel>, x: RibChangeModel)
    ensures
        spec_apply(m, s.push(x)) == spec_apply_one(spec_apply(m, s), x),
        spec_apply_count(m, s.push(x)) == spec_apply_count(m, s) + (if spec_apply_applies(
            spec_apply(m, s),
            x,
        ) {
            1nat
        } else {
            0nat
        }),
        spec_changes_max(s.push(x)) == spec_max_u64(spec_changes_max(s), x.spec_version()),
    decreases s.len(),
{
    reveal_with_fuel(spec_apply, 3);
    reveal_with_fuel(spec_apply_count, 3);
    reveal_with_fuel(spec_changes_max, 3);
    if s.len() == 0 {
        assert(s.push(x)[0] == x);
        assert(s.push(x).drop_first() =~= Seq::<RibChangeModel>::empty());
    } else {
        assert(s.push(x)[0] == s[0]);
        assert(s.push(x).drop_first() =~= s.drop_first().push(x));
        lemma_apply_snoc(spec_apply_one(m, s[0]), s.drop_first(), x);
    }
}

/// The highest change version dominates every version in the batch.
pub proof fn lemma_changes_max_dominates(s: Seq<RibChangeModel>)
    ensures
        forall|k: int| 0 <= k < s.len() ==> (#[trigger] s[k]).spec_version() <= spec_changes_max(s),
    decreases s.len(),
{
    if s.len() > 0 {
        lemma_changes_max_dominates(s.drop_first());
        assert forall|k: int| 0 <= k < s.len() implies (#[trigger] s[k]).spec_version()
            <= spec_changes_max(s) by {
            if k > 0 {
                assert(s.drop_first()[k - 1] == s[k]);
                assert(s.drop_first()[k - 1].spec_version() <= spec_changes_max(s.drop_first()));
            }
        }
    }
}

impl Rib {
    /// Applies incremental changes received from a peer: creations insert
    /// when absent, updates overwrite only strictly newer versions, and
    /// deletions remove.  The changes are not re-logged; a synchronization
    /// marker stamped with `now` advances `current_version` to the highest
    /// incoming version, which the version counter also adopts.
    #[verifier::loop_isolation(false)]
    pub fn apply_changes_at(&mut self, changes: Vec<RibChange>, now: u64) -> (r: Result<
        usize,
        RibError,
    >)
        requires
            old(self).wf(),
        ensures
            final(self).wf(),
            final(self)@.log.max_size == old(self)@.log.max_size,
            final(self)@.objects == spec_apply(old(self)@.objects, changes_model(changes@)),
            r matches Ok(n) && n as nat == spec_apply_count(
                old(self)@.objects,
                changes_model(changes@),
            ),
            final(self)@.version_counter == spec_max_u64(
                old(self)@.version_counter,
                spec_changes_max(changes_model(changes@)),
            ),
            spec_current_version(final(self)@.log.changes) >= spec_changes_max(
                changes_model(changes@),
            ),
            forall|k: int|
                0 <= k < changes@.len() ==> spec_current_version(final(self)@.log.changes) >= (
                #[trigger] changes_model(changes@)[k]).spec_version(),
            final(self)@.log == spec_log_after_sync(
                old(self)@.log,
                spec_changes_max(changes_model(changes@)),
                now,
            ),
    {
        let ghost orig = old(self)@.objects;
        let ghost inc = changes_model(changes@);
        let mut applied: usize = 0;
        let mut maxv: u64 = 0;
        let mut j: usize = 0;
        while j < changes.len()
            invariant
                j <= changes@.len(),
                applied <= j,
                self.version_counter == old(self)@.version_counter,
                self.change_log@ == old(self)@.log,
                objects_model(self.objects@) == spec_apply(orig, inc.take(j as int)),
                applied as nat == spec_apply_count(orig, inc.take(j as int)),
                maxv == spec_changes_max(inc.take(j as int)),
                spec_names_unique(objects_model(self.objects@)),
                forall|k: int|
                    0 <= k < objects_model(self.objects@).len() ==> (#[trigger] objects_model(
                        self.objects@,
                    )[k]).version <= spec_max_u64(old(self)@.version_counter, maxv),
            decreases changes@.len() - j,
        {
            let ghost cur = objects_model(self.objects@);
            let ghost taken = inc.take(j as int);
            let change = changes[j].clone();
            proof {
                assert(change@ == inc[j as int]);
                assert(inc.take(j as int + 1) =~= taken.push(inc[j as int]));
                lemma_apply_snoc(orig, taken, inc[j as int]);
            }
            let v = change.version();
            if v > maxv {
                maxv = v;
            }
            let ghost pre_objs = objects_model(self.objects@);
            match change {
                RibChange::Created(o) => {
                    match self.find_index(o.name.as_str()) {
                        None => {
                            proof {
                                lemma_index_of(pre_objs, o@.name);
                                lemma_unique_push(pre_objs, o@);
                            }
                            self.objects.push(o);
                            applied = applied + 1;
                            proof {
                                assert(objects_model(self.objects@) =~= pre_objs.push(
                                    inc[j as int]->Created_0,
                                ));
                            }
                        },
                        Some(_) => {},
                    }
                },
                RibChange::Updated(o) => {
                    match self.find_index(o.name.as_str()) {
                        None => {
                            proof {
                                lemma_index_of(pre_objs, o@.name);
                                lemma_unique_push(pre_objs, o@);
                            }
                            self.objects.push(o);
                            applied = applied + 1;
                            proof {
                                assert(objects_model(self.objects@) =~= pre_objs.push(
                                    inc[j as int]->Updated_0,
                                ));
                            }
                        },
                        Some(i) => {
                            if o.version > self.objects[i].version {
                                proof {
                                    lemma_unique_update(pre_objs, i as int, o@);
                                }
                                self.objects.set(i, o);
                                applied = applied + 1;
                                proof {
                                    assert(objects_model(self.objects@) =~= pre_objs.update(
                                        i as int,
                                        inc[j as int]->Updated_0,
                                    ));
                                }
                            }
                        },
                    }
                },
                RibChange::Deleted { name, .. } => {
                    match self.find_index(name.as_str()) {
                        Some(i) => {
                            proof {
                                lemma_unique_remove(pre_objs, i as int);
                            }
                            self.objects.remove(i);
                            applied = applied + 1;
                            proof {
                                assert(objects_model(self.objects@) =~= pre_objs.remove(i as int));
                            }
                        },
                        None => {},
                    }
                },
            }
            j = j + 1;
        }
        proof {
            assert(inc.take(inc.len() as int) =~= inc);
        }
        if maxv > 0 {
            if maxv > self.version_counter {
                self.version_counter = maxv;
            }
            let ghost pre_log = self.change_log@;
            self.change_log.update_version_marker(maxv, now);
            proof {
                let post = final(self)@.log.changes;
                if !(pre_log.changes.len() > 0 && maxv <= spec_current_version(
                    pre_log.changes,
                )) {
                    assert forall|k: int|
                        0 <= k < post.len() implies (#[trigger] post[k]).spec_version()
                        <= final(self)@.version_counter by {
                        if k < post.len() - 1 {
                            if pre_log.changes.len() >= pre_log.max_size {
                                assert(post[k] == pre_log.changes[k + 1]);
                            } else {
                                assert(post[k] == pre_log.changes[k]);
                            }
                        }
                    }
                }
            }
        }
        proof {
            lemma_changes_max_dominates(inc);
        }
        Ok(applied)
    }

    /// Applies incremental changes, stamping the marker with the system time.
    pub fn apply_changes(&mut self, changes: Vec<RibChange>) -> (r: Result<usize, RibError>)
        requires
            old(self).wf(),
        ensures
            final(self).wf(),
            final(self)@.log.max_size == old(self)@.log.max_size,
            final(self)@.objects == spec_apply(old(self)@.objects, changes_model(changes@)),
            r matches Ok(n) && n as nat == spec_apply_count(
                old(self)@.objects,
                changes_model(changes@),
            ),
            final(self)@.version_counter == spec_max_u64(
                old(self)@.version_counter,
                spec_changes_max(changes_model(changes@)),
            ),
            forall|k: int|
                0 <= k < changes@.len() ==> spec_current_version(final(self)@.log.changes) >= (
                #[trigger] changes_model(changes@)[k]).spec_version(),
            exists|ts: u64|
                final(self)@.log == #[trigger] spec_log_after_sync(
                    old(self)@.log,
                    spec_changes_max(changes_model(changes@)),
                    ts,
                ),
    {
        let now = crate::clock::unix_now_secs();
        let r = self.apply_changes_at(changes, now);
        proof {
            assert(final(self)@.log == spec_log_after_sync(
                old(self)@.log,
                spec_changes_max(changes_model(changes@)),
                now,
            ));
        }
        r
    }
}


// ---------------------------------------------------------------------------
// Algebra of merging: idempotence and commutativity
// ---------------------------------------------------------------------------
/// The better of a current holder and one candidate for the name `n`:
/// the candidate wins only when it carries that name and a strictly higher
/// version.
pub open spec fn spec_pick(
    a: Option<RibObjectModel>,
    o: RibObjectModel,
    n: Seq<char>,
) -> Option<RibObjectModel> {
    if o.name != n {
        a
    } else {
        match a {
            None => Some(o),
            Some(b) => if o.version > b.version {
                Some(o)
            } else {
                a
            },
        }
    }
}

/// The holder of name `n` after folding a batch over a starting holder.
pub open spec fn spec_best(
    a: Option<RibObjectModel>,
    s: Seq<RibObjectModel>,
    n: Seq<char>,
) -> Option<RibObjectModel>
    decreases s.len(),
{
    if s.len() == 0 {
        a
    } else {
        spec_best(spec_pick(a, s[0], n), s.drop_first(), n)
    }
}

/// Merging one object changes the lookup of exactly its own name, to the
/// better of the old holder and the object; uniqueness of names is kept.
proof fn lemma_merge_one_lookup(m: Seq<RibObjectModel>, o: RibObjectModel)
    requires
        spec_names_unique(m),
    ensures
        spec_names_unique(spec_merge_one(m, o)),
        spec_lookup(spec_merge_one(m, o), o.name) == spec_pick(spec_lookup(m, o.name), o, o.name),
        forall|n: Seq<char>|
            n != o.name ==> #[trigger] spec_lookup(spec_merge_one(m, o), n) == spec_lookup(m, n),
{
    lemma_index_of(m, o.name);
    let i = spec_index_of(m, o.name);
    if i == -1 {
        let post = m.push(o);
        lemma_unique_push(m, o);
        lemma_index_of(post, o.name);
        assert(post[m.len() as int].name == o.name);
        assert(spec_index_of(post, o.name) == m.len());
        assert(spec_lookup(post, o.name) == Some(o));
        assert forall|n: Seq<char>| n != o.name implies #[trigger] spec_lookup(post, n)
            == spec_lookup(m, n) by {
            lemma_index_of(post, n);
            lemma_index_of(m, n);
            let ip = spec_index_of(post, n);
            let im = spec_index_of(m, n);
            if im != -1 {
                assert(post[im].name == n);
                assert(ip != -1);
                assert(ip <= im);
                assert(post[ip] == m[ip]);
                assert(ip == im);
            } else {
                assert(ip == -1) by {
                    if ip != -1 {
                        assert(post[ip].name == n);
                        assert(ip < m.len());
                        assert(m[ip].name == n);
                    }
                }
            }
        }
    } else if o.version > m[i].version {
        let post = m.update(i, o);
        lemma_unique_update(m, i, o);
        lemma_index_of(post, o.name);
        lemma_index_of(m, o.name);
        assert(post[i].name == o.name);
        assert forall|k: int| 0 <= k < i implies (#[trigger] post[k]).name != o.name by {
            assert(post[k] == m[k]);
        }
        assert(spec_index_of(post, o.name) == i) by {
            let ip = spec_index_of(post, o.name);
            assert(ip != -1);
            assert(ip <= i);
            if ip < i {
                assert(post[ip] == m[ip]);
                assert(m[ip].name != o.name);
            }
        }
        assert(spec_lookup(post, o.name) == Some(o));
        assert forall|n: Seq<char>| n != o.name implies #[trigger] spec_lookup(post, n)
            == spec_lookup(m, n) by {
            lemma_index_of(post, n);
            lemma_index_of(m, n);
            let ip = spec_index_of(post, n);
            let im = spec_index_of(m, n);
            if im != -1 {
                assert(m[im].name == n);
                assert(im != i);
                assert(post[im] == m[im]);
                assert(ip != -1);
                assert(ip <= im);
                if ip < im {
                    assert(post[ip].name == n);
                    assert(ip != i);
                    assert(m[ip].name == n);
                }
                assert(ip == im);
                assert(post[ip] == m[im]);
            } else {
                if ip != -1 {
                    assert(post[ip].name == n);
                    assert(ip != i);
                    assert(m[ip].name == n);
                }
            }
        }
    } else {
        assert(spec_merge_one(m, o) == m);
        assert(spec_lookup(m, o.name) == Some(m[i]));
    }
}

/// After a merge, the lookup of every name is the fold of the batch over
/// the old holder; uniqueness of names is kept.
proof fn lemma_merge_lookup(m: Seq<RibObjectModel>, s: Seq<RibObjectModel>, n: Seq<char>)
    requires
        spec_names_unique(m),
    ensures
        spec_names_unique(spec_merge(m, s)),
        spec_lookup(spec_merge(m, s), n) == spec_best(spec_lookup(m, n), s, n),
    decreases s.len(),
{
    if s.len() > 0 {
        lemma_merge_one_lookup(m, s[0]);
        lemma_merge_lookup(spec_merge_one(m, s[0]), s.drop_first(), n);
        if s[0].name == n {
            assert(spec_lookup(spec_merge_one(m, s[0]), n) == spec_pick(
                spec_lookup(m, n),
                s[0],
                n,
            ));
        } else {
            assert(spec_pick(spec_lookup(m, n), s[0], n) == spec_lookup(m, n));
        }
    }
}

/// Folding a concatenation folds the parts in order.
proof fn lemma_best_append(
    a: Option<RibObjectModel>,
    s1: Seq<RibObjectModel>,
    s2: Seq<RibObjectModel>,
    n: Seq<char>,
)
    ensures
        spec_best(a, s1 + s2, n) == spec_best(spec_best(a, s1, n), s2, n),
    decreases s1.len(),
{
    if s1.len() == 0 {
        assert(s1 + s2 =~= s2);
    } else {
        assert((s1 + s2)[0] == s1[0]);
        assert((s1 + s2).drop_first() =~= s1.drop_first() + s2);
        lemma_best_append(spec_pick(a, s1[0], n), s1.drop_first(), s2, n);
    }
}

/// What the fold yields: the holder keeps name `n`, never loses version,
/// comes from the start or the batch, and dominates every candidate.
proof fn lemma_best_props(a: Option<RibObjectModel>, s: Seq<RibObjectModel>, n: Seq<char>)
    requires
        a matches Some(x) ==> x.name == n,
    ensures
        spec_best(a, s, n) matches Some(b) ==> b.name == n && (a == Some(b) || s.contains(b)),
        a matches Some(x) ==> spec_best(a, s, n) matches Some(b) && b.version >= x.version,
        forall|k: int|
            0 <= k < s.len() && (#[trigger] s[k]).name == n ==> (spec_best(a, s, n) matches Some(b)
                && b.version >= s[k].version),
        spec_best(a, s, n) is None ==> a is None && (forall|k: int|
            0 <= k < s.len() ==> (#[trigger] s[k]).name != n),
    decreases s.len(),
{
    if s.len() > 0 {
        lemma_best_props(spec_pick(a, s[0], n), s.drop_first(), n);
        assert forall|k: int|
            0 <= k < s.len() && (#[trigger] s[k]).name == n implies spec_best(
            a,
            s,
            n,
        ) matches Some(b) && b.version >= s[k].version by {
            if k == 0 {
                let a2 = spec_pick(a, s[0], n);
                assert(a2 matches Some(y) && y.version >= s[0].version);
            } else {
                assert(s.drop_first()[k - 1] == s[k]);
            }
        }
        assert forall|k: int|
            spec_best(a, s, n) is None && 0 <= k < s.len() implies (#[trigger] s[k]).name
            != n by {
            if k > 0 {
                assert(s.drop_first()[k - 1] == s[k]);
            }
        }
    }
}

/// Merging the same batch twice is the same as merging it once: by then
/// every name already holds at least the batch's version, so the second
/// pass changes nothing.
pub proof fn lemma_merge_idempotent(m: Seq<RibObjectModel>, s: Seq<RibObjectModel>)
    requires
        spec_names_unique(m),
    ensures
        spec_merge(spec_merge(m, s), s) == spec_merge(m, s),
{
    let merged = spec_merge(m, s);
    lemma_merge_lookup(m, s, Seq::<char>::empty());
    assert forall|k: int| 0 <= k < s.len() implies {
        let l = #[trigger] spec_lookup(merged, s[k].name);
        l matches Some(b) && b.version >= s[k].version
    } by {
        let n = s[k].name;
        lemma_merge_lookup(m, s, n);
        lemma_index_of(m, n);
        lemma_best_props(spec_lookup(m, n), s, n);
    }
    lemma_merge_noop(merged, s);
}

/// Merging a batch into a store that already dominates it does nothing.
proof fn lemma_merge_noop(m: Seq<RibObjectModel>, s: Seq<RibObjectModel>)
    requires
        spec_names_unique(m),
        forall|k: int|
            0 <= k < s.len() ==> {
                let l = #[trigger] spec_lookup(m, s[k].name);
                l matches Some(b) && b.version >= s[k].version
            },
    ensures
        spec_merge(m, s) == m,
    decreases s.len(),
{
    if s.len() > 0 {
        lemma_index_of(m, s[0].name);
        assert(spec_lookup(m, s[0].name) matches Some(b) && b.version >= s[0].version);
        assert(spec_merge_one(m, s[0]) == m);
        assert(forall|k: int| 0 <= k < s.drop_first().len() ==> #[trigger] s.drop_first()[k] == s[k
            + 1]);
        lemma_merge_noop(m, s.drop_first());
    }
}

/// Folding over a starting holder is combining the holder with the batch's
/// own champion.
proof fn lemma_best_decompose(a: Option<RibObjectModel>, s: Seq<RibObjectModel>, n: Seq<char>)
    ensures
        spec_best(a, s, n) == (match spec_best(None, s, n) {
            None => a,
            Some(c) => spec_pick(a, c, n),
        }),
    decreases s.len(),
{
    if s.len() > 0 {
        lemma_best_decompose(spec_pick(a, s[0], n), s.drop_first(), n);
        lemma_best_decompose(spec_pick(None, s[0], n), s.drop_first(), n);
        lemma_best_props(spec_pick(None, s[0], n), s.drop_first(), n);
    }
}

/// Merging two batches in either order gives the same store, name by name,
/// provided that objects of the two batches that share a name never share
/// a version unless they are the same object.  (With equal versions of
/// different objects, whichever batch is merged last would lose the tie.)
pub proof fn lemma_merge_commutative(
    m: Seq<RibObjectModel>,
    xs: Seq<RibObjectModel>,
    ys: Seq<RibObjectModel>,
)
    requires
        spec_names_unique(m),
        forall|i: int, j: int|
            0 <= i < xs.len() && 0 <= j < ys.len() && (#[trigger] xs[i]).name == (
            #[trigger] ys[j]).name ==> xs[i].version != ys[j].version || xs[i] == ys[j],
    ensures
        forall|n: Seq<char>|
            #[trigger] spec_lookup(spec_merge(spec_merge(m, xs), ys), n) == spec_lookup(
                spec_merge(spec_merge(m, ys), xs),
                n,
            ),
{
    assert forall|n: Seq<char>|
        #[trigger] spec_lookup(spec_merge(spec_merge(m, xs), ys), n) == spec_lookup(
            spec_merge(spec_merge(m, ys), xs),
            n,
        ) by {
        let a0 = spec_lookup(m, n);
        lemma_merge_lookup(m, xs, n);
        lemma_merge_lookup(spec_merge(m, xs), ys, n);
        lemma_merge_lookup(m, ys, n);
        lemma_merge_lookup(spec_merge(m, ys), xs, n);
        lemma_best_append(a0, xs, ys, n);
        lemma_best_append(a0, ys, xs, n);
        lemma_best_decompose(a0, xs + ys, n);
        lemma_best_decompose(a0, ys + xs, n);
        lemma_best_append(None, xs, ys, n);
        lemma_best_append(None, ys, xs, n);
        lemma_best_decompose(spec_best(None, xs, n), ys, n);
        lemma_best_decompose(spec_best(None, ys, n), xs, n);
        lemma_best_props(None, xs, n);
        lemma_best_props(None, ys, n);
        let cx = spec_best(None, xs, n);
        let cy = spec_best(None, ys, n);
        if cx is Some && cy is Some {
            let x = cx.unwrap();
            let y = cy.unwrap();
            let ix = choose|i: int| 0 <= i < xs.len() && xs[i] == x;
            let iy = choose|j: int| 0 <= j < ys.len() && ys[j] == y;
            assert(xs[ix].name == ys[iy].name);
            assert(x.version != y.version || x == y);
        }
    }
}

} // verus!
