//! MVCC (multi-version concurrency control): each entity keeps versions
//! stamped with the transactions that created and deleted them, and a
//! transaction reads the newest version visible to it.
//!
//! The versioned data itself is carried, never read, so it is a type
//! parameter.

use vstd::prelude::*;
use crate::transaction::{IsolationLevel, TransactionId};
use crate::types::EntityId;

verus! {

/// Version number for entity.
pub type VersionNumber = u64;

/// One version of an entity.
#[derive(Debug, Clone)]
pub struct EntityVersion<T> {
    /// The entity data
    pub entity: T,
    /// Version number (monotonically increasing)
    pub version: VersionNumber,
    /// Transaction that created this version
    pub created_by_txn: TransactionId,
    /// Transaction that deleted this version (None if not deleted)
    pub deleted_by_txn: Option<TransactionId>,
    /// Timestamp when created
    pub created_at: u64,
}

/// Whether a version is visible to transaction `txn` at an isolation level:
/// reading uncommitted data sees every version not yet deleted as of
/// `txn`; the other levels also need the version created before `txn`.
pub open spec fn visible<T>(v: EntityVersion<T>, txn: TransactionId, level: IsolationLevel) -> bool {
    let not_deleted = match v.deleted_by_txn {
        None => true,
        Some(d) => d > txn,
    };
    match level {
        IsolationLevel::ReadUncommitted => not_deleted,
        _ => v.created_by_txn < txn && not_deleted,
    }
}

/// The newest version of `vs` visible to `txn`.
pub open spec fn visible_version<T>(vs: Seq<EntityVersion<T>>, txn: TransactionId, level: IsolationLevel) -> Option<EntityVersion<T>>
    decreases vs.len(),
{
    if vs.len() == 0 {
        None
    } else if visible(vs.last(), txn, level) {
        Some(vs.last())
    } else {
        visible_version(vs.drop_last(), txn, level)
    }
}

/// A version that every transaction from `min_active` on sees: created
/// before it and never deleted.
pub open spec fn settled<T>(v: EntityVersion<T>, min_active: TransactionId) -> bool {
    v.created_by_txn < min_active && v.deleted_by_txn is None
}

/// The versions kept by garbage collection, oldest first: going from the
/// newest version back, every version is kept until one that all active
/// transactions see (`settled`) has been kept; the older ones are dropped.
/// `covered` says whether such a version was already kept.
pub open spec fn gc_from<T>(vs: Seq<EntityVersion<T>>, min_active: TransactionId, covered: bool) -> Seq<EntityVersion<T>>
    decreases vs.len(),
{
    if vs.len() == 0 {
        Seq::empty()
    } else {
        let v = vs.last();
        let rest = gc_from(vs.drop_last(), min_active, covered || settled(v, min_active));
        if covered {
            rest
        } else {
            rest.push(v)
        }
    }
}

/// The versions kept by garbage collection with `min_active` the oldest
/// active transaction.
pub open spec fn gc<T>(vs: Seq<EntityVersion<T>>, min_active: TransactionId) -> Seq<EntityVersion<T>> {
    gc_from(vs, min_active, false)
}

impl<T> EntityVersion<T> {
    /// A live version.
    pub fn new(entity: T, version: VersionNumber, created_by_txn: TransactionId, created_at: u64) -> (r: Self)
        ensures
            r.entity == entity,
            r.version == version,
            r.created_by_txn == created_by_txn,
            r.deleted_by_txn is None,
            r.created_at == created_at,
    {
        EntityVersion { entity, version, created_by_txn, deleted_by_txn: None, created_at }
    }

    /// Mark this version as deleted by a transaction.
    pub fn mark_deleted(&mut self, txn_id: TransactionId)
        ensures
            *final(self) == (EntityVersion { deleted_by_txn: Some(txn_id), ..*old(self) }),
    {
        self.deleted_by_txn = Some(txn_id);
    }

    /// Whether this version is visible to a transaction.
    pub fn is_visible(&self, txn_id: TransactionId, isolation_level: IsolationLevel) -> (r: bool)
        ensures
            r == visible(*self, txn_id, isolation_level),
    {
        let not_deleted = match self.deleted_by_txn {
            None => true,
            Some(d) => d > txn_id,
        };
        match isolation_level {
            IsolationLevel::ReadUncommitted => not_deleted,
            IsolationLevel::ReadCommitted | IsolationLevel::RepeatableRead | IsolationLevel::Serializable => {
                self.created_by_txn < txn_id && not_deleted
            },
        }
    }

    /// Whether this version is live (not deleted).
    pub fn is_live(&self) -> (r: bool)
        ensures
            r == (self.deleted_by_txn is None),
    {
        self.deleted_by_txn.is_none()
    }
}

/// Multi-versioned entity storage.
#[derive(Debug, Clone)]
pub struct VersionedEntity<T> {
    /// Entity ID
    pub entity_id: EntityId,
    /// All versions of this entity, oldest first
    pub versions: Vec<EntityVersion<T>>,
    /// Latest version number
    pub latest_version: u64,
}

impl<T> VersionedEntity<T> {
    /// An entity with its first version (number 1) created by `txn_id`.
    pub fn new(entity_id: EntityId, initial_entity: T, txn_id: TransactionId) -> (r: Self)
        ensures
            r.entity_id == entity_id,
            r.versions@ == seq![EntityVersion {
                entity: initial_entity,
                version: 1u64,
                created_by_txn: txn_id,
                deleted_by_txn: None::<TransactionId>,
                created_at: 0u64,
            }],
            r.latest_version == 1,
    {
        let version = EntityVersion::new(initial_entity, 1, txn_id, 0);
        let mut versions: Vec<EntityVersion<T>> = Vec::new();
        versions.push(version);
        VersionedEntity { entity_id, versions, latest_version: 1 }
    }

    /// Add a new version, numbered one past the latest; its number is returned.
    pub fn add_version(&mut self, entity: T, txn_id: TransactionId, created_at: u64) -> (r: VersionNumber)
        requires
            old(self).latest_version < u64::MAX,
        ensures
            r == old(self).latest_version + 1,
            final(self).latest_version == r,
            final(self).entity_id == old(self).entity_id,
            final(self).versions@ == old(self).versions@.push(EntityVersion {
                entity,
                version: r,
                created_by_txn: txn_id,
                deleted_by_txn: None::<TransactionId>,
                created_at,
            }),
    {
        let version_num = self.latest_version + 1;
        self.latest_version = version_num;
        let version = EntityVersion::new(entity, version_num, txn_id, created_at);
        self.versions.push(version);
        version_num
    }

    /// Mark the entity deleted: its latest version is marked deleted by
    /// `txn_id`.
    pub fn delete(&mut self, txn_id: TransactionId)
        ensures
            final(self).entity_id == old(self).entity_id,
            final(self).latest_version == old(self).latest_version,
            old(self).versions@.len() == 0 ==> final(self).versions@ == old(self).versions@,
            old(self).versions@.len() > 0 ==> final(self).versions@ == old(self).versions@.update(
                old(self).versions@.len() - 1,
                EntityVersion { deleted_by_txn: Some(txn_id), ..old(self).versions@.last() },
            ),
    {
        let n = self.versions.len();
        if n > 0 {
            let mut last = self.versions.pop().unwrap();
            last.mark_deleted(txn_id);
            self.versions.push(last);
            assert(self.versions@ =~= old(self).versions@.update(n - 1,
                EntityVersion { deleted_by_txn: Some(txn_id), ..old(self).versions@.last() }));
        }
    }

    /// The newest version visible to a transaction.
    pub fn get_visible_version(&self, txn_id: TransactionId, isolation_level: IsolationLevel) -> (r: Option<&EntityVersion<T>>)
        ensures
            match r {
                Some(v) => visible_version(self.versions@, txn_id, isolation_level) == Some(*v),
                None => visible_version(self.versions@, txn_id, isolation_level) is None,
            },
    {
        let mut i = self.versions.len();
        assert(self.versions@.subrange(0, i as int) =~= self.versions@);
        while i > 0
            invariant
                i <= self.versions@.len(),
                visible_version(self.versions@, txn_id, isolation_level)
                    == visible_version(self.versions@.subrange(0, i as int), txn_id, isolation_level),
            decreases i,
        {
            let ghost sub = self.versions@.subrange(0, i as int);
            assert(sub.drop_last() =~= self.versions@.subrange(0, i - 1));
            if self.versions[i - 1].is_visible(txn_id, isolation_level) {
                return Some(&self.versions[i - 1]);
            }
            i = i - 1;
        }
        None
    }

    /// The newest version.
    pub fn get_latest_version(&self) -> (r: Option<&EntityVersion<T>>)
        ensures
            self.versions@.len() == 0 ==> r is None,
            self.versions@.len() > 0 ==> r == Some(&self.versions@.last()),
    {
        if self.versions.len() == 0 {
            None
        } else {
            Some(&self.versions[self.versions.len() - 1])
        }
    }

    /// Whether the entity is live: its newest version is not deleted.
    pub fn is_live(&self) -> (r: bool)
        ensures
            r == (self.versions@.len() > 0 && self.versions@.last().deleted_by_txn is None),
    {
        if self.versions.len() == 0 {
            false
        } else {
            self.versions[self.versions.len() - 1].is_live()
        }
    }

    /// Garbage collect the versions no active transaction can read, as `gc`
    /// states; `min_active_txn` is the oldest active transaction.
    pub fn garbage_collect(&mut self, min_active_txn: TransactionId)
        ensures
            final(self).versions@ == gc(old(self).versions@, min_active_txn),
            final(self).entity_id == old(self).entity_id,
            final(self).latest_version == old(self).latest_version,
    {
        let ghost vs = self.versions@;
        // Collect the kept versions newest first, then restore their order.
        let mut newest_first: Vec<EntityVersion<T>> = Vec::new();
        let mut covered = false;
        assert(vs.subrange(0, vs.len() as int) =~= vs);
        assert(reverse_of(newest_first@) =~= Seq::<EntityVersion<T>>::empty());
        while self.versions.len() > 0
            invariant
                self.versions@ == vs.subrange(0, self.versions@.len() as int),
                self.versions@.len() <= vs.len(),
                self.entity_id == old(self).entity_id,
                self.latest_version == old(self).latest_version,
                gc(vs, min_active_txn) == gc_from(self.versions@, min_active_txn, covered) + reverse_of(newest_first@),
            decreases self.versions@.len(),
        {
            let ghost before = self.versions@;
            let ghost nf0 = newest_first@;
            let v = self.versions.pop().unwrap();
            proof {
                assert(self.versions@ =~= vs.subrange(0, self.versions@.len() as int));
                assert(before.drop_last() == self.versions@);
            }
            let s = v.created_by_txn < min_active_txn && v.deleted_by_txn.is_none();
            if !covered {
                newest_first.push(v);
                proof {
                    lemma_reverse_push(nf0, v);
                    let rest = gc_from(self.versions@, min_active_txn, covered || s);
                    assert(rest.push(v) + reverse_of(nf0) =~= rest + (seq![v] + reverse_of(nf0)));
                }
            }
            covered = covered || s;
        }
        assert(gc_from(self.versions@, min_active_txn, covered) =~= Seq::<EntityVersion<T>>::empty());
        assert(gc(vs, min_active_txn) =~= reverse_of(newest_first@));
        let ghost target = reverse_of(newest_first@);
        let mut kept: Vec<EntityVersion<T>> = Vec::new();
        while newest_first.len() > 0
            invariant
                kept@ + reverse_of(newest_first@) == target,
            decreases newest_first@.len(),
        {
            let ghost nf0 = newest_first@;
            let ghost k0 = kept@;
            let v = newest_first.pop().unwrap();
            kept.push(v);
            proof {
                assert(nf0 =~= newest_first@.push(v));
                lemma_reverse_push(newest_first@, v);
                assert(k0 + (seq![v] + reverse_of(newest_first@)) =~= k0.push(v) + reverse_of(newest_first@));
            }
        }
        assert(reverse_of(newest_first@) =~= Seq::<EntityVersion<T>>::empty());
        assert(kept@ + reverse_of(newest_first@) =~= kept@);
        self.versions = kept;
    }

    /// The number of versions.
    pub fn version_count(&self) -> (r: usize)
        ensures
            r == self.versions@.len(),
    {
        self.versions.len()
    }
}

/// `s` in reverse order.
pub open spec fn reverse_of<A>(s: Seq<A>) -> Seq<A> {
    Seq::new(s.len(), |i: int| s[s.len() - 1 - i])
}

proof fn lemma_reverse_push<A>(s: Seq<A>, v: A)
    ensures
        reverse_of(s.push(v)) == seq![v] + reverse_of(s),
{
    assert(reverse_of(s.push(v)) =~= seq![v] + reverse_of(s));
}

/// MVCC manager: the oldest active transaction, for garbage collection.
pub struct MVCCManager {
    min_active_txn: u64,
}

impl MVCCManager {
    /// The oldest active transaction.
    pub closed spec fn min_active_spec(&self) -> TransactionId {
        self.min_active_txn
    }

    /// A manager with no active transaction recorded (`u64::MAX`).
    pub fn new() -> (r: Self)
        ensures
            r.min_active_spec() == u64::MAX,
    {
        MVCCManager { min_active_txn: u64::MAX }
    }

    /// Record the oldest active transaction.
    pub fn update_min_active_txn(&mut self, min_txn: TransactionId)
        ensures
            final(self).min_active_spec() == min_txn,
    {
        self.min_active_txn = min_txn;
    }

    /// The oldest active transaction.
    pub fn get_min_active_txn(&self) -> (r: TransactionId)
        ensures
            r == self.min_active_spec(),
    {
        self.min_active_txn
    }

    /// Whether a version may be collected: it was created before every
    /// active transaction and, if deleted, deleted before every one too.
    pub fn should_gc_version<T>(&self, version: &EntityVersion<T>) -> (r: bool)
        ensures
            r == (version.created_by_txn < self.min_active_spec() && match version.deleted_by_txn {
                None => true,
                Some(d) => d < self.min_active_spec(),
            }),
    {
        let min_txn = self.min_active_txn;
        version.created_by_txn < min_txn && match version.deleted_by_txn {
            None => true,
            Some(d) => d < min_txn,
        }
    }
}

impl Default for MVCCManager {
    fn default() -> (r: Self)
        ensures
            r.min_active_spec() == u64::MAX,
    {
        Self::new()
    }
}


proof fn lemma_gc_covered_empty<T>(vs: Seq<EntityVersion<T>>, min_active: TransactionId)
    ensures
        gc_from(vs, min_active, true) == Seq::<EntityVersion<T>>::empty(),
    decreases vs.len(),
{
    if vs.len() > 0 {
        lemma_gc_covered_empty(vs.drop_last(), min_active);
    }
}

/// Garbage collection is invisible to the active transactions: for every
/// transaction from the oldest active one on, at every isolation level, the
/// newest visible version is the same before and after collecting.
pub proof fn law_gc_preserves_visibility<T>(
    vs: Seq<EntityVersion<T>>,
    min_active: TransactionId,
    txn: TransactionId,
    level: IsolationLevel,
)
    requires
        txn >= min_active,
    ensures
        visible_version(gc(vs, min_active), txn, level) == visible_version(vs, txn, level),
    decreases vs.len(),
{
    if vs.len() > 0 {
        let v = vs.last();
        let t = vs.drop_last();
        if settled(v, min_active) {
            lemma_gc_covered_empty(t, min_active);
            let g = gc(vs, min_active);
            assert(g =~= seq![v]);
            assert(g.drop_last() =~= Seq::<EntityVersion<T>>::empty());
        } else {
            law_gc_preserves_visibility(t, min_active, txn, level);
            let g = gc(vs, min_active);
            assert(g.drop_last() =~= gc(t, min_active));
        }
    }
}

/// Garbage collection keeps the newest version: a non-empty history stays
/// non-empty and ends with the same version.
pub proof fn law_gc_keeps_newest<T>(vs: Seq<EntityVersion<T>>, min_active: TransactionId)
    requires
        vs.len() > 0,
    ensures
        gc(vs, min_active).len() > 0,
        gc(vs, min_active).last() == vs.last(),
{
}

/// Snapshot reads: at the committed isolation levels a version is invisible
/// to its creator and every earlier transaction, and at every level a
/// deleted version is invisible from its deleting transaction on.
pub proof fn law_visibility_window<T>(v: EntityVersion<T>, txn: TransactionId, level: IsolationLevel)
    ensures
        level != IsolationLevel::ReadUncommitted && txn <= v.created_by_txn ==> !visible(v, txn, level),
        (v.deleted_by_txn matches Some(d) && txn >= d) ==> !visible(v, txn, level),
{
}

/// Snapshot visibility: at every isolation level but reading uncommitted
/// data, a version is visible to `txn` exactly when an earlier transaction
/// created it and no transaction up to `txn` deleted it, so the committed
/// levels (read committed, repeatable read, serializable) agree; reading
/// uncommitted data sees exactly the versions not deleted up to `txn`, a
/// superset of what the committed levels see.
pub proof fn law_snapshot_visibility<T>(v: EntityVersion<T>, txn: TransactionId)
    ensures
        visible(v, txn, IsolationLevel::RepeatableRead) <==> (v.created_by_txn < txn && (v.deleted_by_txn is None
            || v.deleted_by_txn->Some_0 > txn)),
        visible(v, txn, IsolationLevel::ReadCommitted) <==> (v.created_by_txn < txn && (v.deleted_by_txn is None
            || v.deleted_by_txn->Some_0 > txn)),
        visible(v, txn, IsolationLevel::Serializable) <==> (v.created_by_txn < txn && (v.deleted_by_txn is None
            || v.deleted_by_txn->Some_0 > txn)),
        visible(v, txn, IsolationLevel::ReadUncommitted) <==> (v.deleted_by_txn is None || v.deleted_by_txn->Some_0
            > txn),
        visible(v, txn, IsolationLevel::ReadCommitted) ==> visible(v, txn, IsolationLevel::ReadUncommitted),
{
}

/// A read returns the newest version visible to the reader: the version
/// returned is one of the entity's versions, visible to `txn`, and no newer
/// version is; nothing is returned exactly when no version is visible.
pub proof fn law_read_returns_newest_visible<T>(vs: Seq<EntityVersion<T>>, txn: TransactionId, level: IsolationLevel)
    ensures
        match visible_version(vs, txn, level) {
            Some(v) => exists|i: int|
                0 <= i < vs.len() && vs[i] == v && visible(v, txn, level) && forall|j: int|
                    i < j < vs.len() ==> !visible(#[trigger] vs[j], txn, level),
            None => forall|i: int| 0 <= i < vs.len() ==> !visible(#[trigger] vs[i], txn, level),
        },
    decreases vs.len(),
{
    if vs.len() > 0 {
        let t = vs.drop_last();
        law_read_returns_newest_visible(t, txn, level);
        if visible(vs.last(), txn, level) {
            assert(vs[vs.len() - 1] == vs.last());
        } else {
            match visible_version(t, txn, level) {
                Some(v) => {
                    let i = choose|i: int|
                        0 <= i < t.len() && t[i] == v && visible(v, txn, level) && forall|j: int|
                            i < j < t.len() ==> !visible(#[trigger] t[j], txn, level);
                    assert(vs[i] == t[i]);
                    assert forall|j: int| i < j < vs.len() implies !visible(#[trigger] vs[j], txn, level) by {
                        if j < t.len() {
                            assert(vs[j] == t[j]);
                        }
                    }
                },
                None => {
                    assert forall|i: int| 0 <= i < vs.len() implies !visible(#[trigger] vs[i], txn, level) by {
                        if i < t.len() {
                            assert(vs[i] == t[i]);
                        }
                    }
                },
            }
        }
    }
}

} // verus!

