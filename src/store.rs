use crate::access::{acl_allows, AccessLevel, Action};
use crate::principal::Principal;
use crate::record::{new_record_view, MedicalRecord, RecordView};
use vstd::prelude::*;

verus! {

/// The records of a store, and for each principal the ids it created, in
/// order of creation.
pub struct StoreView {
    pub records: Map<Seq<char>, RecordView>,
    pub owners: Map<Seq<u8>, Seq<Seq<char>>>,
}

/// The records that `ids` name, in their order, skipping ids that name none.
pub open spec fn resolve(ids: Seq<Seq<char>>, records: Map<Seq<char>, RecordView>) -> Seq<
    RecordView,
>
    decreases ids.len(),
{
    if ids.len() == 0 {
        Seq::empty()
    } else {
        let rest = resolve(ids.drop_last(), records);
        if records.contains_key(ids.last()) {
            rest.push(records[ids.last()])
        } else {
            rest
        }
    }
}

/// One call on the store: who made it, and with which arguments. The id
/// of a creation is the one it drew.
pub enum Call {
    Create { id: Seq<char>, caller: Seq<u8>, now: u64, metadata: Seq<char>, data: Seq<char> },
    Update { id: Seq<char>, caller: Seq<u8>, now: u64, metadata: Seq<char>, data: Seq<char> },
    Grant { id: Seq<char>, caller: Seq<u8>, target: Seq<u8>, level: AccessLevel },
    Revoke { id: Seq<char>, caller: Seq<u8>, target: Seq<u8> },
}

/// The later of two times.
pub open spec fn later(a: u64, b: u64) -> u64 {
    if b >= a {
        b
    } else {
        a
    }
}

impl StoreView {
    pub open spec fn empty() -> StoreView {
        StoreView { records: Map::empty(), owners: Map::empty() }
    }

    /// The ids that `p` created, oldest first.
    pub open spec fn owned_ids(self, p: Seq<u8>) -> Seq<Seq<char>> {
        if self.owners.contains_key(p) {
            self.owners[p]
        } else {
            Seq::empty()
        }
    }

    /// What `get_records_by_owner` hands to `p`.
    pub open spec fn listing(self, p: Seq<u8>) -> Seq<RecordView> {
        resolve(self.owned_ids(p), self.records)
    }

    /// Record `id` exists and its access list lets `p` perform `action`.
    pub open spec fn permits(self, id: Seq<char>, p: Seq<u8>, action: Action) -> bool {
        self.records.contains_key(id) && acl_allows(self.records[id].access, p, action)
    }

    /// Each record is filed under its own id, and the owner index lists,
    /// once each, exactly the records that each principal created.
    pub open spec fn inv(self) -> bool {
        &&& self.records.dom().finite()
        &&& forall|k: Seq<char>| #[trigger]
            self.records.contains_key(k) ==> self.records[k].id == k
        &&& forall|p: Seq<u8>, k: Seq<char>|
            #[trigger] self.owned_ids(p).contains(k) <==> (self.records.contains_key(k)
                && self.records[k].patient == p)
        &&& forall|p: Seq<u8>| #[trigger] self.owned_ids(p).no_duplicates()
    }

    /// The store after `caller` created record `id`.
    pub open spec fn created(
        self,
        id: Seq<char>,
        caller: Seq<u8>,
        now: u64,
        metadata: Seq<char>,
        data: Seq<char>,
    ) -> StoreView {
        StoreView {
            records: self.records.insert(id, new_record_view(id, caller, metadata, data, now)),
            owners: self.owners.insert(caller, self.owned_ids(caller).push(id)),
        }
    }

    /// The store after record `id` got new contents at time `now`. A clock
    /// that went backwards leaves the record's time where it was.
    pub open spec fn updated(self, id: Seq<char>, metadata: Seq<char>, data: Seq<char>, now: u64) -> StoreView {
        StoreView {
            records: self.records.insert(
                id,
                RecordView {
                    metadata,
                    data,
                    timestamp: later(self.records[id].timestamp, now),
                    ..self.records[id]
                },
            ),
            owners: self.owners,
        }
    }

    /// The store after record `id` got the access list `access`.
    pub open spec fn with_access(self, id: Seq<char>, access: Map<Seq<u8>, AccessLevel>) -> StoreView {
        StoreView {
            records: self.records.insert(id, RecordView { access, ..self.records[id] }),
            owners: self.owners,
        }
    }

    /// The store after `target` was given `level` on record `id`.
    pub open spec fn granted(self, id: Seq<char>, target: Seq<u8>, level: AccessLevel) -> StoreView {
        self.with_access(id, self.records[id].access.insert(target, level))
    }

    /// The store after `call`: a creation files its record when the id is
    /// free, and every other call changes the store only when the caller
    /// is allowed to make it.
    pub open spec fn step(self, call: Call) -> StoreView {
        match call {
            Call::Create { id, caller, now, metadata, data } => if !self.records.contains_key(id) {
                self.created(id, caller, now, metadata, data)
            } else {
                self
            },
            Call::Update { id, caller, now, metadata, data } => if self.permits(
                id,
                caller,
                Action::Update,
            ) {
                self.updated(id, metadata, data, now)
            } else {
                self
            },
            Call::Grant { id, caller, target, level } => if self.permits(
                id,
                caller,
                Action::ManageAccess,
            ) {
                self.granted(id, target, level)
            } else {
                self
            },
            Call::Revoke { id, caller, target } => if self.permits(id, caller, Action::ManageAccess) {
                self.revoked(id, target)
            } else {
                self
            },
        }
    }

    /// The store after `calls`, made in order.
    pub open spec fn run(self, calls: Seq<Call>) -> StoreView
        decreases calls.len(),
    {
        if calls.len() == 0 {
            self
        } else {
            self.step(calls[0]).run(calls.drop_first())
        }
    }

    /// The ids of the records that `p` created by `calls`, made in order
    /// from this store.
    pub open spec fn creations(self, calls: Seq<Call>, p: Seq<u8>) -> Seq<Seq<char>>
        decreases calls.len(),
    {
        if calls.len() == 0 {
            Seq::empty()
        } else {
            let first = match calls[0] {
                Call::Create { id, caller, .. } => if caller == p && !self.records.contains_key(
                    id,
                ) {
                    seq![id]
                } else {
                    Seq::empty()
                },
                _ => Seq::empty(),
            };
            first + self.step(calls[0]).creations(calls.drop_first(), p)
        }
    }

    /// The store after `target`'s entry on record `id` was taken out.
    pub open spec fn revoked(self, id: Seq<char>, target: Seq<u8>) -> StoreView {
        self.with_access(id, self.records[id].access.remove(target))
    }
}

pub(crate) proof fn lemma_created_inv(
    s: StoreView,
    id: Seq<char>,
    caller: Seq<u8>,
    now: u64,
    metadata: Seq<char>,
    data: Seq<char>,
)
    requires
        s.inv(),
        !s.records.contains_key(id),
    ensures
        s.created(id, caller, now, metadata, data).inv(),
{
    let t = s.created(id, caller, now, metadata, data);
    assert(!s.owned_ids(caller).contains(id));
    assert forall|p: Seq<u8>, k: Seq<char>|
        #[trigger] t.owned_ids(p).contains(k) <==> (t.records.contains_key(k) && t.records[k].patient
            == p) by {
        if p == caller {
            assert(t.owned_ids(p) == s.owned_ids(p).push(id));
            if k != id {
                assert(t.owned_ids(p).contains(k) ==> s.owned_ids(p).contains(k));
                if s.owned_ids(p).contains(k) {
                    let i = choose|i: int| 0 <= i < s.owned_ids(p).len() && s.owned_ids(p)[i] == k;
                    assert(t.owned_ids(p)[i] == k);
                }
            } else {
                assert(t.owned_ids(p)[s.owned_ids(p).len() as int] == k);
            }
        } else {
            assert(t.owned_ids(p) == s.owned_ids(p));
            assert(s.owned_ids(p).contains(k) <==> (s.records.contains_key(k) && s.records[k].patient
                == p));
        }
    }
    assert forall|p: Seq<u8>| #[trigger] t.owned_ids(p).no_duplicates() by {
        if p == caller {
            assert(s.owned_ids(p).no_duplicates());
            assert forall|i: int, j: int|
                0 <= i < t.owned_ids(p).len() && 0 <= j < t.owned_ids(p).len() && i != j implies t.owned_ids(
                p,
            )[i] != t.owned_ids(p)[j] by {
                let n = s.owned_ids(p).len() as int;
                if i == n {
                    assert(s.owned_ids(p).contains(t.owned_ids(p)[j]));
                } else if j == n {
                    assert(s.owned_ids(p).contains(t.owned_ids(p)[i]));
                }
            }
        } else {
            assert(t.owned_ids(p) == s.owned_ids(p));
        }
    }
}

/// Replacing the record at `i` by one with the same id and creator, and
/// filing its view under that id, keeps the store well formed.
proof fn lemma_record_replaced(before: RecordStore, after: RecordStore, i: int)
    requires
        before.wf(),
        0 <= i < before.records@.len(),
        after.records@ == before.records@.update(i, after.records@[i]),
        after.records@[i].wf(),
        after.records@[i]@.id == before.records@[i]@.id,
        after.records@[i]@.patient == before.records@[i]@.patient,
        after.owners@ == before.owners@,
        after.owner_map@ == before.owner_map@,
        after.record_map@ == before.record_map@.insert(before.records@[i]@.id, after.records@[i]@),
    ensures
        after.wf(),
{
    let id = before.records@[i]@.id;
    assert forall|j: int| 0 <= j < after.records@.len() && j != i implies #[trigger] after.records@[j]
        == before.records@[j] && after.records@[j]@.id != id by {
        assert(before.records@[j]@.id != before.records@[i]@.id);
    }
    assert forall|k: Seq<char>| #[trigger] after.record_map@.contains_key(k) implies exists|j: int|
        0 <= j < after.records@.len() && #[trigger] after.records@[j]@.id == k by {
        if k == id {
            assert(after.records@[i]@.id == k);
        } else {
            let j = choose|j: int|
                0 <= j < before.records@.len() && #[trigger] before.records@[j]@.id == k;
            assert(after.records@[j]@.id == k);
        }
    }
    assert(forall|p: Seq<u8>| #[trigger] after@.owned_ids(p) == before@.owned_ids(p));
    assert forall|p: Seq<u8>, k: Seq<char>|
        #[trigger] after@.owned_ids(p).contains(k) <==> (after@.records.contains_key(k)
            && after@.records[k].patient == p) by {
        assert(before@.owned_ids(p).contains(k) <==> (before@.records.contains_key(k)
            && before@.records[k].patient == p));
    }
}

struct OwnerEntry {
    owner: Principal,
    ids: Vec<String>,
}

spec fn ids_view(ids: Seq<String>) -> Seq<Seq<char>> {
    ids.map_values(|s: String| s@)
}

/// The record store: every record with its access list, and the index from
/// each principal to the records it created.
pub struct RecordStore {
    records: Vec<MedicalRecord>,
    owners: Vec<OwnerEntry>,
    record_map: Ghost<Map<Seq<char>, RecordView>>,
    owner_map: Ghost<Map<Seq<u8>, Seq<Seq<char>>>>,
}

impl View for RecordStore {
    type V = StoreView;

    closed spec fn view(&self) -> StoreView {
        StoreView { records: self.record_map@, owners: self.owner_map@ }
    }
}

/// Relies on uuid::Uuid::new_v4 and the `Display` of `Uuid`: a random
/// version-4 id, written as 36 hyphenated lowercase hex digits.
#[verifier::external_body]
fn random_record_id() -> (r: String)
    ensures
        r@.len() == 36,
{
    uuid::Uuid::new_v4().to_string()
}

impl RecordStore {
    pub closed spec fn wf(&self) -> bool {
        &&& forall|i: int, j: int|
            0 <= i < j < self.records@.len() ==> #[trigger] self.records@[i]@.id
                != #[trigger] self.records@[j]@.id
        &&& forall|i: int|
            0 <= i < self.records@.len() ==> {
                &&& (#[trigger] self.records@[i]).wf()
                &&& self.record_map@.contains_key(self.records@[i]@.id)
                &&& self.record_map@[self.records@[i]@.id] == self.records@[i]@
            }
        &&& forall|k: Seq<char>|
            #[trigger] self.record_map@.contains_key(k) ==> exists|i: int|
                0 <= i < self.records@.len() && #[trigger] self.records@[i]@.id == k
        &&& forall|i: int, j: int|
            0 <= i < j < self.owners@.len() ==> #[trigger] self.owners@[i].owner@
                != #[trigger] self.owners@[j].owner@
        &&& forall|i: int|
            0 <= i < self.owners@.len() ==> {
                &&& self.owner_map@.contains_key(#[trigger] self.owners@[i].owner@)
                &&& self.owner_map@[self.owners@[i].owner@] == ids_view(self.owners@[i].ids@)
            }
        &&& forall|p: Seq<u8>|
            #[trigger] self.owner_map@.contains_key(p) ==> exists|i: int|
                0 <= i < self.owners@.len() && #[trigger] self.owners@[i].owner@ == p
        &&& self@.inv()
    }

    /// Every well-formed store satisfies the view's invariant.
    pub proof fn lemma_inv(&self)
        requires
            self.wf(),
        ensures
            self@.inv(),
    {
    }

    /// An empty store.
    pub fn new() -> (r: RecordStore)
        ensures
            r.wf(),
            r@ == StoreView::empty(),
    {
        let r = RecordStore {
            records: Vec::new(),
            owners: Vec::new(),
            record_map: Ghost(Map::empty()),
            owner_map: Ghost(Map::empty()),
        };
        assert(r@.inv());
        r
    }

    /// Empties the store.
    pub fn reset(&mut self)
        ensures
            final(self).wf(),
            final(self)@ == StoreView::empty(),
    {
        *self = RecordStore::new();
    }

    /// The position of record `id`, if there is one.
    fn find_record(&self, id: &String) -> (r: Option<usize>)
        requires
            self.wf(),
        ensures
            match r {
                Some(i) => i < self.records@.len() && self.records@[i as int]@.id == id@
                    && self@.records.contains_key(id@) && self@.records[id@]
                    == self.records@[i as int]@,
                None => !self@.records.contains_key(id@),
            },
    {
        let mut i: usize = 0;
        while i < self.records.len()
            invariant
                self.wf(),
                0 <= i <= self.records@.len(),
                forall|j: int| 0 <= j < i ==> (#[trigger] self.records@[j])@.id != id@,
            decreases self.records@.len() - i,
        {
            if self.records[i].id().eq(id) {
                return Some(i);
            }
            i = i + 1;
        }
        None
    }

    /// The position of `p`'s entry in the owner index, if it has one.
    fn find_owner(&self, p: &Principal) -> (r: Option<usize>)
        requires
            self.wf(),
        ensures
            match r {
                Some(i) => i < self.owners@.len() && self.owners@[i as int].owner@ == p@,
                None => !self@.owners.contains_key(p@),
            },
    {
        let mut i: usize = 0;
        while i < self.owners.len()
            invariant
                self.wf(),
                0 <= i <= self.owners@.len(),
                forall|j: int| 0 <= j < i ==> (#[trigger] self.owners@[j]).owner@ != p@,
            decreases self.owners@.len() - i,
        {
            if self.owners[i].owner.same(p) {
                return Some(i);
            }
            i = i + 1;
        }
        None
    }

    /// Files record `id`, created by `caller` at time `now`; refused when a
    /// record already has that id.
    pub fn insert_record(
        &mut self,
        id: String,
        caller: &Principal,
        now: u64,
        metadata: String,
        data: String,
    ) -> (r: bool)
        requires
            old(self).wf(),
        ensures
            final(self).wf(),
            r == !old(self)@.records.contains_key(id@),
            final(self)@ == old(self)@.step(
                Call::Create { id: id@, caller: caller@, now, metadata: metadata@, data: data@ },
            ),
            final(self)@ == if r {
                old(self)@.created(id@, caller@, now, metadata@, data@)
            } else {
                old(self)@
            },
    {
        if self.find_record(&id).is_some() {
            return false;
        }
        let owner_pos = self.find_owner(caller);
        let ghost before = self@;
        let ghost new_view = new_record_view(id@, caller@, metadata@, data@, now);
        proof {
            lemma_created_inv(before, id@, caller@, now, metadata@, data@);
            assert forall|i: int| 0 <= i < self.records@.len() implies #[trigger] self.records@[i]@.id
                != id@ by {}
        }
        let record = MedicalRecord::new(id.clone(), caller.duplicate(), metadata, data, now);
        self.records.push(record);
        self.record_map = Ghost(self.record_map@.insert(id@, new_view));
        let ghost n = self.records@.len() - 1;
        assert(self.records@[n]@ == new_view);
        assert forall|k: Seq<char>| #[trigger] self.record_map@.contains_key(k) implies exists|i: int|
            0 <= i < self.records@.len() && #[trigger] self.records@[i]@.id == k by {
            if k != id@ {
                let i = choose|i: int|
                    0 <= i < old(self).records@.len() && #[trigger] old(self).records@[i]@.id == k;
                assert(self.records@[i]@.id == k);
            } else {
                assert(self.records@[n]@.id == k);
            }
        }
        let ghost ids_before = before.owned_ids(caller@);
        let ghost pos: int;
        match owner_pos {
            Some(k) => {
                assert(self.owner_map@[caller@] == ids_view(self.owners@[k as int].ids@));
                self.owners[k].ids.push(id);
                proof {
                    pos = k as int;
                }
            },
            None => {
                let mut ids: Vec<String> = Vec::new();
                ids.push(id);
                self.owners.push(OwnerEntry { owner: caller.duplicate(), ids });
                proof {
                    pos = self.owners@.len() - 1;
                }
            },
        }
        assert(ids_view(self.owners@[pos].ids@) =~= ids_before.push(id@));
        self.owner_map = Ghost(self.owner_map@.insert(caller@, ids_before.push(id@)));
        assert forall|p: Seq<u8>| #[trigger] self.owner_map@.contains_key(p) implies exists|i: int|
            0 <= i < self.owners@.len() && #[trigger] self.owners@[i].owner@ == p by {
            if p != caller@ {
                let i = choose|i: int|
                    0 <= i < old(self).owners@.len() && #[trigger] old(self).owners@[i].owner@ == p;
                assert(self.owners@[i].owner@ == p);
            } else {
                assert(self.owners@[pos].owner@ == p);
            }
        }
        assert(self@ == before.created(id@, caller@, now, metadata@, data@));
        assert(forall|i: int, j: int|
            0 <= i < j < self.records@.len() ==> #[trigger] self.records@[i]@.id
                != #[trigger] self.records@[j]@.id);
        assert(forall|i: int|
            0 <= i < self.records@.len() ==> {
                &&& (#[trigger] self.records@[i]).wf()
                &&& self.record_map@.contains_key(self.records@[i]@.id)
                &&& self.record_map@[self.records@[i]@.id] == self.records@[i]@
            });
        true
    }

    /// Creates a record owned by `caller`, under a fresh random id, with
    /// `caller` as its only entry, as `Admin`. Gives back the id; in the
    /// event that the random id is already taken, nothing is filed and the
    /// result is `None`.
    pub fn create_record(&mut self, caller: &Principal, now: u64, metadata: String, data: String) -> (r:
        Option<String>)
        requires
            old(self).wf(),
        ensures
            final(self).wf(),
            match r {
                Some(id) => !old(self)@.records.contains_key(id@) && final(self)@ == old(
                    self,
                )@.created(id@, caller@, now, metadata@, data@) && final(self)@ == old(self)@.step(
                    Call::Create { id: id@, caller: caller@, now, metadata: metadata@, data: data@ },
                ),
                None => final(self)@ == old(self)@,
            },
            (forall|k: Seq<char>| #[trigger] old(self)@.records.contains_key(k) ==> k.len() != 36)
                ==> r is Some,
    {
        let id = random_record_id();
        if self.insert_record(id.clone(), caller, now, metadata, data) {
            Some(id)
        } else {
            None
        }
    }

    /// Whether the access list of the record at `i` lets `caller` perform
    /// `action`.
    fn allows(&self, i: usize, caller: &Principal, action: Action) -> (r: bool)
        requires
            self.wf(),
            i < self.records@.len(),
        ensures
            r == acl_allows(self.records@[i as int]@.access, caller@, action),
    {
        match self.records[i].access_level(caller) {
            Some(level) => action.permits(level),
            None => false,
        }
    }

    /// Record `id`, for a caller that has any entry in its access list;
    /// `None` when the record does not exist or the caller has no entry.
    pub fn get_record(&self, id: &String, caller: &Principal) -> (r: Option<MedicalRecord>)
        requires
            self.wf(),
        ensures
            match r {
                Some(record) => self@.permits(id@, caller@, Action::Read) && record.wf() && record@
                    == self@.records[id@],
                None => !self@.permits(id@, caller@, Action::Read),
            },
    {
        match self.find_record(id) {
            Some(i) => {
                if self.allows(i, caller, Action::Read) {
                    Some(self.records[i].duplicate())
                } else {
                    None
                }
            },
            None => None,
        }
    }

    /// Overwrites the metadata and data of record `id` and sets its time to
    /// `now` (or keeps its time, if that is later), when `caller` holds
    /// `Write` or `Admin` on it. Reports whether it did; a missing record
    /// and a refused caller both give `false`.
    pub fn update_record(
        &mut self,
        id: &String,
        caller: &Principal,
        now: u64,
        metadata: String,
        data: String,
    ) -> (r: bool)
        requires
            old(self).wf(),
        ensures
            final(self).wf(),
            r == old(self)@.permits(id@, caller@, Action::Update),
            final(self)@ == old(self)@.step(
                Call::Update { id: id@, caller: caller@, now, metadata: metadata@, data: data@ },
            ),
            final(self)@ == if r {
                old(self)@.updated(id@, metadata@, data@, now)
            } else {
                old(self)@
            },
    {
        match self.find_record(id) {
            Some(i) => {
                if !self.allows(i, caller, Action::Update) {
                    return false;
                }
                let ghost before = *self;
                let previous = self.records[i].timestamp();
                let stamp = if now >= previous {
                    now
                } else {
                    previous
                };
                self.records[i].set_contents(metadata, data, stamp);
                self.record_map = Ghost(self.record_map@.insert(id@, self.records@[i as int]@));
                proof {
                    lemma_record_replaced(before, *self, i as int);
                }
                assert(self@ =~= before@.updated(id@, metadata@, data@, now));
                true
            },
            None => false,
        }
    }

    /// Gives `target` the level `level` on record `id`, replacing any level
    /// it held, when `caller` holds `Admin` on it. Reports whether it did; a
    /// missing record and a refused caller both give `false`.
    pub fn grant_access(
        &mut self,
        id: &String,
        caller: &Principal,
        target: Principal,
        level: AccessLevel,
    ) -> (r: bool)
        requires
            old(self).wf(),
        ensures
            final(self).wf(),
            r == old(self)@.permits(id@, caller@, Action::ManageAccess),
            final(self)@ == old(self)@.step(
                Call::Grant { id: id@, caller: caller@, target: target@, level },
            ),
            final(self)@ == if r {
                old(self)@.granted(id@, target@, level)
            } else {
                old(self)@
            },
    {
        match self.find_record(id) {
            Some(i) => {
                if !self.allows(i, caller, Action::ManageAccess) {
                    return false;
                }
                let ghost before = *self;
                self.records[i].grant(target, level);
                self.record_map = Ghost(self.record_map@.insert(id@, self.records@[i as int]@));
                proof {
                    lemma_record_replaced(before, *self, i as int);
                }
                assert(self@ =~= before@.granted(id@, target@, level));
                true
            },
            None => false,
        }
    }

    /// Takes `target`'s entry out of the access list of record `id`, when
    /// `caller` holds `Admin` on it; a target without an entry is no
    /// failure. Reports whether the caller was allowed; a missing record and
    /// a refused caller both give `false`.
    pub fn revoke_access(&mut self, id: &String, caller: &Principal, target: &Principal) -> (r: bool)
        requires
            old(self).wf(),
        ensures
            final(self).wf(),
            r == old(self)@.permits(id@, caller@, Action::ManageAccess),
            final(self)@ == old(self)@.step(
                Call::Revoke { id: id@, caller: caller@, target: target@ },
            ),
            final(self)@ == if r {
                old(self)@.revoked(id@, target@)
            } else {
                old(self)@
            },
    {
        match self.find_record(id) {
            Some(i) => {
                if !self.allows(i, caller, Action::ManageAccess) {
                    return false;
                }
                let ghost before = *self;
                self.records[i].revoke(target);
                self.record_map = Ghost(self.record_map@.insert(id@, self.records@[i as int]@));
                proof {
                    lemma_record_replaced(before, *self, i as int);
                }
                assert(self@ =~= before@.revoked(id@, target@));
                true
            },
            None => false,
        }
    }

    /// The records that `caller` created, oldest first, whatever their
    /// access lists now say.
    pub fn get_records_by_owner(&self, caller: &Principal) -> (r: Vec<MedicalRecord>)
        requires
            self.wf(),
        ensures
            r@.map_values(|x: MedicalRecord| x@) == self@.listing(caller@),
            forall|i: int| 0 <= i < r@.len() ==> (#[trigger] r@[i]).wf(),
    {
        let mut out: Vec<MedicalRecord> = Vec::new();
        match self.find_owner(caller) {
            Some(k) => {
                let ids = &self.owners[k].ids;
                let ghost all = ids_view(ids@);
                assert(all == self@.owned_ids(caller@));
                let mut i: usize = 0;
                while i < ids.len()
                    invariant
                        self.wf(),
                        ids@.len() == all.len(),
                        all == ids_view(ids@),
                        0 <= i <= ids@.len(),
                        out@.map_values(|x: MedicalRecord| x@) == resolve(
                            all.take(i as int),
                            self@.records,
                        ),
                        forall|j: int| 0 <= j < out@.len() ==> (#[trigger] out@[j]).wf(),
                    decreases ids@.len() - i,
                {
                    let ghost prev = out@;
                    assert(all.take(i + 1).drop_last() =~= all.take(i as int));
                    assert(all.take(i + 1).last() == ids@[i as int]@);
                    match self.find_record(&ids[i]) {
                        Some(j) => {
                            out.push(self.records[j].duplicate());
                            assert(out@.map_values(|x: MedicalRecord| x@) =~= prev.map_values(
                                |x: MedicalRecord| x@,
                            ).push(self@.records[ids@[i as int]@]));
                        },
                        None => {},
                    }
                    i = i + 1;
                }
                assert(all.take(ids@.len() as int) =~= all);
            },
            None => {
                assert(out@.map_values(|x: MedicalRecord| x@) =~= Seq::<RecordView>::empty());
            },
        }
        out
    }
}

} // verus!
