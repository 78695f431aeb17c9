use crate::principal::Principal;
use vstd::prelude::*;

verus! {

/// The capability that an access list grants to one principal.
///
/// The levels are not nested: each action names the levels it accepts.
#[derive(Clone, Copy, Debug, PartialEq, Eq, Structural)]
pub enum AccessLevel {
    Read,
    Write,
    Admin,
}

/// What a caller may attempt on a record.
#[derive(Clone, Copy, Debug, PartialEq, Eq, Structural)]
pub enum Action {
    /// Fetch the record.
    Read,
    /// Overwrite its metadata and data.
    Update,
    /// Grant or revoke entries of its access list.
    ManageAccess,
}

impl Action {
    /// The policy table: which levels allow which action.
    pub open spec fn spec_permits(self, level: AccessLevel) -> bool {
        match self {
            Action::Read => true,
            Action::Update => level == AccessLevel::Write || level == AccessLevel::Admin,
            Action::ManageAccess => level == AccessLevel::Admin,
        }
    }

    pub fn permits(self, level: AccessLevel) -> (r: bool)
        ensures
            r == self.spec_permits(level),
    {
        match self {
            Action::Read => true,
            Action::Update => match level {
                AccessLevel::Write | AccessLevel::Admin => true,
                AccessLevel::Read => false,
            },
            Action::ManageAccess => match level {
                AccessLevel::Admin => true,
                _ => false,
            },
        }
    }
}

/// Whether `acl` lets principal `p` perform `action`: `p` needs an entry,
/// and the entry's level must allow the action.
pub open spec fn acl_allows(acl: Map<Seq<u8>, AccessLevel>, p: Seq<u8>, action: Action) -> bool {
    acl.contains_key(p) && action.spec_permits(acl[p])
}

#[derive(Clone, Debug)]
struct AccessEntry {
    principal: Principal,
    level: AccessLevel,
}

/// A per-record access list: at most one level for each principal.
#[derive(Clone)]
pub struct AccessList {
    entries: Vec<AccessEntry>,
    levels: Ghost<Map<Seq<u8>, AccessLevel>>,
}

impl View for AccessList {
    type V = Map<Seq<u8>, AccessLevel>;

    closed spec fn view(&self) -> Map<Seq<u8>, AccessLevel> {
        self.levels@
    }
}

impl AccessList {
    /// The entries hold each principal once, and agree with the view.
    pub closed spec fn wf(&self) -> bool {
        &&& forall|i: int, j: int|
            0 <= i < j < self.entries@.len() ==> #[trigger] self.entries@[i].principal@
                != #[trigger] self.entries@[j].principal@
        &&& forall|i: int|
            0 <= i < self.entries@.len() ==> {
                &&& self.levels@.contains_key(#[trigger] self.entries@[i].principal@)
                &&& self.levels@[self.entries@[i].principal@] == self.entries@[i].level
            }
        &&& forall|p: Seq<u8>|
            #[trigger] self.levels@.contains_key(p) ==> exists|i: int|
                0 <= i < self.entries@.len() && #[trigger] self.entries@[i].principal@ == p
    }

    /// An empty list.
    pub fn new() -> (r: AccessList)
        ensures
            r.wf(),
            r@ == Map::<Seq<u8>, AccessLevel>::empty(),
    {
        AccessList { entries: Vec::new(), levels: Ghost(Map::empty()) }
    }

    /// The position of `p`'s entry, if it has one.
    fn find(&self, p: &Principal) -> (r: Option<usize>)
        requires
            self.wf(),
        ensures
            match r {
                Some(i) => i < self.entries@.len() && self.entries@[i as int].principal@ == p@,
                None => !self@.contains_key(p@),
            },
    {
        let mut i: usize = 0;
        while i < self.entries.len()
            invariant
                self.wf(),
                0 <= i <= self.entries@.len(),
                forall|j: int| 0 <= j < i ==> self.entries@[j].principal@ != p@,
            decreases self.entries@.len() - i,
        {
            if self.entries[i].principal.same(p) {
                return Some(i);
            }
            i = i + 1;
        }
        None
    }

    /// The level held by `p`, if any.
    pub fn level_of(&self, p: &Principal) -> (r: Option<AccessLevel>)
        requires
            self.wf(),
        ensures
            r == self@.get(p@),
    {
        match self.find(p) {
            Some(i) => Some(self.entries[i].level),
            None => None,
        }
    }

    /// Gives `p` the level `level`, replacing any level it held.
    pub fn set(&mut self, p: Principal, level: AccessLevel)
        requires
            old(self).wf(),
        ensures
            final(self).wf(),
            final(self)@ == old(self)@.insert(p@, level),
    {
        let ghost pv = p@;
        let ghost idx: int;
        match self.find(&p) {
            Some(i) => {
                self.entries.set(i, AccessEntry { principal: p, level });
                proof {
                    idx = i as int;
                }
            },
            None => {
                self.entries.push(AccessEntry { principal: p, level });
                proof {
                    idx = self.entries@.len() - 1;
                }
            },
        }
        self.levels = Ghost(self.levels@.insert(pv, level));
        assert(self.entries@[idx].principal@ == pv);
        assert forall|q: Seq<u8>| #[trigger] self.levels@.contains_key(q) implies exists|i: int|
            0 <= i < self.entries@.len() && #[trigger] self.entries@[i].principal@ == q by {
            if q != pv {
                let i = choose|i: int|
                    0 <= i < old(self).entries@.len() && #[trigger] old(self).entries@[i].principal@
                        == q;
                assert(self.entries@[i].principal@ == q);
            }
        }
    }

    /// Takes out `p`'s entry; a list without one stays as it is.
    pub fn remove(&mut self, p: &Principal)
        requires
            old(self).wf(),
        ensures
            final(self).wf(),
            final(self)@ == old(self)@.remove(p@),
    {
        match self.find(p) {
            Some(i) => {
                self.entries.remove(i);
                assert forall|j: int| 0 <= j < self.entries@.len() implies #[trigger] self.entries@[j]
                    == old(self).entries@[if j < i { j } else { j + 1 }] by {}
                self.levels = Ghost(self.levels@.remove(p@));
                assert forall|q: Seq<u8>| #[trigger] self.levels@.contains_key(q) implies exists|
                    j: int,
                |
                    0 <= j < self.entries@.len() && #[trigger] self.entries@[j].principal@ == q by {
                    let k = choose|k: int|
                        0 <= k < old(self).entries@.len() && #[trigger] old(
                            self,
                        ).entries@[k].principal@ == q;
                    if k < i {
                        assert(self.entries@[k].principal@ == q);
                    } else {
                        assert(self.entries@[k - 1].principal@ == q);
                    }
                }
                assert forall|a: int, b: int|
                    0 <= a < b < self.entries@.len() implies #[trigger] self.entries@[a].principal@
                    != #[trigger] self.entries@[b].principal@ by {
                    let a2 = if a < i { a } else { a + 1 };
                    let b2 = if b < i { b } else { b + 1 };
                    assert(self.entries@[a] == old(self).entries@[a2]);
                    assert(self.entries@[b] == old(self).entries@[b2]);
                }
            },
            None => {
                self.levels = Ghost(self.levels@.remove(p@));
            },
        }
        assert(self.levels@ =~= old(self)@.remove(p@));
    }

    /// A copy of this list.
    pub fn duplicate(&self) -> (r: AccessList)
        requires
            self.wf(),
        ensures
            r.wf(),
            r@ == self@,
    {
        let mut entries: Vec<AccessEntry> = Vec::with_capacity(self.entries.len());
        let mut i: usize = 0;
        while i < self.entries.len()
            invariant
                0 <= i <= self.entries@.len(),
                entries@.len() == i,
                forall|j: int|
                    0 <= j < i ==> (#[trigger] entries@[j]).principal@ == self.entries@[j].principal@
                        && entries@[j].level == self.entries@[j].level,
            decreases self.entries@.len() - i,
        {
            let e = &self.entries[i];
            let copy = AccessEntry { principal: e.principal.duplicate(), level: e.level };
            entries.push(copy);
            assert(entries@[i as int] == copy);
            i = i + 1;
        }
        let r = AccessList { entries, levels: Ghost(self.levels@) };
        assert forall|j: int| 0 <= j < r.entries@.len() implies #[trigger] r.entries@[j].principal@
            == self.entries@[j].principal@ && r.entries@[j].level == self.entries@[j].level by {
            assert(r.entries@[j] == entries@[j]);
        }
        assert forall|q: Seq<u8>| #[trigger] r.levels@.contains_key(q) implies exists|j: int|
            0 <= j < r.entries@.len() && #[trigger] r.entries@[j].principal@ == q by {
            let k = choose|k: int|
                0 <= k < self.entries@.len() && #[trigger] self.entries@[k].principal@ == q;
            assert(r.entries@[k].principal@ == q);
        }
        assert forall|a: int, b: int|
            0 <= a < b < r.entries@.len() implies #[trigger] r.entries@[a].principal@
            != #[trigger] r.entries@[b].principal@ by {
            assert(self.entries@[a].principal@ != self.entries@[b].principal@);
        }
        r
    }

    /// Every entry as a pair, each principal once, in no promised order.
    pub fn entries(&self) -> (r: Vec<(Principal, AccessLevel)>)
        requires
            self.wf(),
        ensures
            forall|i: int|
                0 <= i < r@.len() ==> self@.contains_key((#[trigger] r@[i]).0@) && self@[r@[i].0@]
                    == r@[i].1,
            forall|p: Seq<u8>| #[trigger]
                self@.contains_key(p) ==> exists|i: int| 0 <= i < r@.len() && #[trigger] r@[i].0@ == p,
            forall|i: int, j: int|
                0 <= i < j < r@.len() ==> #[trigger] r@[i].0@ != #[trigger] r@[j].0@,
    {
        let mut out: Vec<(Principal, AccessLevel)> = Vec::with_capacity(self.entries.len());
        let mut i: usize = 0;
        while i < self.entries.len()
            invariant
                self.wf(),
                0 <= i <= self.entries@.len(),
                out@.len() == i,
                forall|j: int|
                    0 <= j < i ==> (#[trigger] out@[j]).0@ == self.entries@[j].principal@ && out@[j].1
                        == self.entries@[j].level,
            decreases self.entries@.len() - i,
        {
            let e = &self.entries[i];
            let pair = (e.principal.duplicate(), e.level);
            out.push(pair);
            assert(out@[i as int] == pair);
            i = i + 1;
        }
        assert forall|p: Seq<u8>| #[trigger] self@.contains_key(p) implies exists|k: int|
            0 <= k < out@.len() && #[trigger] out@[k].0@ == p by {
            let k = choose|k: int|
                0 <= k < self.entries@.len() && #[trigger] self.entries@[k].principal@ == p;
            assert(out@[k].0@ == p);
        }
        assert forall|a: int, b: int| 0 <= a < b < out@.len() implies #[trigger] out@[a].0@
            != #[trigger] out@[b].0@ by {
            assert(self.entries@[a].principal@ != self.entries@[b].principal@);
        }
        assert forall|k: int| 0 <= k < out@.len() implies self@.contains_key((#[trigger] out@[k]).0@)
            && self@[out@[k].0@] == out@[k].1 by {
            assert(self.entries@[k].principal@ == out@[k].0@);
        }
        out
    }
}

} // verus!
