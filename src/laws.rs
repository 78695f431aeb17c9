//! Properties of the store that relate several operations, proved over the
//! store's view.
use crate::access::{acl_allows, AccessLevel, Action};
use crate::record::RecordView;
use crate::store::{lemma_created_inv, resolve, Call, StoreView};
use vstd::prelude::*;

verus! {

/// The creator of a new record may read it, update it and manage its
/// access list.
pub proof fn law_creator_holds_every_right(
    s: StoreView,
    id: Seq<char>,
    caller: Seq<u8>,
    now: u64,
    metadata: Seq<char>,
    data: Seq<char>,
)
    requires
        !s.records.contains_key(id),
    ensures
        s.created(id, caller, now, metadata, data).permits(id, caller, Action::Read),
        s.created(id, caller, now, metadata, data).permits(id, caller, Action::Update),
        s.created(id, caller, now, metadata, data).permits(id, caller, Action::ManageAccess),
{
}

/// Reading needs an entry in the record's access list, of any level, and
/// nothing more.
pub proof fn law_read_needs_any_entry(s: StoreView, id: Seq<char>, p: Seq<u8>)
    ensures
        s.permits(id, p, Action::Read) <==> (s.records.contains_key(id)
            && s.records[id].access.contains_key(p)),
{
}

/// Updating needs an entry of level `Write` or `Admin`; an entry of level
/// `Read` never suffices.
pub proof fn law_update_needs_write_or_admin(s: StoreView, id: Seq<char>, p: Seq<u8>)
    ensures
        s.permits(id, p, Action::Update) <==> (s.records.contains_key(id) && (s.records[id].access.get(
            p,
        ) == Some(AccessLevel::Write) || s.records[id].access.get(p) == Some(AccessLevel::Admin))),
        s.records.contains_key(id) && s.records[id].access.get(p) == Some(AccessLevel::Read)
            ==> !s.permits(id, p, Action::Update),
{
}

/// Granting and revoking need an entry of level `Admin` exactly.
pub proof fn law_manage_needs_admin(s: StoreView, id: Seq<char>, p: Seq<u8>)
    ensures
        s.permits(id, p, Action::ManageAccess) <==> (s.records.contains_key(id)
            && s.records[id].access.get(p) == Some(AccessLevel::Admin)),
{
}

/// A grant replaces the level that the target held: afterwards the target
/// holds the new level alone, and no other entry changes.
pub proof fn law_grant_replaces_level(
    s: StoreView,
    id: Seq<char>,
    target: Seq<u8>,
    held: AccessLevel,
    level: AccessLevel,
)
    requires
        s.records.contains_key(id),
        s.records[id].access.get(target) == Some(held),
    ensures
        s.granted(id, target, level).records[id].access.get(target) == Some(level),
        s.granted(id, target, level).records[id].access.dom() == s.records[id].access.dom(),
        forall|q: Seq<u8>|
            q != target ==> #[trigger] s.granted(id, target, level).records[id].access.get(q)
                == s.records[id].access.get(q),
{
    assert(s.granted(id, target, level).records[id].access.dom() =~= s.records[id].access.dom());
}

/// A missing record and a record on which the caller lacks the needed level
/// give the same answer, for every action.
pub proof fn law_missing_and_refused_alike(
    s: StoreView,
    missing: Seq<char>,
    refused: Seq<char>,
    p: Seq<u8>,
    action: Action,
)
    requires
        !s.records.contains_key(missing),
        s.records.contains_key(refused),
        !acl_allows(s.records[refused].access, p, action),
    ensures
        s.permits(missing, p, action) == s.permits(refused, p, action),
        !s.permits(missing, p, action),
{
}

proof fn lemma_resolve_ids(ids: Seq<Seq<char>>, records: Map<Seq<char>, RecordView>)
    requires
        forall|k: Seq<char>|
            #[trigger] ids.contains(k) ==> records.contains_key(k) && records[k].id == k,
    ensures
        resolve(ids, records).map_values(|r: RecordView| r.id) == ids,
    decreases ids.len(),
{
    if ids.len() > 0 {
        let init = ids.drop_last();
        assert forall|k: Seq<char>| #[trigger] init.contains(k) implies records.contains_key(k)
            && records[k].id == k by {
            let i = choose|i: int| 0 <= i < init.len() && init[i] == k;
            assert(ids[i] == k);
            assert(ids.contains(k));
        }
        lemma_resolve_ids(init, records);
        assert(ids.contains(ids.last()));
        assert(resolve(ids, records).map_values(|r: RecordView| r.id) =~= resolve(
            init,
            records,
        ).map_values(|r: RecordView| r.id).push(ids.last()));
        assert(init.push(ids.last()) =~= ids);
    }
}

/// The owner listing of `p` names, once each and oldest first, exactly the
/// records that `p` created.
pub proof fn law_listing_is_creations(s: StoreView, p: Seq<u8>)
    requires
        s.inv(),
    ensures
        s.listing(p).map_values(|r: RecordView| r.id) == s.owned_ids(p),
        s.owned_ids(p).no_duplicates(),
        forall|k: Seq<char>|
            #[trigger] s.owned_ids(p).contains(k) <==> (s.records.contains_key(k)
                && s.records[k].patient == p),
{
    assert forall|k: Seq<char>| #[trigger] s.owned_ids(p).contains(k) implies s.records.contains_key(
        k,
    ) && s.records[k].id == k by {}
    lemma_resolve_ids(s.owned_ids(p), s.records);
}

proof fn lemma_new_access_keeps_inv(s: StoreView, id: Seq<char>, access: Map<Seq<u8>, AccessLevel>)
    requires
        s.inv(),
        s.records.contains_key(id),
    ensures
        s.with_access(id, access).inv(),
{
    let t = s.with_access(id, access);
    assert forall|p: Seq<u8>, k: Seq<char>|
        #[trigger] t.owned_ids(p).contains(k) <==> (t.records.contains_key(k) && t.records[k].patient
            == p) by {
        assert(s.owned_ids(p).contains(k) <==> (s.records.contains_key(k) && s.records[k].patient
            == p));
    }
    assert forall|p: Seq<u8>| #[trigger] t.owned_ids(p).no_duplicates() by {
        assert(s.owned_ids(p).no_duplicates());
    }
}

proof fn lemma_update_keeps_inv(
    s: StoreView,
    id: Seq<char>,
    metadata: Seq<char>,
    data: Seq<char>,
    now: u64,
)
    requires
        s.inv(),
        s.records.contains_key(id),
    ensures
        s.updated(id, metadata, data, now).inv(),
{
    let t = s.updated(id, metadata, data, now);
    assert forall|p: Seq<u8>, k: Seq<char>|
        #[trigger] t.owned_ids(p).contains(k) <==> (t.records.contains_key(k) && t.records[k].patient
            == p) by {
        assert(s.owned_ids(p).contains(k) <==> (s.records.contains_key(k) && s.records[k].patient
            == p));
    }
    assert forall|p: Seq<u8>| #[trigger] t.owned_ids(p).no_duplicates() by {
        assert(s.owned_ids(p).no_duplicates());
    }
}

/// Grants, revokes and updates, by anyone and to anyone, leave the ids in
/// every principal's owner listing as they were.
pub proof fn law_listing_survives_changes(
    s: StoreView,
    id: Seq<char>,
    target: Seq<u8>,
    level: AccessLevel,
    metadata: Seq<char>,
    data: Seq<char>,
    now: u64,
    p: Seq<u8>,
)
    requires
        s.inv(),
        s.records.contains_key(id),
    ensures
        s.granted(id, target, level).listing(p).map_values(|r: RecordView| r.id) == s.listing(
            p,
        ).map_values(|r: RecordView| r.id),
        s.revoked(id, target).listing(p).map_values(|r: RecordView| r.id) == s.listing(
            p,
        ).map_values(|r: RecordView| r.id),
        s.updated(id, metadata, data, now).listing(p).map_values(|r: RecordView| r.id) == s.listing(
            p,
        ).map_values(|r: RecordView| r.id),
{
    law_listing_is_creations(s, p);
    let g = s.granted(id, target, level);
    lemma_new_access_keeps_inv(s, id, s.records[id].access.insert(target, level));
    law_listing_is_creations(g, p);
    let v = s.revoked(id, target);
    lemma_new_access_keeps_inv(s, id, s.records[id].access.remove(target));
    law_listing_is_creations(v, p);
    let u = s.updated(id, metadata, data, now);
    lemma_update_keeps_inv(s, id, metadata, data, now);
    law_listing_is_creations(u, p);
}

/// A creation adds exactly one record, under a fresh id, and leaves every
/// other record as it was.
pub proof fn law_create_adds_one_record(
    s: StoreView,
    id: Seq<char>,
    caller: Seq<u8>,
    now: u64,
    metadata: Seq<char>,
    data: Seq<char>,
)
    requires
        s.inv(),
        !s.records.contains_key(id),
    ensures
        s.created(id, caller, now, metadata, data).records.len() == s.records.len() + 1,
        forall|k: Seq<char>| #[trigger]
            s.records.contains_key(k) ==> s.created(id, caller, now, metadata, data).records.contains_key(k)
                && s.created(id, caller, now, metadata, data).records[k] == s.records[k],
{
}

/// An update never moves a record's time backwards.
pub proof fn law_update_keeps_time_monotonic(
    s: StoreView,
    id: Seq<char>,
    metadata: Seq<char>,
    data: Seq<char>,
    now: u64,
)
    requires
        s.records.contains_key(id),
    ensures
        s.updated(id, metadata, data, now).records[id].timestamp >= s.records[id].timestamp,
        now >= s.records[id].timestamp ==> s.updated(id, metadata, data, now).records[id].timestamp
            == now,
{
}

/// Every call keeps the store's invariant.
pub proof fn law_step_keeps_inv(s: StoreView, call: Call)
    requires
        s.inv(),
    ensures
        s.step(call).inv(),
{
    match call {
        Call::Create { id, caller, now, metadata, data } => {
            if !s.records.contains_key(id) {
                lemma_created_inv(s, id, caller, now, metadata, data);
            }
        },
        Call::Update { id, caller, now, metadata, data } => {
            if s.permits(id, caller, Action::Update) {
                lemma_update_keeps_inv(s, id, metadata, data, now);
            }
        },
        Call::Grant { id, caller, target, level } => {
            if s.permits(id, caller, Action::ManageAccess) {
                lemma_new_access_keeps_inv(s, id, s.records[id].access.insert(target, level));
            }
        },
        Call::Revoke { id, caller, target } => {
            if s.permits(id, caller, Action::ManageAccess) {
                lemma_new_access_keeps_inv(s, id, s.records[id].access.remove(target));
            }
        },
    }
}

/// Any sequence of calls keeps the store's invariant.
pub proof fn law_run_keeps_inv(s: StoreView, calls: Seq<Call>)
    requires
        s.inv(),
    ensures
        s.run(calls).inv(),
    decreases calls.len(),
{
    if calls.len() > 0 {
        law_step_keeps_inv(s, calls[0]);
        law_run_keeps_inv(s.step(calls[0]), calls.drop_first());
    }
}

/// After a sequence of calls, the ids that `p` created are those it had,
/// followed by those it created along the way, in order.
pub proof fn law_owned_ids_after_run(s: StoreView, calls: Seq<Call>, p: Seq<u8>)
    requires
        s.inv(),
    ensures
        s.run(calls).owned_ids(p) == s.owned_ids(p) + s.creations(calls, p),
    decreases calls.len(),
{
    if calls.len() == 0 {
        assert(s.owned_ids(p) + Seq::<Seq<char>>::empty() =~= s.owned_ids(p));
    } else {
        let t = s.step(calls[0]);
        law_step_keeps_inv(s, calls[0]);
        law_owned_ids_after_run(t, calls.drop_first(), p);
        let first = match calls[0] {
            Call::Create { id, caller, .. } => if caller == p && !s.records.contains_key(id) {
                seq![id]
            } else {
                Seq::empty()
            },
            _ => Seq::empty(),
        };
        assert(t.owned_ids(p) =~= s.owned_ids(p) + first);
        assert(s.creations(calls, p) == first + t.creations(calls.drop_first(), p));
        assert(s.owned_ids(p) + first + t.creations(calls.drop_first(), p) =~= s.owned_ids(p) + (
        first + t.creations(calls.drop_first(), p)));
    }
}

/// Starting from the empty store, the owner listing of `p` names, oldest
/// first and once each, exactly the records that `p`'s creations filed.
pub proof fn law_listing_from_empty(calls: Seq<Call>, p: Seq<u8>)
    ensures
        StoreView::empty().run(calls).listing(p).map_values(|r: RecordView| r.id)
            == StoreView::empty().creations(calls, p),
        StoreView::empty().creations(calls, p).no_duplicates(),
{
    let e = StoreView::empty();
    assert(e.inv());
    law_run_keeps_inv(e, calls);
    law_owned_ids_after_run(e, calls, p);
    assert(e.owned_ids(p) + e.creations(calls, p) =~= e.creations(calls, p));
    law_listing_is_creations(e.run(calls), p);
}

/// Calls that create nothing leave every principal's owner listing naming
/// the same ids, whoever grants, revokes or updates what.
pub proof fn law_listing_survives_calls(s: StoreView, calls: Seq<Call>, p: Seq<u8>)
    requires
        s.inv(),
        forall|i: int| 0 <= i < calls.len() ==> !((#[trigger] calls[i]) is Create),
    ensures
        s.run(calls).listing(p).map_values(|r: RecordView| r.id) == s.listing(p).map_values(
            |r: RecordView| r.id,
        ),
{
    lemma_no_creations(s, calls, p);
    law_owned_ids_after_run(s, calls, p);
    assert(s.owned_ids(p) + s.creations(calls, p) =~= s.owned_ids(p));
    law_run_keeps_inv(s, calls);
    law_listing_is_creations(s, p);
    law_listing_is_creations(s.run(calls), p);
}

proof fn lemma_no_creations(s: StoreView, calls: Seq<Call>, p: Seq<u8>)
    requires
        forall|i: int| 0 <= i < calls.len() ==> !((#[trigger] calls[i]) is Create),
    ensures
        s.creations(calls, p) == Seq::<Seq<char>>::empty(),
    decreases calls.len(),
{
    if calls.len() > 0 {
        assert(!(calls[0] is Create));
        let rest = calls.drop_first();
        assert forall|i: int| 0 <= i < rest.len() implies !((#[trigger] rest[i]) is Create) by {
            assert(rest[i] == calls[i + 1]);
        }
        lemma_no_creations(s.step(calls[0]), rest, p);
        assert(s.creations(calls, p) =~= Seq::<Seq<char>>::empty());
    }
}

/// A record that `p` did not create is never in `p`'s owner listing, even
/// when `p` holds `Admin` on it.
pub proof fn law_shared_records_not_listed(s: StoreView, id: Seq<char>, p: Seq<u8>)
    requires
        s.inv(),
        s.records.contains_key(id),
        s.records[id].patient != p,
    ensures
        !s.listing(p).map_values(|r: RecordView| r.id).contains(id),
{
    law_listing_is_creations(s, p);
}

} // verus!
