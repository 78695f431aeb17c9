use health_management::{AccessLevel, AccessList, Action, MedicalRecord, Principal, RecordStore};

fn principal(b: u8) -> Principal {
    Principal::from_bytes(vec![b, 7, 1])
}

fn store_with_record(owner: &Principal, id: &str) -> RecordStore {
    let mut store = RecordStore::new();
    assert!(store.insert_record(id.to_string(), owner, 10, "meta".to_string(), "payload".to_string()));
    store
}

#[test]
fn creator_holds_every_right() {
    let a = principal(1);
    let b = principal(2);
    let mut store = RecordStore::new();
    let id = store
        .create_record(&a, 100, "visit1".to_string(), "bp 120/80".to_string())
        .expect("fresh id");
    let rec = store.get_record(&id, &a).expect("creator reads");
    assert_eq!(rec.id(), &id);
    assert_eq!(rec.metadata(), "visit1");
    assert_eq!(rec.data(), "bp 120/80");
    assert_eq!(rec.timestamp(), 100);
    assert!(rec.patient().same(&a));
    assert_eq!(rec.access_level(&a), Some(AccessLevel::Admin));
    assert_eq!(rec.access_list().entries().len(), 1);
    assert!(store.update_record(&id, &a, 101, "visit1b".to_string(), "x".to_string()));
    assert!(store.grant_access(&id, &a, b.duplicate(), AccessLevel::Read));
}

#[test]
fn random_ids_are_hyphenated_and_distinct() {
    let a = principal(1);
    let mut store = RecordStore::new();
    let first = store.create_record(&a, 1, "m".to_string(), "d".to_string()).unwrap();
    let second = store.create_record(&a, 2, "m".to_string(), "d".to_string()).unwrap();
    assert_eq!(first.len(), 36);
    assert_eq!(first.matches('-').count(), 4);
    assert_ne!(first, second);
}

#[test]
fn taken_id_is_refused() {
    let a = principal(1);
    let b = principal(2);
    let mut store = store_with_record(&a, "r1");
    assert!(!store.insert_record("r1".to_string(), &b, 20, "other".to_string(), "x".to_string()));
    let rec = store.get_record(&"r1".to_string(), &a).unwrap();
    assert_eq!(rec.metadata(), "meta");
    assert!(store.get_record(&"r1".to_string(), &b).is_none());
    assert!(store.get_records_by_owner(&b).is_empty());
}

#[test]
fn reads_follow_access_entries() {
    let a = principal(1);
    let b = principal(2);
    let id = "r1".to_string();
    let mut store = store_with_record(&a, "r1");
    assert!(store.get_record(&id, &b).is_none());
    for level in [AccessLevel::Read, AccessLevel::Write, AccessLevel::Admin] {
        assert!(store.grant_access(&id, &a, b.duplicate(), level));
        let rec = store.get_record(&id, &b).expect("any entry reads");
        assert_eq!(rec.data(), "payload");
    }
    assert!(store.revoke_access(&id, &a, &b));
    assert!(store.get_record(&id, &b).is_none());
}

#[test]
fn update_needs_write_or_admin() {
    let a = principal(1);
    let b = principal(2);
    let id = "r1".to_string();
    let mut store = store_with_record(&a, "r1");
    assert!(!store.update_record(&id, &b, 11, "no".to_string(), "no".to_string()));
    assert!(store.grant_access(&id, &a, b.duplicate(), AccessLevel::Read));
    assert!(!store.update_record(&id, &b, 12, "no".to_string(), "no".to_string()));
    assert_eq!(store.get_record(&id, &a).unwrap().metadata(), "meta");
    assert!(store.grant_access(&id, &a, b.duplicate(), AccessLevel::Write));
    assert!(store.update_record(&id, &b, 13, "w".to_string(), "wd".to_string()));
    assert!(store.grant_access(&id, &a, b.duplicate(), AccessLevel::Admin));
    assert!(store.update_record(&id, &b, 14, "ad".to_string(), "add".to_string()));
    let rec = store.get_record(&id, &a).unwrap();
    assert_eq!(rec.metadata(), "ad");
    assert_eq!(rec.data(), "add");
    assert_eq!(rec.timestamp(), 14);
    assert_eq!(rec.id(), "r1");
    assert_eq!(rec.access_level(&a), Some(AccessLevel::Admin));
}

#[test]
fn manage_needs_admin() {
    let a = principal(1);
    let b = principal(2);
    let c = principal(3);
    let id = "r1".to_string();
    let mut store = store_with_record(&a, "r1");
    assert!(!store.grant_access(&id, &b, c.duplicate(), AccessLevel::Read));
    assert!(!store.revoke_access(&id, &b, &a));
    for level in [AccessLevel::Read, AccessLevel::Write] {
        assert!(store.grant_access(&id, &a, b.duplicate(), level));
        assert!(!store.grant_access(&id, &b, c.duplicate(), AccessLevel::Read));
        assert!(!store.revoke_access(&id, &b, &a));
    }
    assert!(store.grant_access(&id, &a, b.duplicate(), AccessLevel::Admin));
    assert!(store.grant_access(&id, &b, c.duplicate(), AccessLevel::Read));
    assert!(store.revoke_access(&id, &b, &c));
    assert!(store.get_record(&id, &c).is_none());
    // Revoking an absent entry still reports success.
    assert!(store.revoke_access(&id, &b, &c));
}

#[test]
fn grant_replaces_level() {
    let a = principal(1);
    let b = principal(2);
    let id = "r1".to_string();
    let mut store = store_with_record(&a, "r1");
    assert!(store.grant_access(&id, &a, b.duplicate(), AccessLevel::Admin));
    assert!(store.grant_access(&id, &a, b.duplicate(), AccessLevel::Read));
    let rec = store.get_record(&id, &a).unwrap();
    assert_eq!(rec.access_level(&b), Some(AccessLevel::Read));
    assert_eq!(rec.access_list().entries().len(), 2);
    assert!(!store.grant_access(&id, &b, a.duplicate(), AccessLevel::Read));
    // An admin that grants itself Read is downgraded.
    assert!(store.grant_access(&id, &a, a.duplicate(), AccessLevel::Read));
    assert!(!store.update_record(&id, &a, 20, "x".to_string(), "y".to_string()));
}

#[test]
fn missing_and_refused_look_alike() {
    let a = principal(1);
    let b = principal(2);
    let id = "r1".to_string();
    let missing = "nope".to_string();
    let mut store = store_with_record(&a, "r1");
    assert!(store.get_record(&missing, &b).is_none());
    assert!(store.get_record(&id, &b).is_none());
    assert_eq!(
        store.update_record(&missing, &b, 1, "m".to_string(), "d".to_string()),
        store.update_record(&id, &b, 1, "m".to_string(), "d".to_string())
    );
    assert_eq!(
        store.grant_access(&missing, &b, b.duplicate(), AccessLevel::Admin),
        store.grant_access(&id, &b, b.duplicate(), AccessLevel::Admin)
    );
    assert_eq!(store.revoke_access(&missing, &b, &a), store.revoke_access(&id, &b, &a));
    assert!(!store.revoke_access(&missing, &a, &a));
    assert!(store.get_record(&id, &a).is_some());
}

#[test]
fn owner_listing_survives_sharing() {
    let a = principal(1);
    let b = principal(2);
    let mut store = RecordStore::new();
    assert!(store.insert_record("a1".to_string(), &a, 1, "m1".to_string(), "d".to_string()));
    assert!(store.insert_record("b1".to_string(), &b, 2, "m2".to_string(), "d".to_string()));
    assert!(store.insert_record("a2".to_string(), &a, 3, "m3".to_string(), "d".to_string()));
    assert!(store.grant_access(&"b1".to_string(), &b, a.duplicate(), AccessLevel::Admin));
    assert!(store.grant_access(&"a1".to_string(), &a, b.duplicate(), AccessLevel::Admin));
    assert!(store.revoke_access(&"a1".to_string(), &b, &a));
    let ids: Vec<String> = store.get_records_by_owner(&a).iter().map(|r| r.id().clone()).collect();
    assert_eq!(ids, vec!["a1".to_string(), "a2".to_string()]);
    let ids: Vec<String> = store.get_records_by_owner(&b).iter().map(|r| r.id().clone()).collect();
    assert_eq!(ids, vec!["b1".to_string()]);
    assert!(store.get_records_by_owner(&principal(9)).is_empty());
}

#[test]
fn share_update_then_revoke() {
    let a = principal(1);
    let b = principal(2);
    let mut store = RecordStore::new();
    let id = store.create_record(&a, 1, "visit1".to_string(), "notes".to_string()).unwrap();
    assert!(store.grant_access(&id, &a, b.duplicate(), AccessLevel::Write));
    assert!(store.update_record(&id, &b, 2, "visit1".to_string(), "more notes".to_string()));
    assert!(!store.grant_access(&id, &b, b.duplicate(), AccessLevel::Admin));
    assert!(store.revoke_access(&id, &a, &b));
    assert!(store.get_record(&id, &b).is_none());
    assert_eq!(store.get_record(&id, &a).unwrap().data(), "more notes");
}

#[test]
fn admin_revoking_itself_orphans_the_record() {
    let a = principal(1);
    let mut store = RecordStore::new();
    let id = store.create_record(&a, 1, "visit1".to_string(), "notes".to_string()).unwrap();
    assert!(store.revoke_access(&id, &a, &a));
    assert!(store.get_record(&id, &a).is_none());
    assert!(!store.update_record(&id, &a, 2, "x".to_string(), "y".to_string()));
    assert!(!store.grant_access(&id, &a, a.duplicate(), AccessLevel::Admin));
    let listed = store.get_records_by_owner(&a);
    assert_eq!(listed.len(), 1);
    assert_eq!(listed[0].id(), &id);
    assert!(listed[0].access_list().entries().is_empty());
}

#[test]
fn reset_empties_the_store() {
    let a = principal(1);
    let mut store = store_with_record(&a, "r1");
    store.reset();
    assert!(store.get_record(&"r1".to_string(), &a).is_none());
    assert!(store.get_records_by_owner(&a).is_empty());
    assert!(store.insert_record("r1".to_string(), &a, 5, "m".to_string(), "d".to_string()));
}

#[test]
fn policy_table() {
    let (read, write, admin) = (AccessLevel::Read, AccessLevel::Write, AccessLevel::Admin);
    assert!(Action::Read.permits(read) && Action::Read.permits(write) && Action::Read.permits(admin));
    assert!(!Action::Update.permits(read) && Action::Update.permits(write) && Action::Update.permits(admin));
    assert!(!Action::ManageAccess.permits(read) && !Action::ManageAccess.permits(write));
    assert!(Action::ManageAccess.permits(admin));
}

#[test]
fn principals_compare_by_bytes() {
    let a = Principal::from_bytes(vec![1, 2, 3]);
    assert!(a == Principal::from_bytes(vec![1, 2, 3]));
    assert!(a != Principal::from_bytes(vec![1, 2]));
    assert!(a != Principal::from_bytes(vec![1, 2, 4]));
    assert_eq!(a.duplicate().as_bytes(), &[1, 2, 3]);
}

#[test]
fn access_list_keeps_one_level_each() {
    let a = principal(1);
    let b = principal(2);
    let mut acl = AccessList::new();
    acl.set(a.duplicate(), AccessLevel::Write);
    acl.set(b.duplicate(), AccessLevel::Read);
    acl.set(a.duplicate(), AccessLevel::Admin);
    assert_eq!(acl.level_of(&a), Some(AccessLevel::Admin));
    assert_eq!(acl.entries().len(), 2);
    acl.remove(&a);
    acl.remove(&a);
    assert_eq!(acl.level_of(&a), None);
    assert_eq!(acl.level_of(&b), Some(AccessLevel::Read));
    let copy = acl.duplicate();
    let rec = MedicalRecord::from_parts("x".to_string(), a.duplicate(), "m".to_string(), "d".to_string(), 3, copy);
    assert_eq!(rec.access_level(&b), Some(AccessLevel::Read));
    assert_eq!(rec.duplicate().access_level(&a), None);
    let fresh = MedicalRecord::new("y".to_string(), b.duplicate(), "m".to_string(), "d".to_string(), 4);
    assert_eq!(fresh.access_level(&b), Some(AccessLevel::Admin));
}

#[test]
fn clock_going_back_keeps_time() {
    let a = principal(1);
    let id = "r1".to_string();
    let mut store = store_with_record(&a, "r1");
    assert!(store.update_record(&id, &a, 50, "m".to_string(), "d".to_string()));
    assert!(store.update_record(&id, &a, 40, "m2".to_string(), "d2".to_string()));
    let rec = store.get_record(&id, &a).unwrap();
    assert_eq!(rec.timestamp(), 50);
    assert_eq!(rec.metadata(), "m2");
    assert!(store.update_record(&id, &a, 60, "m3".to_string(), "d3".to_string()));
    assert_eq!(store.get_record(&id, &a).unwrap().timestamp(), 60);
}
