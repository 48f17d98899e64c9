//! Unit tests for the store, the ID service, the decimal rendering and the
//! payload model.

use gossip_glommers::broadcast::gossip_of;
use gossip_glommers::db::DB;
use gossip_glommers::decimal::u64_to_dec;
use gossip_glommers::klog::KLog;
use gossip_glommers::uid::UID;
use gossip_glommers::value::{lookup_field, Val};

#[test]
fn db_add_get_delete() {
    let mut db: DB<String, String> = DB::new();
    db.add_message("a".to_string(), "one".to_string());
    db.add_message("b".to_string(), "two".to_string());
    assert_eq!(db.get_message(&"a".to_string()), Some("one".to_string()));
    assert_eq!(db.get_message(&"b".to_string()), Some("two".to_string()));
    assert_eq!(db.get_message(&"c".to_string()), None);

    // Insert overwrites.
    db.add_message("a".to_string(), "uno".to_string());
    assert_eq!(db.get_message(&"a".to_string()), Some("uno".to_string()));

    // Snapshot keeps insertion order.
    assert_eq!(db.get_messages_as_value(), vec!["uno".to_string(), "two".to_string()]);

    // Delete is idempotent.
    db.delete_message(&"a".to_string());
    assert_eq!(db.get_message(&"a".to_string()), None);
    db.delete_message(&"a".to_string());
    assert_eq!(db.get_messages_as_value(), vec!["two".to_string()]);
}

#[test]
fn db_integer_keys() {
    let mut db: DB<u64, String> = DB::new();
    db.add_message(7, "seven".to_string());
    db.add_message(9, "nine".to_string());
    assert_eq!(db.get_message(&7), Some("seven".to_string()));
    db.delete_message(&7);
    assert_eq!(db.get_message(&7), None);
    assert_eq!(db.get_message(&9), Some("nine".to_string()));
}

#[test]
fn uid_integer_ids_are_consecutive() {
    let mut uid = UID::new();
    assert_eq!(uid.generate_int_unique_id(), Ok(0));
    assert_eq!(uid.generate_int_unique_id(), Ok(1));
    assert_eq!(uid.generate_int_unique_id(), Ok(2));
}

#[test]
fn uid_string_and_integer_ids_share_the_counter() {
    let mut uid = UID::new();
    let s = uid.generate_unique_id("n1").expect("the clock is readable");
    assert!(s.ends_with("-n1-0"));
    // The next integer id consumes the next counter value, so it can never
    // collide with the string id's counter segment.
    assert_eq!(uid.generate_int_unique_id(), Ok(1));
    let s2 = uid.generate_unique_id("n1").expect("the clock is readable");
    assert!(s2.ends_with("-n1-2"));
    assert_ne!(s, s2);
}

#[test]
fn decimal_rendering() {
    assert_eq!(u64_to_dec(0), "0".to_string());
    assert_eq!(u64_to_dec(7), "7".to_string());
    assert_eq!(u64_to_dec(10), "10".to_string());
    assert_eq!(u64_to_dec(90217), "90217".to_string());
    assert_eq!(u64_to_dec(u64::MAX), "18446744073709551615".to_string());
}

#[test]
fn lookup_field_finds_first_match() {
    let fields = vec![
        ("a".to_string(), Val::Num(1)),
        ("b".to_string(), Val::Num(2)),
        ("a".to_string(), Val::Num(3)),
    ];
    assert_eq!(lookup_field(&fields, &"a".to_string()), Some(&Val::Num(1)));
    assert_eq!(lookup_field(&fields, &"b".to_string()), Some(&Val::Num(2)));
    assert_eq!(lookup_field(&fields, &"c".to_string()), None);
}

#[test]
fn gossip_classification() {
    let wrapped = Val::Obj(vec![
        ("d".to_string(), Val::Num(42)),
        ("d_id".to_string(), Val::Text("x-1".to_string())),
    ]);
    let payload = gossip_of(&wrapped).expect("an object with d and d_id is gossip");
    assert_eq!(payload.dist_message_id, "x-1".to_string());
    assert_eq!(payload.data, Val::Num(42));

    // An object without the gossip fields, and a bare value, are fresh
    // submissions.
    let plain_obj = Val::Obj(vec![("k".to_string(), Val::Num(1))]);
    assert!(gossip_of(&plain_obj).is_none());
    assert!(gossip_of(&Val::Num(42)).is_none());
    // d_id must be a string.
    let bad_id = Val::Obj(vec![
        ("d".to_string(), Val::Num(42)),
        ("d_id".to_string(), Val::Num(5)),
    ]);
    assert!(gossip_of(&bad_id).is_none());
}

#[test]
fn klog_appends_assign_contiguous_offsets() {
    let mut klog = KLog::new();
    assert_eq!(klog.handle_append("k".to_string(), Val::Num(10)), 0);
    assert_eq!(klog.handle_append("k".to_string(), Val::Num(11)), 1);
    assert_eq!(klog.handle_append("other".to_string(), Val::Num(12)), 0);
    assert_eq!(klog.handle_append("k".to_string(), Val::Num(13)), 2);

    let polled = klog.handle_poll(vec![("k".to_string(), 1)]);
    assert_eq!(
        polled,
        vec![("k".to_string(), vec![(1, Val::Num(11)), (2, Val::Num(13))])]
    );
}

#[test]
fn klog_commit_markers_are_per_key() {
    let mut klog = KLog::new();
    klog.handle_commit_offsets(vec![("a".to_string(), 4), ("b".to_string(), 9)]);
    let listed = klog.handle_list_committed_offsets(vec![
        "a".to_string(),
        "b".to_string(),
        "c".to_string(),
    ]);
    assert_eq!(
        listed,
        vec![("a".to_string(), 4), ("b".to_string(), 9), ("c".to_string(), 0)]
    );
}
