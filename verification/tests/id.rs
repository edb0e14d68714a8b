use co_scientist::id::{Id, ParseIdError};

#[test]
fn test_id_from_str() {
    let id = Id::new("ses");
    let parsed = Id::parse(&id.to_text()).expect("parse id");
    assert!(parsed.same(&id));
}

#[test]
fn test_id_serde_roundtrip() {
    let id = Id::new("evt");
    let serialized = serde_json::to_string(&id.to_text()).expect("serialize id");
    assert_eq!(serialized, format!("\"{}\"", id.to_text()));

    let text: String = serde_json::from_str(&serialized).expect("deserialize id");
    let deserialized = Id::parse(&text).expect("parse id");
    assert!(deserialized.same(&id));
}

#[test]
fn texts_hold_prefix_and_ulid() {
    let id = Id::with_ulid("evt", 0x0123_4567_89ab_cdef_0123_4567_89ab_cdef);
    let ulid = ulid::Ulid(0x0123_4567_89ab_cdef_0123_4567_89ab_cdef).to_string();
    assert_eq!(id.to_text(), format!("evt_{ulid}"));
    assert_eq!(Id::with_ulid("op", 0).to_text(), "op_00000000000000000000000000");
    assert_eq!(Id::with_ulid("op", u128::MAX).to_text(), "op_7ZZZZZZZZZZZZZZZZZZZZZZZZZ");
}

#[test]
fn lower_case_ulids_are_read() {
    let upper = Id::parse("evt_01ARZ3NDEKTSV4RRFFQ69G5FAV").expect("upper case");
    let lower = Id::parse("evt_01arz3ndektsv4rrffq69g5fav").expect("lower case");
    assert!(upper.same(&lower));
}

#[test]
fn ids_keep_their_prefix() {
    assert!(Id::op().to_text().starts_with("op_"));
    assert!(Id::evt().to_text().starts_with("evt_"));
    assert!(Id::ses().to_text().starts_with("ses_"));
    assert!(Id::step().to_text().starts_with("step_"));
    assert!(!Id::op().same(&Id::op()));
}

#[test]
fn malformed_ids_are_refused() {
    assert!(matches!(Id::parse("nothing"), Err(ParseIdError::MissingSeparator)));
    assert!(matches!(Id::parse("evt_short"), Err(ParseIdError::InvalidUlid)));
    assert!(matches!(Id::parse("evt_UUUUUUUUUUUUUUUUUUUUUUUUUU"), Err(ParseIdError::InvalidUlid)));
}

#[test]
fn ids_can_be_ordered_and_looked_up() {
    let a = Id::with_ulid("op", 1);
    let b = Id::with_ulid("op", 2);
    let c = Id::with_ulid("ses", 0);
    assert_eq!(a, Id::with_ulid("op", 1));
    assert_ne!(a, b);
    assert!(a < b && b < c);
    assert_eq!(Id::default(), Id::with_ulid("", 0));
    let seen: std::collections::HashSet<Id> = [a, b, a].into_iter().collect();
    assert_eq!(seen.len(), 2);
}
