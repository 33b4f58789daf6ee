use nb_lib::utils::{thing_from_string, Thing, ThingError};

#[test]
fn parses_table_and_ulid() {
    let t = thing_from_string("post:01ARZ3NDEKTSV4RRFFQ69G5FAV").unwrap();
    assert_eq!(t.tb, "post");
    assert_eq!(t.to_record_string(), "post:01ARZ3NDEKTSV4RRFFQ69G5FAV");
}

#[test]
fn lower_case_ulid_is_normalised() {
    let t = thing_from_string("drafted:01arz3ndektsv4rrffq69g5fav").unwrap();
    assert_eq!(t.to_record_string(), "drafted:01ARZ3NDEKTSV4RRFFQ69G5FAV");
}

#[test]
fn wrong_number_of_parts() {
    assert_eq!(thing_from_string("post"), Err(ThingError::NotTwoParts));
    assert_eq!(thing_from_string("a:b:c"), Err(ThingError::NotTwoParts));
}

#[test]
fn key_must_be_ulid() {
    assert_eq!(thing_from_string("post:123"), Err(ThingError::NotUlid));
    assert_eq!(thing_from_string("post:01ARZ3NDEKTSV4RRFFQ69G5FAU!"), Err(ThingError::NotUlid));
}

#[test]
fn small_key_renders_with_leading_zeros() {
    let t = Thing { tb: "meta".to_string(), id: 1 };
    assert_eq!(t.to_record_string(), "meta:00000000000000000000000001");
}
