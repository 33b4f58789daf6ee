use nb_lib::errors::NovaWebErrorId;
use nb_lib::middleware::MyMakeRequestId;

#[test]
fn request_ids_count_up_and_wrap() {
    let mut m = MyMakeRequestId::default();
    assert_eq!(m.make_request_id(), 0);
    assert_eq!(m.make_request_id(), 1);
    let mut n = MyMakeRequestId { counter: u64::MAX };
    assert_eq!(n.make_request_id(), u64::MAX);
    assert_eq!(n.counter, 0);
}

#[test]
fn error_kind_names() {
    assert_eq!(NovaWebErrorId::NotFound.name(), "NotFound");
    assert_eq!(NovaWebErrorId::MissingRefreshToken.name(), "MissingRefreshToken");
}
