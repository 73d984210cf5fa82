use germ::request::Status;

#[test]
fn status_from_i32() {
    assert_eq!(Status::from(10), Status::Input);
}

#[test]
fn i32_from_status() {
    assert_eq!(i32::from(Status::Input), 10);
}

#[test]
fn status_default_is_success() {
    assert_eq!(Status::default(), Status::Success);
}

#[test]
fn status_unknown_code_is_unsupported() {
    assert_eq!(Status::from(99), Status::Unsupported);
    assert_eq!(i32::from(Status::Unsupported), 0);
}
