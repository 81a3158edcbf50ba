use droplet_core::error::DropletError;

#[test]
fn bad_handle_displays_id() {
    let err = DropletError::BadHandle(7);
    assert_eq!(err.message(), "no such handle: 7");
}

#[test]
fn messages_of_each_variant() {
    assert_eq!(DropletError::BadHandle(1234567).message(), "no such handle: 1234567");
    assert_eq!(DropletError::NotFound("sales".into()).message(), "not found: sales");
    assert_eq!(DropletError::UnsupportedType("Date32".into()).message(), "unsupported column type: Date32");
    assert_eq!(DropletError::BadArg("expected int, got Float(0.0)".into()).message(), "bad tool argument: expected int, got Float(0.0)");
}
