use justbig2::error::Jbig2Error;

#[test]
fn error_display() {
    let e = Jbig2Error::InvalidData("bad magic".into());
    assert_eq!(e.message(), "invalid data: bad magic");

    let e = Jbig2Error::UnsupportedFeature("color palette".into());
    assert_eq!(e.message(), "unsupported feature: color palette");

    let e = Jbig2Error::InternalError("overflow".into());
    assert_eq!(e.message(), "internal error: overflow");
}

#[test]
fn error_equality() {
    let a = Jbig2Error::InvalidData("x".into());
    let b = Jbig2Error::InvalidData("x".into());
    let c = Jbig2Error::InvalidData("y".into());
    assert_eq!(a, b);
    assert_ne!(a, c);
}

#[test]
fn error_message_of_empty_detail() {
    assert_eq!(Jbig2Error::InternalError(String::new()).message(), "internal error: ");
}
