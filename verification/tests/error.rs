use pipewire_vircam::Error;

/// The strings are part of the operator-facing contract (the
/// harness greps for them), so pin them.
#[test]
fn display_strings() {
    assert_eq!(
        Error::InvalidConfig("x".into()).to_string(),
        "invalid config: x"
    );
    assert_eq!(Error::Connect("y".into()).to_string(), "connect failed: y");
}

#[test]
fn error_is_std_error() {
    let e = Error::Connect("c".into());
    assert!(e.to_string().contains("connect failed"));
}
