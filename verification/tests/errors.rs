use lumberjack::Error;

#[test]
fn io_error_converts_via_from() {
    let io = std::io::Error::new(std::io::ErrorKind::Other, "boom");
    let err: Error = io.into();
    assert!(matches!(err, Error::Io(_)));
    assert!(err.source().is_some());
}

#[test]
fn display_format_includes_context() {
    let err = Error::FrameTooLarge { size: 100, max: 10 };
    assert_eq!(err.to_string(), "frame too large: 100 > 10");
}

#[test]
fn every_error_has_its_message() {
    let io = std::io::Error::new(std::io::ErrorKind::Other, "boom");
    let messages = [
        (Error::Io(io), "io error: boom"),
        (Error::InvalidFrame("x"), "invalid frame: x"),
        (
            Error::FrameTooLarge { size: usize::MAX, max: 0 },
            "frame too large: 18446744073709551615 > 0",
        ),
        (Error::Compression("x".to_string()), "compression error: x"),
        (Error::Serialization("x".to_string()), "serialization error: x"),
        (Error::UnexpectedFrame("x"), "unexpected frame: x"),
        (
            Error::SeqOutOfOrder { got: 3, prev: 4294967295 },
            "seq out of order: got 3, expected > 4294967295",
        ),
        (Error::WriteTimeout, "write timeout"),
        (Error::AckTimeout, "ack timeout"),
        (Error::ConnectionClosed, "connection closed by peer"),
        (Error::InvalidConfig("x"), "invalid config: x"),
        (Error::NoLocalPortAvailable, "no local port available in configured range"),
    ];
    for (error, message) in messages {
        assert_eq!(error.to_string(), message);
        assert_eq!(error.source().is_some(), matches!(error, Error::Io(_)));
    }
}
