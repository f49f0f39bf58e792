use timesync_https::http::response_body;
use timesync_https::http::response_from_body;
use timesync_https::http::setup_error;
use timesync_https::http::setup_failure_error;
use timesync_https::http::transfer_error;
use timesync_https::http::Error;
use timesync_https::http::LibraryFailure;
use timesync_https::http::SetupFailure;
use timesync_https::http::RESPONSE_SIZE;

#[test]
fn body_within_capacity_comes_back_unchanged() {
    let body = b"hello, device";
    let v = response_from_body(body).unwrap();
    assert_eq!(response_body(&v), &body[..]);
}

#[test]
fn body_of_exactly_capacity_fits() {
    let body: Vec<u8> = (0..RESPONSE_SIZE).map(|i| (i % 251) as u8).collect();
    let v = response_from_body(&body).unwrap();
    assert_eq!(response_body(&v), &body[..]);
    assert_eq!(response_body(&v).len(), 4096);
}

#[test]
fn body_one_over_capacity_is_too_large() {
    let body = vec![7u8; RESPONSE_SIZE + 1];
    assert_eq!(response_from_body(&body).err(), Some(Error::ResponseTooLarge));
}

#[test]
fn empty_body_is_empty_response() {
    let v = response_from_body(&[]).unwrap();
    assert!(response_body(&v).is_empty());
}

#[test]
fn setup_timeout_is_time_error() {
    assert_eq!(setup_failure_error(SetupFailure::TimedOut), Error::Time);
}

#[test]
fn dns_failure_is_dns_error() {
    assert_eq!(setup_failure_error(SetupFailure::Failed(LibraryFailure::Dns)), Error::Dns);
    assert_eq!(transfer_error(LibraryFailure::Dns), Error::Dns);
}

#[test]
fn network_failures_by_phase() {
    assert_eq!(setup_error(LibraryFailure::Network), Error::TcpConnect);
    assert_eq!(setup_error(LibraryFailure::ConnectionAborted), Error::TcpConnect);
    assert_eq!(transfer_error(LibraryFailure::Network), Error::Tcp);
    assert_eq!(transfer_error(LibraryFailure::ConnectionAborted), Error::Tcp);
}

#[test]
fn other_library_failures_are_reqless() {
    for f in [
        LibraryFailure::Codec,
        LibraryFailure::InvalidUrl,
        LibraryFailure::Tls,
        LibraryFailure::BufferTooSmall,
        LibraryFailure::AlreadySent,
        LibraryFailure::IncorrectBodyWritten,
    ] {
        assert_eq!(setup_error(f), Error::Reqless);
        assert_eq!(transfer_error(f), Error::Reqless);
        assert_eq!(setup_failure_error(SetupFailure::Failed(f)), Error::Reqless);
    }
}
