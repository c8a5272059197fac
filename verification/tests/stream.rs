use sonora::stream::{after_decode_error, DecodeStep, MAX_CONSECUTIVE_DECODE_ERRORS};
use sonora::stream::{
    check_range_answer, is_seekable, is_timeout_message, is_unrecoverable_stream_error,
    length_after, range_header, seek_offset, SeekTarget, StreamFailure,
    HTTP_CONNECT_TIMEOUT_SECS, HTTP_READ_TIMEOUT_SECS,
};
use std::time::Duration;

#[test]
fn http_timeouts_are_finite_and_map_to_timed_out() {
    assert_eq!(Duration::from_secs(HTTP_CONNECT_TIMEOUT_SECS), Duration::from_secs(8));
    assert_eq!(Duration::from_secs(HTTP_READ_TIMEOUT_SECS), Duration::from_secs(15));
    assert!(is_timeout_message("timed out waiting for response"));
    assert!(is_timeout_message("connection timeout"));
    assert!(!is_timeout_message("connection reset"));
    assert!(is_unrecoverable_stream_error(&StreamFailure::TimedOut));
}

#[test]
fn timeouts_are_found_in_any_case() {
    assert!(is_timeout_message("Operation TIMED OUT"));
    assert!(is_timeout_message("read TimeOut"));
    assert!(!is_timeout_message("time out"));
    assert!(!is_timeout_message(""));
}

#[test]
fn only_broken_connections_end_a_stream() {
    for failure in [
        StreamFailure::UnexpectedEof,
        StreamFailure::TimedOut,
        StreamFailure::ConnectionReset,
        StreamFailure::ConnectionAborted,
        StreamFailure::BrokenPipe,
    ] {
        assert!(is_unrecoverable_stream_error(&failure));
    }
    assert!(!is_unrecoverable_stream_error(&StreamFailure::OtherIo));
    assert!(!is_unrecoverable_stream_error(&StreamFailure::Decode));
}

#[test]
fn range_requests_and_their_answers() {
    assert_eq!(range_header(0), "bytes=0-");
    assert_eq!(range_header(1024), "bytes=1024-");
    assert_eq!(check_range_answer(0, 200, "200 OK", None), Ok(()));
    assert_eq!(
        check_range_answer(0, 404, "404 Not Found", None),
        Err("stream returned HTTP 404 Not Found".to_string())
    );
    assert_eq!(
        check_range_answer(10, 200, "200 OK", None),
        Err("stream ignored byte range at offset 10 (HTTP 200 OK)".to_string())
    );
    assert_eq!(check_range_answer(10, 206, "206", Some("bytes 10-99/100")), Ok(()));
    assert_eq!(
        check_range_answer(10, 206, "206", None),
        Err("range response omitted Content-Range".to_string())
    );
    assert_eq!(
        check_range_answer(10, 206, "206", Some("bytes 0-99/100")),
        Err("stream returned an unexpected byte range: bytes 0-99/100".to_string())
    );
}

#[test]
fn lengths_and_seeks() {
    assert_eq!(length_after(100, Some(900), None), Some(1000));
    assert_eq!(length_after(100, None, Some(5)), Some(5));
    assert_eq!(length_after(0, None, None), None);
    assert_eq!(seek_offset(SeekTarget::Start(42), 7, None), 42);
    assert_eq!(seek_offset(SeekTarget::End(-10), 7, Some(100)), 90);
    assert_eq!(seek_offset(SeekTarget::End(-10), 7, None), 0);
    assert_eq!(seek_offset(SeekTarget::Current(-20), 7, Some(100)), 0);
    assert_eq!(seek_offset(SeekTarget::Current(5), 7, Some(100)), 12);
    assert!(is_seekable(Some(1)));
    assert!(!is_seekable(None));
}

#[test]
fn decoding_gives_up_after_too_many_failures_in_a_row() {
    assert_eq!(MAX_CONSECUTIVE_DECODE_ERRORS, 64);
    assert_eq!(after_decode_error(0, StreamFailure::Decode), DecodeStep::Skip(1));
    assert_eq!(after_decode_error(63, StreamFailure::OtherIo), DecodeStep::Skip(64));
    assert_eq!(after_decode_error(64, StreamFailure::Decode), DecodeStep::GiveUp);
    assert_eq!(after_decode_error(0, StreamFailure::TimedOut), DecodeStep::GiveUp);
}
