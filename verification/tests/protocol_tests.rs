use tcp_server::protocol::{frame_payload, parse_command};
use tcp_server::stream::{read_step, ReadError, ReadEvent, ReadStep};

#[test]
fn get_line_yields_its_payload() {
    let r = parse_command(b"GET /foo\r").unwrap();
    assert_eq!(r, b"/foo".to_vec());
}

#[test]
fn other_methods_are_filtered_out() {
    assert!(parse_command(b"POST /foo\r").is_none());
    assert!(parse_command(b"get /foo\r").is_none());
    assert!(parse_command(b"GETX /foo\r").is_none());
    assert!(parse_command(b"").is_none());
}

#[test]
fn a_line_without_a_payload_token_is_ignored() {
    assert!(parse_command(b"GET\r").is_none());
    assert!(parse_command(b"GET").is_none());
}

#[test]
fn an_empty_second_token_is_an_empty_payload() {
    assert_eq!(parse_command(b"GET \r").unwrap(), b"".to_vec());
    assert_eq!(parse_command(b"GET  /x\r").unwrap(), b"".to_vec());
}

#[test]
fn only_the_first_line_of_a_read_counts() {
    let r = parse_command(b"GET /a\rGET /b\r").unwrap();
    assert_eq!(r, b"/a".to_vec());
}

#[test]
fn tokens_after_the_payload_are_discarded() {
    let r = parse_command(b"GET /a extra stuff\r").unwrap();
    assert_eq!(r, b"/a".to_vec());
}

#[test]
fn a_read_without_a_terminator_is_one_line() {
    let r = parse_command(b"GET /a").unwrap();
    assert_eq!(r, b"/a".to_vec());
}

#[test]
fn frame_payload_appends_the_line_end() {
    let framed = frame_payload(&b"/foo".to_vec());
    assert_eq!(framed, b"/foo\r".to_vec());
    let framed = frame_payload(&b"".to_vec());
    assert_eq!(framed, b"\r".to_vec());
}

#[test]
fn a_closed_peer_fails_the_whole_read() {
    assert_eq!(
        read_step(0, 1024, ReadEvent::Data(0)),
        ReadStep::Fail(ReadError::UnexpectedEof)
    );
    assert_eq!(
        read_step(512, 1024, ReadEvent::Data(0)),
        ReadStep::Fail(ReadError::UnexpectedEof)
    );
}

#[test]
fn a_drain_accumulates_until_it_would_block() {
    assert_eq!(read_step(0, 1024, ReadEvent::Data(100)), ReadStep::Continue(100));
    assert_eq!(read_step(100, 1024, ReadEvent::Data(24)), ReadStep::Continue(124));
    assert_eq!(read_step(124, 1024, ReadEvent::WouldBlock), ReadStep::Done(124));
}

#[test]
fn an_oversized_drain_is_an_error() {
    assert_eq!(
        read_step(1000, 1024, ReadEvent::Data(100)),
        ReadStep::Fail(ReadError::TooLargePayload)
    );
    assert_eq!(read_step(1024, 1024, ReadEvent::Data(1)), ReadStep::Fail(ReadError::TooLargePayload));
}

#[test]
fn a_failed_read_attempt_fails_the_whole_read() {
    assert_eq!(read_step(10, 1024, ReadEvent::Failed), ReadStep::Fail(ReadError::ReadFailed));
}
