//! Tests of the reactor's decision logic and the response builders.

use hello_server::connection_manager::{ConnState, Interest};
use hello_server::http::respond::{
    HTTPRespond, HttpRespondHeader, StatusCode, canned_response,
};
use hello_server::http::version::HttpVersion;
use hello_server::reactor::{IoAction, ReadEnd, Reactor, WriteEnd};

/// One full life of a connection through the reactor: accepted, read,
/// responded to, and dropped at end of stream.
#[test]
fn test() {
    let mut reactor = Reactor::new();
    let tokens = reactor.accept_batch(1);
    assert_eq!(tokens.len(), 1);
    let t = tokens[0];
    assert!(reactor.conn_mgr.contains(&t.0));

    // Data arrives, then the socket would block: a response becomes due.
    let action = reactor.on_read_event(t, b"GET / HTTP/1.1\r\n\r\n".to_vec(), ReadEnd::WouldBlock);
    assert_eq!(action, IoAction::ReregisterWritable);

    // The response is written in full: back to reading.
    let action = reactor.on_write_event(t, WriteEnd::Done);
    assert_eq!(action, IoAction::ReregisterReadable);

    // The peer closes the stream: the handle is released.
    let action = reactor.on_read_event(t, Vec::new(), ReadEnd::Eof);
    assert_eq!(action, IoAction::Deregister);
    assert!(!reactor.conn_mgr.contains(&t.0));
}

#[test]
fn accept_batch_registers_exactly_n_connections() {
    let mut reactor = Reactor::new();
    let first = reactor.accept_batch(2);
    let tokens = reactor.accept_batch(5);
    assert_eq!(tokens.len(), 5);
    for a in 0..tokens.len() {
        assert!(reactor.conn_mgr.contains(&tokens[a].0));
        for b in 0..a {
            assert_ne!(tokens[a].0, tokens[b].0);
        }
        for f in 0..first.len() {
            assert_ne!(tokens[a].0, first[f].0);
        }
    }
    for f in 0..first.len() {
        assert!(reactor.conn_mgr.contains(&first[f].0));
    }
}

#[test]
fn read_data_accumulates_and_turns_interest_to_writing() {
    let mut reactor = Reactor::new();
    let t = reactor.accept_batch(1)[0];
    let action = reactor.on_read_event(t, b"GET".to_vec(), ReadEnd::WouldBlock);
    assert_eq!(action, IoAction::ReregisterWritable);
    let action = reactor.on_read_event(t, b" /".to_vec(), ReadEnd::WouldBlock);
    assert_eq!(action, IoAction::ReregisterWritable);
    let c = reactor.conn_mgr.get_stream(&t.0).expect("token must be live");
    assert_eq!(c.buffer, b"GET /".to_vec());
    assert_eq!(c.state, ConnState::AwaitingWrite);
    assert_eq!(c.interest, Interest::Writable);
}

#[test]
fn spurious_readiness_without_data_changes_nothing() {
    let mut reactor = Reactor::new();
    let t = reactor.accept_batch(1)[0];
    let action = reactor.on_read_event(t, Vec::new(), ReadEnd::WouldBlock);
    assert_eq!(action, IoAction::ReregisterReadable);
    let c = reactor.conn_mgr.get_stream(&t.0).expect("token must be live");
    assert!(c.buffer.is_empty());
    assert_eq!(c.state, ConnState::AwaitingRead);
    assert_eq!(c.interest, Interest::Readable);
}

#[test]
fn fatal_errors_release_only_the_failing_connection() {
    let mut reactor = Reactor::new();
    let tokens = reactor.accept_batch(2);
    let action = reactor.on_read_event(tokens[0], Vec::new(), ReadEnd::Fatal);
    assert_eq!(action, IoAction::Deregister);
    assert!(!reactor.conn_mgr.contains(&tokens[0].0));
    assert!(reactor.conn_mgr.contains(&tokens[1].0));
}

#[test]
fn would_block_write_is_retried_and_fatal_write_releases() {
    let mut reactor = Reactor::new();
    let tokens = reactor.accept_batch(2);
    let action = reactor.on_write_event(tokens[0], WriteEnd::WouldBlock);
    assert_eq!(action, IoAction::ReregisterWritable);
    assert!(reactor.conn_mgr.contains(&tokens[0].0));
    let action = reactor.on_write_event(tokens[1], WriteEnd::Fatal);
    assert_eq!(action, IoAction::Deregister);
    assert!(!reactor.conn_mgr.contains(&tokens[1].0));
}

#[test]
fn canned_response_is_the_fixed_bytes() {
    assert_eq!(
        canned_response(),
        b"HTTP/1.1 200 OK\r\nHello: Server\r\n\r\ndata here".to_vec()
    );
}

#[test]
fn respond_builders_fill_the_fields() {
    let mut r = HTTPRespond::from_body(
        String::from("{}"),
        HttpVersion::Http_1_1,
        StatusCode::OK,
        String::from("OK"),
    );
    assert_eq!(r.http_version, HttpVersion::Http_1_1);
    assert_eq!(r.status_code, StatusCode::OK);
    assert_eq!(r.reason_phrase, "OK");
    assert!(r.header.is_empty());
    assert_eq!(r.body, "{}");
    HTTPRespond::with_header(&mut r, HttpRespondHeader::Server(String::from("hello")));
    HTTPRespond::with_header(
        &mut r,
        HttpRespondHeader::ContentLength(String::from("2")),
    );
    assert_eq!(r.header.len(), 2);
    assert_eq!(r.header[0], HttpRespondHeader::Server(String::from("hello")));
    assert_eq!(
        r.header[1],
        HttpRespondHeader::ContentLength(String::from("2"))
    );
}

#[test]
fn status_codes_carry_their_numeric_values() {
    assert_eq!(StatusCode::Continue.code(), 100);
    assert_eq!(StatusCode::OK.code(), 200);
    assert_eq!(StatusCode::MovedPermanently.code(), 301);
    assert_eq!(StatusCode::BadRequest.code(), 400);
    assert_eq!(StatusCode::NotFound.code(), 404);
    assert_eq!(StatusCode::ImATeapot.code(), 418);
    assert_eq!(StatusCode::InternalServerError.code(), 500);
    assert_eq!(StatusCode::NetworkAuthenticationRequired.code(), 511);
}
