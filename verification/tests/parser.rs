//! Tests of the streaming request parser: whole requests, fragmentation,
//! bodies under Content-Length, and each parse-error kind.

use hello_server::http::request::{
    HTTPRequest, HTTPRequestHeader, HttpMethod, ParseError, ParseOutcome, RequestURI,
};
use hello_server::http::version::HttpVersion;

fn complete(outcome: ParseOutcome) -> HTTPRequest {
    match outcome {
        ParseOutcome::Complete(r) => r,
        other => panic!("expected a complete request, got {:?}", other),
    }
}

#[test]
fn single_chunk_get_request() {
    let buf = b"GET /index.html HTTP/1.1\r\nHost: example.com\r\n\r\n";
    let r = complete(HTTPRequest::parse(buf));
    assert_eq!(r.method, HttpMethod::Get);
    assert_eq!(r.request_uri, RequestURI::AbsolutePath(b"/index.html".to_vec()));
    assert_eq!(r.http_version, HttpVersion::Http_1_1);
    assert_eq!(r.header.len(), 1);
    assert_eq!(r.header[0], HTTPRequestHeader::Host(b"example.com".to_vec()));
    assert!(r.body.is_empty());
}

#[test]
fn split_chunks_accumulate_to_same_result() {
    let buf: &[u8] = b"GET /index.html HTTP/1.1\r\nHost: example.com\r\n\r\n";
    // Split mid-header-line; the first fragment alone is not enough.
    let (first, second) = buf.split_at(30);
    let partial = HTTPRequest::parse(first);
    assert_eq!(partial, ParseOutcome::Incomplete);
    let mut accumulated = first.to_vec();
    accumulated.extend_from_slice(second);
    assert_eq!(HTTPRequest::parse(&accumulated), HTTPRequest::parse(buf));
    let r = complete(HTTPRequest::parse(&accumulated));
    assert_eq!(r.method, HttpMethod::Get);
    assert_eq!(r.header[0], HTTPRequestHeader::Host(b"example.com".to_vec()));
}

#[test]
fn short_body_is_incomplete_not_an_error() {
    let buf = b"POST /submit HTTP/1.1\r\nContent-Length: 5\r\n\r\nabc";
    assert_eq!(HTTPRequest::parse(buf), ParseOutcome::Incomplete);
    let mut longer = buf.to_vec();
    longer.extend_from_slice(b"de");
    let r = complete(HTTPRequest::parse(&longer));
    assert_eq!(r.body, b"abcde".to_vec());
    assert_eq!(r.header[0], HTTPRequestHeader::ContentLength(5));
}

#[test]
fn body_bytes_beyond_content_length_are_ignored() {
    let buf = b"POST / HTTP/1.1\r\nContent-Length: 2\r\n\r\nabcdef";
    let r = complete(HTTPRequest::parse(buf));
    assert_eq!(r.body, b"ab".to_vec());
}

#[test]
fn body_without_content_length_is_the_rest_of_the_buffer() {
    let buf = b"PUT /x HTTP/1.0\r\n\r\npayload";
    let r = complete(HTTPRequest::parse(buf));
    assert_eq!(r.method, HttpMethod::Put);
    assert_eq!(r.http_version, HttpVersion::Http_1_0);
    assert!(r.header.is_empty());
    assert_eq!(r.body, b"payload".to_vec());
}

#[test]
fn two_token_request_line_is_malformed() {
    let buf = b"GET /\r\nHost: example.com\r\n\r\n";
    assert_eq!(
        HTTPRequest::parse(buf),
        ParseOutcome::Failed(ParseError::MalformedRequestLine)
    );
}

#[test]
fn unknown_header_is_kept_verbatim() {
    let buf = b"GET / HTTP/1.1\r\nX-Custom: value\r\n\r\n";
    let r = complete(HTTPRequest::parse(buf));
    assert_eq!(r.header.len(), 1);
    assert_eq!(
        r.header[0],
        HTTPRequestHeader::OtherHeader(b"X-Custom".to_vec(), b"value".to_vec())
    );
}

#[test]
fn unknown_method_is_its_own_error() {
    let buf = b"BREW / HTTP/1.1\r\n\r\n";
    assert_eq!(HTTPRequest::parse(buf), ParseOutcome::Failed(ParseError::UnknownMethod));
}

#[test]
fn unknown_version_is_its_own_error() {
    let buf = b"GET / HTTP/9.9\r\n\r\n";
    assert_eq!(HTTPRequest::parse(buf), ParseOutcome::Failed(ParseError::UnknownVersion));
}

#[test]
fn bad_content_length_is_its_own_error() {
    let buf = b"GET / HTTP/1.1\r\nContent-Length: abc\r\n\r\n";
    assert_eq!(HTTPRequest::parse(buf), ParseOutcome::Failed(ParseError::BadContentLength));
    let empty = b"GET / HTTP/1.1\r\nContent-Length:\r\n\r\n";
    assert_eq!(
        HTTPRequest::parse(empty),
        ParseOutcome::Failed(ParseError::BadContentLength)
    );
}

#[test]
fn header_line_without_colon_is_malformed() {
    let buf = b"GET / HTTP/1.1\r\nNoColonHere\r\n\r\n";
    assert_eq!(
        HTTPRequest::parse(buf),
        ParseOutcome::Failed(ParseError::MalformedHeaderLine)
    );
}

#[test]
fn bad_request_target_is_malformed_request_line() {
    let buf = b"GET foo HTTP/1.1\r\n\r\n";
    assert_eq!(
        HTTPRequest::parse(buf),
        ParseOutcome::Failed(ParseError::MalformedRequestLine)
    );
}

#[test]
fn buffer_without_a_full_line_is_incomplete() {
    assert_eq!(HTTPRequest::parse(b"GET / HTT"), ParseOutcome::Incomplete);
    assert_eq!(
        HTTPRequest::parse(b"GET / HTTP/1.1\r\nHost: e"),
        ParseOutcome::Incomplete
    );
    assert_eq!(HTTPRequest::parse(b""), ParseOutcome::Incomplete);
}

#[test]
fn method_is_classified_case_insensitively() {
    // The method token is case-insensitive; the version token is not.
    let r = complete(HTTPRequest::parse(b"get / HTTP/1.1\r\n\r\n"));
    assert_eq!(r.method, HttpMethod::Get);
    assert_eq!(
        HTTPRequest::parse(b"GET / http/1.1\r\n\r\n"),
        ParseOutcome::Failed(ParseError::UnknownVersion)
    );
    assert_eq!(HttpMethod::classify(b"dElEtE"), Some(HttpMethod::Delete));
    assert_eq!(HttpMethod::classify(b"OPTIONS"), Some(HttpMethod::Options));
    assert_eq!(HttpMethod::classify(b"PATCH"), None);
}

#[test]
fn target_classification_variants() {
    let r = complete(HTTPRequest::parse(b"OPTIONS * HTTP/1.1\r\n\r\n"));
    assert_eq!(r.request_uri, RequestURI::Asterisk);
    let r = complete(HTTPRequest::parse(
        b"GET http://www.w3.org/pub/WWW/TheProject.html HTTP/1.1\r\n\r\n",
    ));
    assert_eq!(
        r.request_uri,
        RequestURI::AbsoluteUri(b"http://www.w3.org/pub/WWW/TheProject.html".to_vec())
    );
}

#[test]
fn version_classification_variants() {
    assert_eq!(HttpVersion::classify(b"HTTP/0.9"), Some(HttpVersion::Http_0_9));
    assert_eq!(HttpVersion::classify(b"HTTP/1.0"), Some(HttpVersion::Http_1_0));
    assert_eq!(HttpVersion::classify(b"HTTP/1.1"), Some(HttpVersion::Http_1_1));
    assert_eq!(HttpVersion::classify(b"HTTP/2.0"), Some(HttpVersion::Http_2_0));
    assert_eq!(HttpVersion::classify(b"http/1.1"), None);
}

#[test]
fn known_headers_are_classified_with_values_stripped() {
    let buf = b"GET / HTTP/1.1\r\nhost:   spaced.example\r\nUSER-AGENT: tester\r\nConnection: close\r\nReferer: /from\r\nContent-Type: text/plain\r\nAccept-Language: en-us\r\n\r\n";
    let r = complete(HTTPRequest::parse(buf));
    assert_eq!(r.header.len(), 6);
    assert_eq!(r.header[0], HTTPRequestHeader::Host(b"spaced.example".to_vec()));
    assert_eq!(r.header[1], HTTPRequestHeader::UserAgent(b"tester".to_vec()));
    assert_eq!(r.header[2], HTTPRequestHeader::Connection(b"close".to_vec()));
    assert_eq!(r.header[3], HTTPRequestHeader::Referer(b"/from".to_vec()));
    assert_eq!(r.header[4], HTTPRequestHeader::ContentType(b"text/plain".to_vec()));
    assert_eq!(r.header[5], HTTPRequestHeader::AcceptLanguage(b"en-us".to_vec()));
}

#[test]
fn accept_header_is_decomposed() {
    let buf = b"GET / HTTP/1.1\r\nAccept: text/html, application/xml;q=0.9, image/png;q=1\r\n\r\n";
    let r = complete(HTTPRequest::parse(buf));
    match &r.header[0] {
        HTTPRequestHeader::Accept(items) => {
            assert_eq!(items.len(), 3);
            assert_eq!(items[0].mime_type, b"text".to_vec());
            assert_eq!(items[0].mime_subtype, b"html".to_vec());
            assert_eq!(items[0].q_factor_weighting, None);
            assert_eq!(items[1].mime_type, b"application".to_vec());
            assert_eq!(items[1].mime_subtype, b"xml".to_vec());
            assert_eq!(items[1].q_factor_weighting, Some(900));
            assert_eq!(items[2].mime_type, b"image".to_vec());
            assert_eq!(items[2].mime_subtype, b"png".to_vec());
            assert_eq!(items[2].q_factor_weighting, Some(1000));
        }
        other => panic!("expected an Accept header, got {:?}", other),
    }
}

#[test]
fn accept_without_slash_is_malformed() {
    let buf = b"GET / HTTP/1.1\r\nAccept: nonsense\r\n\r\n";
    assert_eq!(
        HTTPRequest::parse(buf),
        ParseOutcome::Failed(ParseError::MalformedHeaderLine)
    );
}

#[test]
fn accept_encoding_splits_on_whitespace() {
    let buf = b"GET / HTTP/1.1\r\nAccept-Encoding: gzip, deflate\r\n\r\n";
    let r = complete(HTTPRequest::parse(buf));
    assert_eq!(
        r.header[0],
        HTTPRequestHeader::AcceptEncoding(vec![b"gzip,".to_vec(), b"deflate".to_vec()])
    );
}

#[test]
fn first_content_length_governs_the_body() {
    let buf = b"POST / HTTP/1.1\r\nContent-Length: 2\r\nContent-Length: 4\r\n\r\nabcd";
    let r = complete(HTTPRequest::parse(buf));
    assert_eq!(r.body, b"ab".to_vec());
}
