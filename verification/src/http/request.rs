//! The streaming HTTP/1.1 request parser.
//!
//! A request is decoded from an accumulated byte buffer: a request line
//! (`METHOD SP TARGET SP VERSION CRLF`), header lines up to an empty line,
//! and a body whose extent is fixed by `Content-Length` when that header is
//! present and is otherwise the remainder of the buffer. The parser is a
//! pure function of the buffer, so feeding it the same bytes accumulated
//! from any fragmentation gives the same verdict; partial input yields
//! `Incomplete`, never an error, as long as a complete line (or the promised
//! body length) has not arrived yet.

use vstd::prelude::*;

use crate::bytes::{
    COLON, COMMA, DOT, SEMICOLON, SLASH, SP, STAR, all_digits, dec_val, eq_bytes, find_byte,
    find_byte_from, find_crlf, find_crlf_from, find_ws, find_ws_from, is_ascii_ws,
    is_ascii_ws_byte, lemma_dec_val_len_bound, lemma_dec_val_nonneg, lemma_find_ws_from_spec,
    parse_decimal, strip_leading_q_markers, strip_leading_spaces, strip_q_markers, strip_spaces,
    trim, trim_slice, upper_eq_bytes, upper_seq,
};
use crate::http::version::{HttpVersion, version_of};

verus! {

/// The request methods of the fixed enumeration.
#[derive(Clone, Copy, Debug, PartialEq, Eq, Structural)]
pub enum HttpMethod {
    /// Retrieve the resource named by the target.
    Get,
    /// As GET, but transfer the status line and header section only.
    Head,
    /// Send data to the server.
    Post,
    /// Replace the representations of the target resource.
    Put,
    /// Remove the representations of the target resource.
    Delete,
    /// Establish a tunnel to the server named by the target.
    Connect,
    /// Describe the communication options for the target resource.
    Options,
    /// Loop the request back along the path to the target resource.
    Trace,
}

/// The distinct, value-returning parse failures.
#[derive(Clone, Copy, Debug, PartialEq, Eq, Structural)]
pub enum ParseError {
    /// The request line has too few tokens, or its target is not `*`, an
    /// absolute URI, or an absolute path.
    MalformedRequestLine,
    /// The method token names no known method.
    UnknownMethod,
    /// The version token names no known protocol version.
    UnknownVersion,
    /// A header line has no colon, or its Accept value cannot be decomposed.
    MalformedHeaderLine,
    /// A Content-Length value that is not a non-negative integer in range.
    BadContentLength,
}

/// The request target of a request line.
#[derive(Clone, Debug, PartialEq, Eq)]
pub enum RequestURI {
    /// The literal `*`: the request concerns the server itself.
    Asterisk,
    /// A target holding a scheme separator `://`: a request through a proxy.
    AbsoluteUri(Vec<u8>),
    /// A target starting with `/`: a resource on this origin server.
    AbsolutePath(Vec<u8>),
}

/// The mathematical value of a request target.
pub enum RequestUriView {
    Asterisk,
    AbsoluteUri(Seq<u8>),
    AbsolutePath(Seq<u8>),
}

impl View for RequestURI {
    type V = RequestUriView;

    open spec fn view(&self) -> RequestUriView {
        match self {
            RequestURI::Asterisk => RequestUriView::Asterisk,
            RequestURI::AbsoluteUri(s) => RequestUriView::AbsoluteUri(s@),
            RequestURI::AbsolutePath(s) => RequestUriView::AbsolutePath(s@),
        }
    }
}

/// The bytes of "GET", upper case.
pub open spec fn kw_get() -> Seq<u8> {
    seq![71u8, 69, 84]
}

/// The bytes of "HEAD", upper case.
pub open spec fn kw_head() -> Seq<u8> {
    seq![72u8, 69, 65, 68]
}

/// The bytes of "POST", upper case.
pub open spec fn kw_post() -> Seq<u8> {
    seq![80u8, 79, 83, 84]
}

/// The bytes of "PUT", upper case.
pub open spec fn kw_put() -> Seq<u8> {
    seq![80u8, 85, 84]
}

/// The bytes of "DELETE", upper case.
pub open spec fn kw_delete() -> Seq<u8> {
    seq![68u8, 69, 76, 69, 84, 69]
}

/// The bytes of "CONNECT", upper case.
pub open spec fn kw_connect() -> Seq<u8> {
    seq![67u8, 79, 78, 78, 69, 67, 84]
}

/// The bytes of "OPTIONS", upper case.
pub open spec fn kw_options() -> Seq<u8> {
    seq![79u8, 80, 84, 73, 79, 78, 83]
}

/// The bytes of "TRACE", upper case.
pub open spec fn kw_trace() -> Seq<u8> {
    seq![84u8, 82, 65, 67, 69]
}

/// The method a token names, compared without regard to ASCII case; an
/// unknown method is `None`.
pub open spec fn method_of(tok: Seq<u8>) -> Option<HttpMethod> {
    let u = upper_seq(tok);
    if u == kw_get() {
        Some(HttpMethod::Get)
    } else if u == kw_head() {
        Some(HttpMethod::Head)
    } else if u == kw_post() {
        Some(HttpMethod::Post)
    } else if u == kw_put() {
        Some(HttpMethod::Put)
    } else if u == kw_delete() {
        Some(HttpMethod::Delete)
    } else if u == kw_connect() {
        Some(HttpMethod::Connect)
    } else if u == kw_options() {
        Some(HttpMethod::Options)
    } else if u == kw_trace() {
        Some(HttpMethod::Trace)
    } else {
        None
    }
}

impl HttpMethod {
    /// Classify a method token, without regard to ASCII case, against the
    /// fixed enumeration.
    pub fn classify(tok: &[u8]) -> (r: Option<HttpMethod>)
        ensures
            r == method_of(tok@),
    {
        let get: [u8; 3] = [71, 69, 84];
        let head: [u8; 4] = [72, 69, 65, 68];
        let post: [u8; 4] = [80, 79, 83, 84];
        let put: [u8; 3] = [80, 85, 84];
        let delete: [u8; 6] = [68, 69, 76, 69, 84, 69];
        let connect: [u8; 7] = [67, 79, 78, 78, 69, 67, 84];
        let options: [u8; 7] = [79, 80, 84, 73, 79, 78, 83];
        let trace: [u8; 5] = [84, 82, 65, 67, 69];
        proof {
            assert(get@ =~= kw_get());
            assert(head@ =~= kw_head());
            assert(post@ =~= kw_post());
            assert(put@ =~= kw_put());
            assert(delete@ =~= kw_delete());
            assert(connect@ =~= kw_connect());
            assert(options@ =~= kw_options());
            assert(trace@ =~= kw_trace());
        }
        if upper_eq_bytes(tok, get.as_slice()) {
            Some(HttpMethod::Get)
        } else if upper_eq_bytes(tok, head.as_slice()) {
            Some(HttpMethod::Head)
        } else if upper_eq_bytes(tok, post.as_slice()) {
            Some(HttpMethod::Post)
        } else if upper_eq_bytes(tok, put.as_slice()) {
            Some(HttpMethod::Put)
        } else if upper_eq_bytes(tok, delete.as_slice()) {
            Some(HttpMethod::Delete)
        } else if upper_eq_bytes(tok, connect.as_slice()) {
            Some(HttpMethod::Connect)
        } else if upper_eq_bytes(tok, options.as_slice()) {
            Some(HttpMethod::Options)
        } else if upper_eq_bytes(tok, trace.as_slice()) {
            Some(HttpMethod::Trace)
        } else {
            None
        }
    }
}

/// A scheme separator `://` starts at index `i` of `s`.
pub open spec fn scheme_sep_at(s: Seq<u8>, i: int) -> bool {
    0 <= i && i + 3 <= s.len() && s[i] == COLON && s[i + 1] == SLASH && s[i + 2] == SLASH
}

/// The sequence holds a scheme separator `://` somewhere.
pub open spec fn has_scheme_sep(s: Seq<u8>) -> bool {
    exists|i: int| scheme_sep_at(s, i)
}

/// The target a token denotes: `*`, an absolute URI, or an absolute path;
/// anything else is `None`.
pub open spec fn uri_of(tok: Seq<u8>) -> Option<RequestUriView> {
    if tok == seq![STAR] {
        Some(RequestUriView::Asterisk)
    } else if has_scheme_sep(tok) {
        Some(RequestUriView::AbsoluteUri(tok))
    } else if tok.len() > 0 && tok[0] == SLASH {
        Some(RequestUriView::AbsolutePath(tok))
    } else {
        None
    }
}

/// Whether the slice holds a scheme separator `://` somewhere.
pub fn contains_scheme_sep(s: &[u8]) -> (r: bool)
    ensures
        r == has_scheme_sep(s@),
{
    let n = s.len();
    if n < 3 {
        assert(!has_scheme_sep(s@)) by {
            assert(forall|i: int| !scheme_sep_at(s@, i));
        }
        return false;
    }
    let mut i: usize = 0;
    while i < n - 2
        invariant
            0 <= i <= n,
            3 <= n == s@.len(),
            forall|j: int| 0 <= j < i ==> !scheme_sep_at(s@, j),
        decreases n - i,
    {
        if s[i] == COLON && s[i + 1] == SLASH && s[i + 2] == SLASH {
            assert(scheme_sep_at(s@, i as int));
            return true;
        }
        i += 1;
    }
    assert(!has_scheme_sep(s@)) by {
        assert(forall|j: int| j >= i ==> !scheme_sep_at(s@, j));
    }
    false
}

impl RequestURI {
    /// Classify a target token: the literal `*`, a token holding `://`, or a
    /// token starting with `/`; anything else is rejected.
    pub fn classify(tok: &[u8]) -> (r: Option<RequestURI>)
        ensures
            match r {
                Some(u) => uri_of(tok@) == Some(u@),
                None => uri_of(tok@) is None,
            },
    {
        let star: [u8; 1] = [STAR];
        proof {
            assert(star@ =~= seq![STAR]);
        }
        if eq_bytes(tok, star.as_slice()) {
            Some(RequestURI::Asterisk)
        } else if contains_scheme_sep(tok) {
            Some(RequestURI::AbsoluteUri(vstd::slice::slice_to_vec(tok)))
        } else if tok.len() > 0 && tok[0] == SLASH {
            Some(RequestURI::AbsolutePath(vstd::slice::slice_to_vec(tok)))
        } else {
            None
        }
    }
}

/// The reading of a request line: the first three space-separated tokens
/// classified as method, target and version. Fewer than three tokens, or a
/// token that fits no classification, is the corresponding error; tokens
/// after the third are ignored.
pub open spec fn parse_request_line(line: Seq<u8>) -> Result<
    (HttpMethod, RequestUriView, HttpVersion),
    ParseError,
> {
    match find_byte_from(line, SP, 0) {
        None => Err(ParseError::MalformedRequestLine),
        Some(p1) => match find_byte_from(line, SP, p1 + 1) {
            None => Err(ParseError::MalformedRequestLine),
            Some(p2) => {
                let mtok = line.subrange(0, p1);
                let utok = line.subrange(p1 + 1, p2);
                let vend = match find_byte_from(line, SP, p2 + 1) {
                    None => line.len() as int,
                    Some(p3) => p3,
                };
                let vtok = line.subrange(p2 + 1, vend);
                match method_of(mtok) {
                    None => Err(ParseError::UnknownMethod),
                    Some(m) => match uri_of(utok) {
                        None => Err(ParseError::MalformedRequestLine),
                        Some(u) => match version_of(vtok) {
                            None => Err(ParseError::UnknownVersion),
                            Some(v) => Ok((m, u, v)),
                        },
                    },
                }
            },
        },
    }
}

/// Split a request line on single spaces and classify its first three
/// tokens.
fn request_line(line: &[u8]) -> (r: Result<(HttpMethod, RequestURI, HttpVersion), ParseError>)
    ensures
        match r {
            Ok(t) => parse_request_line(line@) == Ok::<_, ParseError>((t.0, t.1@, t.2)),
            Err(e) => parse_request_line(line@) == Err::<(HttpMethod, RequestUriView, HttpVersion),
                _,
            >(e),
        },
{
    let n = line.len();
    let p1 = match find_byte(line, SP, 0) {
        Some(i) => i,
        None => {
            return Err(ParseError::MalformedRequestLine);
        },
    };
    assert(p1 < n);
    let p2 = match find_byte(line, SP, p1 + 1) {
        Some(i) => i,
        None => {
            return Err(ParseError::MalformedRequestLine);
        },
    };
    assert(p2 < n);
    let mtok = vstd::slice::slice_subrange(line, 0, p1);
    let utok = vstd::slice::slice_subrange(line, p1 + 1, p2);
    let vend = match find_byte(line, SP, p2 + 1) {
        Some(i) => i,
        None => n,
    };
    let vtok = vstd::slice::slice_subrange(line, p2 + 1, vend);
    let m = match HttpMethod::classify(mtok) {
        Some(m) => m,
        None => {
            return Err(ParseError::UnknownMethod);
        },
    };
    let u = match RequestURI::classify(utok) {
        Some(u) => u,
        None => {
            return Err(ParseError::MalformedRequestLine);
        },
    };
    let v = match HttpVersion::classify(vtok) {
        Some(v) => v,
        None => {
            return Err(ParseError::UnknownVersion);
        },
    };
    Ok((m, u, v))
}

/// One element of a decomposed Accept value: a MIME type and subtype with an
/// optional quality weight.
#[derive(Clone, Debug, PartialEq, Eq)]
pub struct HTTPRequestHeaderAccept {
    /// MIME type, the part before the slash.
    pub mime_type: Vec<u8>,
    /// MIME subtype, the part after the slash.
    pub mime_subtype: Vec<u8>,
    /// The quality weight `q` in thousandths (a weight written `0.5` is
    /// stored as 500), or `None` when the element carries no weight clause.
    pub q_factor_weighting: Option<u32>,
}

/// The mathematical value of an Accept element.
pub struct AcceptEntryView {
    pub mime_type: Seq<u8>,
    pub mime_subtype: Seq<u8>,
    pub q_factor_weighting: Option<int>,
}

impl View for HTTPRequestHeaderAccept {
    type V = AcceptEntryView;

    open spec fn view(&self) -> AcceptEntryView {
        AcceptEntryView {
            mime_type: self.mime_type@,
            mime_subtype: self.mime_subtype@,
            q_factor_weighting: match self.q_factor_weighting {
                Some(q) => Some(q as int),
                None => None,
            },
        }
    }
}

/// A request header field, classified by name; an unrecognized name keeps
/// its name and value verbatim in `OtherHeader`.
#[derive(Clone, Debug, PartialEq, Eq)]
pub enum HTTPRequestHeader {
    Accept(Vec<HTTPRequestHeaderAccept>),
    AcceptEncoding(Vec<Vec<u8>>),
    AcceptLanguage(Vec<u8>),
    Connection(Vec<u8>),
    ContentLength(usize),
    ContentType(Vec<u8>),
    Host(Vec<u8>),
    Referer(Vec<u8>),
    UserAgent(Vec<u8>),
    OtherHeader(Vec<u8>, Vec<u8>),
}

/// The mathematical value of a header field.
pub enum HeaderFieldView {
    Accept(Seq<AcceptEntryView>),
    AcceptEncoding(Seq<Seq<u8>>),
    AcceptLanguage(Seq<u8>),
    Connection(Seq<u8>),
    ContentLength(int),
    ContentType(Seq<u8>),
    Host(Seq<u8>),
    Referer(Seq<u8>),
    UserAgent(Seq<u8>),
    OtherHeader(Seq<u8>, Seq<u8>),
}

/// The views of a sequence of Accept elements.
pub open spec fn accept_views(v: Seq<HTTPRequestHeaderAccept>) -> Seq<AcceptEntryView> {
    v.map_values(|a: HTTPRequestHeaderAccept| a@)
}

/// The views of a sequence of byte vectors.
pub open spec fn byte_seqs(v: Seq<Vec<u8>>) -> Seq<Seq<u8>> {
    v.map_values(|t: Vec<u8>| t@)
}

/// The views of a sequence of header fields.
pub open spec fn header_views(v: Seq<HTTPRequestHeader>) -> Seq<HeaderFieldView> {
    v.map_values(|h: HTTPRequestHeader| h@)
}

impl View for HTTPRequestHeader {
    type V = HeaderFieldView;

    open spec fn view(&self) -> HeaderFieldView {
        match self {
            HTTPRequestHeader::Accept(v) => HeaderFieldView::Accept(accept_views(v@)),
            HTTPRequestHeader::AcceptEncoding(v) => HeaderFieldView::AcceptEncoding(byte_seqs(v@)),
            HTTPRequestHeader::AcceptLanguage(v) => HeaderFieldView::AcceptLanguage(v@),
            HTTPRequestHeader::Connection(v) => HeaderFieldView::Connection(v@),
            HTTPRequestHeader::ContentLength(n) => HeaderFieldView::ContentLength(*n as int),
            HTTPRequestHeader::ContentType(v) => HeaderFieldView::ContentType(v@),
            HTTPRequestHeader::Host(v) => HeaderFieldView::Host(v@),
            HTTPRequestHeader::Referer(v) => HeaderFieldView::Referer(v@),
            HTTPRequestHeader::UserAgent(v) => HeaderFieldView::UserAgent(v@),
            HTTPRequestHeader::OtherHeader(n, v) => HeaderFieldView::OtherHeader(n@, v@),
        }
    }
}

/// The bytes of "ACCEPT".
pub open spec fn kw_accept() -> Seq<u8> {
    seq![65u8, 67, 67, 69, 80, 84]
}

/// The bytes of "ACCEPT-ENCODING".
pub open spec fn kw_accept_encoding() -> Seq<u8> {
    seq![65u8, 67, 67, 69, 80, 84, 45, 69, 78, 67, 79, 68, 73, 78, 71]
}

/// The bytes of "ACCEPT-LANGUAGE".
pub open spec fn kw_accept_language() -> Seq<u8> {
    seq![65u8, 67, 67, 69, 80, 84, 45, 76, 65, 78, 71, 85, 65, 71, 69]
}

/// The bytes of "CONNECTION".
pub open spec fn kw_connection() -> Seq<u8> {
    seq![67u8, 79, 78, 78, 69, 67, 84, 73, 79, 78]
}

/// The bytes of "CONTENT-LENGTH".
pub open spec fn kw_content_length() -> Seq<u8> {
    seq![67u8, 79, 78, 84, 69, 78, 84, 45, 76, 69, 78, 71, 84, 72]
}

/// The bytes of "CONTENT-TYPE".
pub open spec fn kw_content_type() -> Seq<u8> {
    seq![67u8, 79, 78, 84, 69, 78, 84, 45, 84, 89, 80, 69]
}

/// The bytes of "HOST".
pub open spec fn kw_host() -> Seq<u8> {
    seq![72u8, 79, 83, 84]
}

/// The bytes of "REFERER".
pub open spec fn kw_referer() -> Seq<u8> {
    seq![82u8, 69, 70, 69, 82, 69, 82]
}

/// The bytes of "USER-AGENT".
pub open spec fn kw_user_agent() -> Seq<u8> {
    seq![85u8, 83, 69, 82, 45, 65, 71, 69, 78, 84]
}

/// The scale that brings `n` fractional digits to thousandths.
pub open spec fn frac_scale(n: int) -> int {
    if n == 0 {
        1000
    } else if n == 1 {
        100
    } else if n == 2 {
        10
    } else {
        1
    }
}

/// The quality weight denoted by the numeric part of a weight clause, in
/// thousandths: decimal digits, optionally with a point and at most three
/// fractional digits, at least one digit in all. `None` when the shape is
/// wrong or the value does not fit in 32 bits.
pub open spec fn qvalue_thousandths(s: Seq<u8>) -> Option<int> {
    match find_byte_from(s, DOT, 0) {
        None => if s.len() > 0 && all_digits(s) && dec_val(s) * 1000 <= u32::MAX {
            Some(dec_val(s) * 1000)
        } else {
            None
        },
        Some(d) => {
            let ip = s.subrange(0, d);
            let fp = s.subrange(d + 1, s.len() as int);
            if all_digits(ip) && all_digits(fp) && 0 < ip.len() + fp.len() && fp.len() <= 3 {
                let v = dec_val(ip) * 1000 + dec_val(fp) * frac_scale(fp.len() as int);
                if v <= u32::MAX {
                    Some(v)
                } else {
                    None
                }
            } else {
                None
            }
        },
    }
}

/// The reading of one comma-separated Accept element: trimmed, split at the
/// first slash into type and subtype, with an optional weight clause after a
/// semicolon.
pub open spec fn parse_accept_item(item: Seq<u8>) -> Option<AcceptEntryView> {
    let t = trim(item);
    match find_byte_from(t, SLASH, 0) {
        None => None,
        Some(sl) => {
            let mtype = t.subrange(0, sl);
            let rest = t.subrange(sl + 1, t.len() as int);
            match find_byte_from(rest, SEMICOLON, 0) {
                None => Some(
                    AcceptEntryView {
                        mime_type: mtype,
                        mime_subtype: rest,
                        q_factor_weighting: None,
                    },
                ),
                Some(se) => {
                    let sub = rest.subrange(0, se);
                    let qs = strip_leading_q_markers(rest.subrange(se + 1, rest.len() as int));
                    match qvalue_thousandths(qs) {
                        None => None,
                        Some(q) => Some(
                            AcceptEntryView {
                                mime_type: mtype,
                                mime_subtype: sub,
                                q_factor_weighting: Some(q),
                            },
                        ),
                    }
                },
            }
        },
    }
}

/// The reading of an Accept value from `pos` on: its comma-separated
/// elements in order, or `None` as soon as one element cannot be read.
pub open spec fn parse_accept_from(s: Seq<u8>, pos: int) -> Option<Seq<AcceptEntryView>>
    decreases s.len() - pos when 0 <= pos <= s.len() via parse_accept_from_decreases
{
    match find_byte_from(s, COMMA, pos) {
        None => match parse_accept_item(s.subrange(pos, s.len() as int)) {
            None => None,
            Some(a) => Some(seq![a]),
        },
        Some(i) => match parse_accept_item(s.subrange(pos, i)) {
            None => None,
            Some(a) => match parse_accept_from(s, i + 1) {
                None => None,
                Some(rest) => Some(seq![a] + rest),
            },
        },
    }
}

#[via_fn]
proof fn parse_accept_from_decreases(s: Seq<u8>, pos: int) {
    crate::bytes::lemma_find_byte_from_spec(s, COMMA, pos);
}

/// The whitespace-separated tokens of `s` from `pos` on, in order.
pub open spec fn split_ws_from(s: Seq<u8>, pos: int) -> Seq<Seq<u8>>
    decreases s.len() - pos when 0 <= pos <= s.len() via split_ws_from_decreases
{
    if pos >= s.len() {
        Seq::empty()
    } else if is_ascii_ws(s[pos]) {
        split_ws_from(s, pos + 1)
    } else {
        seq![s.subrange(pos, token_end(s, pos))] + split_ws_from(s, token_end(s, pos))
    }
}

/// Where the token starting at `pos` ends: the next whitespace, or the end
/// of the sequence.
pub open spec fn token_end(s: Seq<u8>, pos: int) -> int {
    match find_ws_from(s, pos) {
        None => s.len() as int,
        Some(i) => i,
    }
}

#[via_fn]
proof fn split_ws_from_decreases(s: Seq<u8>, pos: int) {
    if 0 <= pos < s.len() && !is_ascii_ws(s[pos]) {
        lemma_find_ws_from_spec(s, pos);
    }
}

/// The classification of one header line: split at the first colon, the
/// name matched without regard to case against the known header names, the
/// value taken with leading spaces stripped. A line without a colon, or an
/// Accept value that cannot be decomposed, is a malformed header line; a
/// Content-Length value that is not a plain decimal number in range is a
/// distinct error.
pub open spec fn classify_header(line: Seq<u8>) -> Result<HeaderFieldView, ParseError> {
    match find_byte_from(line, COLON, 0) {
        None => Err(ParseError::MalformedHeaderLine),
        Some(c) => {
            let name = line.subrange(0, c);
            let uname = upper_seq(name);
            let value = strip_leading_spaces(line.subrange(c + 1, line.len() as int));
            if uname == kw_accept() {
                match parse_accept_from(value, 0) {
                    None => Err(ParseError::MalformedHeaderLine),
                    Some(items) => Ok(HeaderFieldView::Accept(items)),
                }
            } else if uname == kw_accept_language() {
                Ok(HeaderFieldView::AcceptLanguage(value))
            } else if uname == kw_accept_encoding() {
                Ok(HeaderFieldView::AcceptEncoding(split_ws_from(value, 0)))
            } else if uname == kw_connection() {
                Ok(HeaderFieldView::Connection(value))
            } else if uname == kw_content_length() {
                if value.len() > 0 && all_digits(value) && dec_val(value) <= usize::MAX {
                    Ok(HeaderFieldView::ContentLength(dec_val(value)))
                } else {
                    Err(ParseError::BadContentLength)
                }
            } else if uname == kw_content_type() {
                Ok(HeaderFieldView::ContentType(value))
            } else if uname == kw_host() {
                Ok(HeaderFieldView::Host(value))
            } else if uname == kw_referer() {
                Ok(HeaderFieldView::Referer(value))
            } else if uname == kw_user_agent() {
                Ok(HeaderFieldView::UserAgent(value))
            } else {
                Ok(HeaderFieldView::OtherHeader(name, value))
            }
        },
    }
}

/// A parsed HTTP request: request line, header fields and body.
#[derive(Clone, Debug, PartialEq, Eq)]
pub struct HTTPRequest {
    /// The request method.
    pub method: HttpMethod,
    /// The request target.
    pub request_uri: RequestURI,
    /// The protocol version.
    pub http_version: HttpVersion,
    /// The header fields, in the order they stand in the request.
    pub header: Vec<HTTPRequestHeader>,
    /// The message body, possibly empty.
    pub body: Vec<u8>,
}

/// The mathematical value of a parsed request.
pub struct RequestView {
    pub method: HttpMethod,
    pub request_uri: RequestUriView,
    pub http_version: HttpVersion,
    pub header: Seq<HeaderFieldView>,
    pub body: Seq<u8>,
}

impl View for HTTPRequest {
    type V = RequestView;

    open spec fn view(&self) -> RequestView {
        RequestView {
            method: self.method,
            request_uri: self.request_uri@,
            http_version: self.http_version,
            header: header_views(self.header@),
            body: self.body@,
        }
    }
}

/// The verdict of a parse attempt: a complete request, a need for more
/// input, or a definite parse error.
#[derive(Clone, Debug, PartialEq, Eq)]
pub enum ParseOutcome {
    /// The buffer holds a complete request.
    Complete(HTTPRequest),
    /// The buffer is a prefix of a request; more bytes are needed.
    Incomplete,
    /// The buffer cannot be a request, whatever else arrives.
    Failed(ParseError),
}

/// The mathematical value of a parse verdict.
pub enum ParseOutcomeView {
    Complete(RequestView),
    Incomplete,
    Failed(ParseError),
}

impl View for ParseOutcome {
    type V = ParseOutcomeView;

    open spec fn view(&self) -> ParseOutcomeView {
        match self {
            ParseOutcome::Complete(r) => ParseOutcomeView::Complete(r@),
            ParseOutcome::Incomplete => ParseOutcomeView::Incomplete,
            ParseOutcome::Failed(e) => ParseOutcomeView::Failed(*e),
        }
    }
}

/// The first Content-Length among the headers, if any: it governs the body.
pub open spec fn first_content_length(hdrs: Seq<HeaderFieldView>) -> Option<int>
    decreases hdrs.len(),
{
    if hdrs.len() == 0 {
        None
    } else {
        match hdrs[0] {
            HeaderFieldView::ContentLength(n) => Some(n),
            _ => first_content_length(hdrs.drop_first()),
        }
    }
}

/// The verdict once the header section has ended at `pos`: under a
/// Content-Length of `n` the body is exactly the next `n` bytes, and fewer
/// available bytes mean the request is incomplete; without one the body is
/// whatever the buffer currently holds after the empty line.
pub open spec fn finish_body(
    s: Seq<u8>,
    pos: int,
    m: HttpMethod,
    u: RequestUriView,
    v: HttpVersion,
    hdrs: Seq<HeaderFieldView>,
) -> ParseOutcomeView {
    match first_content_length(hdrs) {
        Some(n) => if pos + n <= s.len() {
            ParseOutcomeView::Complete(
                RequestView {
                    method: m,
                    request_uri: u,
                    http_version: v,
                    header: hdrs,
                    body: s.subrange(pos, pos + n),
                },
            )
        } else {
            ParseOutcomeView::Incomplete
        },
        None => ParseOutcomeView::Complete(
            RequestView {
                method: m,
                request_uri: u,
                http_version: v,
                header: hdrs,
                body: s.subrange(pos, s.len() as int),
            },
        ),
    }
}

/// The verdict of reading header lines from `pos` on: an empty line ends
/// the section, a full line that is no header is its error, and a buffer
/// without a further complete line is incomplete.
pub open spec fn parse_headers_from(
    s: Seq<u8>,
    pos: int,
    m: HttpMethod,
    u: RequestUriView,
    v: HttpVersion,
    hdrs: Seq<HeaderFieldView>,
) -> ParseOutcomeView
    decreases s.len() - pos when 0 <= pos <= s.len() via parse_headers_from_decreases
{
    match find_crlf_from(s, pos) {
        None => ParseOutcomeView::Incomplete,
        Some(i) => {
            let line = s.subrange(pos, i);
            if line.len() == 0 {
                finish_body(s, i + 2, m, u, v, hdrs)
            } else {
                match classify_header(line) {
                    Err(e) => ParseOutcomeView::Failed(e),
                    Ok(h) => parse_headers_from(s, i + 2, m, u, v, hdrs.push(h)),
                }
            }
        },
    }
}

#[via_fn]
proof fn parse_headers_from_decreases(
    s: Seq<u8>,
    pos: int,
    m: HttpMethod,
    u: RequestUriView,
    v: HttpVersion,
    hdrs: Seq<HeaderFieldView>,
) {
    crate::bytes::lemma_find_crlf_from_spec(s, pos);
}

/// The verdict of a parse of the whole accumulated buffer.
pub open spec fn spec_parse_request(s: Seq<u8>) -> ParseOutcomeView {
    match find_crlf_from(s, 0) {
        None => ParseOutcomeView::Incomplete,
        Some(i) => match parse_request_line(s.subrange(0, i)) {
            Err(e) => ParseOutcomeView::Failed(e),
            Ok(t) => parse_headers_from(s, i + 2, t.0, t.1, t.2, Seq::empty()),
        },
    }
}

/// Appending a header keeps the first Content-Length that was already
/// there, and otherwise promotes the new header if it is one.
proof fn lemma_first_cl_push(hdrs: Seq<HeaderFieldView>, h: HeaderFieldView)
    ensures
        first_content_length(hdrs.push(h)) == match first_content_length(hdrs) {
            Some(n) => Some(n),
            None => match h {
                HeaderFieldView::ContentLength(n) => Some(n),
                _ => None::<int>,
            },
        },
    decreases hdrs.len(),
{
    if hdrs.len() == 0 {
        assert(hdrs.push(h)[0] == h);
        assert(hdrs.push(h).drop_first() =~= Seq::<HeaderFieldView>::empty());
    } else {
        assert(hdrs.push(h)[0] == hdrs[0]);
        assert(hdrs.push(h).drop_first() =~= hdrs.drop_first().push(h));
        lemma_first_cl_push(hdrs.drop_first(), h);
    }
}

impl HTTPRequest {
    /// Parse the accumulated buffer into a request. The verdict is a pure
    /// function of the bytes: the same buffer, however it was accumulated,
    /// gives the same verdict.
    pub fn parse(buf: &[u8]) -> (r: ParseOutcome)
        ensures
            r@ == spec_parse_request(buf@),
    {
        let n = buf.len();
        let i0 = match find_crlf(buf, 0) {
            Some(i) => i,
            None => {
                return ParseOutcome::Incomplete;
            },
        };
        let line0 = vstd::slice::slice_subrange(buf, 0, i0);
        let (m, u, v) = match request_line(line0) {
            Ok(t) => t,
            Err(e) => {
                return ParseOutcome::Failed(e);
            },
        };
        let mut hdrs: Vec<HTTPRequestHeader> = Vec::new();
        let mut cl: Option<usize> = None;
        let mut pos: usize = i0 + 2;
        proof {
            assert(header_views(hdrs@) =~= Seq::<HeaderFieldView>::empty());
        }
        loop
            invariant
                2 <= pos <= n,
                n == buf@.len(),
                match cl {
                    Some(x) => first_content_length(header_views(hdrs@)) == Some(x as int),
                    None => first_content_length(header_views(hdrs@)) is None,
                },
                spec_parse_request(buf@) == parse_headers_from(
                    buf@,
                    pos as int,
                    m,
                    u@,
                    v,
                    header_views(hdrs@),
                ),
            decreases n - pos,
        {
            let i = match find_crlf(buf, pos) {
                Some(i) => i,
                None => {
                    return ParseOutcome::Incomplete;
                },
            };
            if i == pos {
                // The empty line: the header section has ended; the body
                // starts after its CR LF.
                let bstart = pos + 2;
                match cl {
                    None => {
                        let body = vstd::slice::slice_to_vec(
                            vstd::slice::slice_subrange(buf, bstart, n),
                        );
                        let req = HTTPRequest {
                            method: m,
                            request_uri: u,
                            http_version: v,
                            header: hdrs,
                            body,
                        };
                        return ParseOutcome::Complete(req);
                    },
                    Some(x) => {
                        if x <= n - bstart {
                            let body = vstd::slice::slice_to_vec(
                                vstd::slice::slice_subrange(buf, bstart, bstart + x),
                            );
                            let req = HTTPRequest {
                                method: m,
                                request_uri: u,
                                http_version: v,
                                header: hdrs,
                                body,
                            };
                            return ParseOutcome::Complete(req);
                        } else {
                            return ParseOutcome::Incomplete;
                        }
                    },
                }
            }
            let line = vstd::slice::slice_subrange(buf, pos, i);
            match HTTPRequestHeader::classify(line) {
                Err(e) => {
                    return ParseOutcome::Failed(e);
                },
                Ok(h) => {
                    let ghost old_views = header_views(hdrs@);
                    proof {
                        lemma_first_cl_push(old_views, h@);
                    }
                    let hcl: Option<usize> = match &h {
                        HTTPRequestHeader::ContentLength(x) => Some(*x),
                        _ => None,
                    };
                    hdrs.push(h);
                    proof {
                        assert(header_views(hdrs@) =~= old_views.push(h@));
                        assert(parse_headers_from(buf@, pos as int, m, u@, v, old_views)
                            == parse_headers_from(
                            buf@,
                            i as int + 2,
                            m,
                            u@,
                            v,
                            old_views.push(h@),
                        ));
                    }
                    if cl.is_none() {
                        cl = hcl;
                    }
                    pos = i + 2;
                },
            }
        }
    }
}

/// Every Content-Length among the headers carries a non-negative value, as
/// every classified header does.
pub open spec fn wf_header_seq(hdrs: Seq<HeaderFieldView>) -> bool {
    forall|k: int| 0 <= k < hdrs.len() ==> ((#[trigger] hdrs[k])
        matches HeaderFieldView::ContentLength(n) ==> n >= 0)
}

/// Any Content-Length a classified header carries is non-negative.
proof fn lemma_classify_header_cl_nonneg(line: Seq<u8>)
    ensures
        classify_header(line) matches Ok(h) ==> (h matches HeaderFieldView::ContentLength(n) ==> n
            >= 0),
{
    match find_byte_from(line, COLON, 0) {
        None => {},
        Some(c) => {
            crate::bytes::lemma_find_byte_from_spec(line, COLON, 0);
            let value = strip_leading_spaces(line.subrange(c + 1, line.len() as int));
            if all_digits(value) {
                lemma_dec_val_nonneg(value);
            }
        },
    }
}

/// The first Content-Length of a well-formed header sequence is
/// non-negative.
proof fn lemma_first_cl_wf(hdrs: Seq<HeaderFieldView>)
    requires
        wf_header_seq(hdrs),
    ensures
        first_content_length(hdrs) matches Some(n) ==> n >= 0,
    decreases hdrs.len(),
{
    if hdrs.len() > 0 {
        match hdrs[0] {
            HeaderFieldView::ContentLength(_) => {},
            _ => {
                assert(wf_header_seq(hdrs.drop_first())) by {
                    assert(forall|k: int|
                        0 <= k < hdrs.len() - 1 ==> hdrs.drop_first()[k] == hdrs[k + 1]);
                }
                lemma_first_cl_wf(hdrs.drop_first());
            },
        }
    }
}

/// A first CR LF pair found within `s` is still the first one after any
/// extension of `s`.
proof fn lemma_find_crlf_extension(s: Seq<u8>, ext: Seq<u8>, pos: int, i: int)
    requires
        0 <= pos <= s.len(),
        find_crlf_from(s, pos) == Some(i),
    ensures
        find_crlf_from(s + ext, pos) == Some(i),
{
    crate::bytes::lemma_find_crlf_from_spec(s, pos);
    assert(crate::bytes::crlf_at(s + ext, i));
    assert forall|j: int| pos <= j < i implies !crate::bytes::crlf_at(s + ext, j) by {
        assert(!crate::bytes::crlf_at(s, j));
    }
    crate::bytes::lemma_find_crlf_from_complete(s + ext, pos, i);
}

/// Reading headers is stable under extension of the buffer: a failure stays
/// the same failure, and a completed request keeps its request line and
/// headers; its body is unchanged when a Content-Length header fixed it and
/// otherwise grows by exactly the appended bytes.
pub proof fn lemma_headers_extension(
    s: Seq<u8>,
    ext: Seq<u8>,
    pos: int,
    m: HttpMethod,
    u: RequestUriView,
    v: HttpVersion,
    hdrs: Seq<HeaderFieldView>,
)
    requires
        0 <= pos <= s.len(),
        wf_header_seq(hdrs),
    ensures
        ({
            let r1 = parse_headers_from(s, pos, m, u, v, hdrs);
            let r2 = parse_headers_from(s + ext, pos, m, u, v, hdrs);
            &&& (r1 matches ParseOutcomeView::Failed(e) ==> r2 == ParseOutcomeView::Failed(e))
            &&& (r1 matches ParseOutcomeView::Complete(q) ==> r2
                matches ParseOutcomeView::Complete(q2) && q2.method == q.method
                && q2.request_uri == q.request_uri && q2.http_version == q.http_version
                && q2.header == q.header && (first_content_length(q.header) is Some ==> q2.body
                == q.body) && (first_content_length(q.header) is None ==> q2.body == q.body
                + ext))
        }),
    decreases s.len() - pos,
{
    match find_crlf_from(s, pos) {
        None => {},
        Some(i) => {
            crate::bytes::lemma_find_crlf_from_spec(s, pos);
            lemma_find_crlf_extension(s, ext, pos, i);
            let line = s.subrange(pos, i);
            assert((s + ext).subrange(pos, i) =~= line);
            if line.len() == 0 {
                lemma_first_cl_wf(hdrs);
                match first_content_length(hdrs) {
                    Some(n) => {
                        if i + 2 + n <= s.len() {
                            assert((s + ext).subrange(i + 2, i + 2 + n) =~= s.subrange(
                                i + 2,
                                i + 2 + n,
                            ));
                        }
                    },
                    None => {
                        assert((s + ext).subrange(i + 2, (s + ext).len() as int) =~= s.subrange(
                            i + 2,
                            s.len() as int,
                        ) + ext);
                    },
                }
            } else {
                match classify_header(line) {
                    Err(_) => {},
                    Ok(h) => {
                        assert(wf_header_seq(hdrs.push(h))) by {
                            lemma_classify_header_cl_nonneg(line);
                            assert(forall|k: int|
                                0 <= k < hdrs.len() ==> hdrs.push(h)[k] == hdrs[k]);
                            assert(hdrs.push(h)[hdrs.len() as int] == h);
                        }
                        lemma_headers_extension(s, ext, i + 2, m, u, v, hdrs.push(h));
                    },
                }
            }
        },
    }
}

/// The parse verdict is stable under growth of the buffer. A buffer is
/// always fed to the parser whole, so the same bytes give the same verdict
/// however they arrived; this law adds that once a verdict other than
/// "incomplete" was reached, appending further bytes never changes it: an
/// error stays that error, and a completed request keeps its request line,
/// headers and, under a Content-Length header, its body. Only a body read
/// up to the end of input grows with the buffer, by exactly the appended
/// bytes.
pub proof fn lemma_parse_prefix_extension(s: Seq<u8>, ext: Seq<u8>)
    ensures
        spec_parse_request(s) matches ParseOutcomeView::Failed(e) ==> spec_parse_request(s + ext)
            == ParseOutcomeView::Failed(e),
        spec_parse_request(s) matches ParseOutcomeView::Complete(q) ==> spec_parse_request(s + ext)
            matches ParseOutcomeView::Complete(q2) && q2.method == q.method && q2.request_uri
            == q.request_uri && q2.http_version == q.http_version && q2.header == q.header && (
        first_content_length(q.header) is Some ==> q2.body == q.body) && (first_content_length(
            q.header,
        ) is None ==> q2.body == q.body + ext),
{
    match find_crlf_from(s, 0) {
        None => {},
        Some(i) => {
            crate::bytes::lemma_find_crlf_from_spec(s, 0);
            lemma_find_crlf_extension(s, ext, 0, i);
            let line = s.subrange(0, i);
            assert((s + ext).subrange(0, i) =~= line);
            match parse_request_line(line) {
                Err(_) => {},
                Ok(t) => {
                    assert(wf_header_seq(Seq::<HeaderFieldView>::empty()));
                    lemma_headers_extension(s, ext, i + 2, t.0, t.1, t.2, Seq::empty());
                },
            }
        },
    }
}

/// A completed request under a Content-Length header has a body of exactly
/// that length: the parser neither truncates nor pads the promised extent.
pub proof fn lemma_headers_body_length(
    s: Seq<u8>,
    pos: int,
    m: HttpMethod,
    u: RequestUriView,
    v: HttpVersion,
    hdrs: Seq<HeaderFieldView>,
)
    requires
        0 <= pos <= s.len(),
        wf_header_seq(hdrs),
    ensures
        parse_headers_from(s, pos, m, u, v, hdrs) matches ParseOutcomeView::Complete(q) ==> (
        first_content_length(q.header) matches Some(n) ==> q.body.len() == n),
    decreases s.len() - pos,
{
    match find_crlf_from(s, pos) {
        None => {},
        Some(i) => {
            crate::bytes::lemma_find_crlf_from_spec(s, pos);
            let line = s.subrange(pos, i);
            if line.len() == 0 {
                lemma_first_cl_wf(hdrs);
            } else {
                match classify_header(line) {
                    Err(_) => {},
                    Ok(h) => {
                        assert(wf_header_seq(hdrs.push(h))) by {
                            lemma_classify_header_cl_nonneg(line);
                            assert(forall|k: int|
                                0 <= k < hdrs.len() ==> hdrs.push(h)[k] == hdrs[k]);
                            assert(hdrs.push(h)[hdrs.len() as int] == h);
                        }
                        lemma_headers_body_length(s, i + 2, m, u, v, hdrs.push(h));
                    },
                }
            }
        },
    }
}

/// A completed parse under a Content-Length header yields a body of exactly
/// that length.
pub proof fn lemma_parse_body_length(s: Seq<u8>)
    ensures
        spec_parse_request(s) matches ParseOutcomeView::Complete(q) ==> (first_content_length(
            q.header,
        ) matches Some(n) ==> q.body.len() == n),
{
    match find_crlf_from(s, 0) {
        None => {},
        Some(i) => {
            crate::bytes::lemma_find_crlf_from_spec(s, 0);
            match parse_request_line(s.subrange(0, i)) {
                Err(_) => {},
                Ok(t) => {
                    assert(wf_header_seq(Seq::<HeaderFieldView>::empty()));
                    lemma_headers_body_length(s, i + 2, t.0, t.1, t.2, Seq::empty());
                },
            }
        },
    }
}

/// The numeric part of a quality-weight clause read as thousandths.
fn qvalue(s: &[u8]) -> (r: Option<u32>)
    ensures
        match r {
            Some(q) => qvalue_thousandths(s@) == Some(q as int),
            None => qvalue_thousandths(s@) is None,
        },
{
    let n = s.len();
    match find_byte(s, DOT, 0) {
        None => {
            match parse_decimal(s) {
                None => {
                    proof {
                        if s@.len() > 0 && all_digits(s@) {
                            // parse_decimal failed, so the value exceeds
                            // usize::MAX, and scaled by 1000 it exceeds
                            // u32::MAX as well.
                            lemma_dec_val_nonneg(s@);
                            assert(dec_val(s@) * 1000 >= dec_val(s@)) by (nonlinear_arith)
                                requires
                                    dec_val(s@) >= 0,
                            ;
                        }
                    }
                    None
                },
                Some(x) => {
                    if x > 4294967 {
                        proof {
                            assert(dec_val(s@) * 1000 > u32::MAX) by (nonlinear_arith)
                                requires
                                    dec_val(s@) > 4294967,
                            ;
                        }
                        None
                    } else {
                        let q = (x as u64) * 1000;
                        if q <= u32::MAX as u64 {
                            Some(q as u32)
                        } else {
                            None
                        }
                    }
                },
            }
        },
        Some(d) => {
            let ip = vstd::slice::slice_subrange(s, 0, d);
            let fp = vstd::slice::slice_subrange(s, d + 1, n);
            if ip.len() + fp.len() < 1 || fp.len() > 3 {
                return None;
            }
            let ival: usize = if ip.len() == 0 {
                0
            } else {
                match parse_decimal(ip) {
                    None => {
                        proof {
                            // The integer part is either not all digits, or
                            // so large that scaled by 1000 it cannot fit.
                            if all_digits(ip@) {
                                lemma_dec_val_nonneg(ip@);
                                assert(dec_val(ip@) * 1000 >= dec_val(ip@)) by (nonlinear_arith)
                                    requires
                                        dec_val(ip@) >= 0,
                                ;
                            }
                            if all_digits(fp@) {
                                lemma_dec_val_nonneg(fp@);
                                assert(dec_val(fp@) * frac_scale(fp@.len() as int) >= 0)
                                    by (nonlinear_arith)
                                    requires
                                        dec_val(fp@) >= 0,
                                        frac_scale(fp@.len() as int) >= 1,
                                ;
                            }
                        }
                        return None;
                    },
                    Some(x) => x,
                }
            };
            let fval: usize = if fp.len() == 0 {
                0
            } else {
                match parse_decimal(fp) {
                    None => {
                        proof {
                            if all_digits(fp@) {
                                lemma_dec_val_len_bound(fp@);
                            }
                        }
                        return None;
                    },
                    Some(x) => x,
                }
            };
            proof {
                lemma_dec_val_len_bound(fp@);
            }
            let scale: u64 = if fp.len() == 0 {
                1000
            } else if fp.len() == 1 {
                100
            } else if fp.len() == 2 {
                10
            } else {
                1
            };
            if ival > 4294967 {
                proof {
                    lemma_dec_val_nonneg(fp@);
                    assert(dec_val(ip@) * 1000 > u32::MAX) by (nonlinear_arith)
                        requires
                            dec_val(ip@) > 4294967,
                    ;
                    assert(dec_val(fp@) * frac_scale(fp@.len() as int) >= 0) by (nonlinear_arith)
                        requires
                            dec_val(fp@) >= 0,
                            frac_scale(fp@.len() as int) >= 1,
                    ;
                }
                return None;
            }
            let v: u64 = (ival as u64) * 1000 + (fval as u64) * scale;
            if v <= u32::MAX as u64 {
                Some(v as u32)
            } else {
                None
            }
        },
    }
}

/// The reading of one comma-separated Accept element.
fn accept_item(item: &[u8]) -> (r: Option<HTTPRequestHeaderAccept>)
    ensures
        match r {
            Some(a) => parse_accept_item(item@) == Some(a@),
            None => parse_accept_item(item@) is None,
        },
{
    let t = trim_slice(item);
    let tn = t.len();
    let sl = match find_byte(t, SLASH, 0) {
        Some(i) => i,
        None => {
            return None;
        },
    };
    assert(sl < tn);
    let mtype = vstd::slice::slice_subrange(t, 0, sl);
    let rest = vstd::slice::slice_subrange(t, sl + 1, tn);
    let rn = rest.len();
    match find_byte(rest, SEMICOLON, 0) {
        None => Some(
            HTTPRequestHeaderAccept {
                mime_type: vstd::slice::slice_to_vec(mtype),
                mime_subtype: vstd::slice::slice_to_vec(rest),
                q_factor_weighting: None,
            },
        ),
        Some(se) => {
            assert(se < rn);
            let sub = vstd::slice::slice_subrange(rest, 0, se);
            let qs = strip_q_markers(vstd::slice::slice_subrange(rest, se + 1, rn));
            match qvalue(qs) {
                None => None,
                Some(q) => Some(
                    HTTPRequestHeaderAccept {
                        mime_type: vstd::slice::slice_to_vec(mtype),
                        mime_subtype: vstd::slice::slice_to_vec(sub),
                        q_factor_weighting: Some(q),
                    },
                ),
            }
        },
    }
}

/// The decomposition of a whole Accept value into its elements.
fn parse_accept(v: &[u8]) -> (r: Option<Vec<HTTPRequestHeaderAccept>>)
    ensures
        match r {
            Some(items) => parse_accept_from(v@, 0) == Some(accept_views(items@)),
            None => parse_accept_from(v@, 0) is None,
        },
{
    let n = v.len();
    let mut out: Vec<HTTPRequestHeaderAccept> = Vec::new();
    let mut pos: usize = 0;
    loop
        invariant
            0 <= pos <= n,
            n == v@.len(),
            match parse_accept_from(v@, pos as int) {
                None => parse_accept_from(v@, 0) is None,
                Some(rest) => parse_accept_from(v@, 0) == Some(accept_views(out@) + rest),
            },
        decreases n - pos,
    {
        match find_byte(v, COMMA, pos) {
            None => {
                let item = vstd::slice::slice_subrange(v, pos, n);
                match accept_item(item) {
                    None => {
                        return None;
                    },
                    Some(a) => {
                        out.push(a);
                        proof {
                            assert(accept_views(out@) =~= accept_views(out@.drop_last()).push(
                                out@.last()@,
                            ));
                            assert(accept_views(out@.drop_last()).push(out@.last()@)
                                =~= accept_views(out@.drop_last()) + seq![out@.last()@]);
                        }
                        return Some(out);
                    },
                }
            },
            Some(c) => {
                let item = vstd::slice::slice_subrange(v, pos, c);
                match accept_item(item) {
                    None => {
                        return None;
                    },
                    Some(a) => {
                        out.push(a);
                        proof {
                            assert(accept_views(out@) =~= accept_views(out@.drop_last()).push(
                                out@.last()@,
                            ));
                        }
                        pos = c + 1;
                    },
                }
            },
        }
    }
}

/// The tokens of a whitespace-separated value, in order.
fn split_ws(v: &[u8]) -> (r: Vec<Vec<u8>>)
    ensures
        byte_seqs(r@) == split_ws_from(v@, 0),
{
    let n = v.len();
    let mut out: Vec<Vec<u8>> = Vec::new();
    let mut pos: usize = 0;
    while pos < n
        invariant
            0 <= pos <= n,
            n == v@.len(),
            split_ws_from(v@, 0) == byte_seqs(out@) + split_ws_from(v@, pos as int),
        decreases n - pos,
    {
        if is_ascii_ws_byte(v[pos]) {
            pos += 1;
        } else {
            let end = match find_ws(v, pos) {
                Some(i) => i,
                None => n,
            };
            let tok = vstd::slice::slice_to_vec(vstd::slice::slice_subrange(v, pos, end));
            out.push(tok);
            proof {
                assert(byte_seqs(out@) =~= byte_seqs(out@.drop_last()).push(out@.last()@));
                assert(byte_seqs(out@.drop_last()).push(out@.last()@) =~= byte_seqs(
                    out@.drop_last(),
                ) + seq![out@.last()@]);
                assert(byte_seqs(out@.drop_last()) + seq![out@.last()@] + split_ws_from(
                    v@,
                    end as int,
                ) =~= byte_seqs(out@.drop_last()) + (seq![out@.last()@] + split_ws_from(
                    v@,
                    end as int,
                )));
            }
            pos = end;
        }
    }
    proof {
        assert(byte_seqs(out@) + split_ws_from(v@, pos as int) =~= byte_seqs(out@));
    }
    out
}

impl HTTPRequestHeader {
    /// Classify one header line: split it at the first colon and match the
    /// name, without regard to ASCII case, against the known header names.
    pub fn classify(line: &[u8]) -> (r: Result<HTTPRequestHeader, ParseError>)
        ensures
            match r {
                Ok(h) => classify_header(line@) == Ok::<_, ParseError>(h@),
                Err(e) => classify_header(line@) == Err::<HeaderFieldView, _>(e),
            },
    {
        let n = line.len();
        let c = match find_byte(line, COLON, 0) {
            Some(i) => i,
            None => {
                return Err(ParseError::MalformedHeaderLine);
            },
        };
        let name = vstd::slice::slice_subrange(line, 0, c);
        let value = strip_spaces(vstd::slice::slice_subrange(line, c + 1, n));
        let k_accept: [u8; 6] = [65, 67, 67, 69, 80, 84];
        let k_accept_encoding: [u8; 15] = [
            65,
            67,
            67,
            69,
            80,
            84,
            45,
            69,
            78,
            67,
            79,
            68,
            73,
            78,
            71,
        ];
        let k_accept_language: [u8; 15] = [
            65,
            67,
            67,
            69,
            80,
            84,
            45,
            76,
            65,
            78,
            71,
            85,
            65,
            71,
            69,
        ];
        let k_connection: [u8; 10] = [67, 79, 78, 78, 69, 67, 84, 73, 79, 78];
        let k_content_length: [u8; 14] = [67, 79, 78, 84, 69, 78, 84, 45, 76, 69, 78, 71, 84, 72];
        let k_content_type: [u8; 12] = [67, 79, 78, 84, 69, 78, 84, 45, 84, 89, 80, 69];
        let k_host: [u8; 4] = [72, 79, 83, 84];
        let k_referer: [u8; 7] = [82, 69, 70, 69, 82, 69, 82];
        let k_user_agent: [u8; 10] = [85, 83, 69, 82, 45, 65, 71, 69, 78, 84];
        proof {
            assert(k_accept@ =~= kw_accept());
            assert(k_accept_encoding@ =~= kw_accept_encoding());
            assert(k_accept_language@ =~= kw_accept_language());
            assert(k_connection@ =~= kw_connection());
            assert(k_content_length@ =~= kw_content_length());
            assert(k_content_type@ =~= kw_content_type());
            assert(k_host@ =~= kw_host());
            assert(k_referer@ =~= kw_referer());
            assert(k_user_agent@ =~= kw_user_agent());
        }
        if upper_eq_bytes(name, k_accept.as_slice()) {
            match parse_accept(value) {
                None => Err(ParseError::MalformedHeaderLine),
                Some(items) => Ok(HTTPRequestHeader::Accept(items)),
            }
        } else if upper_eq_bytes(name, k_accept_language.as_slice()) {
            Ok(HTTPRequestHeader::AcceptLanguage(vstd::slice::slice_to_vec(value)))
        } else if upper_eq_bytes(name, k_accept_encoding.as_slice()) {
            Ok(HTTPRequestHeader::AcceptEncoding(split_ws(value)))
        } else if upper_eq_bytes(name, k_connection.as_slice()) {
            Ok(HTTPRequestHeader::Connection(vstd::slice::slice_to_vec(value)))
        } else if upper_eq_bytes(name, k_content_length.as_slice()) {
            match parse_decimal(value) {
                None => Err(ParseError::BadContentLength),
                Some(x) => Ok(HTTPRequestHeader::ContentLength(x)),
            }
        } else if upper_eq_bytes(name, k_content_type.as_slice()) {
            Ok(HTTPRequestHeader::ContentType(vstd::slice::slice_to_vec(value)))
        } else if upper_eq_bytes(name, k_host.as_slice()) {
            Ok(HTTPRequestHeader::Host(vstd::slice::slice_to_vec(value)))
        } else if upper_eq_bytes(name, k_referer.as_slice()) {
            Ok(HTTPRequestHeader::Referer(vstd::slice::slice_to_vec(value)))
        } else if upper_eq_bytes(name, k_user_agent.as_slice()) {
            Ok(HTTPRequestHeader::UserAgent(vstd::slice::slice_to_vec(value)))
        } else {
            Ok(
                HTTPRequestHeader::OtherHeader(
                    vstd::slice::slice_to_vec(name),
                    vstd::slice::slice_to_vec(value),
                ),
            )
        }
    }
}

} // verus!
