//! Structured HTTP responses: the status line data, response header variants
//! and the builders that assemble a response value.

use vstd::prelude::*;

use crate::http::version::HttpVersion;

verus! {

/// A structured HTTP response: status line, header fields and body.
#[derive(Debug, PartialEq, Eq)]
pub struct HTTPRespond {
    /// Protocol version of the status line.
    pub http_version: HttpVersion,
    /// Status code of the status line.
    pub status_code: StatusCode,
    /// Reason phrase of the status line.
    pub reason_phrase: String,
    /// Header fields, in the order they were added.
    pub header: Vec<HttpRespondHeader>,
    /// Message body.
    pub body: String,
}

impl HTTPRespond {
    /// A response with the given status line and body and no header fields.
    pub fn from_body(
        body: String,
        http_version: HttpVersion,
        status_code: StatusCode,
        reason_phrase: String,
    ) -> (r: HTTPRespond)
        ensures
            r.http_version == http_version,
            r.status_code == status_code,
            r.reason_phrase == reason_phrase,
            r.header@ == Seq::<HttpRespondHeader>::empty(),
            r.body == body,
    {
        HTTPRespond {
            http_version,
            status_code,
            reason_phrase,
            header: Vec::new(),
            body,
        }
    }

    /// Append one header field to a response.
    pub fn with_header(respond: &mut HTTPRespond, header: HttpRespondHeader)
        ensures
            final(respond).header@ == old(respond).header@.push(header),
            final(respond).http_version == old(respond).http_version,
            final(respond).status_code == old(respond).status_code,
            final(respond).reason_phrase == old(respond).reason_phrase,
            final(respond).body == old(respond).body,
    {
        respond.header.push(header);
    }
}

/// The HTTP status codes, by name. `code` gives the numeric value of each.
#[allow(non_camel_case_types)]
#[derive(Clone, Copy, Debug, PartialEq, Eq, Structural)]
pub enum StatusCode {
    Continue,
    SwitchingProtocols,
    Processing,
    OK,
    Created,
    Accepted,
    NonAuthoritativeInformation,
    NoContent,
    ResetContent,
    PartialContent,
    MultiStatus,
    AlreadyReported,
    IMUsed,
    MultipleChoices,
    MovedPermanently,
    Found,
    SeeOther,
    NotModified,
    UseProxy,
    TemporaryRedirect,
    PermanentRedirect,
    BadRequest,
    Unauthorized,
    PaymentRequired,
    Forbidden,
    NotFound,
    MethodNotAllowed,
    NotAcceptable,
    ProxyAuthenticationRequired,
    RequestTimeout,
    Conflict,
    Gone,
    LengthRequired,
    PreconditionFailed,
    PayloadTooLarge,
    URITooLong,
    UnsupportedMediaType,
    RangeNotSatisfiable,
    ExpectationFailed,
    ImATeapot,
    MisdirectedRequest,
    UnprocessableEntity,
    Locked,
    FailedDependency,
    UpgradeRequired,
    PreconditionRequired,
    TooManyRequests,
    RequestHeaderFieldsTooLarge,
    UnavailableForLegalReasons,
    InternalServerError,
    NotImplemented,
    BadGateway,
    ServiceUnavailable,
    GatewayTimeout,
    HTTPVersionNotSupported,
    VariantAlsoNegotiates,
    InsufficientStorage,
    LoopDetected,
    NotExtended,
    NetworkAuthenticationRequired,
}

/// The numeric value of each status code.
pub open spec fn status_code_value(c: StatusCode) -> u16 {
    match c {
        StatusCode::Continue => 100,
        StatusCode::SwitchingProtocols => 101,
        StatusCode::Processing => 102,
        StatusCode::OK => 200,
        StatusCode::Created => 201,
        StatusCode::Accepted => 202,
        StatusCode::NonAuthoritativeInformation => 203,
        StatusCode::NoContent => 204,
        StatusCode::ResetContent => 205,
        StatusCode::PartialContent => 206,
        StatusCode::MultiStatus => 207,
        StatusCode::AlreadyReported => 208,
        StatusCode::IMUsed => 226,
        StatusCode::MultipleChoices => 300,
        StatusCode::MovedPermanently => 301,
        StatusCode::Found => 302,
        StatusCode::SeeOther => 303,
        StatusCode::NotModified => 304,
        StatusCode::UseProxy => 305,
        StatusCode::TemporaryRedirect => 307,
        StatusCode::PermanentRedirect => 308,
        StatusCode::BadRequest => 400,
        StatusCode::Unauthorized => 401,
        StatusCode::PaymentRequired => 402,
        StatusCode::Forbidden => 403,
        StatusCode::NotFound => 404,
        StatusCode::MethodNotAllowed => 405,
        StatusCode::NotAcceptable => 406,
        StatusCode::ProxyAuthenticationRequired => 407,
        StatusCode::RequestTimeout => 408,
        StatusCode::Conflict => 409,
        StatusCode::Gone => 410,
        StatusCode::LengthRequired => 411,
        StatusCode::PreconditionFailed => 412,
        StatusCode::PayloadTooLarge => 413,
        StatusCode::URITooLong => 414,
        StatusCode::UnsupportedMediaType => 415,
        StatusCode::RangeNotSatisfiable => 416,
        StatusCode::ExpectationFailed => 417,
        StatusCode::ImATeapot => 418,
        StatusCode::MisdirectedRequest => 421,
        StatusCode::UnprocessableEntity => 422,
        StatusCode::Locked => 423,
        StatusCode::FailedDependency => 424,
        StatusCode::UpgradeRequired => 426,
        StatusCode::PreconditionRequired => 428,
        StatusCode::TooManyRequests => 429,
        StatusCode::RequestHeaderFieldsTooLarge => 431,
        StatusCode::UnavailableForLegalReasons => 451,
        StatusCode::InternalServerError => 500,
        StatusCode::NotImplemented => 501,
        StatusCode::BadGateway => 502,
        StatusCode::ServiceUnavailable => 503,
        StatusCode::GatewayTimeout => 504,
        StatusCode::HTTPVersionNotSupported => 505,
        StatusCode::VariantAlsoNegotiates => 506,
        StatusCode::InsufficientStorage => 507,
        StatusCode::LoopDetected => 508,
        StatusCode::NotExtended => 510,
        StatusCode::NetworkAuthenticationRequired => 511,
    }
}

impl StatusCode {
    /// The numeric value of the status code.
    pub fn code(&self) -> (r: u16)
        ensures
            r == status_code_value(*self),
    {
        match self {
            StatusCode::Continue => 100,
            StatusCode::SwitchingProtocols => 101,
            StatusCode::Processing => 102,
            StatusCode::OK => 200,
            StatusCode::Created => 201,
            StatusCode::Accepted => 202,
            StatusCode::NonAuthoritativeInformation => 203,
            StatusCode::NoContent => 204,
            StatusCode::ResetContent => 205,
            StatusCode::PartialContent => 206,
            StatusCode::MultiStatus => 207,
            StatusCode::AlreadyReported => 208,
            StatusCode::IMUsed => 226,
            StatusCode::MultipleChoices => 300,
            StatusCode::MovedPermanently => 301,
            StatusCode::Found => 302,
            StatusCode::SeeOther => 303,
            StatusCode::NotModified => 304,
            StatusCode::UseProxy => 305,
            StatusCode::TemporaryRedirect => 307,
            StatusCode::PermanentRedirect => 308,
            StatusCode::BadRequest => 400,
            StatusCode::Unauthorized => 401,
            StatusCode::PaymentRequired => 402,
            StatusCode::Forbidden => 403,
            StatusCode::NotFound => 404,
            StatusCode::MethodNotAllowed => 405,
            StatusCode::NotAcceptable => 406,
            StatusCode::ProxyAuthenticationRequired => 407,
            StatusCode::RequestTimeout => 408,
            StatusCode::Conflict => 409,
            StatusCode::Gone => 410,
            StatusCode::LengthRequired => 411,
            StatusCode::PreconditionFailed => 412,
            StatusCode::PayloadTooLarge => 413,
            StatusCode::URITooLong => 414,
            StatusCode::UnsupportedMediaType => 415,
            StatusCode::RangeNotSatisfiable => 416,
            StatusCode::ExpectationFailed => 417,
            StatusCode::ImATeapot => 418,
            StatusCode::MisdirectedRequest => 421,
            StatusCode::UnprocessableEntity => 422,
            StatusCode::Locked => 423,
            StatusCode::FailedDependency => 424,
            StatusCode::UpgradeRequired => 426,
            StatusCode::PreconditionRequired => 428,
            StatusCode::TooManyRequests => 429,
            StatusCode::RequestHeaderFieldsTooLarge => 431,
            StatusCode::UnavailableForLegalReasons => 451,
            StatusCode::InternalServerError => 500,
            StatusCode::NotImplemented => 501,
            StatusCode::BadGateway => 502,
            StatusCode::ServiceUnavailable => 503,
            StatusCode::GatewayTimeout => 504,
            StatusCode::HTTPVersionNotSupported => 505,
            StatusCode::VariantAlsoNegotiates => 506,
            StatusCode::InsufficientStorage => 507,
            StatusCode::LoopDetected => 508,
            StatusCode::NotExtended => 510,
            StatusCode::NetworkAuthenticationRequired => 511,
        }
    }
}

/// The bytes of the canned minimal response: the fixed status line
/// "HTTP/1.1 200 OK", one header line "Hello: Server", the empty line, and
/// the short body "data here".
pub open spec fn canned_response_bytes() -> Seq<u8> {
    seq![
        72u8, 84, 84, 80, 47, 49, 46, 49, 32, 50, 48, 48, 32, 79, 75, 13, 10, 72, 101, 108, 108,
        111, 58, 32, 83, 101, 114, 118, 101, 114, 13, 10, 13, 10, 100, 97, 116, 97, 32, 104, 101,
        114, 101,
    ]
}

/// The canned minimal response the server writes once a request or the end
/// of the stream is observed; its content is static in this core.
pub fn canned_response() -> (r: Vec<u8>)
    ensures
        r@ == canned_response_bytes(),
{
    let a: [u8; 43] = [
        72, 84, 84, 80, 47, 49, 46, 49, 32, 50, 48, 48, 32, 79, 75, 13, 10, 72, 101, 108, 108,
        111, 58, 32, 83, 101, 114, 118, 101, 114, 13, 10, 13, 10, 100, 97, 116, 97, 32, 104, 101,
        114, 101,
    ];
    proof {
        assert(a@ =~= canned_response_bytes());
    }
    vstd::slice::slice_to_vec(a.as_slice())
}

/// The response header fields the emitter can attach.
#[derive(Clone, Debug, PartialEq, Eq)]
pub enum HttpRespondHeader {
    Age(String),
    ContentEncoding(String),
    ContentLength(String),
    ContentType(String),
    Server(String),
    OtherHeader(String, String),
}

} // verus!
