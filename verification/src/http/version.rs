//! The fixed set of HTTP protocol versions and the classification of a
//! version token against it.

use vstd::prelude::*;

use crate::bytes::eq_bytes;

verus! {

/// The HTTP protocol versions the parser understands.
#[allow(non_camel_case_types)]
#[derive(Clone, Copy, Debug, PartialEq, Eq, Structural)]
pub enum HttpVersion {
    /// HTTP/0.9
    Http_0_9,
    /// HTTP/1.0
    Http_1_0,
    /// HTTP/1.1
    Http_1_1,
    /// HTTP/2.0
    Http_2_0,
}

/// The bytes of the string "HTTP/0.9".
pub open spec fn version_0_9_bytes() -> Seq<u8> {
    seq![72u8, 84, 84, 80, 47, 48, 46, 57]
}

/// The bytes of the string "HTTP/1.0".
pub open spec fn version_1_0_bytes() -> Seq<u8> {
    seq![72u8, 84, 84, 80, 47, 49, 46, 48]
}

/// The bytes of the string "HTTP/1.1".
pub open spec fn version_1_1_bytes() -> Seq<u8> {
    seq![72u8, 84, 84, 80, 47, 49, 46, 49]
}

/// The bytes of the string "HTTP/2.0".
pub open spec fn version_2_0_bytes() -> Seq<u8> {
    seq![72u8, 84, 84, 80, 47, 50, 46, 48]
}

/// The version a token names, when it is exactly one of the known version
/// strings; any other token is unknown.
pub open spec fn version_of(tok: Seq<u8>) -> Option<HttpVersion> {
    if tok == version_0_9_bytes() {
        Some(HttpVersion::Http_0_9)
    } else if tok == version_1_0_bytes() {
        Some(HttpVersion::Http_1_0)
    } else if tok == version_1_1_bytes() {
        Some(HttpVersion::Http_1_1)
    } else if tok == version_2_0_bytes() {
        Some(HttpVersion::Http_2_0)
    } else {
        None
    }
}

impl HttpVersion {
    /// Classify a version token against the fixed set of known versions.
    pub fn classify(tok: &[u8]) -> (r: Option<HttpVersion>)
        ensures
            r == version_of(tok@),
    {
        let v09: [u8; 8] = [72, 84, 84, 80, 47, 48, 46, 57];
        let v10: [u8; 8] = [72, 84, 84, 80, 47, 49, 46, 48];
        let v11: [u8; 8] = [72, 84, 84, 80, 47, 49, 46, 49];
        let v20: [u8; 8] = [72, 84, 84, 80, 47, 50, 46, 48];
        proof {
            assert(v09@ =~= version_0_9_bytes());
            assert(v10@ =~= version_1_0_bytes());
            assert(v11@ =~= version_1_1_bytes());
            assert(v20@ =~= version_2_0_bytes());
        }
        if eq_bytes(tok, v09.as_slice()) {
            Some(HttpVersion::Http_0_9)
        } else if eq_bytes(tok, v10.as_slice()) {
            Some(HttpVersion::Http_1_0)
        } else if eq_bytes(tok, v11.as_slice()) {
            Some(HttpVersion::Http_1_1)
        } else if eq_bytes(tok, v20.as_slice()) {
            Some(HttpVersion::Http_2_0)
        } else {
            None
        }
    }
}

} // verus!
