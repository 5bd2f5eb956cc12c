//! What can go wrong with a header.
use crate::addr::port::PortError;
use crate::addr::AddrParseError;
use std::str::Utf8Error;
use vstd::prelude::*;
use vstd::string::StringSliceAdditionalSpecFns;
use vstd::utf8::valid_utf8;

verus! {

/// `std::str::Utf8Error`: where and how bytes fail to be UTF-8.
#[verifier::external_type_specification]
#[verifier::external_body]
pub struct ExUtf8Error(Utf8Error);

/// What `std::str::from_utf8` says of bytes that are not UTF-8.
pub uninterp spec fn utf8_fault(bytes: Seq<u8>) -> Utf8Error;

/// Errors of this library.
#[derive(Debug)]
pub enum Error {
    /// The header breaks the protocol.
    Proxy(String),
    /// The header is not UTF-8.
    Utf8(Utf8Error),
    /// An address in the header is none.
    IPAddress(AddrParseError),
    /// A port in the header is none.
    Port(PortError),
    /// The operation is not possible now.
    InvalidState(String),
}

/// Whether the error is that the protocol is broken, told in the words `text`.
pub open spec fn is_proxy_error(e: Error, text: Seq<char>) -> bool {
    e matches Error::Proxy(m) && m@ == text
}

/// The error that the protocol is broken, told in the given words.
pub(crate) fn proxy_error(text: &str) -> (e: Error)
    ensures
        is_proxy_error(e, text@),
{
    Error::Proxy(text.to_owned())
}

/// `std::str::from_utf8`: the bytes as a string if they are UTF-8, and otherwise an error
/// that depends on the bytes alone.
#[verifier::external_body]
pub(crate) fn from_utf8(v: &[u8]) -> (s: Result<&str, Utf8Error>)
    ensures
        s is Ok <==> valid_utf8(v@),
        s matches Ok(s) ==> s.spec_bytes() == v@,
        s matches Err(e) ==> e == utf8_fault(v@),
{
    std::str::from_utf8(v)
}

} // verus!
