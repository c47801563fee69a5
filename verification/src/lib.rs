//! Strict parser for the canonical textual form of a Windows GUID.
//!
//! A GUID such as `6B29FC40-CA47-1067-B31D-00DD010662DA` is written as five
//! hyphen-separated groups of hexadecimal digits (8-4-4-4-12, either case).
//! This crate parses that form into its five integer chunks, into the
//! portable 16-byte big-endian layout, and into the four-member structure
//! used by the native GUID ABI.

use vstd::prelude::*;

pub mod chunks;
pub mod laws;
pub mod parser;

pub use crate::chunks::GUID;

use crate::chunks::{guid_bytes, Chunks};
use crate::parser::{is_canonical, spec_chunks, spec_parse, ErrorKind};
use vstd::string::StringSliceAdditionalSpecFns;

verus! {

/// Error returned whenever a string fails to parse as a GUID: the kind of
/// failure and the byte offset at which it occurred.
#[derive(Eq, PartialEq, Clone, Copy, Debug)]
pub struct ParseGuidError {
    /// What was expected and what stood there instead.
    pub kind: ErrorKind,
    /// The byte offset of the failure.
    pub offset: usize,
}

impl ParseGuidError {
    /// What was expected and what stood there instead, in words.
    pub open spec fn spec_message(self) -> Seq<char> {
        match self.kind {
            ErrorKind::UnexpectedByte => "expected a hex digit, found another byte"@,
            ErrorKind::TooShort => "input ended before the field was complete"@,
            ErrorKind::ExpectedSeparator => "expected a hyphen separator"@,
            ErrorKind::TrailingContent => "input continued after a complete GUID"@,
        }
    }

    /// A human-readable description of the failure; the byte offset at which
    /// it occurred stands in `offset`.
    pub fn message(&self) -> (r: String)
        ensures
            r@ == self.spec_message(),
    {
        match self.kind {
            ErrorKind::UnexpectedByte => "expected a hex digit, found another byte".to_owned(),
            ErrorKind::TooShort => "input ended before the field was complete".to_owned(),
            ErrorKind::ExpectedSeparator => "expected a hyphen separator".to_owned(),
            ErrorKind::TrailingContent => "input continued after a complete GUID".to_owned(),
        }
    }
}

/// The outcome the runtime entry points owe for an input: the parsed chunks
/// if the whole input is one canonical GUID, otherwise the first failure —
/// the parser's own, or `TrailingContent` at offset 36 when the input goes
/// on after a complete GUID.
pub open spec fn spec_guid_result(s: Seq<u8>) -> Result<Chunks, ParseGuidError> {
    match spec_parse(s) {
        Ok(c) => if s.len() == 36 {
            Ok(c)
        } else {
            Err(ParseGuidError { kind: ErrorKind::TrailingContent, offset: 36 })
        },
        Err(e) => Err(ParseGuidError { kind: e.kind, offset: e.offset }),
    }
}

/// Parse the whole input as one GUID, folding the parser's failure into a
/// `ParseGuidError`.
fn parse_chunks(src: &str) -> (r: Result<Chunks, ParseGuidError>)
    ensures
        r == spec_guid_result(src.spec_bytes()),
        r is Ok <==> is_canonical(src.spec_bytes()),
{
    let b = src.as_bytes();
    proof {
        crate::parser::lemma_parse_ok_iff_canonical(b@);
        if b@.len() == 36 {
            assert(b@.subrange(0, 36) =~= b@);
        }
    }
    match crate::parser::chunks(b) {
        Ok(c) => {
            if b.len() == 36 {
                Ok(c)
            } else {
                Err(ParseGuidError { kind: ErrorKind::TrailingContent, offset: 36 })
            }
        },
        Err(e) => Err(ParseGuidError { kind: e.kind, offset: e.offset }),
    }
}

/// Parse a source string as a GUID, and return the GUID as its portable
/// 16-byte big-endian layout.  Succeeds exactly on the canonical
/// 36-character form; any other input is rejected with the kind and offset
/// of the first failure.
pub fn parse_bytes(src: &str) -> (r: Result<[u8; 16], ParseGuidError>)
    ensures
        r is Ok <==> is_canonical(src.spec_bytes()),
        r matches Ok(bytes) ==> bytes@ == guid_bytes(spec_chunks(src.spec_bytes())),
        r matches Err(e) ==> spec_guid_result(src.spec_bytes()) == Err::<Chunks,
            ParseGuidError,
        >(e),
{
    match parse_chunks(src) {
        Ok(c) => Ok(c.to_bytes()),
        Err(e) => Err(e),
    }
}

/// Parse a source string as a GUID, and return it as the native GUID
/// structure: the first three chunks verbatim, and bytes 8 to 15 of the
/// portable layout as the tail array.
pub fn parse(src: &str) -> (r: Result<GUID, ParseGuidError>)
    ensures
        r is Ok <==> is_canonical(src.spec_bytes()),
        r matches Ok(g) ==> ({
            let c = spec_chunks(src.spec_bytes());
            &&& g.Data1 == c.chunk1
            &&& g.Data2 == c.chunk2
            &&& g.Data3 == c.chunk3
            &&& g.Data4@ == guid_bytes(c).subrange(8, 16)
        }),
        r matches Err(e) ==> spec_guid_result(src.spec_bytes()) == Err::<Chunks,
            ParseGuidError,
        >(e),
{
    match parse_chunks(src) {
        Ok(c) => Ok(c.to_guid()),
        Err(e) => Err(e),
    }
}

} // verus!
