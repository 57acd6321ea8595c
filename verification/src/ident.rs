//! Structural validity of identifier text stored in the reverse maps. The
//! checks themselves belong to the protocol library; this layer only needs
//! their verdicts, which depend on the bytes alone.

use vstd::prelude::*;

verus! {

/// Whether the bytes are the UTF-8 text of a structurally valid event
/// identifier. A pure function of the bytes.
pub uninterp spec fn event_id_ok(b: Seq<u8>) -> bool;

/// Whether the bytes are valid UTF-8 text. A pure function of the bytes.
pub uninterp spec fn utf8_ok(b: Seq<u8>) -> bool;

/// Relies on ruma's `EventId::parse`: a pure structural validation of event
/// identifier text, with `str::from_utf8` turning the stored bytes into the
/// text it examines (bytes that are not text are not a valid identifier).
#[verifier::external_body]
pub(crate) fn event_id_bytes_valid(b: &[u8]) -> (r: bool)
    ensures
        r == event_id_ok(b@),
{
    match core::str::from_utf8(b) {
        Ok(s) => ruma::EventId::parse(s).is_ok(),
        Err(_) => false,
    }
}

/// Relies on `core::str::from_utf8`: whether bytes decode as UTF-8 text
/// depends on the bytes alone.
#[verifier::external_body]
pub(crate) fn bytes_are_utf8(b: &[u8]) -> (r: bool)
    ensures
        r == utf8_ok(b@),
{
    core::str::from_utf8(b).is_ok()
}

} // verus!
