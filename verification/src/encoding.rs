//! Reading a memo's bytes as text. A memo comes from an editor that saves
//! UTF-8 or from one that saves Shift_JIS, and says nowhere which: the bytes
//! are taken as UTF-8 where they are valid UTF-8, and as Shift_JIS otherwise.

use vstd::prelude::*;
use vstd::utf8::{decode_utf8, valid_utf8};

verus! {

/// The text that `encoding_rs` decodes from `bytes` with Shift_JIS as the
/// encoding to fall back on. A byte order mark of UTF-8 or UTF-16 at the
/// start selects that encoding instead and is left out of the text. A byte
/// sequence that is malformed in the encoding used becomes U+FFFD.
pub uninterp spec fn shift_jis_decoded(bytes: Seq<u8>) -> Seq<char>;

/// The longest input that is handed to the decoder. The decoder reserves up
/// to three bytes of text for each byte it reads, and twice that where it has
/// to grow its buffer: below this length those sizes fit a `usize`.
pub const MAX_DECODE_LEN: usize = usize::MAX / 16;

/// `encoding_rs::Encoding::decode`, called on `encoding_rs::SHIFT_JIS`.
///
/// The call looks for a byte order mark, decodes the whole input and replaces
/// malformed sequences; it reports no error. Its result depends on the bytes
/// alone and is here given the name `shift_jis_decoded`. The call panics where
/// the size of its buffer overflows a `usize`, which the bound on the length
/// rules out.
#[verifier::external_body]
fn decode_shift_jis(bytes: &[u8]) -> (text: String)
    requires
        bytes@.len() <= MAX_DECODE_LEN,
    ensures
        text@ == shift_jis_decoded(bytes@),
{
    let (text, _, _) = encoding_rs::SHIFT_JIS.decode(bytes);
    text.into_owned()
}

/// `core::str::from_utf8`.
///
/// The call checks that the bytes are valid UTF-8 and, where they are, hands
/// the same bytes back as a string slice; where they are not it gives an
/// error, which is dropped here.
#[verifier::external_body]
fn utf8_str(bytes: &[u8]) -> (res: Option<&str>)
    ensures
        res is Some <==> valid_utf8(bytes@),
        res matches Some(text) ==> text@ == decode_utf8(bytes@),
{
    match core::str::from_utf8(bytes) {
        Ok(text) => Some(text),
        Err(_) => None,
    }
}

/// The text that a memo's bytes stand for: their UTF-8 reading where they
/// are valid UTF-8, else what the Shift_JIS decoder makes of them.
pub open spec fn decoded_text(bytes: Seq<u8>) -> Seq<char> {
    if valid_utf8(bytes) {
        decode_utf8(bytes)
    } else {
        shift_jis_decoded(bytes)
    }
}

/// Reads bytes as text. Strict UTF-8 is tried first; only where the bytes
/// are not valid UTF-8 are they decoded as Shift_JIS, with replacement
/// characters for what cannot be decoded. There is no further fallback and
/// no failure.
pub fn decode_text(bytes: &[u8]) -> (text: String)
    requires
        bytes@.len() <= MAX_DECODE_LEN,
    ensures
        text@ == decoded_text(bytes@),
        valid_utf8(bytes@) ==> text@ == decode_utf8(bytes@),
        !valid_utf8(bytes@) ==> text@ == shift_jis_decoded(bytes@),
{
    match utf8_str(bytes) {
        Some(text) => text.to_owned(),
        None => decode_shift_jis(bytes),
    }
}

} // verus!
