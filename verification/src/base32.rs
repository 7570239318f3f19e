//! Base32 as overlay addresses use it: the lowercase RFC 4648 alphabet
//! without padding, encoded and decoded by the `koibumi_base32` crate.

use vstd::prelude::*;

verus! {

/// The text that `koibumi_base32::encode` produces for `bytes`.
pub uninterp spec fn base32_text(bytes: Seq<u8>) -> Seq<char>;

/// The bytes that `koibumi_base32::decode` reads from `text`, or `None`
/// where it reports an invalid character.
pub uninterp spec fn base32_bytes(text: Seq<char>) -> Option<Seq<u8>>;

/// Whether `c` belongs to the alphabet: `a` to `z` and `2` to `7`.
pub open spec fn is_base32_char(c: char) -> bool {
    ('a' <= c && c <= 'z') || ('2' <= c && c <= '7')
}

/// Whether every character of `text` belongs to the alphabet.
pub open spec fn is_base32_text(text: Seq<char>) -> bool {
    forall|i: int| 0 <= i < text.len() ==> is_base32_char(#[trigger] text[i])
}

/// Calls `koibumi_base32::encode`. Trusted: the result is the crate's
/// encoding of `bytes`; it holds one character of the alphabet for every
/// five bits of input, the last group filled up with zero bits.
#[verifier::external_body]
pub(crate) fn encode(bytes: &[u8]) -> (text: String)
    ensures
        text@ == base32_text(bytes@),
        text@.len() == (8 * bytes@.len() + 4) / 5,
        is_base32_text(text@),
{
    koibumi_base32::encode(bytes)
}

/// Calls `koibumi_base32::decode`. Trusted: the result is the crate's
/// decoding of `text`; it fails exactly when some character is outside the
/// alphabet, and otherwise yields one byte for every full eight bits.
#[verifier::external_body]
pub(crate) fn decode(text: &str) -> (bytes: Option<Vec<u8>>)
    ensures
        bytes is Some <==> base32_bytes(text@) is Some,
        bytes is Some ==> base32_bytes(text@) == Some(bytes.unwrap()@),
        bytes is Some <==> is_base32_text(text@),
        bytes is Some ==> bytes.unwrap()@.len() == (5 * text@.len()) / 8,
{
    koibumi_base32::decode(text).ok()
}

} // verus!
