//! Base58 text (Bitcoin alphabet), provided by the `bs58` crate: how
//! contract instance ids are written and how key files are read.

use vstd::prelude::*;

verus! {

/// A character of the Bitcoin Base58 alphabet
/// `123456789ABCDEFGHJKLMNPQRSTUVWXYZabcdefghijkmnopqrstuvwxyz`.
pub open spec fn is_base58_char(c: char) -> bool {
    ||| '1' <= c <= '9'
    ||| 'A' <= c <= 'H'
    ||| 'J' <= c <= 'N'
    ||| 'P' <= c <= 'Z'
    ||| 'a' <= c <= 'k'
    ||| 'm' <= c <= 'z'
}

/// The Base58 text of a byte string.
pub uninterp spec fn base58_text(bytes: Seq<u8>) -> Seq<char>;

/// The 32-byte buffer that decoding a Base58 text into a zeroed 32-byte
/// buffer leaves, or `None` when the text does not decode into 32 bytes.
pub uninterp spec fn base58_into_32(text: Seq<char>) -> Option<Seq<u8>>;

/// Calls `bs58::encode(bytes).with_alphabet(bs58::Alphabet::BITCOIN).into_string()`,
/// which is how `ContractInstanceId` displays itself. Claimed: the text is the
/// function `base58_text` of the bytes; (as the encoder writes only alphabet
/// characters) every character is in the Bitcoin alphabet; and decoding the
/// text into a 32-byte buffer (`bs58::decode(..).onto`, whose default
/// alphabet is the Bitcoin one) gives the 32 bytes back, as the encoding
/// keeps one `1` per leading zero byte and the number of the rest.
#[verifier::external_body]
pub(crate) fn base58_encode(bytes: &[u8; 32]) -> (text: String)
    ensures
        text@ == base58_text(bytes@),
        forall|i: int| 0 <= i < text@.len() ==> is_base58_char(#[trigger] text@[i]),
        base58_into_32(text@) == Some(bytes@),
{
    bs58::encode(bytes).with_alphabet(bs58::Alphabet::BITCOIN).into_string()
}

/// Calls `bs58::decode(text).onto(&mut buffer)` on a zeroed 32-byte buffer,
/// giving the buffer when decoding succeeds and `None` when `bs58` reports
/// an error (a character outside the alphabet, or more than 32 bytes).
/// Claimed: the result is the function `base58_into_32` of the text.
#[verifier::external_body]
pub(crate) fn base58_decode_32(text: &str) -> (bytes: Option<[u8; 32]>)
    ensures
        match bytes {
            Some(b) => base58_into_32(text@) == Some(b@),
            None => base58_into_32(text@) is None,
        },
{
    let mut buffer = [0u8; 32];
    match bs58::decode(text).onto(&mut buffer) {
        Ok(_) => Some(buffer),
        Err(_) => None,
    }
}

} // verus!
