//! Text encodings used by the notes store and the client: decimal numbers,
//! lowercase hexadecimal, and UTF-8 decoding of byte strings.

use vstd::prelude::*;
use vstd::utf8::{decode_utf8, encode_utf8, is_char_boundary, valid_utf8};

verus! {

/// An ASCII decimal digit.
pub open spec fn is_digit(c: u8) -> bool {
    48 <= c <= 57
}

/// The ASCII decimal representation of `n`, without sign or leading zeros.
pub open spec fn decimal_digits(n: nat) -> Seq<u8>
    decreases n,
{
    if n < 10 {
        seq![(48 + n) as u8]
    } else {
        decimal_digits(n / 10).push((48 + n % 10) as u8)
    }
}

/// The number that a string of ASCII decimal digits denotes.
pub open spec fn decimal_value(digits: Seq<u8>) -> nat
    decreases digits.len(),
{
    if digits.len() == 0 {
        0
    } else {
        decimal_value(digits.drop_last()) * 10 + (digits.last() - 48) as nat
    }
}

/// The digits of an unsigned number in text: one leading `+` is allowed
/// when something follows it.
pub open spec fn unsigned_digits(text: Seq<u8>) -> Seq<u8> {
    if text.len() > 1 && text[0] == 43 {
        text.drop_first()
    } else {
        text
    }
}

/// How Rust parses a `u64` from text: non-empty, an optional `+`, then only
/// decimal digits, denoting a value that fits in 64 bits.
pub open spec fn parsed_u64(text: Seq<u8>) -> Option<u64> {
    let digits = unsigned_digits(text);
    if text.len() > 0 && (forall|i: int| 0 <= i < digits.len() ==> is_digit(#[trigger] digits[i]))
        && decimal_value(digits) <= u64::MAX {
        Some(decimal_value(digits) as u64)
    } else {
        None
    }
}

/// The ASCII decimal representation of `n`.
pub fn decimal_bytes(n: u64) -> (digits: Vec<u8>)
    ensures
        digits@ == decimal_digits(n as nat),
    decreases n,
{
    if n < 10 {
        let mut digits = Vec::new();
        digits.push((48 + n) as u8);
        assert(digits@ =~= decimal_digits(n as nat));
        digits
    } else {
        let mut digits = decimal_bytes(n / 10);
        digits.push((48 + n % 10) as u8);
        digits
    }
}

proof fn lemma_decimal_value_monotone(digits: Seq<u8>, k: int)
    requires
        0 <= k <= digits.len(),
        forall|i: int| 0 <= i < digits.len() ==> is_digit(#[trigger] digits[i]),
    ensures
        decimal_value(digits.take(k)) <= decimal_value(digits),
    decreases digits.len() - k,
{
    if k < digits.len() {
        assert(digits.take(k + 1).drop_last() =~= digits.take(k));
        lemma_decimal_value_monotone(digits, k + 1);
    } else {
        assert(digits.take(k) =~= digits);
    }
}

/// Parses a `u64` from ASCII text as Rust's `str::parse::<u64>` does.
pub fn parse_u64(text: &[u8]) -> (value: Option<u64>)
    ensures
        value == parsed_u64(text@),
{
    let n = text.len();
    if n == 0 {
        return None;
    }
    let start: usize = if n > 1 && text[0] == 43 { 1 } else { 0 };
    let ghost digits = unsigned_digits(text@);
    assert(digits =~= text@.subrange(start as int, n as int));
    let mut acc: u64 = 0;
    let mut i: usize = start;
    assert(digits.take(0) =~= Seq::<u8>::empty());
    while i < n
        invariant
            start <= i <= n,
            n == text@.len(),
            n > 0,
            digits == text@.subrange(start as int, n as int),
            digits == unsigned_digits(text@),
            forall|j: int| 0 <= j < i - start ==> is_digit(#[trigger] digits[j]),
            acc == decimal_value(digits.take(i - start)),
        decreases n - i,
    {
        let c = text[i];
        assert(c == digits[i - start]);
        if c < 48 || c > 57 {
            assert(!is_digit(digits[i - start]));
            return None;
        }
        let ghost k = (i - start) as int;
        assert(digits.take(k + 1).drop_last() =~= digits.take(k));
        assert(digits.take(k + 1).last() == c);
        assert(decimal_value(digits.take(k + 1)) == acc * 10 + (c - 48) as nat);
        let d = (c - 48) as u64;
        match acc.checked_mul(10) {
            Some(m) => match m.checked_add(d) {
                Some(next) => {
                    acc = next;
                },
                None => {
                    proof {
                        if forall|j: int| 0 <= j < digits.len() ==> is_digit(#[trigger] digits[j]) {
                            lemma_decimal_value_monotone(digits, k + 1);
                        }
                    }
                    return None;
                },
            },
            None => {
                proof {
                    if forall|j: int| 0 <= j < digits.len() ==> is_digit(#[trigger] digits[j]) {
                        lemma_decimal_value_monotone(digits, k + 1);
                    }
                }
                return None;
            },
        }
        i = i + 1;
    }
    assert(digits.take(n - start) =~= digits);
    Some(acc)
}

/// The lowercase hexadecimal digit (ASCII) of a value below 16.
pub open spec fn hex_digit_byte(v: u8) -> u8 {
    if v < 10 {
        (48 + v) as u8
    } else {
        (87 + v) as u8
    }
}

/// Two lowercase hexadecimal ASCII digits per byte, high half first.
pub open spec fn hex_bytes(bytes: Seq<u8>) -> Seq<u8>
    decreases bytes.len(),
{
    if bytes.len() == 0 {
        Seq::empty()
    } else {
        hex_bytes(bytes.drop_last()) + seq![
            hex_digit_byte(bytes.last() / 16),
            hex_digit_byte(bytes.last() % 16),
        ]
    }
}

/// The lowercase hexadecimal text of the bytes (`{:02x}` for each byte).
pub open spec fn hex_text(bytes: Seq<u8>) -> Seq<char> {
    hex_bytes(bytes).map_values(|b: u8| b as char)
}

/// Calls `String::from_utf8`, keeping the text when the bytes are UTF-8.
/// What is claimed is the documented behaviour: the bytes are accepted
/// exactly when they are valid UTF-8, and then the text is what they encode.
#[verifier::external_body]
pub(crate) fn string_from_utf8(bytes: Vec<u8>) -> (text: Option<String>)
    ensures
        match text {
            Some(s) => valid_utf8(bytes@) && s@ == decode_utf8(bytes@),
            None => !valid_utf8(bytes@),
        },
{
    String::from_utf8(bytes).ok()
}

proof fn lemma_hex_bytes_len(bytes: Seq<u8>)
    ensures
        hex_bytes(bytes).len() == 2 * bytes.len(),
        forall|i: int| 0 <= i < hex_bytes(bytes).len() ==> #[trigger] hex_bytes(bytes)[i] < 128,
    decreases bytes.len(),
{
    if bytes.len() > 0 {
        lemma_hex_bytes_len(bytes.drop_last());
    }
}

proof fn lemma_ascii_text(bytes: Seq<u8>)
    requires
        forall|i: int| 0 <= i < bytes.len() ==> #[trigger] bytes[i] < 128,
    ensures
        encode_utf8(bytes.map_values(|b: u8| b as char)) == bytes,
        valid_utf8(bytes),
        decode_utf8(bytes) == bytes.map_values(|b: u8| b as char),
{
    let chars = bytes.map_values(|b: u8| b as char);
    assert(vstd::utf8::is_ascii_chars(chars));
    vstd::utf8::is_ascii_chars_encode_utf8(chars);
    assert(encode_utf8(chars) =~= bytes);
    vstd::utf8::encode_utf8_valid_utf8(chars);
    vstd::utf8::encode_utf8_decode_utf8(chars);
}

/// Lowercase hexadecimal text of the bytes, two digits per byte.
pub fn bytes_to_hex(bytes: &[u8]) -> (text: String)
    ensures
        text@ == hex_text(bytes@),
{
    let mut out: Vec<u8> = Vec::new();
    let mut i: usize = 0;
    while i < bytes.len()
        invariant
            i <= bytes@.len(),
            out@ == hex_bytes(bytes@.take(i as int)),
        decreases bytes@.len() - i,
    {
        let b = bytes[i];
        let hi = b / 16;
        let lo = b % 16;
        out.push(if hi < 10 { 48 + hi } else { 87 + hi });
        out.push(if lo < 10 { 48 + lo } else { 87 + lo });
        assert(bytes@.take(i + 1).drop_last() =~= bytes@.take(i as int));
        assert(out@ =~= hex_bytes(bytes@.take(i + 1)));
        i = i + 1;
    }
    assert(bytes@.take(i as int) =~= bytes@);
    proof {
        lemma_hex_bytes_len(bytes@);
        lemma_ascii_text(out@);
    }
    match string_from_utf8(out) {
        Some(text) => text,
        None => {
            assert(false);
            String::new()
        },
    }
}

/// The value of one ASCII hexadecimal digit, either case.
pub open spec fn hex_nibble(c: u8) -> Option<u8> {
    if 48 <= c <= 57 {
        Some((c - 48) as u8)
    } else if 97 <= c <= 102 {
        Some((c - 87) as u8)
    } else if 65 <= c <= 70 {
        Some((c - 55) as u8)
    } else {
        None
    }
}

/// How `u8::from_str_radix(text, 16)` reads a text of the two bytes `hi`,
/// `lo`: a `+` sign followed by one digit, or two digits.
pub open spec fn hex_pair(hi: u8, lo: u8) -> Option<u8> {
    if hi == 43 {
        hex_nibble(lo)
    } else {
        match (hex_nibble(hi), hex_nibble(lo)) {
            (Some(h), Some(l)) => Some((h * 16 + l) as u8),
            _ => None,
        }
    }
}

/// Why hexadecimal text does not decode.
#[derive(Debug, PartialEq, Eq)]
pub enum HexError {
    /// A pair of characters is not a hexadecimal number.
    InvalidDigit,
    /// The text cannot be cut into two-byte pieces here: it ends in the
    /// middle of a pair, or a pair would split a character.
    BrokenPair,
}

/// Decoding the UTF-8 bytes of a text from byte `i` on, two bytes at a time,
/// stopping at the first pair that is not a number. `None` when the next
/// two-byte piece cannot be cut out of the text (past its end, or not on
/// character boundaries).
pub open spec fn hex_decode_from(text: Seq<u8>, i: int) -> Option<Result<Seq<u8>, HexError>>
    decreases text.len() - i,
{
    if i < 0 || i >= text.len() {
        Some(Ok(Seq::empty()))
    } else if i + 2 > text.len() || !is_char_boundary(text, i) || !is_char_boundary(text, i + 2) {
        None
    } else {
        match hex_pair(text[i], text[i + 1]) {
            None => Some(Err(HexError::InvalidDigit)),
            Some(v) => match hex_decode_from(text, i + 2) {
                Some(Ok(rest)) => Some(Ok(seq![v] + rest)),
                other => other,
            },
        }
    }
}

/// `decoded` followed by the outcome of decoding the rest.
pub open spec fn after_prefix(decoded: Seq<u8>, rest: Option<Result<Seq<u8>, HexError>>) -> Option<
    Result<Seq<u8>, HexError>,
> {
    match rest {
        Some(Ok(r)) => Some(Ok(decoded + r)),
        other => other,
    }
}

/// Decodes hexadecimal text two characters at a time, reporting a piece that
/// cannot be cut out of the text as `HexError::BrokenPair`.
pub fn hex_decode_checked(text: &str) -> (result: Result<Vec<u8>, HexError>)
    ensures
        match hex_decode_from(encode_utf8(text@), 0) {
            Some(Ok(v)) => result matches Ok(r) && r@ == v,
            Some(Err(e)) => result == Err::<Vec<u8>, HexError>(e),
            None => result == Err::<Vec<u8>, HexError>(HexError::BrokenPair),
        },
{
    let bytes = text.as_bytes();
    let n = bytes.len();
    let mut out: Vec<u8> = Vec::new();
    let mut i: usize = 0;
    assert(after_prefix(out@, hex_decode_from(bytes@, 0)) == hex_decode_from(bytes@, 0)) by {
        assert(out@ =~= Seq::<u8>::empty());
        match hex_decode_from(bytes@, 0) {
            Some(Ok(r)) => assert(Seq::<u8>::empty() + r =~= r),
            _ => {},
        }
    }
    while i < n
        invariant
            n == bytes@.len(),
            bytes@ == encode_utf8(text@),
            i <= n,
            after_prefix(out@, hex_decode_from(bytes@, i as int)) == hex_decode_from(bytes@, 0),
        decreases n - i,
    {
        if n - i < 2 || !text.is_char_boundary(i) || !text.is_char_boundary(i + 2) {
            return Err(HexError::BrokenPair);
        }
        let hi = bytes[i];
        let lo = bytes[i + 1];
        let v: u8 = if hi == 43 {
            if 48 <= lo && lo <= 57 {
                lo - 48
            } else if 97 <= lo && lo <= 102 {
                lo - 87
            } else if 65 <= lo && lo <= 70 {
                lo - 55
            } else {
                return Err(HexError::InvalidDigit);
            }
        } else {
            let h: u8 = if 48 <= hi && hi <= 57 {
                hi - 48
            } else if 97 <= hi && hi <= 102 {
                hi - 87
            } else if 65 <= hi && hi <= 70 {
                hi - 55
            } else {
                return Err(HexError::InvalidDigit);
            };
            let l: u8 = if 48 <= lo && lo <= 57 {
                lo - 48
            } else if 97 <= lo && lo <= 102 {
                lo - 87
            } else if 65 <= lo && lo <= 70 {
                lo - 55
            } else {
                return Err(HexError::InvalidDigit);
            };
            h * 16 + l
        };
        assert(hex_pair(hi, lo) == Some(v));
        let ghost old_out = out@;
        out.push(v);
        assert(after_prefix(out@, hex_decode_from(bytes@, i + 2)) == after_prefix(
            old_out,
            hex_decode_from(bytes@, i as int),
        )) by {
            match hex_decode_from(bytes@, i + 2) {
                Some(Ok(r)) => assert(old_out.push(v) + r =~= old_out + (seq![v] + r)),
                _ => {},
            }
        }
        i = i + 2;
    }
    assert(hex_decode_from(bytes@, i as int) == Some(Ok::<Seq<u8>, HexError>(Seq::empty())));
    assert(out@ + Seq::<u8>::empty() =~= out@);
    Ok(out)
}

/// Decodes hexadecimal text two characters at a time (each pair as
/// `u8::from_str_radix(pair, 16)` reads it), stopping at the first pair that
/// is not a number. The text must cut into two-byte pieces up to that point.
pub fn hex_to_bytes(text: &str) -> (result: Result<Vec<u8>, HexError>)
    requires
        hex_decode_from(encode_utf8(text@), 0) is Some,
    ensures
        match hex_decode_from(encode_utf8(text@), 0) {
            Some(Ok(v)) => result matches Ok(r) && r@ == v,
            Some(Err(e)) => result == Err::<Vec<u8>, HexError>(e),
            None => false,
        },
{
    hex_decode_checked(text)
}

proof fn lemma_decimal_digits_value(n: nat)
    ensures
        decimal_value(decimal_digits(n)) == n,
        decimal_digits(n).len() > 0,
        forall|i: int|
            0 <= i < decimal_digits(n).len() ==> is_digit(#[trigger] decimal_digits(n)[i]),
    decreases n,
{
    let d = decimal_digits(n);
    if n >= 10 {
        lemma_decimal_digits_value(n / 10);
        assert(d.drop_last() =~= decimal_digits(n / 10));
        assert(d.last() == (48 + n % 10) as u8);
        assert(decimal_value(d) == decimal_value(decimal_digits(n / 10)) * 10 + n % 10);
        assert((n / 10) * 10 + n % 10 == n) by (nonlinear_arith);
    } else {
        assert(d.drop_last() =~= Seq::<u8>::empty());
        assert(decimal_value(d) == decimal_value(Seq::<u8>::empty()) * 10 + n);
    }
}

/// Printing a `u64` in decimal and parsing the text gives the number back.
pub proof fn decimal_text_round_trip(n: u64)
    ensures
        parsed_u64(decimal_digits(n as nat)) == Some(n),
{
    lemma_decimal_digits_value(n as nat);
    let d = decimal_digits(n as nat);
    assert(is_digit(d[0]));
    assert(unsigned_digits(d) == d);
}

proof fn lemma_hex_bytes_index(bytes: Seq<u8>, k: int)
    requires
        0 <= k < bytes.len(),
    ensures
        hex_bytes(bytes).len() == 2 * bytes.len(),
        hex_bytes(bytes)[2 * k] == hex_digit_byte(bytes[k] / 16),
        hex_bytes(bytes)[2 * k + 1] == hex_digit_byte(bytes[k] % 16),
    decreases bytes.len(),
{
    lemma_hex_bytes_len(bytes);
    lemma_hex_bytes_len(bytes.drop_last());
    if k < bytes.len() - 1 {
        lemma_hex_bytes_index(bytes.drop_last(), k);
    }
}

proof fn lemma_hex_pair_of_digits(v: u8)
    ensures
        hex_pair(hex_digit_byte(v / 16), hex_digit_byte(v % 16)) == Some(v),
{
}

proof fn lemma_ascii_boundaries(bytes: Seq<u8>, i: int)
    requires
        valid_utf8(bytes),
        0 <= i <= bytes.len(),
        forall|k: int| 0 <= k < bytes.len() ==> #[trigger] bytes[k] < 128,
    ensures
        is_char_boundary(bytes, i),
{
    if i == bytes.len() {
        vstd::utf8::is_char_boundary_start_end_of_seq(bytes);
    } else {
        vstd::utf8::is_char_boundary_iff_not_is_continuation_byte(bytes, i);
        assert(bytes[i] < 128);
    }
}

proof fn lemma_hex_decode_suffix(bytes: Seq<u8>, k: int)
    requires
        0 <= k <= bytes.len(),
        valid_utf8(hex_bytes(bytes)),
    ensures
        hex_decode_from(hex_bytes(bytes), 2 * k) == Some(Ok::<Seq<u8>, HexError>(bytes.skip(k))),
    decreases bytes.len() - k,
{
    let hb = hex_bytes(bytes);
    lemma_hex_bytes_len(bytes);
    if k == bytes.len() {
        assert(bytes.skip(k) =~= Seq::<u8>::empty());
    } else {
        lemma_hex_bytes_index(bytes, k);
        lemma_ascii_boundaries(hb, 2 * k);
        lemma_ascii_boundaries(hb, 2 * k + 2);
        lemma_hex_pair_of_digits(bytes[k]);
        lemma_hex_decode_suffix(bytes, k + 1);
        assert(seq![bytes[k]] + bytes.skip(k + 1) =~= bytes.skip(k));
    }
}

/// Decoding the lowercase hexadecimal text of bytes gives the bytes back,
/// so an identity saved as hex text is restored unchanged.
pub proof fn hex_text_round_trip(bytes: Seq<u8>)
    ensures
        hex_decode_from(encode_utf8(hex_text(bytes)), 0) == Some(Ok::<Seq<u8>, HexError>(bytes)),
{
    lemma_hex_bytes_len(bytes);
    lemma_ascii_text(hex_bytes(bytes));
    lemma_hex_decode_suffix(bytes, 0);
    assert(bytes.skip(0) =~= bytes);
}

} // verus!
