//! Unpadded base64 in the URL-safe alphabet.
use base64::Engine;
use vstd::prelude::*;

verus! {

/// Why a text is not the encoding of any bytes.
#[derive(Clone, Copy, Debug, PartialEq, Eq, Structural)]
pub enum Base64Error {
    /// At this offset stands this byte, which no encoding has there.
    InvalidByte(usize, u8),
    /// This many symbols are no whole number of bytes.
    InvalidLength(usize),
    /// The last symbol, at this offset, has bits that belong to no byte.
    InvalidLastSymbol(usize, u8),
    /// The text ends in padding.
    InvalidPadding,
}

/// The symbol of a value below 64.
pub open spec fn base64url_symbol(value: int) -> char {
    if value < 26 {
        ('A' as int + value) as char
    } else if value < 52 {
        ('a' as int + value - 26) as char
    } else if value < 62 {
        ('0' as int + value - 52) as char
    } else if value == 62 {
        '-'
    } else {
        '_'
    }
}

/// The byte at a place, or zero behind the last one.
pub open spec fn byte_or_zero(data: Seq<u8>, i: int) -> int {
    if 0 <= i < data.len() {
        data[i] as int
    } else {
        0
    }
}

/// The `i`-th group of six bits of some bytes; three bytes hold four groups.
pub open spec fn sextet(data: Seq<u8>, i: int) -> int {
    let first = byte_or_zero(data, i / 4 * 3);
    let second = byte_or_zero(data, i / 4 * 3 + 1);
    let third = byte_or_zero(data, i / 4 * 3 + 2);
    if i % 4 == 0 {
        first / 4
    } else if i % 4 == 1 {
        16 * (first % 4) + second / 16
    } else if i % 4 == 2 {
        4 * (second % 16) + third / 64
    } else {
        third % 64
    }
}

/// The number of symbols for `n` bytes.
pub open spec fn base64url_len(n: nat) -> nat {
    (4 * n + 2) / 3
}

/// The encoding of some bytes: a symbol for each group of six bits.
pub open spec fn base64url_encoded(data: Seq<u8>) -> Seq<char> {
    Seq::new(base64url_len(data.len()), |i: int| base64url_symbol(sextet(data, i)))
}

/// The bytes that a text is the encoding of, if it is one.
pub open spec fn base64url_decoded(text: Seq<char>) -> Option<Seq<u8>> {
    if exists|data: Seq<u8>| #[trigger] base64url_encoded(data) == text {
        Some(choose|data: Seq<u8>| #[trigger] base64url_encoded(data) == text)
    } else {
        None
    }
}

/// What is wrong with a text that encodes no bytes.
pub uninterp spec fn base64url_fault(text: Seq<char>) -> Base64Error;

proof fn sextet_range(data: Seq<u8>, i: int)
    ensures
        0 <= sextet(data, i) < 64,
{
}

proof fn symbol_injective(a: int, b: int)
    requires
        0 <= a < 64,
        0 <= b < 64,
        base64url_symbol(a) == base64url_symbol(b),
    ensures
        a == b,
{
}

proof fn sextets_give_byte(data: Seq<u8>, k: int)
    requires
        0 <= k < data.len(),
    ensures
        k % 3 == 0 ==> data[k] == 4 * sextet(data, k / 3 * 4) + sextet(data, k / 3 * 4 + 1) / 16,
        k % 3 == 1 ==> data[k] == 16 * (sextet(data, k / 3 * 4 + 1) % 16) + sextet(
            data,
            k / 3 * 4 + 2,
        ) / 4,
        k % 3 == 2 ==> data[k] == 64 * (sextet(data, k / 3 * 4 + 2) % 4) + sextet(
            data,
            k / 3 * 4 + 3,
        ),
{
    let q = k / 3;
    assert((4 * q) / 4 == q && (4 * q) % 4 == 0);
    assert((4 * q + 1) / 4 == q && (4 * q + 1) % 4 == 1);
    assert((4 * q + 2) / 4 == q && (4 * q + 2) % 4 == 2);
    assert((4 * q + 3) / 4 == q && (4 * q + 3) % 4 == 3);
}

/// Two different byte sequences have different encodings.
pub proof fn base64url_injective(a: Seq<u8>, b: Seq<u8>)
    requires
        base64url_encoded(a) == base64url_encoded(b),
    ensures
        a == b,
{
    let text = base64url_encoded(a);
    assert(text.len() == base64url_encoded(b).len());
    assert(a.len() == b.len());
    assert forall|i: int| 0 <= i < text.len() implies sextet(a, i) == #[trigger] sextet(b, i) by {
        sextet_range(a, i);
        sextet_range(b, i);
        assert(text[i] == base64url_symbol(sextet(a, i)));
        assert(base64url_encoded(b)[i] == base64url_symbol(sextet(b, i)));
        symbol_injective(sextet(a, i), sextet(b, i));
    }
    assert forall|k: int| 0 <= k < a.len() implies a[k] == b[k] by {
        sextets_give_byte(a, k);
        sextets_give_byte(b, k);
        assert(k % 3 == 0 ==> k / 3 * 4 + 1 < text.len());
        assert(k % 3 == 1 ==> k / 3 * 4 + 2 < text.len());
        assert(k % 3 == 2 ==> k / 3 * 4 + 3 < text.len());
    }
    assert(a =~= b);
}

/// Decoding the encoding of some bytes gives these bytes back.
pub proof fn base64url_round_trip(data: Seq<u8>)
    ensures
        base64url_decoded(base64url_encoded(data)) == Some(data),
{
    let text = base64url_encoded(data);
    let found = choose|d: Seq<u8>| #[trigger] base64url_encoded(d) == text;
    base64url_injective(found, data);
}

/// `encode` of `base64`'s `URL_SAFE_NO_PAD` engine. Claimed of it: it writes the
/// symbol of each group of six bits, and no padding. The result must fit in
/// memory.
#[verifier::external_body]
pub(crate) fn base64url_encode(data: &[u8]) -> (text: String)
    requires
        base64url_len(data@.len()) <= isize::MAX,
    ensures
        text@ == base64url_encoded(data@),
{
    base64::engine::general_purpose::URL_SAFE_NO_PAD.encode(data)
}

/// `decode` of `base64`'s `URL_SAFE_NO_PAD` engine. Claimed of it: it succeeds
/// on the texts that are the encoding of some bytes, and gives these bytes; of
/// any other text it reports a fault that depends on the text alone.
#[verifier::external_body]
pub(crate) fn base64url_decode(text: &str) -> (data: Result<Vec<u8>, Base64Error>)
    ensures
        match data {
            Ok(bytes) => base64url_encoded(bytes@) == text@,
            Err(fault) => fault == base64url_fault(text@) && forall|d: Seq<u8>| #[trigger]
                base64url_encoded(d) != text@,
        },
{
    match base64::engine::general_purpose::URL_SAFE_NO_PAD.decode(text) {
        Ok(bytes) => Ok(bytes),
        Err(base64::DecodeError::InvalidByte(at, byte)) => Err(Base64Error::InvalidByte(at, byte)),
        Err(base64::DecodeError::InvalidLength(len)) => Err(Base64Error::InvalidLength(len)),
        Err(base64::DecodeError::InvalidLastSymbol(at, byte)) => Err(
            Base64Error::InvalidLastSymbol(at, byte),
        ),
        Err(base64::DecodeError::InvalidPadding) => Err(Base64Error::InvalidPadding),
    }
}

/// The alphabet: capitals, small letters, figures, hyphen and underscore.
pub proof fn symbols_are_the_alphabet(value: int)
    requires
        0 <= value < 64,
    ensures
        value < 26 ==> base64url_symbol(value) as int == 'A' as int + value,
        26 <= value < 52 ==> base64url_symbol(value) as int == 'a' as int + (value - 26),
        52 <= value < 62 ==> base64url_symbol(value) as int == '0' as int + (value - 52),
        value == 62 ==> base64url_symbol(value) == '-',
        value == 63 ==> base64url_symbol(value) == '_',
{
}

/// As many symbols as hold all bits, and no more.
pub proof fn symbols_hold_all_bits(n: nat)
    ensures
        6 * base64url_len(n) >= 8 * n,
        6 * base64url_len(n) < 8 * n + 6,
{
}

/// Four groups of six bits are the number that three bytes are, the high ones
/// first; bytes behind the last one count as zero.
pub proof fn sextets_are_the_bits(data: Seq<u8>, group: int)
    requires
        group >= 0,
    ensures
        ({
            let first = if 3 * group < data.len() { data[3 * group] as int } else { 0 };
            let second = if 3 * group + 1 < data.len() { data[3 * group + 1] as int } else { 0 };
            let third = if 3 * group + 2 < data.len() { data[3 * group + 2] as int } else { 0 };
            &&& 262144 * sextet(data, 4 * group) + 4096 * sextet(data, 4 * group + 1) + 64 * sextet(
                data,
                4 * group + 2,
            ) + sextet(data, 4 * group + 3) == 65536 * first + 256 * second + third
            &&& 0 <= sextet(data, 4 * group) < 64
            &&& 0 <= sextet(data, 4 * group + 1) < 64
            &&& 0 <= sextet(data, 4 * group + 2) < 64
            &&& 0 <= sextet(data, 4 * group + 3) < 64
        }),
{
    let q = group;
    assert((4 * q) / 4 == q && (4 * q) % 4 == 0);
    assert((4 * q + 1) / 4 == q && (4 * q + 1) % 4 == 1);
    assert((4 * q + 2) / 4 == q && (4 * q + 2) % 4 == 2);
    assert((4 * q + 3) / 4 == q && (4 * q + 3) % 4 == 3);
    sextet_range(data, 4 * q);
    sextet_range(data, 4 * q + 1);
    sextet_range(data, 4 * q + 2);
    sextet_range(data, 4 * q + 3);
}

/// An encoding has the symbol of each group, one behind the other.
pub proof fn encodings_are_symbols(data: Seq<u8>)
    ensures
        base64url_encoded(data).len() == base64url_len(data.len()),
        forall|i: int|
            0 <= i < base64url_encoded(data).len() ==> #[trigger] base64url_encoded(data)[i]
                == base64url_symbol(sextet(data, i)),
{
}

/// A text decodes to some bytes exactly when it is their encoding.
pub proof fn decoding_undoes_encoding_only(text: Seq<char>, data: Seq<u8>)
    ensures
        base64url_decoded(text) == Some(data) <==> base64url_encoded(data) == text,
{
    if base64url_encoded(data) == text {
        base64url_round_trip(data);
    }
}

} // verus!
