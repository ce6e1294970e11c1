//! Hexadecimal text.
use vstd::prelude::*;

use crate::bytes::bytes_of;

verus! {

/// The value of a hexadecimal digit of either case.
pub open spec fn hex_value(c: char) -> Option<int> {
    if '0' <= c <= '9' {
        Some(c as int - '0' as int)
    } else if 'a' <= c <= 'f' {
        Some(c as int - 'a' as int + 10)
    } else if 'A' <= c <= 'F' {
        Some(c as int - 'A' as int + 10)
    } else {
        None
    }
}

/// The lower-case digit of a value below 16.
pub open spec fn hex_digit(value: int) -> char {
    if value < 10 {
        ('0' as int + value) as char
    } else {
        ('a' as int + value - 10) as char
    }
}

/// The bytes that a text of hexadecimal digit pairs stands for.
pub open spec fn hex_decoded(text: Seq<char>) -> Option<Seq<u8>> {
    if text.len() % 2 == 0 && forall|i: int| 0 <= i < text.len() ==> hex_value(text[i]) is Some {
        Some(
            Seq::new(
                text.len() / 2,
                |i: int| (16 * hex_value(text[2 * i])->0 + hex_value(text[2 * i + 1])->0) as u8,
            ),
        )
    } else {
        None
    }
}

/// Two lower-case digits for each byte, the high one first.
pub open spec fn hex_encoded(data: Seq<u8>) -> Seq<char> {
    Seq::new(
        2 * data.len(),
        |i: int|
            hex_digit(
                if i % 2 == 0 {
                    data[i / 2] as int / 16
                } else {
                    data[i / 2] as int % 16
                },
            ),
    )
}

/// Decoding the digits of some bytes gives these bytes back.
pub proof fn hex_round_trip(data: Seq<u8>)
    ensures
        hex_decoded(hex_encoded(data)) == Some(data),
{
    let text = hex_encoded(data);
    assert forall|v: int| 0 <= v < 16 implies #[trigger] hex_value(hex_digit(v)) == Some(v) by {}
    assert forall|i: int| 0 <= i < text.len() implies hex_value(#[trigger] text[i]) is Some by {
        assert(0 <= data[i / 2] as int / 16 < 16);
    }
    assert forall|i: int| 0 <= i < data.len() implies (16 * hex_value(text[2 * i])->0 + hex_value(
        text[2 * i + 1],
    )->0) as u8 == #[trigger] data[i] by {
        assert((2 * i) / 2 == i && (2 * i + 1) / 2 == i);
        assert(text[2 * i] == hex_digit(data[i] as int / 16));
        assert(text[2 * i + 1] == hex_digit(data[i] as int % 16));
    }
    assert(hex_decoded(text)->0 =~= data);
}

/// `hex::decode`, of whose failure nothing is kept. Claimed of it: it succeeds
/// on an even number of hexadecimal digits of either case, and gives a byte for
/// each pair.
#[verifier::external_body]
pub(crate) fn hex_decode(text: &str) -> (data: Option<Vec<u8>>)
    ensures
        bytes_of(data) == hex_decoded(text@),
{
    hex::decode(text).ok()
}

/// `hex::encode`. Claimed of it: it writes two lower-case digits for each byte.
#[verifier::external_body]
pub(crate) fn hex_encode(data: &[u8; 32]) -> (text: String)
    ensures
        text@ == hex_encoded(data@),
{
    hex::encode(data)
}

/// The sixteen digits, in their order.
pub proof fn digits_stand_for_their_places(value: int)
    requires
        0 <= value < 16,
    ensures
        ({
            let digits = seq![
                '0', '1', '2', '3', '4', '5', '6', '7', '8', '9', 'a', 'b', 'c', 'd', 'e', 'f',
            ];
            let capitals = seq![
                '0', '1', '2', '3', '4', '5', '6', '7', '8', '9', 'A', 'B', 'C', 'D', 'E', 'F',
            ];
            &&& hex_digit(value) == digits[value]
            &&& hex_value(digits[value]) == Some(value)
            &&& hex_value(capitals[value]) == Some(value)
        }),
{
}

/// What has a value is one of the digits, of either case.
pub proof fn only_digits_have_values(c: char)
    ensures
        hex_value(c) is Some <==> '0' <= c <= '9' || 'a' <= c <= 'f' || 'A' <= c <= 'F',
        hex_value(c) is Some ==> 0 <= hex_value(c)->0 < 16,
        hex_value(c) is Some ==> hex_digit(hex_value(c)->0) == c || 'A' <= c <= 'F',
{
}

/// A text decodes exactly when it is made of pairs of digits, and each byte is
/// sixteen times the first digit of its pair and the second.
pub proof fn pairs_of_digits_decode(text: Seq<char>)
    ensures
        hex_decoded(text) is Some <==> text.len() % 2 == 0 && forall|i: int|
            0 <= i < text.len() ==> (#[trigger] hex_value(text[i])) is Some,
        hex_decoded(text) matches Some(data) ==> {
            &&& 2 * data.len() == text.len()
            &&& forall|i: int|
                0 <= i < data.len() ==> #[trigger] data[i] == 16 * hex_value(text[2 * i])->0
                    + hex_value(text[2 * i + 1])->0
        },
{
    if hex_decoded(text) is Some {
        let data = hex_decoded(text)->0;
        assert forall|i: int| 0 <= i < data.len() implies #[trigger] data[i] == 16 * hex_value(
            text[2 * i],
        )->0 + hex_value(text[2 * i + 1])->0 by {
            only_digits_have_values(text[2 * i]);
            only_digits_have_values(text[2 * i + 1]);
            assert(hex_value(text[2 * i]) is Some);
            assert(hex_value(text[2 * i + 1]) is Some);
        }
    }
}

/// Each byte is written as two digits: how many sixteens it has, and what is left.
pub proof fn bytes_are_written_as_two_digits(data: Seq<u8>)
    ensures
        hex_encoded(data).len() == 2 * data.len(),
        forall|i: int|
            #![trigger data[i]]
            0 <= i < data.len() ==> {
                &&& hex_value(hex_encoded(data)[2 * i]) == Some(data[i] as int / 16)
                &&& hex_value(hex_encoded(data)[2 * i + 1]) == Some(data[i] as int % 16)
                &&& !('A' <= hex_encoded(data)[2 * i] <= 'F')
                &&& !('A' <= hex_encoded(data)[2 * i + 1] <= 'F')
            },
{
    assert forall|i: int|
        #![trigger data[i]]
        0 <= i < data.len() implies {
        &&& hex_value(hex_encoded(data)[2 * i]) == Some(data[i] as int / 16)
        &&& hex_value(hex_encoded(data)[2 * i + 1]) == Some(data[i] as int % 16)
        &&& !('A' <= hex_encoded(data)[2 * i] <= 'F')
        &&& !('A' <= hex_encoded(data)[2 * i + 1] <= 'F')
    } by {
        assert((2 * i) / 2 == i && (2 * i + 1) / 2 == i);
        assert(hex_encoded(data)[2 * i] == hex_digit(data[i] as int / 16));
        assert(hex_encoded(data)[2 * i + 1] == hex_digit(data[i] as int % 16));
    }
}

} // verus!
