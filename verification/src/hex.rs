//! Hexadecimal digits.

use vstd::prelude::*;
use vstd::utf8::encode_utf8;
use crate::update_format::PUBLIC_KEY_BYTES;

verus! {

/// Why a text is no key.
#[derive(Debug, Clone, Copy, PartialEq, Eq, Structural)]
pub enum HexError {
    Length(usize),
    HighNibble(usize),
    LowNibble(usize),
}

/// What a digit stands for.
pub open spec fn nibble(byte: u8) -> Option<u8> {
    if 0x30 <= byte <= 0x39 {
        Some((byte - 0x30) as u8)
    } else if 0x61 <= byte <= 0x66 {
        Some((byte - 0x61 + 10) as u8)
    } else if 0x41 <= byte <= 0x46 {
        Some((byte - 0x41 + 10) as u8)
    } else {
        None
    }
}

/// What a digit stands for.
pub fn hex_nibble(byte: u8) -> (value: Option<u8>)
    ensures
        value == nibble(byte),
{
    if 0x30 <= byte && byte <= 0x39 {
        Some(byte - 0x30)
    } else if 0x61 <= byte && byte <= 0x66 {
        Some(byte - 0x61 + 10)
    } else if 0x41 <= byte && byte <= 0x46 {
        Some(byte - 0x41 + 10)
    } else {
        None
    }
}

/// The first of the pairs from `i` on that is no byte.
pub open spec fn pair_fault(raw: Seq<u8>, i: int) -> Option<HexError>
    decreases PUBLIC_KEY_BYTES - i,
{
    if i < 0 || i >= PUBLIC_KEY_BYTES {
        None
    } else if nibble(raw[2 * i]) is None {
        Some(HexError::HighNibble(i as usize))
    } else if nibble(raw[2 * i + 1]) is None {
        Some(HexError::LowNibble(i as usize))
    } else {
        pair_fault(raw, i + 1)
    }
}

/// Why a text is no key.
pub open spec fn hex_fault(raw: Seq<u8>) -> Option<HexError> {
    if raw.len() != 2 * PUBLIC_KEY_BYTES {
        Some(HexError::Length(raw.len() as usize))
    } else {
        pair_fault(raw, 0)
    }
}

/// Whether two digits are those of a byte.
pub open spec fn pair_spells(high: u8, low: u8, byte: u8) -> bool {
    &&& nibble(high) is Some
    &&& nibble(low) is Some
    &&& byte == 16 * nibble(high).unwrap() + nibble(low).unwrap()
}

/// Whether these are the bytes that a text is the digits of.
pub open spec fn spelled(raw: Seq<u8>, bytes: Seq<u8>) -> bool {
    &&& raw.len() == 2 * bytes.len()
    &&& forall|i: int|
        0 <= i < bytes.len() ==> pair_spells(raw[2 * i], raw[2 * i + 1], #[trigger] bytes[i])
}

/// Reads a key that is written in digits.
pub fn decode_hex_public_key(raw: &str) -> (key: Result<[u8; PUBLIC_KEY_BYTES], HexError>)
    ensures
        match key {
            Ok(bytes) => hex_fault(encode_utf8(raw@)) is None && spelled(encode_utf8(raw@), bytes@),
            Err(error) => hex_fault(encode_utf8(raw@)) == Some(error),
        },
{
    let digits = raw.as_bytes();
    if digits.len() != 2 * PUBLIC_KEY_BYTES {
        return Err(HexError::Length(digits.len()));
    }
    let mut bytes: [u8; PUBLIC_KEY_BYTES] = [0u8; PUBLIC_KEY_BYTES];
    let mut index: usize = 0;
    while index < PUBLIC_KEY_BYTES
        invariant
            index <= PUBLIC_KEY_BYTES,
            digits@ == encode_utf8(raw@),
            digits@.len() == 2 * PUBLIC_KEY_BYTES,
            pair_fault(digits@, 0) == pair_fault(digits@, index as int),
            forall|i: int|
                0 <= i < index ==> pair_spells(
                    digits@[2 * i],
                    digits@[2 * i + 1],
                    #[trigger] bytes@[i],
                ),
        decreases PUBLIC_KEY_BYTES - index,
    {
        let high: u8 = match hex_nibble(digits[index * 2]) {
            Some(high) => high,
            None => return Err(HexError::HighNibble(index)),
        };
        let low: u8 = match hex_nibble(digits[index * 2 + 1]) {
            Some(low) => low,
            None => return Err(HexError::LowNibble(index)),
        };
        let ghost before = bytes@;
        bytes[index] = high * 16 + low;
        proof {
            assert(pair_spells(digits@[2 * index], digits@[2 * index + 1], bytes@[index as int]));
            assert forall|i: int| 0 <= i < index implies bytes@[i] == before[i] by {}
        }
        index += 1;
    }
    Ok(bytes)
}

/// The digit of a number below sixteen.
pub open spec fn digit(value: int) -> u8 {
    if value < 10 {
        (0x30 + value) as u8
    } else {
        (0x61 + value - 10) as u8
    }
}

/// The digits of bytes.
pub open spec fn hex_digits(bytes: Seq<u8>) -> Seq<u8> {
    Seq::new(
        2 * bytes.len(),
        |i: int|
            if i % 2 == 0 {
                digit(bytes[i / 2] as int / 16)
            } else {
                digit(bytes[i / 2] as int % 16)
            },
    )
}

/// The digits of bytes, as characters.
pub open spec fn hex_text(bytes: Seq<u8>) -> Seq<char> {
    hex_digits(bytes).map_values(|b: u8| b as char)
}

/// The digit of a number below sixteen, as a text.
fn digit_text(value: u8) -> (text: &'static str)
    requires
        value < 16,
    ensures
        text@ == seq![digit(value as int) as char],
{
    proof {
        reveal_strlit("0");
        reveal_strlit("1");
        reveal_strlit("2");
        reveal_strlit("3");
        reveal_strlit("4");
        reveal_strlit("5");
        reveal_strlit("6");
        reveal_strlit("7");
        reveal_strlit("8");
        reveal_strlit("9");
        reveal_strlit("a");
        reveal_strlit("b");
        reveal_strlit("c");
        reveal_strlit("d");
        reveal_strlit("e");
        reveal_strlit("f");
    }
    let text = match value {
        0 => "0",
        1 => "1",
        2 => "2",
        3 => "3",
        4 => "4",
        5 => "5",
        6 => "6",
        7 => "7",
        8 => "8",
        9 => "9",
        10 => "a",
        11 => "b",
        12 => "c",
        13 => "d",
        14 => "e",
        _ => "f",
    };
    assert(text@ =~= seq![digit(value as int) as char]);
    text
}

/// Writes bytes in digits.
pub fn hex_encode(bytes: &[u8]) -> (encoded: String)
    ensures
        encoded@ == hex_text(bytes@),
{
    let mut encoded: String = String::new();
    let mut i: usize = 0;
    assert(encoded@ =~= hex_text(bytes@.take(0)));
    while i < bytes.len()
        invariant
            i <= bytes@.len(),
            encoded@ == hex_text(bytes@.take(i as int)),
        decreases bytes.len() - i,
    {
        let ghost before = encoded@;
        encoded.append(digit_text(bytes[i] / 16));
        encoded.append(digit_text(bytes[i] % 16));
        i += 1;
        proof {
            let all = hex_text(bytes@.take(i as int));
            assert(encoded@ =~= all) by {
                assert forall|j: int| 0 <= j < all.len() implies encoded@[j] == all[j] by {
                    if j < before.len() {
                        assert(before[j] == hex_text(bytes@.take(i - 1))[j]);
                        assert(bytes@.take(i as int)[j / 2] == bytes@.take(i - 1)[j / 2]);
                    }
                }
            }
        }
    }
    assert(bytes@.take(i as int) =~= bytes@);
    encoded
}

/// A key that was written in digits is read from them.
pub proof fn a_written_key_is_read(bytes: Seq<u8>)
    requires
        bytes.len() == PUBLIC_KEY_BYTES,
    ensures
        hex_fault(hex_digits(bytes)) is None,
        forall|read: Seq<u8>|
            read.len() == PUBLIC_KEY_BYTES && #[trigger] spelled(hex_digits(bytes), read) ==> read
                == bytes,
{
    lemma_no_pair_fault(bytes, 0);
    let raw = hex_digits(bytes);
    assert forall|read: Seq<u8>|
        read.len() == PUBLIC_KEY_BYTES && #[trigger] spelled(raw, read) implies read == bytes by {
        assert forall|i: int| 0 <= i < read.len() implies read[i] == bytes[i] by {
            let byte = read[i];
            assert(raw[2 * i] == digit(bytes[i] as int / 16));
            assert(raw[2 * i + 1] == digit(bytes[i] as int % 16));
        }
        assert(read =~= bytes);
    }
}

proof fn lemma_no_pair_fault(bytes: Seq<u8>, i: int)
    requires
        bytes.len() == PUBLIC_KEY_BYTES,
        0 <= i <= PUBLIC_KEY_BYTES,
    ensures
        pair_fault(hex_digits(bytes), i) is None,
    decreases PUBLIC_KEY_BYTES - i,
{
    if i < PUBLIC_KEY_BYTES {
        assert(hex_digits(bytes)[2 * i] == digit(bytes[i] as int / 16));
        assert(hex_digits(bytes)[2 * i + 1] == digit(bytes[i] as int % 16));
        lemma_no_pair_fault(bytes, i + 1);
    }
}

/// A hexadecimal digit is one of the ten figures or of the six letters, large or small, and stands for its
/// place among them.
pub proof fn a_digit_stands_for_its_place(byte: u8)
    ensures
        nibble(byte) is Some <==> 48 <= byte <= 57 || 97 <= byte <= 102 || 65 <= byte <= 70,
        48 <= byte <= 57 ==> nibble(byte) == Some((byte - 48) as u8),
        97 <= byte <= 102 ==> nibble(byte) == Some((byte - 87) as u8),
        65 <= byte <= 70 ==> nibble(byte) == Some((byte - 55) as u8),
{
}

/// A text is a key if and only if it has 64 characters, and all of them are hexadecimal digits.
pub proof fn a_key_is_64_digits(raw: Seq<u8>)
    ensures
        hex_fault(raw) is None <==> raw.len() == 64 && forall|i: int|
            0 <= i < 64 ==> nibble(#[trigger] raw[i]) is Some,
{
    if raw.len() == 64 {
        lemma_pairs(raw, 0);
        if pair_fault(raw, 0) is None {
            assert forall|i: int| 0 <= i < 64 implies nibble(#[trigger] raw[i]) is Some by {
                assert(nibble(raw[2 * (i / 2)]) is Some && nibble(raw[2 * (i / 2) + 1]) is Some);
            }
        }
    }
}

proof fn lemma_pairs(raw: Seq<u8>, i: int)
    requires
        0 <= i <= 32,
    ensures
        pair_fault(raw, i) is None <==> forall|k: int|
            i <= k < 32 ==> nibble(#[trigger] raw[2 * k]) is Some && nibble(raw[2 * k + 1]) is Some,
    decreases 32 - i,
{
    if i < 32 {
        lemma_pairs(raw, i + 1);
        if forall|k: int|
            i <= k < 32 ==> nibble(#[trigger] raw[2 * k]) is Some && nibble(raw[2 * k + 1]) is Some {
            assert(nibble(raw[2 * i]) is Some);
        }
        if pair_fault(raw, i) is None {
            assert forall|k: int| i <= k < 32 implies nibble(#[trigger] raw[2 * k]) is Some && nibble(
                raw[2 * k + 1],
            ) is Some by {}
        }
    }
}

/// A byte is spelled by two digits: the first for the sixteens.
pub proof fn a_byte_is_two_digits(bytes: Seq<u8>, i: int)
    requires
        0 <= i < bytes.len(),
    ensures
        hex_digits(bytes).len() == 2 * bytes.len(),
        nibble(hex_digits(bytes)[2 * i]) == Some((bytes[i] as int / 16) as u8),
        nibble(hex_digits(bytes)[2 * i + 1]) == Some((bytes[i] as int % 16) as u8),
        !(65 <= hex_digits(bytes)[2 * i] <= 70) && !(65 <= hex_digits(bytes)[2 * i + 1] <= 70),
{
}

} // verus!
