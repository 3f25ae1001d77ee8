//! The encodings of text files: UTF-8 and UTF-16, with or without a mark at the
//! beginning.

use vstd::prelude::*;
use vstd::utf8::*;

use crate::bytes::{bytes_at, has_bytes};

verus! {

/// How the standard library explains that bytes are not UTF-8.
pub uninterp spec fn utf8_problem(bytes: Seq<u8>) -> Seq<char>;

/// `String::from_utf8`: the text of bytes that are UTF-8; an explanation, which
/// depends on the bytes alone, of others.
#[verifier::external_body]
pub(crate) fn from_utf8(bytes: &[u8]) -> (result: Result<String, String>)
    ensures
        match result {
            Ok(text) => valid_utf8(bytes@) && text@ == decode_utf8(bytes@),
            Err(message) => !valid_utf8(bytes@) && message@ == utf8_problem(bytes@),
        },
{
    String::from_utf8(bytes.to_vec()).map_err(|error| error.to_string())
}

/// The text of bytes in UTF-8.
pub open spec fn utf8_text(bytes: Seq<u8>) -> Result<Seq<char>, Seq<char>> {
    if valid_utf8(bytes) {
        Ok(decode_utf8(bytes))
    } else {
        Err(utf8_problem(bytes))
    }
}

/// The unit of UTF-16 that two bytes are.
pub open spec fn unit_at(bytes: Seq<u8>, index: int, little: bool) -> int {
    if little {
        bytes[index] + bytes[index + 1] * 256
    } else {
        bytes[index] * 256 + bytes[index + 1]
    }
}

/// The text of the units of UTF-16 from an index on: a unit that is no half of
/// a pair is a character, and so are the two halves of a pair.
pub open spec fn units_from(bytes: Seq<u8>, index: int, little: bool) -> Option<Seq<char>>
    decreases bytes.len() - index,
{
    if index < 0 || index + 2 > bytes.len() {
        Some(seq![])
    } else {
        let unit = unit_at(bytes, index, little);
        if unit < 0xd800 || unit >= 0xe000 {
            match units_from(bytes, index + 2, little) {
                Some(rest) => Some(seq![unit as char] + rest),
                None => None,
            }
        } else if unit < 0xdc00 && index + 4 <= bytes.len() && 0xdc00 <= unit_at(
            bytes,
            index + 2,
            little,
        ) < 0xe000 {
            let scalar = 0x1_0000 + (unit - 0xd800) * 0x400 + unit_at(bytes, index + 2, little)
                - 0xdc00;
            match units_from(bytes, index + 4, little) {
                Some(rest) => Some(seq![scalar as char] + rest),
                None => None,
            }
        } else {
            None
        }
    }
}

/// The text of bytes in UTF-16.
pub open spec fn utf16_text(bytes: Seq<u8>, little: bool) -> Result<Seq<char>, Seq<char>> {
    if bytes.len() % 2 != 0 {
        Err("UTF-16 input has an odd byte count"@)
    } else {
        match units_from(bytes, 0, little) {
            Some(text) => Ok(text),
            None => Err("invalid utf-16: lone surrogate found"@),
        }
    }
}

/// The text of a file, whose mark at the beginning tells its encoding.
pub open spec fn decoded_text(bytes: Seq<u8>) -> Result<Seq<char>, Seq<char>> {
    if bytes_at(bytes, 0, seq![0xefu8, 0xbb, 0xbf]) {
        utf8_text(bytes.skip(3))
    } else if bytes_at(bytes, 0, seq![0xffu8, 0xfe]) {
        utf16_text(bytes.skip(2), true)
    } else if bytes_at(bytes, 0, seq![0xfeu8, 0xff]) {
        utf16_text(bytes.skip(2), false)
    } else {
        utf8_text(bytes)
    }
}

/// Whether a result is a text, or what is wrong with it.
pub open spec fn is_text(result: Result<String, String>, expected: Result<Seq<char>, Seq<char>>) -> bool {
    match result {
        Ok(text) => expected == Ok::<Seq<char>, Seq<char>>(text@),
        Err(message) => expected == Err::<Seq<char>, Seq<char>>(message@),
    }
}

fn unit(bytes: &[u8], index: usize, little: bool) -> (unit: u32)
    requires
        index + 2 <= bytes@.len(),
    ensures
        unit == unit_at(bytes@, index as int, little),
        unit <= 0xffff,
{
    let length = bytes.len();
    let first = bytes[index] as u32;
    let second = bytes[index + 1] as u32;
    if little {
        first + second * 256
    } else {
        first * 256 + second
    }
}

/// Returns the text of bytes in UTF-16.
pub fn decode_utf16(bytes: &[u8], little: bool) -> (result: Result<String, String>)
    ensures
        is_text(result, utf16_text(bytes@, little)),
{
    let length = bytes.len();
    if length % 2 != 0 {
        return Err("UTF-16 input has an odd byte count".to_owned());
    }
    let ghost whole = units_from(bytes@, 0, little);
    let mut text = String::new();
    let mut index: usize = 0;
    proof {
        if whole is Some {
            assert(text@ + whole->0 =~= whole->0);
        }
    }
    while index < length
        invariant
            index <= length,
            length == bytes@.len(),
            length % 2 == 0,
            index % 2 == 0,
            whole == units_from(bytes@, 0, little),
            match units_from(bytes@, index as int, little) {
                Some(rest) => whole == Some(text@ + rest),
                None => whole is None,
            },
        decreases length - index,
    {
        let ghost before = text@;
        let first = unit(bytes, index, little);
        if first < 0xd800 || first >= 0xe000 {
            match char::from_u32(first) {
                Some(letter) => {
                    text.push(letter);
                    proof {
                        let rest = units_from(bytes@, index + 2, little);
                        if rest is Some {
                            assert(before + (seq![letter] + rest->0) =~= text@ + rest->0);
                        }
                    }
                },
                None => {
                    assert(is_scalar(first));
                },
            }
            index += 2;
        } else {
            if first >= 0xdc00 || length - index < 4 {
                return Err("invalid utf-16: lone surrogate found".to_owned());
            }
            let second = unit(bytes, index + 2, little);
            if second < 0xdc00 || second >= 0xe000 {
                return Err("invalid utf-16: lone surrogate found".to_owned());
            }
            let scalar = 0x1_0000 + (first - 0xd800) * 0x400 + (second - 0xdc00);
            match char::from_u32(scalar) {
                Some(letter) => {
                    text.push(letter);
                    proof {
                        let rest = units_from(bytes@, index + 4, little);
                        if rest is Some {
                            assert(before + (seq![letter] + rest->0) =~= text@ + rest->0);
                        }
                    }
                },
                None => {
                    assert(is_scalar(scalar));
                },
            }
            index += 4;
        }
    }
    assert(text@ + seq![] =~= text@);
    Ok(text)
}

/// Returns the text of a file.
pub fn decode_file(bytes: &[u8]) -> (result: Result<String, String>)
    ensures
        is_text(result, decoded_text(bytes@)),
{
    let length = bytes.len();
    proof {
        assert([0xefu8, 0xbbu8, 0xbfu8]@ =~= seq![0xefu8, 0xbb, 0xbf]);
        assert([0xffu8, 0xfeu8]@ =~= seq![0xffu8, 0xfe]);
        assert([0xfeu8, 0xffu8]@ =~= seq![0xfeu8, 0xff]);
    }
    if has_bytes(bytes, 0, &[0xef, 0xbb, 0xbf]) {
        let rest = vstd::slice::slice_subrange(bytes, 3, length);
        assert(rest@ =~= bytes@.skip(3));
        return from_utf8(rest);
    }
    if has_bytes(bytes, 0, &[0xff, 0xfe]) {
        let rest = vstd::slice::slice_subrange(bytes, 2, length);
        assert(rest@ =~= bytes@.skip(2));
        return decode_utf16(rest, true);
    }
    if has_bytes(bytes, 0, &[0xfe, 0xff]) {
        let rest = vstd::slice::slice_subrange(bytes, 2, length);
        assert(rest@ =~= bytes@.skip(2));
        return decode_utf16(rest, false);
    }
    from_utf8(bytes)
}

} // verus!
