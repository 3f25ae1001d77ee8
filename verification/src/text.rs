//! Text: characters, their UTF-8 bytes, and the few string operations that the
//! rest of the library is written with.

use vstd::prelude::*;
use vstd::utf8::*;

verus! {

/// Whether a character has the Unicode property Alphabetic.
pub uninterp spec fn unicode_alphabetic(character: char) -> bool;

/// Whether a character is Unicode alphabetic or numeric.
pub uninterp spec fn unicode_alphanumeric(character: char) -> bool;

/// Whether a character has the Unicode property White_Space.
pub uninterp spec fn unicode_whitespace(character: char) -> bool;

/// Whether a character is an ASCII letter.
pub open spec fn ascii_letter(character: char) -> bool {
    'a' <= character <= 'z' || 'A' <= character <= 'Z'
}

/// Whether a character is an ASCII digit.
pub open spec fn ascii_digit(character: char) -> bool {
    '0' <= character <= '9'
}

/// Whether a character is an ASCII hexadecimal digit.
pub open spec fn ascii_hex_digit(character: char) -> bool {
    ascii_digit(character) || 'a' <= character <= 'f' || 'A' <= character <= 'F'
}

/// Whether a character is ASCII white space in the sense of Unicode.
pub open spec fn ascii_space(character: char) -> bool {
    character == ' ' || '\t' <= character <= '\r'
}

/// `char::is_alphabetic` of the standard library: the Unicode property, which
/// on ASCII holds of the letters.
pub assume_specification[ char::is_alphabetic ](character: char) -> (result: bool)
    ensures
        result == unicode_alphabetic(character),
        character <= '\u{7f}' ==> result == ascii_letter(character),
;

/// `char::is_alphanumeric` of the standard library: the Unicode property, which
/// on ASCII holds of the letters and digits.
pub assume_specification[ char::is_alphanumeric ](character: char) -> (result: bool)
    ensures
        result == unicode_alphanumeric(character),
        character <= '\u{7f}' ==> result == (ascii_letter(character) || ascii_digit(character)),
;

/// `char::is_whitespace` of the standard library: the Unicode property, which
/// on ASCII holds of the space and of the characters from tab to carriage
/// return.
pub assume_specification[ char::is_whitespace ](character: char) -> (result: bool)
    ensures
        result == unicode_whitespace(character),
        character <= '\u{7f}' ==> result == ascii_space(character),
;

/// What `char::from_u32` returns: the character with a number, unless the
/// number is that of a surrogate or too large.
pub assume_specification[ char::from_u32 ](number: u32) -> (character: Option<char>)
    ensures
        character == if number < 0xd800 || 0xe000 <= number <= 0x10_ffff {
            Some(number as char)
        } else {
            None
        },
;

/// `String::push` of the standard library appends one character.
pub assume_specification[ std::string::String::push ](text: &mut std::string::String, character: char)
    ensures
        final(text)@ == old(text)@.push(character),
;

/// Returns whether a character is an ASCII digit.
pub fn is_digit(character: char) -> (result: bool)
    ensures
        result == ascii_digit(character),
{
    '0' <= character && character <= '9'
}

/// Returns whether a character is an ASCII hexadecimal digit.
pub fn is_hex_digit(character: char) -> (result: bool)
    ensures
        result == ascii_hex_digit(character),
{
    is_digit(character) || ('a' <= character && character <= 'f') || ('A' <= character && character
        <= 'F')
}

/// The number of bytes of a character in UTF-8.
pub open spec fn width(character: char) -> nat {
    encode_scalar(character as u32).len()
}

/// Returns the number of bytes of a character in UTF-8.
pub fn char_width(character: char) -> (count: usize)
    ensures
        count == width(character),
        1 <= count <= 4,
{
    let scalar: u32 = character as u32;
    if scalar < 0x80 {
        1
    } else if scalar < 0x800 {
        2
    } else if scalar < 0x1_0000 {
        3
    } else {
        4
    }
}

/// An ASCII character is its own byte, and all bytes of another character lie
/// above those of ASCII.
pub proof fn lemma_scalar_bytes(scalar: u32)
    ensures
        scalar < 0x80 ==> encode_scalar(scalar) == seq![scalar as u8],
        scalar >= 0x80 ==> forall|k: int|
            0 <= k < encode_scalar(scalar).len() ==> (#[trigger] encode_scalar(scalar)[k]) >= 0x80,
{
    assert(scalar < 0x80 ==> (scalar & 0x7F) as u8 == scalar as u8) by (bit_vector);
    assert(0x80 | (scalar & 0x3F) as u8 >= 0x80u8) by (bit_vector);
    assert(0x80 | ((scalar >> 6) & 0x3F) as u8 >= 0x80u8) by (bit_vector);
    assert(0x80 | ((scalar >> 12) & 0x3F) as u8 >= 0x80u8) by (bit_vector);
    assert(0xC0 | ((scalar >> 6) & 0x1F) as u8 >= 0x80u8) by (bit_vector);
    assert(0xE0 | ((scalar >> 12) & 0xF) as u8 >= 0x80u8) by (bit_vector);
    assert(0xF0 | ((scalar >> 18) & 0x7) as u8 >= 0x80u8) by (bit_vector);
}

/// Encoding distributes over concatenation.
pub proof fn lemma_encode_concat(first: Seq<char>, second: Seq<char>)
    ensures
        encode_utf8(first + second) == encode_utf8(first) + encode_utf8(second),
    decreases first.len(),
{
    if first.len() == 0 {
        assert(first + second =~= second);
        assert(encode_utf8(first) + encode_utf8(second) =~= encode_utf8(second));
    } else {
        let rest = first.drop_first();
        lemma_encode_concat(rest, second);
        assert((first + second).drop_first() =~= rest + second);
        assert((first + second)[0] == first[0]);
        assert(encode_scalar(first[0] as u32) + (encode_utf8(rest) + encode_utf8(second))
            =~= (encode_scalar(first[0] as u32) + encode_utf8(rest)) + encode_utf8(second));
    }
}

/// Appending a character appends its bytes.
pub proof fn lemma_encode_push(text: Seq<char>, character: char)
    ensures
        encode_utf8(text.push(character)) == encode_utf8(text) + encode_scalar(character as u32),
        encode_utf8(text.push(character)).len() == encode_utf8(text).len() + width(character),
{
    let single = seq![character];
    lemma_encode_concat(text, single);
    assert(text.push(character) =~= text + single);
    assert(single.drop_first() =~= seq![]);
    assert(encode_utf8(single.drop_first()) =~= seq![]);
    assert(encode_utf8(single) =~= encode_scalar(character as u32));
}

/// A text has at least as many bytes as characters.
pub proof fn lemma_encode_len(text: Seq<char>)
    ensures
        text.len() <= encode_utf8(text).len() <= 4 * text.len(),
    decreases text.len(),
{
    if text.len() > 0 {
        lemma_encode_len(text.drop_first());
    }
}

/// The byte offset of the character numbered `index`.
pub open spec fn offset_at(text: Seq<char>, index: int) -> int {
    encode_utf8(text.take(index)).len() as int
}

/// A character starts where its predecessor ends.
pub proof fn lemma_offset_next(text: Seq<char>, index: int)
    requires
        0 <= index < text.len(),
    ensures
        offset_at(text, index + 1) == offset_at(text, index) + width(text[index]),
{
    assert(text.take(index + 1) =~= text.take(index).push(text[index]));
    lemma_encode_push(text.take(index), text[index]);
}

/// Offsets grow with the index and end at the length in bytes.
pub proof fn lemma_offset_bounds(text: Seq<char>, first: int, second: int)
    requires
        0 <= first <= second <= text.len(),
    ensures
        offset_at(text, 0) == 0,
        offset_at(text, text.len() as int) == encode_utf8(text).len(),
        second - first <= offset_at(text, second) - offset_at(text, first),
        offset_at(text, second) <= encode_utf8(text).len(),
{
    let tail = text.subrange(first, second);
    assert(text.take(second) =~= text.take(first) + tail);
    lemma_encode_concat(text.take(first), tail);
    lemma_encode_len(tail);
    let end = text.skip(second);
    assert(text =~= text.take(second) + end);
    lemma_encode_concat(text.take(second), end);
    assert(text.take(0) =~= seq![]);
    assert(text.take(text.len() as int) =~= text);
}

/// The order of offsets is the order of their characters.
pub proof fn lemma_offset_order(text: Seq<char>, first: int, second: int)
    requires
        0 <= first <= text.len(),
        0 <= second <= text.len(),
        offset_at(text, first) <= offset_at(text, second),
    ensures
        first <= second,
{
    if second < first {
        lemma_offset_bounds(text, second, first);
    }
}

/// Texts are equal if their bytes are.
pub proof fn lemma_bytes_determine_text(first: Seq<char>, second: Seq<char>)
    requires
        encode_utf8(first) == encode_utf8(second),
    ensures
        first == second,
{
    encode_utf8_decode_utf8(first);
    encode_utf8_decode_utf8(second);
}

/// Returns whether two runs of bytes are equal.
pub fn same_bytes(first: &[u8], second: &[u8]) -> (same: bool)
    ensures
        same == (first@ == second@),
{
    if first.len() != second.len() {
        return false;
    }
    let mut index: usize = 0;
    while index < first.len()
        invariant
            index <= first.len(),
            first.len() == second.len(),
            forall|k: int| 0 <= k < index ==> first@[k] == second@[k],
        decreases first.len() - index,
    {
        if first[index] != second[index] {
            assert(first@[index as int] != second@[index as int]);
            return false;
        }
        index += 1;
    }
    assert(first@ =~= second@);
    true
}

/// Returns whether two texts are equal.
pub fn same_text(first: &str, second: &str) -> (same: bool)
    ensures
        same == (first@ == second@),
{
    let same = same_bytes(first.as_bytes(), second.as_bytes());
    proof {
        if same {
            lemma_bytes_determine_text(first@, second@);
        }
    }
    same
}

/// Returns the characters of a text.
pub fn characters(text: &str) -> (characters: Vec<char>)
    ensures
        characters@ == text@,
{
    let mut characters: Vec<char> = Vec::new();
    for character in source: text.chars()
        invariant
            source.seq() == text@,
            characters@ == text@.take(source.index() as int),
    {
        characters.push(character);
        assert(text@.take(source.index() + 1) =~= text@.take(source.index() as int).push(
            text@[source.index() as int],
        ));
    }
    assert(text@.take(text@.len() as int) =~= text@);
    characters
}

/// Returns the text that a run of characters spells.
pub fn spell(characters: &[char]) -> (text: String)
    ensures
        text@ == characters@,
{
    let mut text = String::new();
    let mut index: usize = 0;
    while index < characters.len()
        invariant
            index <= characters.len(),
            text@ == characters@.take(index as int),
        decreases characters.len() - index,
    {
        text.push(characters[index]);
        assert(characters@.take(index + 1) =~= characters@.take(index as int).push(
            characters@[index as int],
        ));
        index += 1;
    }
    assert(characters@.take(characters@.len() as int) =~= characters@);
    text
}

/// Returns whether a run of characters spells a text.
pub fn spells(characters: &[char], text: &str) -> (result: bool)
    ensures
        result == (characters@ == text@),
{
    let mut index: usize = 0;
    for character in source: text.chars()
        invariant
            source.seq() == text@,
            index == source.index(),
            index <= characters@.len(),
            characters@.take(index as int) == text@.take(index as int),
    {
        if index >= characters.len() || characters[index] != character {
            assert(text@[index as int] == character);
            assert(characters@ != text@);
            return false;
        }
        assert(characters@.take(index + 1) =~= characters@.take(index as int).push(character));
        assert(text@.take(index + 1) =~= text@.take(index as int).push(character));
        index += 1;
    }
    assert(text@.take(text@.len() as int) =~= text@);
    if index == characters.len() {
        assert(characters@.take(index as int) =~= characters@);
        true
    } else {
        false
    }
}

/// The digit of a value below 16, in lower case.
pub open spec fn digit(value: int) -> char {
    if value < 10 {
        (value + 0x30) as char
    } else {
        (value + 0x57) as char
    }
}

/// The digits of a number in a base of at most 16, without leading zeros.
pub open spec fn digits(value: nat, base: nat) -> Seq<char>
    decreases value,
{
    if base < 2 || value < base {
        seq![digit(value as int)]
    } else {
        proof {
            assert(value / base < value) by (nonlinear_arith)
                requires
                    base >= 2,
                    value >= base,
            ;
        }
        digits(value / base, base).push(digit((value % base) as int))
    }
}

/// The decimal spelling of a number is made of digits alone, at least one.
pub proof fn lemma_digits_are_digits(value: nat)
    ensures
        digits(value, 10).len() >= 1,
        forall|k: int|
            0 <= k < digits(value, 10).len() ==> '0' <= #[trigger] digits(value, 10)[k] <= '9',
    decreases value,
{
    if value >= 10 {
        lemma_digits_are_digits(value / 10);
    }
}

/// Two numbers with the same decimal spelling are the same.
pub proof fn lemma_digits_tell_numbers_apart(value: nat, other: nat)
    requires
        digits(value, 10) == digits(other, 10),
    ensures
        value == other,
    decreases value,
{
    let spelling = digits(value, 10);
    let same = digits(other, 10);
    if value >= 10 {
        lemma_digits_are_digits(value / 10);
    }
    if other >= 10 {
        lemma_digits_are_digits(other / 10);
    }
    assert(spelling.last() == same.last());
    if value >= 10 {
        assert(other >= 10);
        assert(digits(value / 10, 10) =~= spelling.drop_last());
        assert(digits(other / 10, 10) =~= same.drop_last());
        lemma_digits_tell_numbers_apart(value / 10, other / 10);
        assert(value % 10 == other % 10);
    }
}

/// The decimal digits of an integer, with a minus sign where it is negative.
pub open spec fn signed_digits(value: int) -> Seq<char> {
    if value < 0 {
        seq!['-'] + digits((-value) as nat, 10)
    } else {
        digits(value as nat, 10)
    }
}

/// Returns the digit of a value below 16, in lower case.
pub fn digit_char(value: u8) -> (character: char)
    requires
        value < 16,
    ensures
        character == digit(value as int),
{
    if value < 10 {
        (value + 0x30) as char
    } else {
        (value + 0x57) as char
    }
}

/// Returns the digits of a number in a base of at most 16.
pub fn number_text(value: u64, base: u64) -> (text: String)
    requires
        2 <= base <= 16,
    ensures
        text@ == digits(value as nat, base as nat),
    decreases value,
{
    if value < base {
        let mut text = String::new();
        text.push(digit_char(value as u8));
        assert(text@ =~= seq![digit(value as int)]);
        text
    } else {
        proof {
            assert(value / base < value) by (nonlinear_arith)
                requires
                    base >= 2,
                    value >= base,
            ;
            assert(0 <= value % base < base) by (nonlinear_arith)
                requires
                    base >= 2,
            ;
        }
        let mut text = number_text(value / base, base);
        text.push(digit_char((value % base) as u8));
        text
    }
}

/// Returns the decimal digits of an unsigned number.
pub fn decimal(value: u64) -> (text: String)
    ensures
        text@ == digits(value as nat, 10),
{
    number_text(value, 10)
}

/// Returns the decimal digits of a signed number.
pub fn signed_decimal(value: i64) -> (text: String)
    ensures
        text@ == signed_digits(value as int),
{
    if value < 0 {
        let mut text = String::new();
        text.push('-');
        let number = number_text((-(value as i128)) as u64, 10);
        text.append(number.as_str());
        assert(text@ =~= seq!['-'] + digits((-value) as nat, 10));
        text
    } else {
        number_text(value as u64, 10)
    }
}

/// A text without the white space at its start.
pub open spec fn trimmed_start(text: Seq<char>) -> Seq<char>
    decreases text.len(),
{
    if text.len() > 0 && unicode_whitespace(text[0]) {
        trimmed_start(text.skip(1))
    } else {
        text
    }
}

/// A text without the white space at its end.
pub open spec fn trimmed_end(text: Seq<char>) -> Seq<char>
    decreases text.len(),
{
    if text.len() > 0 && unicode_whitespace(text.last()) {
        trimmed_end(text.drop_last())
    } else {
        text
    }
}

/// A text without the white space at its ends.
pub open spec fn trimmed(text: Seq<char>) -> Seq<char> {
    trimmed_end(trimmed_start(text))
}

/// Returns the run of characters without the white space at its ends.
pub fn trim_characters(characters: &[char]) -> (result: &[char])
    ensures
        result@ == trimmed(characters@),
{
    let mut start: usize = 0;
    assert(characters@.skip(0) =~= characters@);
    while start < characters.len() && characters[start].is_whitespace()
        invariant
            start <= characters.len(),
            trimmed_start(characters@) == trimmed_start(characters@.skip(start as int)),
        decreases characters.len() - start,
    {
        assert(characters@.skip(start as int).skip(1) =~= characters@.skip(start + 1));
        start += 1;
    }
    let ghost rest = characters@.skip(start as int);
    assert(trimmed_start(characters@) == rest);
    let mut end: usize = characters.len();
    assert(characters@.subrange(start as int, end as int) =~= rest);
    while end > start && characters[end - 1].is_whitespace()
        invariant
            start <= end <= characters.len(),
            trimmed_end(rest) == trimmed_end(characters@.subrange(start as int, end as int)),
        decreases end - start,
    {
        assert(characters@.subrange(start as int, end as int).drop_last()
            =~= characters@.subrange(start as int, end - 1));
        end -= 1;
    }
    vstd::slice::slice_subrange(characters, start, end)
}

/// Returns a text without the white space at its ends.
pub fn trim(text: &str) -> (result: String)
    ensures
        result@ == trimmed(text@),
{
    let characters = characters(text);
    spell(trim_characters(characters.as_slice()))
}

/// Texts behind one another, with a separator between them.
pub open spec fn joined(parts: Seq<Seq<char>>, separator: Seq<char>) -> Seq<char>
    decreases parts.len(),
{
    if parts.len() == 0 {
        seq![]
    } else if parts.len() == 1 {
        parts[0]
    } else {
        joined(parts.drop_last(), separator) + separator + parts.last()
    }
}

/// The characters of each of a list of texts.
pub open spec fn spelled(texts: Seq<String>) -> Seq<Seq<char>> {
    texts.map_values(|text: String| text@)
}

/// Returns texts behind one another, with a separator between them.
pub fn join(parts: &[String], separator: &str) -> (text: String)
    ensures
        text@ == joined(spelled(parts@), separator@),
{
    let mut text = String::new();
    let mut index: usize = 0;
    assert(spelled(parts@).take(0) =~= seq![]);
    while index < parts.len()
        invariant
            index <= parts.len(),
            text@ == joined(spelled(parts@).take(index as int), separator@),
        decreases parts.len() - index,
    {
        let ghost before = spelled(parts@).take(index as int);
        let ghost after = spelled(parts@).take(index + 1);
        assert(after.drop_last() =~= before);
        if index > 0 {
            text.append(separator);
        }
        text.append(parts[index].as_str());
        assert(text@ =~= joined(after, separator@));
        index += 1;
    }
    assert(spelled(parts@).take(parts@.len() as int) =~= spelled(parts@));
    text
}

/// Whether a run of characters stands at an index of a text.
pub open spec fn stands_at(text: Seq<char>, index: int, part: Seq<char>) -> bool {
    0 <= index && index + part.len() <= text.len() && text.subrange(index, index + part.len())
        == part
}

/// Returns whether a run of characters stands at an index of a text.
pub fn found_at(text: &[char], index: usize, part: &[char]) -> (result: bool)
    ensures
        result == stands_at(text@, index as int, part@),
{
    if index > text.len() || part.len() > text.len() - index {
        return false;
    }
    let mut count: usize = 0;
    while count < part.len()
        invariant
            count <= part.len(),
            index + part.len() <= text.len(),
            forall|k: int| 0 <= k < count ==> text@[index + k] == part@[k],
        decreases part.len() - count,
    {
        if text[index + count] != part[count] {
            assert(text@.subrange(index as int, index + part@.len())[count as int]
                != part@[count as int]);
            return false;
        }
        count += 1;
    }
    assert(text@.subrange(index as int, index + part@.len()) =~= part@);
    true
}

/// A text with each occurrence of a part replaced, from left to right.
pub open spec fn replaced(text: Seq<char>, part: Seq<char>, other: Seq<char>) -> Seq<char>
    decreases text.len(),
{
    if text.len() == 0 || part.len() == 0 {
        text
    } else if stands_at(text, 0, part) {
        other + replaced(text.skip(part.len() as int), part, other)
    } else {
        seq![text[0]] + replaced(text.skip(1), part, other)
    }
}

/// Returns a text with each occurrence of a part replaced, from left to right.
pub fn replace(text: &str, part: &str, other: &str) -> (result: String)
    requires
        part@.len() > 0,
    ensures
        result@ == replaced(text@, part@, other@),
{
    let source = characters(text);
    let pattern = characters(part);
    let mut result = String::new();
    let mut index: usize = 0;
    assert(source@.skip(0) =~= source@);
    while index < source.len()
        invariant
            index <= source.len(),
            source@ == text@,
            pattern@ == part@,
            pattern@.len() > 0,
            result@ + replaced(source@.skip(index as int), part@, other@) == replaced(
                text@,
                part@,
                other@,
            ),
        decreases source.len() - index,
    {
        let ghost rest = source@.skip(index as int);
        let ghost before = result@;
        assert(stands_at(rest, 0, part@) == stands_at(source@, index as int, part@)) by {
            if index + part@.len() <= source@.len() {
                assert(rest.subrange(0, part@.len() as int) =~= source@.subrange(
                    index as int,
                    index + part@.len(),
                ));
            }
        }
        if found_at(source.as_slice(), index, pattern.as_slice()) {
            result.append(other);
            assert(rest.skip(part@.len() as int) =~= source@.skip(index + part@.len()));
            index += pattern.len();
        } else {
            result.push(source[index]);
            assert(rest.skip(1) =~= source@.skip(index + 1));
            assert(before.push(source@[index as int]) =~= before + seq![source@[index as int]]);
            index += 1;
        }
        assert(result@ + replaced(source@.skip(index as int), part@, other@) =~= before + replaced(
            rest,
            part@,
            other@,
        ));
    }
    assert(source@.skip(source@.len() as int) =~= seq![]);
    assert(result@ =~= result@ + replaced(seq![], part@, other@));
    result
}

/// Returns whether a text begins with a character.
pub fn begins_with(text: &str, character: char) -> (result: bool)
    ensures
        result == (text@.len() > 0 && text@[0] == character),
{
    let characters = characters(text);
    characters.len() > 0 && characters[0] == character
}

/// Returns whether a text ends with a character.
pub fn ends_with(text: &str, character: char) -> (result: bool)
    ensures
        result == (text@.len() > 0 && text@.last() == character),
{
    let characters = characters(text);
    characters.len() > 0 && characters[characters.len() - 1] == character
}

/// Returns whether a text is white space throughout.
pub fn is_blank(text: &str) -> (result: bool)
    ensures
        result == (forall|k: int| 0 <= k < text@.len() ==> unicode_whitespace(#[trigger] text@[k])),
{
    let characters = characters(text);
    let mut index: usize = 0;
    while index < characters.len()
        invariant
            index <= characters.len(),
            characters@ == text@,
            forall|k: int| 0 <= k < index ==> unicode_whitespace(#[trigger] text@[k]),
        decreases characters.len() - index,
    {
        if !characters[index].is_whitespace() {
            assert(!unicode_whitespace(text@[index as int]));
            return false;
        }
        index += 1;
    }
    true
}

/// The text of bytes, with a replacement character for what is not UTF-8.
pub uninterp spec fn lossy_text(bytes: Seq<u8>) -> Seq<char>;

/// Decodes bytes with `String::from_utf8_lossy`: the result depends on the
/// bytes alone, and valid UTF-8 is decoded as it is.
#[verifier::external_body]
pub(crate) fn decode_lossily(bytes: &[u8]) -> (text: String)
    ensures
        text@ == lossy_text(bytes@),
        valid_utf8(bytes@) ==> text@ == decode_utf8(bytes@),
{
    String::from_utf8_lossy(bytes).into_owned()
}

/// How the standard library's `Debug` writes a text.
pub uninterp spec fn debug_spelling(text: Seq<char>) -> Seq<char>;

/// Formats a text with the standard library's `Debug`, which depends on the
/// text alone.
#[verifier::external_body]
pub(crate) fn debug_quoted(text: &str) -> (result: String)
    ensures
        result@ == debug_spelling(text@),
{
    format!("{text:?}")
}

} // verus!
