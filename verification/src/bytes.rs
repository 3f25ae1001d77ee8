//! Runs of bytes: numbers and texts in them.

use vstd::prelude::*;
use vstd::utf8::*;

use crate::gml::vm::{le32, le64, with_word, word_at};

verus! {

/// Returns a copy of some bytes.
pub fn copy_bytes(bytes: &[u8]) -> (copy: Vec<u8>)
    ensures
        copy@ == bytes@,
{
    let mut copy: Vec<u8> = Vec::new();
    append(&mut copy, bytes);
    assert(copy@ =~= bytes@);
    copy
}

/// Adds bytes to a run.
pub fn append(bytes: &mut Vec<u8>, more: &[u8])
    ensures
        final(bytes)@ == old(bytes)@ + more@,
{
    let ghost start = bytes@;
    let mut index: usize = 0;
    assert(bytes@ =~= start + more@.take(0));
    while index < more.len()
        invariant
            index <= more.len(),
            bytes@ == start + more@.take(index as int),
        decreases more.len() - index,
    {
        bytes.push(more[index]);
        assert(bytes@ =~= start + more@.take(index + 1));
        index += 1;
    }
    assert(more@.take(index as int) =~= more@);
}

/// Adds a text to a run.
pub fn append_text(bytes: &mut Vec<u8>, text: &str)
    ensures
        final(bytes)@ == old(bytes)@ + encode_utf8(text@),
{
    append(bytes, text.as_bytes());
}

/// Returns the bytes of a word, least significant first.
pub fn word_bytes(value: u32) -> (bytes: [u8; 4])
    ensures
        bytes@ == le32(value as int),
{
    let bytes = [
        (value % 256) as u8,
        ((value / 0x100) % 256) as u8,
        ((value / 0x1_0000) % 256) as u8,
        ((value / 0x100_0000) % 256) as u8,
    ];
    assert(bytes@ =~= le32(value as int));
    bytes
}

/// Adds a word to a run.
pub fn append_u32(bytes: &mut Vec<u8>, value: u32)
    ensures
        final(bytes)@ == old(bytes)@ + le32(value as int),
{
    let word = word_bytes(value);
    append(bytes, &word);
}

/// Adds a double word to a run.
pub fn append_u64(bytes: &mut Vec<u8>, value: u64)
    ensures
        final(bytes)@ == old(bytes)@ + le64(value as int),
{
    let ghost start = bytes@;
    append_u32(bytes, (value % 0x1_0000_0000) as u32);
    append_u32(bytes, (value / 0x1_0000_0000) as u32);
    assert(bytes@ =~= start + le64(value as int));
}

/// Whether some bytes stand at an index.
pub open spec fn bytes_at(data: Seq<u8>, index: int, part: Seq<u8>) -> bool {
    0 <= index && index + part.len() <= data.len() && data.subrange(index, index + part.len())
        == part
}

/// Returns whether some bytes stand at an index.
pub fn has_bytes(data: &[u8], index: usize, part: &[u8]) -> (result: bool)
    ensures
        result == bytes_at(data@, index as int, part@),
{
    if part.len() > data.len() || index > data.len() - part.len() {
        return false;
    }
    let found = vstd::slice::slice_subrange(data, index, index + part.len());
    crate::text::same_bytes(found, part)
}

/// The double word at an index.
pub open spec fn double_at(bytes: Seq<u8>, index: int) -> int {
    word_at(bytes, index) + word_at(bytes, index + 4) * 0x1_0000_0000
}

/// Returns the word at an index.
pub fn read_word(bytes: &[u8], index: usize) -> (value: u32)
    requires
        index + 4 <= bytes@.len(),
    ensures
        value == word_at(bytes@, index as int),
{
    let length = bytes.len();
    bytes[index] as u32 + bytes[index + 1] as u32 * 0x100 + bytes[index + 2] as u32 * 0x1_0000
        + bytes[index + 3] as u32 * 0x100_0000
}

/// Returns the double word at an index.
pub fn read_double_word(bytes: &[u8], index: usize) -> (value: u64)
    requires
        index + 8 <= bytes@.len(),
    ensures
        value == double_at(bytes@, index as int),
{
    let length = bytes.len();
    read_word(bytes, index) as u64 + read_word(bytes, index + 4) as u64 * 0x1_0000_0000
}

/// Replaces the word at an index.
pub fn set_word(bytes: &mut Vec<u8>, index: usize, value: u32)
    requires
        index + 4 <= old(bytes)@.len(),
    ensures
        final(bytes)@ == with_word(old(bytes)@, index as int, value as int),
{
    let length = bytes.len();
    let word = word_bytes(value);
    let ghost before = bytes@;
    bytes.set(index, word[0]);
    bytes.set(index + 1, word[1]);
    bytes.set(index + 2, word[2]);
    bytes.set(index + 3, word[3]);
    assert(bytes@ =~= with_word(before, index as int, value as int));
}

/// What a word is written as is read as the word.
pub proof fn lemma_word_round_trip(bytes: Seq<u8>, index: int, value: u32)
    requires
        0 <= index,
        index + 4 <= bytes.len(),
        bytes.subrange(index, index + 4) == le32(value as int),
    ensures
        word_at(bytes, index) == value,
{
    let word = le32(value as int);
    assert(bytes[index] == word[0]);
    assert(bytes[index + 1] == word[1]);
    assert(bytes[index + 2] == word[2]);
    assert(bytes[index + 3] == word[3]);
}

/// What a double word is written as is read as the double word.
pub proof fn lemma_double_round_trip(bytes: Seq<u8>, index: int, value: u64)
    requires
        0 <= index,
        index + 8 <= bytes.len(),
        bytes.subrange(index, index + 8) == le64(value as int),
    ensures
        double_at(bytes, index) == value,
{
    let all = le64(value as int);
    let low = (value % 0x1_0000_0000) as u32;
    let high = (value / 0x1_0000_0000) as u32;
    assert(bytes.subrange(index, index + 8) =~= all);
    assert forall|k: int| 0 <= k < 4 implies bytes.subrange(index, index + 4)[k] == le32(
        low as int,
    )[k] by {
        assert(bytes.subrange(index, index + 8)[k] == all[k]);
    }
    assert(bytes.subrange(index, index + 4) =~= le32(low as int));
    assert forall|k: int| 0 <= k < 4 implies bytes.subrange(index + 4, index + 8)[k] == le32(
        high as int,
    )[k] by {
        assert(bytes.subrange(index, index + 8)[k + 4] == all[k + 4]);
    }
    assert(bytes.subrange(index + 4, index + 8) =~= le32(high as int));
    lemma_word_round_trip(bytes, index, low);
    lemma_word_round_trip(bytes, index + 4, high);
}

} // verus!
