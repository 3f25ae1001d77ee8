//! The sounds of a project: how each is converted and named, and the chunks and
//! files that hold them.

use std::cmp::Ordering;

use vstd::prelude::*;
use vstd::utf8::*;

use crate::artifact::{file_views, FileView, GeneratedFile};
use crate::assets::Assets;
use crate::bytes::{
    append, append_text, append_u32, append_u64, bytes_at, copy_bytes, has_bytes,
    lemma_word_round_trip, read_word, set_word,
};
use crate::digest::{hex, hex_text, md5, md5_digest};
use crate::gml::vm::{bits32, le32, le64, unsigned32, with_word, word_at};
use crate::names::NameSet;
use crate::path::{
    component_start, extension_of_file, file_extension, file_name, file_stem, gmx_path, gmx_text,
    last_component, lemma_component_start, lemma_last_dot, name_of_file, stem_of_file,
};
use crate::resources::{AudioGroup, Sound};
use crate::text::{
    characters, decimal, decode_lossily, digits, lemma_digits_are_digits,
    lemma_digits_tell_numbers_apart, lossy_text, signed_decimal, signed_digits, spell, spelled, trim,
    trimmed,
};
use crate::wad::{empty_wad, invalid, overflow, Wad, WadWriter, WriteError, WriteFault};

verus! {

/// How two names are ordered.
#[derive(Debug, Clone, Copy, PartialEq, Eq, Structural)]
pub enum Order {
    Before,
    Same,
    After,
}

/// What is compared of two names: first the letters whatever their case, with
/// other characters before digits and digits before letters; then small letters
/// before capital letters; then the bytes.
#[derive(Debug, Clone, Copy, PartialEq, Eq, Structural)]
pub enum Level {
    Letters,
    Cases,
    Bytes,
}

/// What is compared of a byte of a name.
pub open spec fn collation_unit(level: Level, byte: u8) -> int {
    match level {
        Level::Letters => if 0x41 <= byte <= 0x5a {
            0x220 + byte
        } else if 0x61 <= byte <= 0x7a {
            0x200 + byte
        } else if 0x30 <= byte <= 0x39 {
            0x100 + byte
        } else {
            byte as int
        },
        Level::Cases => if 0x41 <= byte <= 0x5a {
            1
        } else {
            0
        },
        Level::Bytes => byte as int,
    }
}

/// The order of two runs of bytes from an index on.
pub open spec fn order_from(level: Level, left: Seq<u8>, right: Seq<u8>, index: int) -> Order
    decreases left.len() - index,
{
    if index < 0 || index >= left.len() {
        if index >= right.len() {
            Order::Same
        } else {
            Order::Before
        }
    } else if index >= right.len() {
        Order::After
    } else if collation_unit(level, left[index]) < collation_unit(level, right[index]) {
        Order::Before
    } else if collation_unit(level, left[index]) > collation_unit(level, right[index]) {
        Order::After
    } else {
        order_from(level, left, right, index + 1)
    }
}

/// The order of two names.
pub open spec fn culture_order(left: Seq<char>, right: Seq<char>) -> Order {
    let first = encode_utf8(left);
    let second = encode_utf8(right);
    match order_from(Level::Letters, first, second, 0) {
        Order::Same => match order_from(Level::Cases, first, second, 0) {
            Order::Same => order_from(Level::Bytes, first, second, 0),
            order => order,
        },
        order => order,
    }
}

fn unit(level: Level, byte: u8) -> (value: u16)
    ensures
        value == collation_unit(level, byte),
{
    match level {
        Level::Letters => if 0x41 <= byte && byte <= 0x5a {
            0x220 + byte as u16
        } else if 0x61 <= byte && byte <= 0x7a {
            0x200 + byte as u16
        } else if 0x30 <= byte && byte <= 0x39 {
            0x100 + byte as u16
        } else {
            byte as u16
        },
        Level::Cases => if 0x41 <= byte && byte <= 0x5a {
            1
        } else {
            0
        },
        Level::Bytes => byte as u16,
    }
}

/// Returns the order of two runs of bytes.
pub fn order_at(level: Level, left: &[u8], right: &[u8]) -> (order: Order)
    ensures
        order == order_from(level, left@, right@, 0),
{
    let mut index: usize = 0;
    while index < left.len() && index < right.len()
        invariant
            index <= left@.len(),
            index <= right@.len(),
            order_from(level, left@, right@, 0) == order_from(level, left@, right@, index as int),
        decreases left.len() - index,
    {
        let first = unit(level, left[index]);
        let second = unit(level, right[index]);
        if first < second {
            return Order::Before;
        }
        if first > second {
            return Order::After;
        }
        index += 1;
    }
    if index < left.len() {
        Order::After
    } else if index < right.len() {
        Order::Before
    } else {
        Order::Same
    }
}

/// Returns the order of two names.
pub fn order_names(left: &str, right: &str) -> (order: Order)
    ensures
        order == culture_order(left@, right@),
{
    let first = left.as_bytes();
    let second = right.as_bytes();
    match order_at(Level::Letters, first, second) {
        Order::Same => match order_at(Level::Cases, first, second) {
            Order::Same => order_at(Level::Bytes, first, second),
            order => order,
        },
        order => order,
    }
}

/// Compares two names.
pub fn culture_cmp(left: &str, right: &str) -> (result: Ordering)
    ensures
        match culture_order(left@, right@) {
            Order::Before => result is Less,
            Order::Same => result is Equal,
            Order::After => result is Greater,
        },
{
    match order_names(left, right) {
        Order::Before => Ordering::Less,
        Order::Same => Ordering::Equal,
        Order::After => Ordering::Greater,
    }
}

/// The other order.
pub open spec fn reversed(order: Order) -> Order {
    match order {
        Order::Before => Order::After,
        Order::Same => Order::Same,
        Order::After => Order::Before,
    }
}

pub(crate) proof fn lemma_order_reversed(level: Level, left: Seq<u8>, right: Seq<u8>, index: int)
    requires
        0 <= index,
    ensures
        order_from(level, right, left, index) == reversed(order_from(level, left, right, index)),
    decreases left.len() - index,
{
    if index < left.len() && index < right.len() {
        lemma_order_reversed(level, left, right, index + 1);
    }
}

pub(crate) proof fn lemma_order_chain(level: Level, first: Seq<u8>, second: Seq<u8>, third: Seq<u8>, index: int)
    requires
        0 <= index,
        order_from(level, first, second, index) != Order::After,
        order_from(level, second, third, index) != Order::After,
    ensures
        order_from(level, first, third, index) != Order::After,
        order_from(level, first, third, index) == Order::Same ==> order_from(
            level,
            first,
            second,
            index,
        ) == Order::Same && order_from(level, second, third, index) == Order::Same,
        order_from(level, first, second, index) == Order::Same && order_from(
            level,
            second,
            third,
            index,
        ) == Order::Same ==> order_from(level, first, third, index) == Order::Same,
    decreases first.len() - index,
{
    if index < first.len() && index < second.len() && index < third.len() {
        if collation_unit(level, first[index]) == collation_unit(level, second[index])
            && collation_unit(level, second[index]) == collation_unit(level, third[index]) {
            lemma_order_chain(level, first, second, third, index + 1);
        }
    }
}

pub(crate) proof fn lemma_same_bytes(left: Seq<u8>, right: Seq<u8>, index: int)
    requires
        0 <= index <= left.len(),
        index <= right.len(),
        left.take(index) == right.take(index),
    ensures
        (order_from(Level::Bytes, left, right, index) == Order::Same) == (left == right),
    decreases left.len() - index,
{
    if index < left.len() && index < right.len() {
        if left[index] == right[index] {
            assert(left.take(index + 1) =~= left.take(index).push(left[index]));
            assert(right.take(index + 1) =~= right.take(index).push(right[index]));
            lemma_same_bytes(left, right, index + 1);
        }
    } else if index == left.len() && index == right.len() {
        assert(left.take(index) =~= left);
        assert(right.take(index) =~= right);
    }
}

/// The order of two names is the reverse of the order of the second and the
/// first, and only equal names are in the same place.
pub proof fn law_culture_order_is_total(left: Seq<char>, right: Seq<char>)
    ensures
        culture_order(right, left) == reversed(culture_order(left, right)),
        (culture_order(left, right) == Order::Same) == (left == right),
{
    let first = encode_utf8(left);
    let second = encode_utf8(right);
    lemma_order_reversed(Level::Letters, first, second, 0);
    lemma_order_reversed(Level::Cases, first, second, 0);
    lemma_order_reversed(Level::Bytes, first, second, 0);
    assert(first.take(0) =~= second.take(0));
    lemma_same_bytes(first, second, 0);
    if first == second {
        encode_utf8_decode_utf8(left);
        encode_utf8_decode_utf8(right);
        lemma_order_of_equal(Level::Letters, first, 0);
        lemma_order_of_equal(Level::Cases, first, 0);
    }
}

proof fn lemma_order_of_equal(level: Level, bytes: Seq<u8>, index: int)
    requires
        0 <= index,
    ensures
        order_from(level, bytes, bytes, index) == Order::Same,
    decreases bytes.len() - index,
{
    if index < bytes.len() {
        lemma_order_of_equal(level, bytes, index + 1);
    }
}

/// A name that is not behind a second one, which is not behind a third one, is
/// not behind the third one.
pub proof fn law_culture_order_is_transitive(first: Seq<char>, second: Seq<char>, third: Seq<char>)
    requires
        culture_order(first, second) != Order::After,
        culture_order(second, third) != Order::After,
    ensures
        culture_order(first, third) != Order::After,
{
    let one = encode_utf8(first);
    let two = encode_utf8(second);
    let three = encode_utf8(third);
    lemma_order_chain(Level::Letters, one, two, three, 0);
    if order_from(Level::Letters, one, three, 0) == Order::Same {
        lemma_order_chain(Level::Cases, one, two, three, 0);
        if order_from(Level::Cases, one, three, 0) == Order::Same {
            lemma_order_chain(Level::Bytes, one, two, three, 0);
        }
    }
}

/// Where a name belongs in the part of a sorted list before an index: behind
/// all names that are not behind it.
pub open spec fn place_before(
    list: Seq<usize>,
    names: Seq<Seq<char>>,
    item: usize,
    end: int,
) -> int
    decreases end,
{
    if end <= 0 {
        0
    } else if culture_order(names[list[end - 1] as int], names[item as int]) == Order::After {
        place_before(list, names, item, end - 1)
    } else {
        end
    }
}

/// The first names that are wanted, in order: the indices of a list of names.
pub open spec fn sorted(names: Seq<Seq<char>>, wanted: Seq<bool>, count: int) -> Seq<usize>
    decreases count,
{
    if count <= 0 {
        seq![]
    } else {
        let list = sorted(names, wanted, count - 1);
        if wanted[count - 1] {
            let item = (count - 1) as usize;
            list.insert(place_before(list, names, item, list.len() as int), item)
        } else {
            list
        }
    }
}

proof fn lemma_place(list: Seq<usize>, names: Seq<Seq<char>>, item: usize, end: int)
    requires
        end <= list.len(),
    ensures
        place_before(list, names, item, end) <= end || end < 0,
        0 <= place_before(list, names, item, end),
        0 < place_before(list, names, item, end) ==> culture_order(
            names[list[place_before(list, names, item, end) - 1] as int],
            names[item as int],
        ) != Order::After,
        forall|k: int|
            place_before(list, names, item, end) <= k < end ==> culture_order(
                names[#[trigger] list[k] as int],
                names[item as int],
            ) == Order::After,
    decreases end,
{
    if end > 0 && culture_order(names[list[end - 1] as int], names[item as int]) == Order::After {
        lemma_place(list, names, item, end - 1);
    }
}

/// Whether a list of indices is sorted by the names.
pub open spec fn is_sorted(list: Seq<usize>, names: Seq<Seq<char>>) -> bool {
    forall|i: int, j: int|
        0 <= i < j < list.len() ==> culture_order(
            names[#[trigger] list[i] as int],
            names[#[trigger] list[j] as int],
        ) != Order::After
}

proof fn lemma_sorted_members(names: Seq<Seq<char>>, wanted: Seq<bool>, count: int)
    requires
        0 <= count <= names.len(),
        count <= wanted.len(),
        names.len() <= usize::MAX,
    ensures
        forall|k: int|
            0 <= k < sorted(names, wanted, count).len() ==> 0 <= #[trigger] sorted(
                names,
                wanted,
                count,
            )[k] < count && wanted[sorted(names, wanted, count)[k] as int],
        sorted(names, wanted, count).no_duplicates(),
    decreases count,
{
    if count > 0 {
        lemma_sorted_members(names, wanted, count - 1);
        if wanted[count - 1] {
            let list = sorted(names, wanted, count - 1);
            let item = (count - 1) as usize;
            lemma_place(list, names, item, list.len() as int);
        }
    }
}

proof fn lemma_sorted_holds(names: Seq<Seq<char>>, wanted: Seq<bool>, count: int, index: int)
    requires
        0 <= index < count <= names.len(),
        count <= wanted.len(),
        names.len() <= usize::MAX,
        wanted[index],
    ensures
        sorted(names, wanted, count).contains(index as usize),
    decreases count,
{
    let list = sorted(names, wanted, count - 1);
    let item = (count - 1) as usize;
    let next = sorted(names, wanted, count);
    let place = place_before(list, names, item, list.len() as int);
    lemma_place(list, names, item, list.len() as int);
    if index == count - 1 {
        assert(next[place] == item);
    } else {
        lemma_sorted_holds(names, wanted, count - 1, index);
        if wanted[count - 1] {
            let at = choose|at: int| 0 <= at < list.len() && list[at] == index as usize;
            if at < place {
                assert(next[at] == index as usize);
            } else {
                assert(next[at + 1] == index as usize);
            }
        }
    }
}

proof fn lemma_inserted_in_order(list: Seq<usize>, names: Seq<Seq<char>>, item: usize)
    requires
        is_sorted(list, names),
    ensures
        is_sorted(
            list.insert(place_before(list, names, item, list.len() as int), item),
            names,
        ),
{
    let place = place_before(list, names, item, list.len() as int);
    lemma_place(list, names, item, list.len() as int);
    let next = list.insert(place, item);
    assert forall|i: int, j: int| 0 <= i < j < next.len() implies culture_order(
        names[#[trigger] next[i] as int],
        names[#[trigger] next[j] as int],
    ) != Order::After by {
        if i == place {
            assert(next[j] == list[j - 1]);
            law_culture_order_is_total(names[list[j - 1] as int], names[item as int]);
        } else if j == place {
            assert(next[i] == list[i]);
            if i < place - 1 {
                law_culture_order_is_transitive(
                    names[list[i] as int],
                    names[list[place - 1] as int],
                    names[item as int],
                );
            }
        } else {
            let first = if i < place {
                i
            } else {
                i - 1
            };
            let second = if j < place {
                j
            } else {
                j - 1
            };
            assert(next[i] == list[first]);
            assert(next[j] == list[second]);
        }
    }
}

proof fn lemma_sorted_order(names: Seq<Seq<char>>, wanted: Seq<bool>, count: int)
    ensures
        is_sorted(sorted(names, wanted, count), names),
    decreases count,
{
    if count > 0 {
        lemma_sorted_order(names, wanted, count - 1);
        lemma_inserted_in_order(
            sorted(names, wanted, count - 1),
            names,
            (count - 1) as usize,
        );
    }
}

/// The names that are wanted are listed once each, and in order.
pub proof fn law_sorted_names_are_in_order(names: Seq<Seq<char>>, wanted: Seq<bool>)
    requires
        names.len() == wanted.len(),
        names.len() <= usize::MAX,
    ensures
        ({
            let list = sorted(names, wanted, names.len() as int);
            &&& is_sorted(list, names)
            &&& list.no_duplicates()
            &&& forall|k: usize|
                #![trigger list.contains(k)]
                list.contains(k) <==> k < names.len() && wanted[k as int]
        }),
{
    let list = sorted(names, wanted, names.len() as int);
    lemma_sorted_order(names, wanted, names.len() as int);
    lemma_sorted_members(names, wanted, names.len() as int);
    assert forall|k: usize| #![trigger list.contains(k)] list.contains(k) <==> k < names.len()
        && wanted[k as int] by {
        if k < names.len() && wanted[k as int] {
            lemma_sorted_holds(names, wanted, names.len() as int, k as int);
        }
        if list.contains(k) {
            let at = choose|at: int| 0 <= at < list.len() && list[at] == k;
            assert(list[at] == k);
        }
    }
}

fn sort_names(names: &Vec<String>, wanted: &Vec<bool>) -> (list: Vec<usize>)
    requires
        names@.len() == wanted@.len(),
    ensures
        list@ == sorted(spelled(names@), wanted@, names@.len() as int),
{
    let ghost texts = spelled(names@);
    let mut list: Vec<usize> = Vec::new();
    let mut index: usize = 0;
    assert(list@ =~= seq![]);
    while index < names.len()
        invariant
            index <= names@.len(),
            names@.len() == wanted@.len(),
            texts == spelled(names@),
            list@ == sorted(texts, wanted@, index as int),
        decreases names.len() - index,
    {
        if wanted[index] {
            proof {
                lemma_sorted_members(texts, wanted@, index as int);
            }
            let mut place: usize = list.len();
            while place > 0 && is_after(names, list[place - 1], index)
                invariant
                    place <= list@.len(),
                    index < names@.len(),
                    texts == spelled(names@),
                    forall|k: int| 0 <= k < list@.len() ==> (#[trigger] list@[k]) < names@.len(),
                    place_before(list@, texts, index, list@.len() as int) == place_before(
                        list@,
                        texts,
                        index,
                        place as int,
                    ),
                decreases place,
            {
                place -= 1;
            }
            list.insert(place, index);
        }
        index += 1;
    }
    list
}

fn is_after(names: &Vec<String>, first: usize, second: usize) -> (result: bool)
    requires
        first < names@.len(),
        second < names@.len(),
    ensures
        result == (culture_order(
            spelled(names@)[first as int],
            spelled(names@)[second as int],
        ) == Order::After),
{
    matches!(order_names(names[first].as_str(), names[second].as_str()), Order::After)
}

/// The group of a sound. A group that is not there stands for the first one.
pub open spec fn group_of(sound: Sound, group_count: int) -> int {
    if 0 <= sound.group_index < group_count {
        sound.group_index as int
    } else {
        0
    }
}

/// Returns the group of a sound.
pub fn sound_group(sound: &Sound, group_count: usize) -> (group: usize)
    ensures
        group == group_of(*sound, group_count as int),
{
    if sound.group_index >= 0 && (sound.group_index as u64) < group_count as u64 {
        sound.group_index as usize
    } else {
        0
    }
}

/// The name of the file that a sound was made from.
pub open spec fn original_name(name: Seq<char>) -> Seq<char> {
    match name_of_file(gmx_text(name)) {
        Some(name) => name,
        None => name,
    }
}

/// Returns the name of the file that a sound was made from.
pub fn original_filename(sound: &Sound) -> (name: String)
    ensures
        name@ == original_name(sound.original_name@),
{
    let path = gmx_path(sound.original_name.as_str());
    match file_name(path.as_str()) {
        Some(name) => name,
        None => sound.original_name.clone(),
    }
}

/// The stem of a file name; empty if there is none.
pub open spec fn stem_or_empty(name: Seq<char>) -> Seq<char> {
    match stem_of_file(name) {
        Some(stem) => stem,
        None => seq![],
    }
}

fn stem_text(name: &str) -> (stem: String)
    ensures
        stem@ == stem_or_empty(name@),
{
    match file_stem(name) {
        Some(stem) => stem,
        None => {
            let stem = String::new();
            assert(stem@ =~= seq![]);
            stem
        },
    }
}

/// A file name with an extension.
pub open spec fn named(name: Seq<char>, extension: Seq<char>) -> Seq<char> {
    stem_or_empty(name) + seq!['.'] + extension
}

fn with_extension(name: &str, extension: &str) -> (result: String)
    ensures
        result@ == named(name@, extension@),
{
    let mut result = stem_text(name);
    result.push('.');
    result.append(extension);
    assert(result@ =~= named(name@, extension@));
    result
}

/// The index of the last underscore before an index; -1 if there is none.
pub open spec fn underscore_before(text: Seq<char>, end: int) -> int
    decreases end,
{
    if end <= 0 || end > text.len() {
        -1
    } else if text[end - 1] == '_' {
        end - 1
    } else {
        underscore_before(text, end - 1)
    }
}

/// The part of a name before its last underscore and behind the one before it.
pub open spec fn base_of(name: Seq<char>) -> Seq<char> {
    let last = underscore_before(name, name.len() as int);
    if last < 0 {
        name
    } else {
        name.subrange(underscore_before(name, last) + 1, last)
    }
}

/// A name with a number in it, and with the same extension.
pub open spec fn numbered(name: Seq<char>, suffix: nat) -> Seq<char> {
    let start = stem_or_empty(base_of(name)) + seq!['_'] + digits(suffix, 10);
    match extension_of_file(name) {
        Some(extension) => if extension.len() > 0 {
            start + seq!['.'] + extension
        } else {
            start
        },
        None => start,
    }
}

/// The first of a name and the names with numbers that is not used.
pub open spec fn unused_name(name: Seq<char>, used: Set<Seq<char>>, suffix: nat) -> Seq<char>
    decreases used.len() + 2 - suffix,
{
    if !used.contains(name) || suffix >= used.len() + 2 || suffix >= u64::MAX {
        name
    } else {
        unused_name(numbered(name, suffix), used, suffix + 1)
    }
}

fn last_underscore(letters: &[char], from: usize) -> (found: Option<usize>)
    requires
        from <= letters@.len(),
    ensures
        match found {
            Some(index) => index == underscore_before(letters@, from as int) && index < from,
            None => underscore_before(letters@, from as int) == -1,
        },
{
    let mut end: usize = from;
    while end > 0
        invariant
            end <= from,
            from <= letters@.len(),
            underscore_before(letters@, from as int) == underscore_before(letters@, end as int),
        decreases end,
    {
        if letters[end - 1] == '_' {
            return Some(end - 1);
        }
        end -= 1;
    }
    None
}

fn base_text(name: &str) -> (base: String)
    ensures
        base@ == base_of(name@),
{
    let letters = characters(name);
    let length = letters.len();
    match last_underscore(letters.as_slice(), length) {
        None => name.to_owned(),
        Some(last) => {
            let start = match last_underscore(letters.as_slice(), last) {
                None => 0,
                Some(before) => before + 1,
            };
            let base = vstd::slice::slice_subrange(letters.as_slice(), start, last);
            spell(base)
        },
    }
}

fn number_name(name: &str, suffix: u64) -> (result: String)
    ensures
        result@ == numbered(name@, suffix as nat),
{
    let base = base_text(name);
    let mut result = stem_text(base.as_str());
    result.push('_');
    let number = decimal(suffix);
    result.append(number.as_str());
    assert(result@ =~= stem_or_empty(base_of(name@)) + seq!['_'] + digits(suffix as nat, 10));
    if let Some(extension) = file_extension(name) {
        if !extension.as_str().is_empty() {
            result.push('.');
            result.append(extension.as_str());
            assert(result@ =~= numbered(name@, suffix as nat));
        }
    }
    result
}

/// Returns the first of a name and the names with numbers that is not used.
pub fn unique_default_audio_name(name: String, used: &NameSet) -> (result: String)
    requires
        used.valid(),
    ensures
        result@ == unused_name(name@, used@, 0),
        used@.len() + 2 <= u64::MAX ==> !used@.contains(result@),
{
    let ghost start = name@;
    let count = used.len();
    proof {
        if used@.len() + 2 <= u64::MAX {
            law_found_audio_name_is_unused(start, used@);
        }
    }
    let mut result = name;
    let mut suffix: u64 = 0;
    while suffix < u64::MAX && (suffix as u128) < count as u128 + 2 && used.contains(
        result.as_str(),
    )
        invariant
            count == used@.len(),
            suffix <= count + 2,
            unused_name(start, used@, 0) == unused_name(result@, used@, suffix as nat),
        decreases count + 2 - suffix,
    {
        result = number_name(result.as_str(), suffix);
        suffix += 1;
    }
    result
}

/// Whether no character of a text is an underscore.
pub open spec fn free_of_underscores(text: Seq<char>) -> bool {
    forall|k: int| 0 <= k < text.len() ==> text[k] != '_'
}

proof fn lemma_underscore_before(text: Seq<char>, end: int)
    requires
        0 <= end <= text.len(),
    ensures
        -1 <= underscore_before(text, end) < end,
        forall|k: int| underscore_before(text, end) < k < end ==> text[k] != '_',
    decreases end,
{
    if end > 0 && text[end - 1] != '_' {
        lemma_underscore_before(text, end - 1);
    }
}

proof fn lemma_component_is_free_of_underscores(path: Seq<char>, end: int)
    requires
        free_of_underscores(path),
        end <= path.len(),
    ensures
        last_component(path, end) matches Some(component) ==> free_of_underscores(component),
    decreases end,
{
    if end >= 0 {
        lemma_component_start(path, end);
        let start = component_start(path, end);
        let component = path.subrange(start, end);
        assert(free_of_underscores(component));
        if start > 0 {
            lemma_component_is_free_of_underscores(path, start - 1);
        }
    }
}

proof fn lemma_base_is_free_of_underscores(name: Seq<char>)
    ensures
        free_of_underscores(stem_or_empty(base_of(name))),
{
    let base = base_of(name);
    let last = underscore_before(name, name.len() as int);
    lemma_underscore_before(name, name.len() as int);
    if last >= 0 {
        lemma_underscore_before(name, last);
    }
    assert(free_of_underscores(base));
    lemma_component_is_free_of_underscores(base, base.len() as int);
    if let Some(file) = name_of_file(base) {
        lemma_last_dot(file, file.len() as int);
    }
}

/// Whether a number stands behind the first underscore of a name, and nothing or
/// a dot behind the number.
pub open spec fn holds_number(name: Seq<char>, at: int, number: nat) -> bool {
    let end = at + 1 + digits(number, 10).len();
    &&& 0 <= at
    &&& end <= name.len()
    &&& forall|k: int| 0 <= k < at ==> name[k] != '_'
    &&& name[at] == '_'
    &&& name.subrange(at + 1, end) == digits(number, 10)
    &&& end < name.len() ==> name[end] == '.'
}

proof fn lemma_numbered_holds_number(name: Seq<char>, suffix: nat)
    ensures
        holds_number(
            numbered(name, suffix),
            stem_or_empty(base_of(name)).len() as int,
            suffix,
        ),
{
    let stem = stem_or_empty(base_of(name));
    let at = stem.len() as int;
    let result = numbered(name, suffix);
    lemma_base_is_free_of_underscores(name);
    assert(forall|k: int| 0 <= k < at ==> result[k] == stem[k]);
    assert(result.subrange(at + 1, at + 1 + digits(suffix, 10).len()) =~= digits(suffix, 10));
}

proof fn lemma_one_number_is_held(
    name: Seq<char>,
    at: int,
    number: nat,
    other_at: int,
    other: nat,
)
    requires
        holds_number(name, at, number),
        holds_number(name, other_at, other),
    ensures
        number == other,
{
    let spelling = digits(number, 10);
    let other_spelling = digits(other, 10);
    lemma_digits_are_digits(number);
    lemma_digits_are_digits(other);
    assert(at == other_at);
    assert(forall|k: int|
        0 <= k < spelling.len() ==> #[trigger] spelling[k] == name.subrange(
            at + 1,
            at + 1 + spelling.len(),
        )[k]);
    assert(forall|k: int|
        0 <= k < other_spelling.len() ==> #[trigger] other_spelling[k] == name.subrange(
            at + 1,
            at + 1 + other_spelling.len(),
        )[k]);
    if spelling.len() < other_spelling.len() {
        assert(other_spelling[spelling.len() as int] == '.');
    }
    if other_spelling.len() < spelling.len() {
        assert(spelling[other_spelling.len() as int] == '.');
    }
    lemma_digits_tell_numbers_apart(number, other);
}

/// The names that are tried, in order: a name, and then those with numbers.
pub open spec fn tried_name(name: Seq<char>, count: nat) -> Seq<char>
    decreases count,
{
    if count == 0 {
        name
    } else {
        numbered(tried_name(name, (count - 1) as nat), (count - 1) as nat)
    }
}

proof fn lemma_tried_names_differ(name: Seq<char>, first: nat, second: nat)
    requires
        0 < first,
        0 < second,
        tried_name(name, first) == tried_name(name, second),
    ensures
        first == second,
{
    let before = tried_name(name, (first - 1) as nat);
    let other = tried_name(name, (second - 1) as nat);
    lemma_numbered_holds_number(before, (first - 1) as nat);
    lemma_numbered_holds_number(other, (second - 1) as nat);
    lemma_one_number_is_held(
        tried_name(name, first),
        stem_or_empty(base_of(before)).len() as int,
        (first - 1) as nat,
        stem_or_empty(base_of(other)).len() as int,
        (second - 1) as nat,
    );
}

proof fn lemma_some_tried_name_is_unused(name: Seq<char>, used: Set<Seq<char>>)
    requires
        used.finite(),
    ensures
        exists|k: nat| k < used.len() + 2 && !used.contains(#[trigger] tried_name(name, k)),
{
    if forall|k: nat| k < used.len() + 2 ==> used.contains(#[trigger] tried_name(name, k)) {
        let names = Seq::new(used.len() + 1, |k: int| tried_name(name, (k + 1) as nat));
        assert forall|i: int, j: int|
            0 <= i < names.len() && 0 <= j < names.len() && i != j implies names[i]
            != names[j] by {
            if names[i] == names[j] {
                lemma_tried_names_differ(name, (i + 1) as nat, (j + 1) as nat);
            }
        }
        names.unique_seq_to_set();
        assert forall|text: Seq<char>| names.to_set().contains(text) implies used.contains(text) by {
            let k = choose|k: int| 0 <= k < names.len() && names[k] == text;
            assert(used.contains(tried_name(name, (k + 1) as nat)));
        }
        vstd::set_lib::lemma_len_subset(names.to_set(), used);
    }
}

proof fn lemma_found_name_is_unused(name: Seq<char>, used: Set<Seq<char>>, count: nat)
    requires
        used.finite(),
        used.len() + 2 <= u64::MAX,
        count <= used.len() + 2,
        forall|k: nat| k < count ==> used.contains(#[trigger] tried_name(name, k)),
    ensures
        !used.contains(unused_name(tried_name(name, count), used, count)),
    decreases used.len() + 2 - count,
{
    lemma_some_tried_name_is_unused(name, used);
    if used.contains(tried_name(name, count)) {
        lemma_found_name_is_unused(name, used, count + 1);
    }
}

/// The name that is found for a sound is not one of the used names.
pub proof fn law_found_audio_name_is_unused(name: Seq<char>, used: Set<Seq<char>>)
    requires
        used.finite(),
        used.len() + 2 <= u64::MAX,
    ensures
        !used.contains(unused_name(name, used, 0)),
{
    lemma_found_name_is_unused(name, used, 0);
}

/// What the data file says of the contents of a sound.
#[derive(Debug, Clone, PartialEq, Eq)]
pub struct SoundMedia {
    pub kind: i32,
    pub filename: String,
    pub group: usize,
    pub audio_id: i32,
}

/// A [`SoundMedia`] with its name as a sequence of characters.
pub struct MediaView {
    pub kind: i32,
    pub filename: Seq<char>,
    pub group: int,
    pub audio_id: int,
}

impl View for SoundMedia {
    type V = MediaView;

    open spec fn view(&self) -> MediaView {
        MediaView {
            kind: self.kind,
            filename: self.filename@,
            group: self.group as int,
            audio_id: self.audio_id as int,
        }
    }
}

/// What a list of media stands for.
pub open spec fn media_views(media: Seq<SoundMedia>) -> Seq<MediaView> {
    media.map_values(|sound: SoundMedia| sound@)
}

/// The names of sounds.
pub open spec fn sound_names(sounds: Seq<Sound>) -> Seq<Seq<char>> {
    sounds.map_values(|sound: Sound| sound.name@)
}

/// The names of the files that sounds were made from.
pub open spec fn original_names(sounds: Seq<Sound>) -> Seq<Seq<char>> {
    sounds.map_values(|sound: Sound| original_name(sound.original_name@))
}

/// Which sounds are held in a group.
pub open spec fn in_group(sounds: Seq<Sound>, group_count: int, group: int) -> Seq<bool> {
    sounds.map_values(
        |sound: Sound| !sound.streamed && group_of(sound, group_count) == group,
    )
}

/// The sounds of a group, sorted by a list of names.
pub open spec fn group_list(
    names: Seq<Seq<char>>,
    sounds: Seq<Sound>,
    group_count: int,
    group: int,
) -> Seq<usize> {
    sorted(names, in_group(sounds, group_count, group), sounds.len() as int)
}

/// Whether the number of each sound is that of one of the sounds.
pub open spec fn are_numbered(sounds: Seq<Sound>) -> bool {
    forall|k: int| 0 <= k < sounds.len() ==> (#[trigger] sounds[k]).index < sounds.len()
}

/// The last place of a sound with a number in the part of a list before an index;
/// -1 if there is none.
pub open spec fn place_in(list: Seq<usize>, sounds: Seq<Sound>, number: int, end: int) -> int
    decreases end,
{
    if end <= 0 {
        -1
    } else if sounds[list[end - 1] as int].index == number {
        end - 1
    } else {
        place_in(list, sounds, number, end - 1)
    }
}

/// The place of a sound with a number in the last of the first groups that has
/// one; -1 if none has.
pub open spec fn place_among(
    sounds: Seq<Sound>,
    group_count: int,
    number: int,
    groups: int,
) -> int
    decreases groups,
{
    if groups <= 0 {
        -1
    } else {
        let list = group_list(sound_names(sounds), sounds, group_count, groups - 1);
        let place = place_in(list, sounds, number, list.len() as int);
        if place >= 0 {
            place
        } else {
            place_among(sounds, group_count, number, groups - 1)
        }
    }
}

/// The place of a sound in its group; -1 for a streamed one.
pub open spec fn audio_id_of(sounds: Seq<Sound>, group_count: int, index: int) -> int {
    place_among(sounds, group_count, sounds[index].index as int, group_count)
}

/// The kind of a sound and the name of its file, given the name that is free.
pub open spec fn kind_and_name(sound: Sound, name: Seq<char>) -> (i32, Seq<char>) {
    if sound.streamed {
        if sound.new_audio {
            (100i32, named(name, "ogg"@))
        } else {
            (1i32, named(name, "mp3"@))
        }
    } else if sound.new_audio {
        (
            if sound.uncompress_on_load {
                103i32
            } else if sound.compressed {
                102i32
            } else {
                101i32
            },
            name,
        )
    } else {
        (0i32, named(name, "wav"@))
    }
}

/// The media of the first sounds, and the names that the first group uses.
pub struct MediaSoFar {
    pub media: Seq<MediaView>,
    pub used: Set<Seq<char>>,
}

/// The media of the first sounds.
pub open spec fn media_so_far(sounds: Seq<Sound>, group_count: int, count: int) -> MediaSoFar
    decreases count,
{
    if count <= 0 {
        MediaSoFar { media: seq![], used: Set::empty() }
    } else {
        let before = media_so_far(sounds, group_count, count - 1);
        let sound = sounds[count - 1];
        let group = group_of(sound, group_count);
        let free = unused_name(original_name(sound.original_name@), before.used, 0);
        let (kind, filename) = kind_and_name(sound, free);
        MediaSoFar {
            media: before.media.push(
                MediaView {
                    kind,
                    filename,
                    group,
                    audio_id: audio_id_of(sounds, group_count, count - 1),
                },
            ),
            used: if !sound.streamed && group == 0 {
                before.used.insert(filename)
            } else {
                before.used
            },
        }
    }
}

/// Whether a group has more sounds than can be numbered.
pub open spec fn is_crowded(sounds: Seq<Sound>, group_count: int, group: int) -> bool {
    group_list(sound_names(sounds), sounds, group_count, group).len() > 0x8000_0000
}

/// The media of all sounds, or what is wrong with them.
pub open spec fn all_media(sounds: Seq<Sound>, group_count: int) -> Result<
    Seq<MediaView>,
    WriteFault,
> {
    if exists|group: int| 0 <= group < group_count && is_crowded(sounds, group_count, group) {
        Err(overflow("sound audio index"@, 0x8000_0000))
    } else {
        Ok(media_so_far(sounds, group_count, sounds.len() as int).media)
    }
}

fn names_of(sounds: &Vec<Sound>) -> (names: Vec<String>)
    ensures
        spelled(names@) == sound_names(sounds@),
{
    let mut names: Vec<String> = Vec::new();
    let mut index: usize = 0;
    while index < sounds.len()
        invariant
            index <= sounds@.len(),
            names@.len() == index,
            forall|k: int| 0 <= k < index ==> (#[trigger] names@[k])@ == sounds@[k].name@,
        decreases sounds.len() - index,
    {
        names.push(sounds[index].name.clone());
        index += 1;
    }
    assert(spelled(names@) =~= sound_names(sounds@));
    names
}

fn original_names_of(sounds: &Vec<Sound>) -> (names: Vec<String>)
    ensures
        spelled(names@) == original_names(sounds@),
{
    let mut names: Vec<String> = Vec::new();
    let mut index: usize = 0;
    while index < sounds.len()
        invariant
            index <= sounds@.len(),
            names@.len() == index,
            forall|k: int|
                0 <= k < index ==> (#[trigger] names@[k])@ == original_name(
                    sounds@[k].original_name@,
                ),
        decreases sounds.len() - index,
    {
        names.push(original_filename(&sounds[index]));
        index += 1;
    }
    assert(spelled(names@) =~= original_names(sounds@));
    names
}

fn list_group(names: &Vec<String>, sounds: &Vec<Sound>, group_count: usize, group: usize) -> (list:
    Vec<usize>)
    requires
        names@.len() == sounds@.len(),
    ensures
        list@ == group_list(spelled(names@), sounds@, group_count as int, group as int),
{
    let mut wanted: Vec<bool> = Vec::new();
    let mut index: usize = 0;
    while index < sounds.len()
        invariant
            index <= sounds@.len(),
            wanted@.len() == index,
            forall|k: int|
                0 <= k < index ==> (#[trigger] wanted@[k]) == (!sounds@[k].streamed && group_of(
                    sounds@[k],
                    group_count as int,
                ) == group),
        decreases sounds.len() - index,
    {
        let sound = &sounds[index];
        wanted.push(!sound.streamed && sound_group(sound, group_count) == group);
        index += 1;
    }
    assert(wanted@ =~= in_group(sounds@, group_count as int, group as int));
    sort_names(names, &wanted)
}

fn find_place(lists: &Vec<Vec<usize>>, sounds: &Vec<Sound>, number: usize) -> (place: i32)
    requires
        forall|g: int|
            0 <= g < lists@.len() ==> (#[trigger] lists@[g])@ == group_list(
                sound_names(sounds@),
                sounds@,
                lists@.len() as int,
                g,
            ) && lists@[g]@.len() <= 0x8000_0000,
    ensures
        place == place_among(sounds@, lists@.len() as int, number as int, lists@.len() as int),
{
    let ghost count = lists@.len() as int;
    let mut group: usize = lists.len();
    while group > 0
        invariant
            group <= lists@.len(),
            count == lists@.len(),
            forall|g: int|
                0 <= g < lists@.len() ==> (#[trigger] lists@[g])@ == group_list(
                    sound_names(sounds@),
                    sounds@,
                    lists@.len() as int,
                    g,
                ) && lists@[g]@.len() <= 0x8000_0000,
            place_among(sounds@, count, number as int, count) == place_among(
                sounds@,
                count,
                number as int,
                group as int,
            ),
        decreases group,
    {
        let list = &lists[group - 1];
        let total = sounds.len();
        proof {
            lemma_sorted_members(
                sound_names(sounds@),
                in_group(sounds@, count, group - 1),
                total as int,
            );
        }
        let mut end: usize = list.len();
        while end > 0
            invariant
                end <= list@.len() <= 0x8000_0000,
                0 < group <= lists@.len(),
                count == lists@.len(),
                list@ == group_list(sound_names(sounds@), sounds@, count, group - 1),
                forall|k: int| 0 <= k < list@.len() ==> (#[trigger] list@[k]) < sounds@.len(),
                place_among(sounds@, count, number as int, count) == place_among(
                    sounds@,
                    count,
                    number as int,
                    group as int,
                ),
                place_in(list@, sounds@, number as int, list@.len() as int) == place_in(
                    list@,
                    sounds@,
                    number as int,
                    end as int,
                ),
            decreases end,
        {
            if sounds[list[end - 1]].index == number {
                return (end - 1) as i32;
            }
            end -= 1;
        }
        group -= 1;
    }
    -1
}

fn choose_kind(sound: &Sound, name: String) -> (result: (i32, String))
    ensures
        (result.0, result.1@) == kind_and_name(*sound, name@),
{
    if sound.streamed {
        if sound.new_audio {
            (100, with_extension(name.as_str(), "ogg"))
        } else {
            (1, with_extension(name.as_str(), "mp3"))
        }
    } else if sound.new_audio {
        let kind: i32 = if sound.uncompress_on_load {
            103
        } else if sound.compressed {
            102
        } else {
            101
        };
        (kind, name)
    } else {
        (0, with_extension(name.as_str(), "wav"))
    }
}

/// Returns the media of all sounds.
pub fn sound_media(sounds: &Vec<Sound>, group_count: usize) -> (result: Result<
    Vec<SoundMedia>,
    WriteError,
>)
    requires
        group_count > 0,
        are_numbered(sounds@),
    ensures
        match result {
            Ok(media) => all_media(sounds@, group_count as int) == Ok::<Seq<MediaView>, WriteFault>(
                media_views(media@),
            ),
            Err(error) => all_media(sounds@, group_count as int) == Err::<
                Seq<MediaView>,
                WriteFault,
            >(error@),
        },
{
    let names = names_of(sounds);
    assert(names@.len() == spelled(names@).len());
    let mut lists: Vec<Vec<usize>> = Vec::new();
    let mut group: usize = 0;
    while group < group_count
        invariant
            group <= group_count,
            names@.len() == sounds@.len(),
            spelled(names@) == sound_names(sounds@),
            lists@.len() == group,
            forall|g: int|
                0 <= g < group ==> (#[trigger] lists@[g])@ == group_list(
                    sound_names(sounds@),
                    sounds@,
                    group_count as int,
                    g,
                ),
            forall|g: int| 0 <= g < group ==> !is_crowded(sounds@, group_count as int, g),
        decreases group_count - group,
    {
        let list = list_group(&names, sounds, group_count, group);
        if list.len() as u64 > 0x8000_0000 {
            assert(is_crowded(sounds@, group_count as int, group as int));
            return Err(
                WriteError::SizeOverflow {
                    field: "sound audio index".to_owned(),
                    size: 0x8000_0000,
                },
            );
        }
        lists.push(list);
        group += 1;
    }
    let mut used = NameSet::new();
    let mut media: Vec<SoundMedia> = Vec::new();
    let mut index: usize = 0;
    assert(media_views(media@) =~= seq![]);
    while index < sounds.len()
        invariant
            index <= sounds@.len(),
            group_count > 0,
            used.valid(),
            lists@.len() == group_count,
            forall|g: int|
                0 <= g < group_count ==> (#[trigger] lists@[g])@ == group_list(
                    sound_names(sounds@),
                    sounds@,
                    group_count as int,
                    g,
                ),
            forall|g: int| 0 <= g < group_count ==> !is_crowded(sounds@, group_count as int, g),
            media_so_far(sounds@, group_count as int, index as int) == (MediaSoFar {
                media: media_views(media@),
                used: used@,
            }),
        decreases sounds.len() - index,
    {
        let sound = &sounds[index];
        let own_group = sound_group(sound, group_count);
        let original = original_filename(sound);
        let free = unique_default_audio_name(original, &used);
        let (kind, filename) = choose_kind(sound, free);
        assert forall|g: int| 0 <= g < lists@.len() implies (#[trigger] lists@[g])@.len()
            <= 0x8000_0000 by {
            assert(!is_crowded(sounds@, group_count as int, g));
        }
        let audio_id = find_place(&lists, sounds, sound.index);
        if !sound.streamed && own_group == 0 {
            used.insert(filename.as_str());
        }
        let next = SoundMedia { kind, filename, group: own_group, audio_id };
        let ghost before = media_views(media@);
        let ghost added = next@;
        media.push(next);
        assert(media_views(media@) =~= before.push(added));
        index += 1;
    }
    Ok(media)
}

/// The formats that sounds are converted to.
#[derive(Debug, Clone, Copy, PartialEq, Eq, Structural)]
pub enum AudioFormat {
    Wav,
    Ogg,
    Mp3,
}

impl AudioFormat {
    /// The format of a sound.
    pub open spec fn wanted(sound: Sound) -> AudioFormat {
        if sound.compressed {
            if sound.new_audio {
                AudioFormat::Ogg
            } else {
                AudioFormat::Mp3
            }
        } else {
            AudioFormat::Wav
        }
    }

    /// Returns the format of a sound.
    pub fn of(sound: &Sound) -> (format: AudioFormat)
        ensures
            format == AudioFormat::wanted(*sound),
    {
        if sound.compressed {
            if sound.new_audio {
                AudioFormat::Ogg
            } else {
                AudioFormat::Mp3
            }
        } else {
            AudioFormat::Wav
        }
    }

    /// The extension of files of the format.
    pub open spec fn suffix(self) -> Seq<char> {
        match self {
            AudioFormat::Wav => "wav"@,
            AudioFormat::Ogg => "ogg"@,
            AudioFormat::Mp3 => "mp3"@,
        }
    }

    /// The number of the format.
    pub open spec fn number(self) -> u8 {
        match self {
            AudioFormat::Wav => 0,
            AudioFormat::Ogg => 1,
            AudioFormat::Mp3 => 2,
        }
    }

    /// Returns the extension of files of the format.
    pub fn extension(self) -> (extension: &'static str)
        ensures
            extension@ == self.suffix(),
    {
        match self {
            AudioFormat::Wav => "wav",
            AudioFormat::Ogg => "ogg",
            AudioFormat::Mp3 => "mp3",
        }
    }
}

/// Whether data begins as files of a format do.
pub open spec fn is_audio(data: Seq<u8>, format: AudioFormat) -> bool {
    match format {
        AudioFormat::Wav => bytes_at(data, 0, encode_utf8("RIFF"@)) && bytes_at(
            data,
            8,
            encode_utf8("WAVE"@),
        ),
        AudioFormat::Ogg => bytes_at(data, 0, encode_utf8("OggS"@)),
        AudioFormat::Mp3 => bytes_at(data, 0, encode_utf8("ID3"@)) || data.len() >= 2 && data[0]
            == 0xff && data[1] >= 0xe0,
    }
}

/// Returns whether data begins as files of a format do.
pub fn valid_audio_data(data: &[u8], format: AudioFormat) -> (result: bool)
    ensures
        result == is_audio(data@, format),
{
    match format {
        AudioFormat::Wav => has_bytes(data, 0, "RIFF".as_bytes()) && has_bytes(
            data,
            8,
            "WAVE".as_bytes(),
        ),
        AudioFormat::Ogg => has_bytes(data, 0, "OggS".as_bytes()),
        AudioFormat::Mp3 => has_bytes(data, 0, "ID3".as_bytes()) || data.len() >= 2 && data[0]
            == 0xff && data[1] >= 0xe0,
    }
}

/// The sum of the first bytes from an index on.
pub open spec fn byte_sum(data: Seq<u8>, start: int, count: int) -> int
    decreases count,
{
    if count <= 0 {
        0
    } else {
        byte_sum(data, start, count - 1) + data[start + count - 1]
    }
}

/// The length of the Ogg page at an index, or what is wrong with it.
pub open spec fn page_length(data: Seq<u8>, index: int) -> Result<int, Seq<char>> {
    let place = digits(index as nat, 10);
    let left = data.len() - index;
    let segments = data[index + 26] as int;
    let length = 27 + segments + byte_sum(data, index + 27, segments);
    if left < 27 || !bytes_at(data, index, encode_utf8("OggS"@)) {
        Err("invalid Ogg page at byte "@ + place)
    } else if left < 27 + segments {
        Err("truncated Ogg segment table at byte "@ + place)
    } else if left < length {
        Err("truncated Ogg page at byte "@ + place)
    } else {
        Ok(length)
    }
}

/// A value after a number of steps of the division by the polynomial of Ogg.
pub open spec fn divided(value: u32, count: nat) -> u32
    decreases count,
{
    if count == 0 {
        value
    } else {
        let before = divided(value, (count - 1) as nat);
        if before & 0x8000_0000 != 0 {
            (before << 1) ^ 0x04c1_1db7
        } else {
            before << 1
        }
    }
}

/// The checksum of the first bytes.
pub open spec fn checksum(bytes: Seq<u8>, count: int) -> u32
    decreases count,
{
    if count <= 0 {
        0
    } else {
        let before = checksum(bytes, count - 1);
        (before << 8) ^ divided(((((before >> 24) as u8) ^ bytes[count - 1]) as u32) << 24, 8)
    }
}

fn divide(value: u32) -> (result: u32)
    ensures
        result == divided(value, 8),
{
    let mut result = value;
    let mut bit: u32 = 0;
    while bit < 8
        invariant
            bit <= 8,
            result == divided(value, bit as nat),
        decreases 8 - bit,
    {
        result = if result & 0x8000_0000 != 0 {
            (result << 1) ^ 0x04c1_1db7
        } else {
            result << 1
        };
        bit += 1;
    }
    result
}

/// Returns the checksum of some bytes.
pub fn ogg_crc(bytes: &[u8]) -> (crc: u32)
    ensures
        crc == checksum(bytes@, bytes@.len() as int),
{
    let mut crc: u32 = 0;
    let mut index: usize = 0;
    while index < bytes.len()
        invariant
            index <= bytes@.len(),
            crc == checksum(bytes@, index as int),
        decreases bytes.len() - index,
    {
        let part = ((crc >> 24) as u8) ^ bytes[index];
        crc = (crc << 8) ^ divide((part as u32) << 24);
        index += 1;
    }
    crc
}

/// Data with a serial number and the checksum in a page.
pub open spec fn with_page(data: Seq<u8>, index: int, length: int, serial: u32) -> Seq<u8> {
    let cleared = with_word(with_word(data, index + 14, serial as int), index + 22, 0);
    with_word(
        cleared,
        index + 22,
        checksum(cleared.subrange(index, index + length), length) as int,
    )
}

/// Data with a serial number and checksums in the pages from an index on, and
/// what is wrong with the first page that is not one.
pub open spec fn normalized(data: Seq<u8>, serial: u32, index: int) -> (Seq<u8>, Option<Seq<char>>)
    decreases data.len() - index,
{
    if index < 0 || index >= data.len() {
        (data, None)
    } else {
        match page_length(data, index) {
            Err(message) => (data, Some(message)),
            Ok(length) => if length <= 0 || with_page(data, index, length, serial).len()
                != data.len() {
                (data, None)
            } else {
                normalized(with_page(data, index, length, serial), serial, index + length)
            },
        }
    }
}

proof fn lemma_byte_sum(data: Seq<u8>, start: int, count: int)
    ensures
        0 <= byte_sum(data, start, count),
        0 <= count ==> byte_sum(data, start, count) <= 255 * count,
    decreases count,
{
    if count > 0 {
        lemma_byte_sum(data, start, count - 1);
    }
}

fn sum_bytes(data: &[u8], start: usize, count: usize) -> (sum: usize)
    requires
        start + count <= data@.len(),
        count <= 255,
    ensures
        sum == byte_sum(data@, start as int, count as int),
{
    let mut sum: usize = 0;
    let mut index: usize = 0;
    let length = data.len();
    while index < count
        invariant
            index <= count,
            count <= 255,
            start + count <= length,
            length == data@.len(),
            sum == byte_sum(data@, start as int, index as int),
            sum <= 255 * index,
        decreases count - index,
    {
        sum += data[start + index] as usize;
        index += 1;
    }
    sum
}

fn place_message(message: &str, index: usize) -> (text: String)
    ensures
        text@ == message@ + digits(index as nat, 10),
{
    let mut text = message.to_owned();
    let place = decimal(index as u64);
    text.append(place.as_str());
    text
}

fn measure_page(data: &[u8], index: usize) -> (result: Result<usize, String>)
    requires
        index < data@.len(),
    ensures
        match result {
            Ok(length) => page_length(data@, index as int) == Ok::<int, Seq<char>>(length as int)
                && 27 <= length <= data@.len() - index,
            Err(message) => page_length(data@, index as int) == Err::<int, Seq<char>>(message@),
        },
{
    let left = data.len() - index;
    if left < 27 || !has_bytes(data, index, "OggS".as_bytes()) {
        return Err(place_message("invalid Ogg page at byte ", index));
    }
    let segments = data[index + 26] as usize;
    if left < 27 + segments {
        return Err(place_message("truncated Ogg segment table at byte ", index));
    }
    proof {
        lemma_byte_sum(data@, index + 27, segments as int);
    }
    let body = sum_bytes(data, index + 27, segments);
    let length = 27 + segments + body;
    if left < length {
        return Err(place_message("truncated Ogg page at byte ", index));
    }
    Ok(length)
}

fn set_page(data: &mut Vec<u8>, index: usize, length: usize, serial: u32)
    requires
        27 <= length,
        index + length <= old(data)@.len(),
    ensures
        final(data)@ == with_page(old(data)@, index as int, length as int, serial),
        final(data)@.len() == old(data)@.len(),
{
    let total = data.len();
    set_word(data, index + 14, serial);
    set_word(data, index + 22, 0);
    let crc = ogg_crc(
        vstd::slice::slice_subrange(data.as_slice(), index, index + length),
    );
    set_word(data, index + 22, crc);
}

/// Writes a serial number and checksums to the pages of an Ogg file.
pub fn normalize_ogg(data: &mut Vec<u8>, serial: u32) -> (result: Result<(), String>)
    ensures
        match result {
            Ok(()) => normalized(old(data)@, serial, 0) == (final(data)@, None::<Seq<char>>),
            Err(message) => normalized(old(data)@, serial, 0) == (final(data)@, Some(message@)),
        },
{
    let length = data.len();
    let mut index: usize = 0;
    while index < length
        invariant
            index <= length,
            length == data@.len(),
            normalized(old(data)@, serial, 0) == normalized(data@, serial, index as int),
        decreases length - index,
    {
        match measure_page(data.as_slice(), index) {
            Err(message) => {
                return Err(message);
            },
            Ok(page) => {
                set_page(data, index, page, serial);
                index += page;
            },
        }
    }
    Ok(())
}

/// A page that is normalized has the serial number and the checksum of the page
/// with a zero in place of the checksum; its other bytes are as they were.
pub proof fn law_normalized_page(data: Seq<u8>, index: int, length: int, serial: u32)
    requires
        0 <= index,
        27 <= length,
        index + length <= data.len(),
    ensures
        ({
            let page = with_page(data, index, length, serial);
            &&& page.len() == data.len()
            &&& word_at(page, index + 14) == serial
            &&& word_at(page, index + 22) == checksum(
                with_word(page, index + 22, 0).subrange(index, index + length),
                length,
            )
            &&& forall|k: int|
                0 <= k < data.len() && !(index + 14 <= k < index + 18) && !(index + 22 <= k < index
                    + 26) ==> #[trigger] page[k] == data[k]
        }),
{
    let numbered = with_word(data, index + 14, serial as int);
    let cleared = with_word(numbered, index + 22, 0);
    let crc = checksum(cleared.subrange(index, index + length), length);
    let page = with_page(data, index, length, serial);
    assert(page == with_word(cleared, index + 22, crc as int));
    assert(page.subrange(index + 14, index + 18) =~= le32(serial as int));
    lemma_word_round_trip(page, index + 14, serial);
    assert(page.subrange(index + 22, index + 26) =~= le32(crc as int));
    lemma_word_round_trip(page, index + 22, crc);
    assert(with_word(page, index + 22, 0) =~= cleared);
}


/// Why a sound cannot be converted.
#[derive(Debug, Clone, PartialEq, Eq)]
pub enum AudioError {
    Io { path: String, message: String },
    MissingSource { sound: String, path: String },
    MissingConverter,
    ConversionFailed { sound: String, status: Option<i32>, output: String },
    TempFileExhausted { root: String },
}

/// The spelling of the status of a process.
pub open spec fn status_text(status: Option<i32>) -> Seq<char> {
    match status {
        Some(code) => "Some("@ + signed_digits(code as int) + ")"@,
        None => "None"@,
    }
}

/// The message of an error.
pub open spec fn audio_error_text(error: AudioError) -> Seq<char> {
    match error {
        AudioError::Io { path, message } => path@ + ": "@ + message@,
        AudioError::MissingSource { sound, path } => "sound "@ + sound@ + " has no loaded source "@
            + path@,
        AudioError::MissingConverter => "ffmpeg was not found next to gmx or on PATH"@,
        AudioError::ConversionFailed { sound, status, output } => "audio conversion failed for "@
            + sound@ + " with status "@ + status_text(status) + ": "@ + output@,
        AudioError::TempFileExhausted { root } =>
            "could not create a unique audio conversion file under "@ + root@,
    }
}

fn spell_status(status: Option<i32>) -> (text: String)
    ensures
        text@ == status_text(status),
{
    match status {
        Some(code) => {
            let mut text = "Some(".to_owned();
            let number = signed_decimal(code as i64);
            text.append(number.as_str());
            text.append(")");
            text
        },
        None => "None".to_owned(),
    }
}

impl AudioError {
    /// Returns the message of the error.
    pub fn text(&self) -> (text: String)
        ensures
            text@ == audio_error_text(*self),
    {
        match self {
            AudioError::Io { path, message } => {
                let mut text = path.clone();
                text.append(": ");
                text.append(message.as_str());
                text
            },
            AudioError::MissingSource { sound, path } => {
                let mut text = "sound ".to_owned();
                text.append(sound.as_str());
                text.append(" has no loaded source ");
                text.append(path.as_str());
                text
            },
            AudioError::MissingConverter => {
                "ffmpeg was not found next to gmx or on PATH".to_owned()
            },
            AudioError::ConversionFailed { sound, status, output } => {
                let mut text = "audio conversion failed for ".to_owned();
                text.append(sound.as_str());
                text.append(" with status ");
                let shown = spell_status(*status);
                text.append(shown.as_str());
                text.append(": ");
                text.append(output.as_str());
                text
            },
            AudioError::TempFileExhausted { root } => {
                let mut text =
                    "could not create a unique audio conversion file under ".to_owned();
                text.append(root.as_str());
                text
            },
        }
    }
}

/// What is wrong with the sounds of a project.
pub open spec fn audio_fault(message: Seq<char>) -> WriteFault {
    invalid("audio data: "@ + message)
}

/// Returns the error of a build whose sounds cannot be converted.
pub fn invalid_audio(error: &AudioError) -> (result: WriteError)
    ensures
        result@ == audio_fault(audio_error_text(*error)),
{
    let mut message = "audio data: ".to_owned();
    let text = error.text();
    message.append(text.as_str());
    WriteError::InvalidVmData { message }
}

/// The length of a file and the time of its last change, as far as they are
/// known.
#[derive(Debug, Clone, Copy, PartialEq, Eq)]
pub struct FileMark {
    pub length: Option<u64>,
    pub modified: Option<(u64, u32)>,
}

/// The bytes that stand for a mark.
pub open spec fn mark_bytes(mark: FileMark) -> Seq<u8> {
    (match mark.length {
        None => seq![],
        Some(length) => le64(length as int) + (match mark.modified {
            None => seq![],
            Some((seconds, nanos)) => le64(seconds as int) + le32(nanos as int),
        }),
    }) + seq![0u8]
}

/// Adds the bytes that stand for a mark.
pub fn append_mark(bytes: &mut Vec<u8>, mark: FileMark)
    ensures
        final(bytes)@ == old(bytes)@ + mark_bytes(mark),
{
    let ghost start = bytes@;
    if let Some(length) = mark.length {
        append_u64(bytes, length);
        if let Some((seconds, nanos)) = mark.modified {
            append_u64(bytes, seconds);
            append_u32(bytes, nanos);
        }
    }
    bytes.push(0);
    assert(bytes@ =~= start + mark_bytes(mark));
}

/// Everything that the conversion of a sound depends on.
pub open spec fn conversion_bytes(
    sound: Sound,
    data: Seq<u8>,
    converter: Seq<char>,
    mark: FileMark,
) -> Seq<u8> {
    encode_utf8("gmx-rs-audio-cache-v3\0"@) + data + encode_utf8(converter) + mark_bytes(mark)
        + seq![AudioFormat::wanted(sound).number()] + le32(unsigned32(sound.bit_rate)) + le32(
        unsigned32(sound.sample_rate),
    ) + le32(unsigned32(sound.bit_depth)) + seq![
        if sound.stereo {
            1u8
        } else {
            0u8
        },
    ]
}

/// How a sound is converted: to which format, under which key the result is
/// kept, and with which serial number.
#[derive(Debug, Clone, PartialEq, Eq)]
pub struct Conversion {
    pub format: AudioFormat,
    pub key: String,
    pub serial: u32,
    pub cache_name: String,
}

/// Whether a conversion is the one of a sound whose conversion depends on some
/// bytes with a digest.
pub open spec fn is_conversion(conversion: Conversion, sound: Sound, digest: Seq<u8>) -> bool {
    &&& conversion.format == AudioFormat::wanted(sound)
    &&& conversion.key@ == hex_text(digest)
    &&& conversion.serial == word_at(digest, 0)
    &&& conversion.cache_name@ == hex_text(digest) + "."@ + AudioFormat::wanted(sound).suffix()
}

/// Returns how a sound is converted, given a digest of what its conversion
/// depends on.
pub fn conversion_with(sound: &Sound, digest: &[u8; 16]) -> (conversion: Conversion)
    ensures
        is_conversion(conversion, *sound, digest@),
{
    let format = AudioFormat::of(sound);
    let key = hex(digest);
    let serial = read_word(digest, 0);
    let mut cache_name = key.clone();
    cache_name.append(".");
    cache_name.append(format.extension());
    Conversion { format, key, serial, cache_name }
}

/// Returns how a sound is converted.
pub fn plan_conversion(assets: &Assets, sound: &Sound, converter: &str, mark: FileMark) -> (result:
    Result<Conversion, AudioError>)
    ensures
        match (result, assets.contents(sound.audio_source@)) {
            (Ok(conversion), Some(data)) => is_conversion(
                conversion,
                *sound,
                md5_digest(conversion_bytes(*sound, data, converter@, mark)),
            ),
            (Err(AudioError::MissingSource { sound: name, path }), None) => name@ == sound.name@
                && path@ == sound.audio_source@,
            _ => false,
        },
{
    match assets.binary(sound.audio_source.as_str()) {
        None => Err(
            AudioError::MissingSource {
                sound: sound.name.clone(),
                path: sound.audio_source.clone(),
            },
        ),
        Some(data) => {
            let format = AudioFormat::of(sound);
            let mut bytes: Vec<u8> = Vec::new();
            append_text(&mut bytes, "gmx-rs-audio-cache-v3\0");
            append(&mut bytes, data);
            append_text(&mut bytes, converter);
            append_mark(&mut bytes, mark);
            bytes.push(
                match format {
                    AudioFormat::Wav => 0u8,
                    AudioFormat::Ogg => 1u8,
                    AudioFormat::Mp3 => 2u8,
                },
            );
            append_u32(&mut bytes, bits32(sound.bit_rate));
            append_u32(&mut bytes, bits32(sound.sample_rate));
            append_u32(&mut bytes, bits32(sound.bit_depth));
            bytes.push(
                if sound.stereo {
                    1u8
                } else {
                    0u8
                },
            );
            assert(bytes@ =~= conversion_bytes(*sound, data@, converter@, mark));
            let digest = md5(bytes.as_slice());
            Ok(conversion_with(sound, &digest))
        },
    }
}

/// The quality of Ogg files with a bit rate.
pub open spec fn ogg_quality(bit_rate: int) -> int {
    let quality = if bit_rate < 0 {
        -(-bit_rate / 64)
    } else {
        bit_rate / 64
    };
    if quality < 6 {
        quality
    } else {
        6
    }
}

/// The arguments that say how the converter makes a format.
pub open spec fn format_arguments(sound: Sound, format: AudioFormat) -> Seq<Seq<char>> {
    let channels = if sound.stereo {
        "2"@
    } else {
        "1"@
    };
    let rate = signed_digits(sound.sample_rate as int);
    match format {
        AudioFormat::Wav => seq![
            "-ac"@,
            channels,
            "-ar"@,
            rate,
            "-acodec"@,
            if sound.bit_depth == 8 {
                "pcm_u8"@
            } else {
                "pcm_s16le"@
            },
        ],
        AudioFormat::Ogg => seq![
            "-acodec"@,
            "libvorbis"@,
            "-ac"@,
            channels,
            "-ar"@,
            rate,
            "-aq"@,
            signed_digits(ogg_quality(sound.bit_rate as int)),
            "-loglevel"@,
            "quiet"@,
        ],
        AudioFormat::Mp3 => seq![
            "-acodec"@,
            "libmp3lame"@,
            "-ac"@,
            channels,
            "-ar"@,
            rate,
            "-ab"@,
            signed_digits(sound.bit_rate as int) + "k"@,
        ],
    }
}

fn quality_of(bit_rate: i32) -> (quality: i64)
    ensures
        quality == ogg_quality(bit_rate as int),
{
    let rate = bit_rate as i64;
    let quality = if rate < 0 {
        -(((-rate) as u64 / 64) as i64)
    } else {
        (rate as u64 / 64) as i64
    };
    if quality < 6 {
        quality
    } else {
        6
    }
}

fn push_text(texts: &mut Vec<String>, text: &str)
    ensures
        spelled(final(texts)@) == spelled(old(texts)@).push(text@),
{
    let ghost before = spelled(texts@);
    texts.push(text.to_owned());
    assert(spelled(texts@) =~= before.push(text@));
}

/// Returns the arguments of the converter for a sound.
pub fn converter_arguments(sound: &Sound, format: AudioFormat, output: &str) -> (arguments: Vec<
    String,
>)
    ensures
        spelled(arguments@) == seq!["-y"@, "-i"@, sound.audio_source@] + format_arguments(
            *sound,
            format,
        ) + seq![output@],
{
    let mut arguments: Vec<String> = Vec::new();
    assert(spelled(arguments@) =~= seq![]);
    push_text(&mut arguments, "-y");
    push_text(&mut arguments, "-i");
    push_text(&mut arguments, sound.audio_source.as_str());
    let channels = if sound.stereo {
        "2"
    } else {
        "1"
    };
    let rate = signed_decimal(sound.sample_rate as i64);
    match format {
        AudioFormat::Wav => {
            push_text(&mut arguments, "-ac");
            push_text(&mut arguments, channels);
            push_text(&mut arguments, "-ar");
            push_text(&mut arguments, rate.as_str());
            push_text(&mut arguments, "-acodec");
            if sound.bit_depth == 8 {
                push_text(&mut arguments, "pcm_u8");
            } else {
                push_text(&mut arguments, "pcm_s16le");
            }
        },
        AudioFormat::Ogg => {
            push_text(&mut arguments, "-acodec");
            push_text(&mut arguments, "libvorbis");
            push_text(&mut arguments, "-ac");
            push_text(&mut arguments, channels);
            push_text(&mut arguments, "-ar");
            push_text(&mut arguments, rate.as_str());
            push_text(&mut arguments, "-aq");
            let quality = signed_decimal(quality_of(sound.bit_rate));
            push_text(&mut arguments, quality.as_str());
            push_text(&mut arguments, "-loglevel");
            push_text(&mut arguments, "quiet");
        },
        AudioFormat::Mp3 => {
            push_text(&mut arguments, "-acodec");
            push_text(&mut arguments, "libmp3lame");
            push_text(&mut arguments, "-ac");
            push_text(&mut arguments, channels);
            push_text(&mut arguments, "-ar");
            push_text(&mut arguments, rate.as_str());
            push_text(&mut arguments, "-ab");
            let mut bit_rate = signed_decimal(sound.bit_rate as i64);
            bit_rate.append("k");
            push_text(&mut arguments, bit_rate.as_str());
        },
    }
    push_text(&mut arguments, output);
    assert(spelled(arguments@) =~= seq!["-y"@, "-i"@, sound.audio_source@] + format_arguments(
        *sound,
        format,
    ) + seq![output@]);
    arguments
}

/// What the converter printed, without white space around it.
pub open spec fn printed(errors: Seq<u8>) -> Seq<char> {
    trimmed(lossy_text(errors))
}

/// Whether an error says that the conversion of a sound failed.
pub open spec fn is_failure(
    error: AudioError,
    sound: Sound,
    status: Option<i32>,
    output: Seq<char>,
) -> bool {
    error matches AudioError::ConversionFailed { sound: name, status: code, output: text }
        && name@ == sound.name@ && code == status && text@ == output
}

/// Returns the error of a converter that failed.
pub fn converter_failure(sound: &Sound, status: Option<i32>, errors: &[u8]) -> (error: AudioError)
    ensures
        is_failure(error, *sound, status, printed(errors@)),
{
    let text = decode_lossily(errors);
    let output = trim(text.as_str());
    AudioError::ConversionFailed { sound: sound.name.clone(), status, output }
}

/// What the converter made, as it is used, or what is wrong with it.
pub open spec fn accepted(data: Seq<u8>, format: AudioFormat, serial: u32) -> Result<
    Seq<u8>,
    Seq<char>,
> {
    if data.len() == 0 {
        Err("converter produced an empty file"@)
    } else if format == AudioFormat::Ogg {
        match normalized(data, serial, 0) {
            (result, None) => Ok(result),
            (result, Some(message)) => Err(message),
        }
    } else {
        Ok(data)
    }
}

/// Returns what the converter made, as it is used.
pub fn accept_conversion(
    sound: &Sound,
    conversion: &Conversion,
    status: Option<i32>,
    data: Vec<u8>,
) -> (result: Result<Vec<u8>, AudioError>)
    ensures
        match accepted(data@, conversion.format, conversion.serial) {
            Ok(bytes) => result matches Ok(found) && found@ == bytes,
            Err(message) => result matches Err(error) && is_failure(
                error,
                *sound,
                status,
                message,
            ),
        },
{
    if data.len() == 0 {
        return Err(
            AudioError::ConversionFailed {
                sound: sound.name.clone(),
                status,
                output: "converter produced an empty file".to_owned(),
            },
        );
    }
    let mut bytes = data;
    if let AudioFormat::Ogg = conversion.format {
        if let Err(output) = normalize_ogg(&mut bytes, conversion.serial) {
            return Err(
                AudioError::ConversionFailed { sound: sound.name.clone(), status, output },
            );
        }
    }
    Ok(bytes)
}

/// The contents of a sound.
#[derive(Debug, Clone, PartialEq, Eq)]
pub struct AudioBlob {
    pub data: Vec<u8>,
}

/// The bytes of sounds.
pub open spec fn blob_bytes(blobs: Seq<AudioBlob>) -> Seq<Seq<u8>> {
    blobs.map_values(|blob: AudioBlob| blob.data@)
}

/// The file with the first waveforms, each behind its position in a table.
pub open spec fn with_waveforms(wad: Wad, blobs: Seq<Seq<u8>>, table: int, count: nat) -> Wad
    decreases count,
{
    if count == 0 {
        wad
    } else {
        let data = blobs[count - 1];
        with_waveforms(wad, blobs, table, (count - 1) as nat).aligned(4).here(
            table + 4 * (count - 1),
        ).count(data.len(), "audio waveform size"@).raw(data)
    }
}

/// The file with the chunk of some waveforms.
pub open spec fn audio_chunk(wad: Wad, blobs: Seq<Seq<u8>>) -> Wad {
    let counted = wad.opened(seq![0x41, 0x55, 0x44, 0x4f]).count(
        blobs.len(),
        "audio waveform count"@,
    );
    let written = if counted.fault is Some {
        counted
    } else {
        with_waveforms(
            counted.reserved(blobs.len()),
            blobs,
            wad.opened(seq![0x41, 0x55, 0x44, 0x4f]).bytes.len() as int + 4,
            blobs.len(),
        )
    };
    written.closed(wad.bytes.len() as int)
}

/// Writes the chunk of some waveforms.
pub fn write_audo(writer: &mut WadWriter, blobs: &Vec<AudioBlob>)
    requires
        old(writer).wf(),
    ensures
        final(writer).wf(),
        final(writer)@ == audio_chunk(old(writer)@, blob_bytes(blobs@)),
{
    let start = writer.open_chunk([0x41, 0x55, 0x44, 0x4f]);
    assert([0x41u8, 0x55u8, 0x44u8, 0x4fu8]@ =~= seq![0x41u8, 0x55u8, 0x44u8, 0x4fu8]);
    let ghost table = writer@.bytes.len() as int + 4;
    let ghost bytes = blob_bytes(blobs@);
    if let Some(slots) = writer.reserve_table(blobs.len(), "audio waveform count") {
        let ghost reserved = writer@;
        let mut index: usize = 0;
        while index < blobs.len()
            invariant
                index <= blobs@.len(),
                writer.wf(),
                bytes == blob_bytes(blobs@),
                slots@.len() == blobs@.len(),
                forall|k: int| 0 <= k < blobs@.len() ==> (#[trigger] slots@[k]) == table + 4 * k,
                writer@ == with_waveforms(reserved, bytes, table, index as nat),
            decreases blobs.len() - index,
        {
            writer.align(4);
            writer.patch_position(slots[index]);
            writer.write_count(blobs[index].data.len(), "audio waveform size");
            writer.write_all(blobs[index].data.as_slice());
            index += 1;
        }
    }
    writer.close_chunk(start);
}

/// The sounds of a project: their media, the waveforms of their groups, the
/// files of those that are streamed, and the targets of the groups.
#[derive(Debug)]
pub struct AudioData {
    pub sounds: Vec<SoundMedia>,
    pub groups: Vec<Vec<AudioBlob>>,
    pub streamed: Vec<GeneratedFile>,
    pub target_masks: Vec<i64>,
    pub target_mask: i64,
}

/// The files of the first sounds that are streamed.
pub open spec fn streamed_files(
    sounds: Seq<Sound>,
    media: Seq<MediaView>,
    converted: Seq<Seq<u8>>,
    count: int,
) -> Seq<FileView>
    decreases count,
{
    if count <= 0 {
        seq![]
    } else {
        let before = streamed_files(sounds, media, converted, count - 1);
        if sounds[count - 1].streamed {
            before.push(
                FileView {
                    path: media[count - 1].filename,
                    data: converted[sounds[count - 1].index as int],
                },
            )
        } else {
            before
        }
    }
}

/// The waveforms of a group: the converted sounds in the order of the names of
/// the files that they were made from.
pub open spec fn group_waveforms(
    sounds: Seq<Sound>,
    group_count: int,
    converted: Seq<Seq<u8>>,
    group: int,
) -> Seq<Seq<u8>> {
    group_list(original_names(sounds), sounds, group_count, group).map_values(
        |index: usize| converted[sounds[index as int].index as int],
    )
}

/// The bytes of lists.
pub open spec fn byte_views(lists: Seq<Vec<u8>>) -> Seq<Seq<u8>> {
    lists.map_values(|list: Vec<u8>| list@)
}

/// The number of groups of a project; there is always a first one.
pub open spec fn group_total(groups: Seq<AudioGroup>) -> int {
    if groups.len() == 0 {
        1
    } else {
        groups.len() as int
    }
}

/// The media of the sounds of a project, or why there are none: their number, or a
/// converter that is missing.
pub open spec fn prepared_media(assets: Assets, has_converter: bool) -> Result<
    Seq<MediaView>,
    WriteFault,
> {
    match all_media(assets.sounds@, group_total(assets.audio_groups@)) {
        Err(fault) => Err(fault),
        Ok(media) => if assets.sounds@.len() > 0 && !has_converter {
            Err(audio_fault(audio_error_text(AudioError::MissingConverter)))
        } else {
            Ok(media)
        },
    }
}

/// Returns the converter that the sounds of a project need, given the one that was
/// found: none if there are no sounds.
pub fn converter_for(sounds: &Vec<Sound>, found: Option<String>) -> (result: Result<
    Option<String>,
    AudioError,
>)
    ensures
        sounds@.len() == 0 ==> result == Ok::<Option<String>, AudioError>(None),
        sounds@.len() > 0 && found is None ==> result == Err::<Option<String>, AudioError>(
            AudioError::MissingConverter,
        ),
        sounds@.len() > 0 && found is Some ==> result == Ok::<Option<String>, AudioError>(found),
{
    if sounds.len() == 0 {
        Ok(None)
    } else {
        match found {
            Some(found) => Ok(Some(found)),
            None => Err(AudioError::MissingConverter),
        }
    }
}

impl AudioData {
    /// Whether the data are those of a project with converted sounds.
    pub open spec fn holds(
        &self,
        assets: Assets,
        media: Seq<MediaView>,
        converted: Seq<Seq<u8>>,
    ) -> bool {
        let count = group_total(assets.audio_groups@);
        &&& media_views(self.sounds@) == media
        &&& self.groups@.len() == count
        &&& forall|group: int|
            0 <= group < count ==> blob_bytes((#[trigger] self.groups@[group])@) == group_waveforms(
                assets.sounds@,
                count,
                converted,
                group,
            )
        &&& file_views(self.streamed@) == streamed_files(
            assets.sounds@,
            media,
            converted,
            assets.sounds@.len() as int,
        )
        &&& self.target_masks@ == assets.audio_groups@.map_values(
            |group: AudioGroup| group.target_mask,
        )
        &&& self.target_mask == assets.target_mask
    }

    /// Prepares the sounds of a project, which have been converted, given the
    /// converter that was found. Without one there can be no sounds.
    #[verifier::spinoff_prover]
    pub fn prepare(
        assets: &Assets,
        converter: Option<&str>,
        converted: &Vec<Vec<u8>>,
    ) -> (result: Result<AudioData, WriteError>)
        requires
            are_numbered(assets.sounds@),
            converter is Some || assets.sounds@.len() == 0 ==> converted@.len()
                == assets.sounds@.len(),
        ensures
            match (result, prepared_media(*assets, converter is Some)) {
                (Ok(audio), Ok(media)) => audio.holds(*assets, media, byte_views(converted@)),
                (Err(error), Err(fault)) => error@ == fault,
                _ => false,
            },
    {
        let sounds = &assets.sounds;
        let group_count = if assets.audio_groups.len() == 0 {
            1
        } else {
            assets.audio_groups.len()
        };
        let media = match sound_media(sounds, group_count) {
            Ok(media) => media,
            Err(error) => {
                return Err(error);
            },
        };
        if sounds.len() > 0 && converter.is_none() {
            return Err(invalid_audio(&AudioError::MissingConverter));
        }
        let ghost views = media_views(media@);
        let ghost bytes = byte_views(converted@);
        proof {
            lemma_media_length(sounds@, group_count as int, sounds@.len() as int);
            assert(views.len() == sounds@.len());
        }
        let mut streamed: Vec<GeneratedFile> = Vec::new();
        let mut index: usize = 0;
        assert(file_views(streamed@) =~= seq![]);
        while index < sounds.len()
            invariant
                index <= sounds@.len(),
                views == media_views(media@),
                views.len() == sounds@.len(),
                bytes == byte_views(converted@),
                are_numbered(sounds@),
                converted@.len() == sounds@.len(),
                file_views(streamed@) == streamed_files(sounds@, views, bytes, index as int),
            decreases sounds.len() - index,
        {
            if sounds[index].streamed {
                let file = GeneratedFile {
                    path: media[index].filename.clone(),
                    data: copy_bytes(converted[sounds[index].index].as_slice()),
                };
                let ghost before = file_views(streamed@);
                let ghost added = file@;
                streamed.push(file);
                assert(file_views(streamed@) =~= before.push(added));
            }
            index += 1;
        }
        let names = original_names_of(sounds);
        assert(names@.len() == spelled(names@).len());
        let mut groups: Vec<Vec<AudioBlob>> = Vec::new();
        let mut group: usize = 0;
        while group < group_count
            invariant
                group <= group_count,
                names@.len() == sounds@.len(),
                spelled(names@) == original_names(sounds@),
                are_numbered(sounds@),
                converted@.len() == sounds@.len(),
                bytes == byte_views(converted@),
                groups@.len() == group,
                forall|g: int|
                    0 <= g < group ==> blob_bytes((#[trigger] groups@[g])@) == group_waveforms(
                        sounds@,
                        group_count as int,
                        bytes,
                        g,
                    ),
            decreases group_count - group,
        {
            let list = list_group(&names, sounds, group_count, group);
            let total = sounds.len();
            proof {
                lemma_sorted_members(
                    original_names(sounds@),
                    in_group(sounds@, group_count as int, group as int),
                    total as int,
                );
            }
            let blobs = collect_blobs(&list, sounds, converted);
            assert(blob_bytes(blobs@) =~= group_waveforms(
                sounds@,
                group_count as int,
                bytes,
                group as int,
            ));
            groups.push(blobs);
            group += 1;
        }
        let target_masks = masks_of(&assets.audio_groups);
        Ok(
            AudioData {
                sounds: media,
                groups,
                streamed,
                target_masks,
                target_mask: assets.target_mask,
            },
        )
    }

    /// Returns the media of a sound.
    pub fn sound(&self, index: usize) -> (media: &SoundMedia)
        requires
            index < self.sounds@.len(),
        ensures
            *media == self.sounds@[index as int],
    {
        &self.sounds[index]
    }

    /// Writes the waveforms of the first group.
    pub fn add_chunk(&self, writer: &mut WadWriter)
        requires
            self.groups@.len() > 0,
            old(writer).wf(),
        ensures
            final(writer).wf(),
            final(writer)@ == audio_chunk(old(writer)@, blob_bytes(self.groups@[0]@)),
    {
        write_audo(writer, &self.groups[0]);
    }

    /// The targets of a group.
    pub open spec fn mask_of(&self, group: int) -> i64 {
        if 0 <= group < self.target_masks@.len() {
            self.target_masks@[group]
        } else {
            i64::MAX
        }
    }

    /// The files that stand beside the data file: the streamed sounds and the
    /// first groups that have sounds and are wanted for the target.
    pub open spec fn files(&self, count: int) -> Result<Seq<FileView>, WriteFault>
        decreases count,
    {
        if count <= 1 {
            Ok(file_views(self.streamed@))
        } else {
            let group = count - 1;
            let blobs = blob_bytes(self.groups@[group]@);
            match self.files(count - 1) {
                Err(fault) => Err(fault),
                Ok(files) => if blobs.len() == 0 || self.mask_of(group) & self.target_mask == 0 {
                    Ok(files)
                } else {
                    let wad = audio_chunk(empty_wad(), blobs).closed(0);
                    match wad.fault {
                        Some(fault) => Err(fault),
                        None => Ok(
                            files.push(
                                FileView {
                                    path: "audiogroup"@ + digits(group as nat, 10) + ".dat"@,
                                    data: wad.bytes,
                                },
                            ),
                        ),
                    }
                },
            }
        }
    }

    proof fn lemma_fault_stays(&self, count: int, end: int)
        requires
            1 <= count <= end,
            self.files(count) is Err,
        ensures
            self.files(end) == self.files(count),
        decreases end - count,
    {
        if count < end {
            self.lemma_fault_stays(count, end - 1);
        }
    }

    /// Returns the files that stand beside the data file.
    #[verifier::spinoff_prover]
    pub fn external_files(&self) -> (result: Result<Vec<GeneratedFile>, WriteError>)
        ensures
            match result {
                Ok(files) => self.files(self.groups@.len() as int) == Ok::<
                    Seq<FileView>,
                    WriteFault,
                >(file_views(files@)),
                Err(error) => self.files(self.groups@.len() as int) == Err::<
                    Seq<FileView>,
                    WriteFault,
                >(error@),
            },
    {
        let mut files: Vec<GeneratedFile> = Vec::new();
        let mut index: usize = 0;
        while index < self.streamed.len()
            invariant
                index <= self.streamed@.len(),
                file_views(files@) == file_views(self.streamed@).take(index as int),
            decreases self.streamed.len() - index,
        {
            let file = GeneratedFile {
                path: self.streamed[index].path.clone(),
                data: copy_bytes(self.streamed[index].data.as_slice()),
            };
            let ghost before = file_views(files@);
            let ghost added = file@;
            files.push(file);
            assert(file_views(files@) =~= before.push(added));
            assert(file_views(files@) =~= file_views(self.streamed@).take(index + 1));
            index += 1;
        }
        assert(file_views(self.streamed@).take(index as int) =~= file_views(self.streamed@));
        let mut group: usize = 1;
        while group < self.groups.len()
            invariant
                1 <= group,
                group <= self.groups@.len() || group == 1,
                self.files(group as int) == Ok::<Seq<FileView>, WriteFault>(file_views(files@)),
            decreases self.groups.len() - group,
        {
            let mask = if group < self.target_masks.len() {
                self.target_masks[group]
            } else {
                i64::MAX
            };
            if self.groups[group].len() > 0 && mask & self.target_mask != 0 {
                let mut writer = WadWriter::new();
                write_audo(&mut writer, &self.groups[group]);
                match writer.finish() {
                    Err(error) => {
                        proof {
                            self.lemma_fault_stays(group + 1, self.groups@.len() as int);
                        }
                        return Err(error);
                    },
                    Ok(written) => {
                        let mut path = "audiogroup".to_owned();
                        let number = decimal(group as u64);
                        path.append(number.as_str());
                        path.append(".dat");
                        let file = GeneratedFile { path, data: written.bytes };
                        let ghost before = file_views(files@);
                        let ghost added = file@;
                        files.push(file);
                        assert(file_views(files@) =~= before.push(added));
                    },
                }
            }
            group += 1;
        }
        Ok(files)
    }
}

proof fn lemma_media_length(sounds: Seq<Sound>, group_count: int, count: int)
    requires
        0 <= count,
    ensures
        media_so_far(sounds, group_count, count).media.len() == count,
    decreases count,
{
    if count > 0 {
        lemma_media_length(sounds, group_count, count - 1);
    }
}

fn collect_blobs(
    list: &Vec<usize>,
    sounds: &Vec<Sound>,
    converted: &Vec<Vec<u8>>,
) -> (blobs: Vec<AudioBlob>)
    requires
        are_numbered(sounds@),
        converted@.len() == sounds@.len(),
        forall|k: int| 0 <= k < list@.len() ==> (#[trigger] list@[k]) < sounds@.len(),
    ensures
        blob_bytes(blobs@) == list@.map_values(
            |index: usize| byte_views(converted@)[sounds@[index as int].index as int],
        ),
{
    let mut blobs: Vec<AudioBlob> = Vec::new();
    let mut index: usize = 0;
    while index < list.len()
        invariant
            index <= list@.len(),
            are_numbered(sounds@),
            converted@.len() == sounds@.len(),
            forall|k: int| 0 <= k < list@.len() ==> (#[trigger] list@[k]) < sounds@.len(),
            blobs@.len() == index,
            forall|k: int|
                0 <= k < index ==> (#[trigger] blobs@[k]).data@
                    == converted@[sounds@[list@[k] as int].index as int]@,
        decreases list.len() - index,
    {
        let number = sounds[list[index]].index;
        blobs.push(AudioBlob { data: copy_bytes(converted[number].as_slice()) });
        index += 1;
    }
    assert(blob_bytes(blobs@) =~= list@.map_values(
        |index: usize| byte_views(converted@)[sounds@[index as int].index as int],
    ));
    blobs
}

fn masks_of(groups: &Vec<AudioGroup>) -> (masks: Vec<i64>)
    ensures
        masks@ == groups@.map_values(|group: AudioGroup| group.target_mask),
{
    let mut masks: Vec<i64> = Vec::new();
    let mut index: usize = 0;
    while index < groups.len()
        invariant
            index <= groups@.len(),
            masks@.len() == index,
            forall|k: int| 0 <= k < index ==> (#[trigger] masks@[k]) == groups@[k].target_mask,
        decreases groups.len() - index,
    {
        masks.push(groups[index].target_mask);
        index += 1;
    }
    assert(masks@ =~= groups@.map_values(|group: AudioGroup| group.target_mask));
    masks
}

} // verus!
