//! Laws of the data file: the lengths of chunks, the words that refer to texts,
//! and the chains through the code.

use vstd::prelude::*;
use vstd::utf8::*;

use crate::bytes::{bytes_at, lemma_word_round_trip};
use crate::gml::backend::CompiledCode;
use crate::gml::chunks::{
    first_variables, key_of, link_count, location_of, reference_names, variable_from,
    with_function_links, with_variable_links, ReferenceLocation, VariableKey, VariableRecord,
    Variables,
};
use crate::gml::symbols::Builtins;
use crate::gml::vm::{le32, with_word, word_at, VariableKind, VariableReference};
use crate::wad::{empty_wad, text_record, TextLink, Texture, Wad};

verus! {

/// Whether two words in a file do not overlap.
pub open spec fn are_apart(first: int, second: int) -> bool {
    first + 4 <= second || second + 4 <= first
}

proof fn lemma_with_word(bytes: Seq<u8>, position: int, value: u32)
    requires
        0 <= position,
        position + 4 <= bytes.len(),
    ensures
        with_word(bytes, position, value as int).len() == bytes.len(),
        word_at(with_word(bytes, position, value as int), position) == value,
        forall|k: int|
            0 <= k < bytes.len() && !(position <= k < position + 4) ==> #[trigger] with_word(
                bytes,
                position,
                value as int,
            )[k] == bytes[k],
{
    let after = with_word(bytes, position, value as int);
    let word = le32(value as int);
    assert(after[position] == word[0]);
    assert(after[position + 1] == word[1]);
    assert(after[position + 2] == word[2]);
    assert(after[position + 3] == word[3]);
    assert(word.subrange(0, 4) =~= word);
    lemma_word_round_trip(word, 0, value);
}

/// A chunk that is closed holds the number of the bytes behind its head, and all
/// other bytes are as they were.
pub proof fn law_closed_chunk_holds_its_length(wad: Wad, start: int)
    requires
        wad.fault is None,
        0 <= start,
        start + 8 <= wad.bytes.len() <= start + 8 + u32::MAX,
    ensures
        wad.closed(start).fault is None,
        wad.closed(start).bytes.len() == wad.bytes.len(),
        word_at(wad.closed(start).bytes, start + 4) == wad.bytes.len() - start - 8,
        forall|k: int|
            0 <= k < wad.bytes.len() && !(start + 4 <= k < start + 8)
                ==> #[trigger] wad.closed(start).bytes[k] == wad.bytes[k],
{
    reveal(Wad::patched);
    lemma_with_word(wad.bytes, start + 4, (wad.bytes.len() - start - 8) as u32);
}

/// Whether the words of a file that are to refer to texts are within the file
/// and apart from each other, and refer to texts of the list.
pub open spec fn links_fit(wad: Wad) -> bool {
    &&& forall|k: int|
        0 <= k < wad.text_links.len() ==> (#[trigger] wad.text_links[k]).position + 4
            <= wad.bytes.len() && wad.text_links[k].text < wad.texts.len()
    &&& forall|i: int, j: int|
        0 <= i < j < wad.text_links.len() ==> are_apart(
            (#[trigger] wad.text_links[i]).position as int,
            (#[trigger] wad.text_links[j]).position as int,
        )
}

/// Whatever is written to a file, the words that are to refer to texts stay
/// within it and apart from each other.
pub proof fn law_links_stay_apart(
    wad: Wad,
    more: Seq<u8>,
    text: Seq<char>,
    texture: Texture,
    position: int,
    value: u32,
)
    requires
        links_fit(wad),
        wad.bytes.len() <= usize::MAX,
        wad.texts.len() < usize::MAX,
        0 <= position,
    ensures
        links_fit(empty_wad()),
        links_fit(wad.raw(more)),
        links_fit(wad.with_text(text)),
        links_fit(wad.text(text)),
        links_fit(wad.texture(texture)),
        links_fit(wad.patched(position, value)),
{
    reveal(Wad::raw);
    reveal(Wad::text);
    reveal(Wad::texture);
    reveal(Wad::patched);
    let listed = wad.with_text(text);
    if wad.fault is None {
        assert(listed.texts.contains(text)) by {
            if !wad.texts.contains(text) {
                assert(wad.texts.push(text)[wad.texts.len() as int] == text);
            }
        }
        let number = crate::wad::number_of(listed.texts, text);
        assert(0 <= number < listed.texts.len());
        let after = wad.text(text);
        assert forall|k: int| 0 <= k < after.text_links.len() implies (
        #[trigger] after.text_links[k]).position + 4 <= after.bytes.len()
            && after.text_links[k].text < after.texts.len() by {
            if k < wad.text_links.len() {
                assert(after.text_links[k] == wad.text_links[k]);
            }
        }
        assert forall|i: int, j: int| 0 <= i < j < after.text_links.len() implies are_apart(
            (#[trigger] after.text_links[i]).position as int,
            (#[trigger] after.text_links[j]).position as int,
        ) by {
            assert(after.text_links[i] == wad.text_links[i]);
            if j < wad.text_links.len() {
                assert(after.text_links[j] == wad.text_links[j]);
            }
        }
        if position + 4 <= wad.bytes.len() {
            lemma_with_word(wad.bytes, position, value);
        }
    }
}

/// How a text stands in a file: behind its length and before a zero.
#[verifier::opaque]
pub open spec fn text_bytes(text: Seq<char>) -> Seq<u8> {
    le32(encode_utf8(text).len() as int) + encode_utf8(text) + seq![0u8]
}

/// Whether a word of a table leads to a text behind the table.
pub open spec fn text_stands(
    bytes: Seq<u8>,
    table: int,
    behind: int,
    texts: Seq<Seq<char>>,
    index: int,
) -> bool {
    let place = word_at(bytes, table + 4 * index);
    behind <= place && bytes_at(bytes, place, text_bytes(texts[index]))
}

/// Whether the first words of a table lead to texts behind the table.
pub open spec fn texts_stand(
    bytes: Seq<u8>,
    table: int,
    behind: int,
    texts: Seq<Seq<char>>,
    count: int,
) -> bool {
    forall|k: int| 0 <= k < count ==> #[trigger] text_stands(bytes, table, behind, texts, k)
}

proof fn lemma_text_record(wad: Wad, text: Seq<char>)
    ensures
        wad.fault is Some ==> text_record(wad, text).fault is Some,
        text_record(wad, text).fault is None ==> text_record(wad, text).bytes == wad.bytes
            + text_bytes(text),
{
    reveal(Wad::raw);
    reveal(text_bytes);
    let bytes = encode_utf8(text);
    if text_record(wad, text).fault is None {
        assert(wad.bytes + le32(bytes.len() as int) + bytes + seq![0u8] =~= wad.bytes + text_bytes(
            text,
        ));
    }
}

proof fn lemma_word_kept(before: Seq<u8>, after: Seq<u8>, position: int)
    requires
        0 <= position,
        position + 4 <= before.len() <= after.len(),
        forall|k: int| position <= k < position + 4 ==> after[k] == before[k],
    ensures
        word_at(after, position) == word_at(before, position),
{
}

proof fn lemma_bytes_kept(before: Seq<u8>, after: Seq<u8>, place: int, part: Seq<u8>)
    requires
        bytes_at(before, place, part),
        before.len() <= after.len(),
        forall|k: int| place <= k < place + part.len() ==> after[k] == before[k],
    ensures
        bytes_at(after, place, part),
{
    assert(after.subrange(place, place + part.len()) =~= before.subrange(
        place,
        place + part.len(),
    ));
}

#[verifier::spinoff_prover]
proof fn lemma_text_added(
    before: Seq<u8>,
    table: int,
    behind: int,
    texts: Seq<Seq<char>>,
    last: int,
)
    requires
        0 <= last < texts.len(),
        0 <= table,
        table + 4 * texts.len() <= behind <= before.len() <= u32::MAX,
        texts_stand(before, table, behind, texts, last),
    ensures
        ({
            let after = with_word(before, table + 4 * last, before.len() as int) + text_bytes(
                texts[last],
            );
            &&& before.len() <= after.len()
            &&& forall|k: int| 0 <= k < table ==> after[k] == before[k]
            &&& texts_stand(after, table, behind, texts, last + 1)
        }),
{
    let slot = table + 4 * last;
    let place = before.len() as u32;
    lemma_with_word(before, slot, place);
    let placed = with_word(before, slot, place as int);
    let part = text_bytes(texts[last]);
    let after = placed + part;
    assert(forall|k: int| 0 <= k < placed.len() ==> after[k] == placed[k]);
    assert forall|k: int| 0 <= k < last + 1 implies #[trigger] text_stands(
        after,
        table,
        behind,
        texts,
        k,
    ) by {
        lemma_word_kept(placed, after, table + 4 * k);
        if k == last {
            assert(after.subrange(place as int, place + part.len()) =~= part);
        } else {
            assert(text_stands(before, table, behind, texts, k));
            lemma_word_kept(before, placed, table + 4 * k);
            lemma_bytes_kept(
                before,
                after,
                word_at(before, table + 4 * k),
                text_bytes(texts[k]),
            );
        }
    }
}

#[verifier::spinoff_prover]
proof fn lemma_filled(wad: Wad, texts: Seq<Seq<char>>, table: int, count: nat)
    requires
        count <= texts.len(),
        0 <= table,
        table + 4 * texts.len() <= wad.bytes.len(),
        wad.filled(texts, |w: Wad, text: Seq<char>| text_record(w, text), table, count).fault
            is None,
    ensures
        ({
            let after = wad.filled(
                texts,
                |w: Wad, text: Seq<char>| text_record(w, text),
                table,
                count,
            );
            &&& wad.fault is None
            &&& wad.bytes.len() <= after.bytes.len()
            &&& forall|k: int| 0 <= k < table ==> after.bytes[k] == wad.bytes[k]
            &&& texts_stand(after.bytes, table, wad.bytes.len() as int, texts, count as int)
        }),
    decreases count,
{
    let record = |w: Wad, text: Seq<char>| text_record(w, text);
    if count > 0 {
        let last = count - 1;
        let before = wad.filled(texts, record, table, (count - 1) as nat);
        let placed = before.here(table + 4 * last);
        lemma_text_record(placed, texts[last]);
        reveal(Wad::patched);
        assert(before.fault is None);
        lemma_filled(wad, texts, table, (count - 1) as nat);
        assert(placed.bytes == with_word(
            before.bytes,
            table + 4 * last,
            before.bytes.len() as int,
        ));
        lemma_text_added(before.bytes, table, wad.bytes.len() as int, texts, last);
    }
}

proof fn lemma_reserved_bytes(wad: Wad, count: nat)
    ensures
        wad.reserved(count).fault == wad.fault,
        wad.fault is None ==> wad.reserved(count).bytes.len() == wad.bytes.len() + 4 * count,
        forall|k: int|
            0 <= k < wad.bytes.len() ==> #[trigger] wad.reserved(count).bytes[k] == wad.bytes[k],
    decreases count,
{
    reveal(Wad::raw);
    if count > 0 {
        lemma_reserved_bytes(wad, (count - 1) as nat);
    }
}

proof fn lemma_filled_keeps_fault(wad: Wad, texts: Seq<Seq<char>>, table: int, count: nat)
    requires
        wad.fault is Some,
    ensures
        wad.filled(texts, |w: Wad, text: Seq<char>| text_record(w, text), table, count).fault
            is Some,
    decreases count,
{
    if count > 0 {
        let record = |w: Wad, text: Seq<char>| text_record(w, text);
        let before = wad.filled(texts, record, table, (count - 1) as nat);
        lemma_filled_keeps_fault(wad, texts, table, (count - 1) as nat);
        reveal(Wad::patched);
        lemma_text_record(before.here(table + 4 * (count - 1)), texts[count - 1]);
    }
}

/// What stands in a file once words that refer to texts are filled in: the bytes
/// from an offset on as they were, and the words that are filled in.
#[verifier::spinoff_prover]
proof fn lemma_linked(
    wad: Wad,
    links: Seq<TextLink>,
    table: int,
    start: int,
    texts: nat,
    count: nat,
)
    requires
        wad.fault is None,
        count <= links.len(),
        0 <= start <= table,
        table + 4 * texts <= wad.bytes.len(),
        forall|k: int|
            0 <= k < links.len() ==> (#[trigger] links[k]).position + 4 <= start && links[k].text
                < texts,
        forall|i: int, j: int|
            0 <= i < j < links.len() ==> are_apart(
                (#[trigger] links[i]).position as int,
                (#[trigger] links[j]).position as int,
            ),
    ensures
        ({
            let after = wad.linked(links, table, count);
            &&& after.fault is None
            &&& after.bytes.len() == wad.bytes.len()
            &&& forall|k: int| start <= k < wad.bytes.len() ==> after.bytes[k] == wad.bytes[k]
            &&& forall|k: int|
                0 <= k < count ==> word_at(
                    after.bytes,
                    (#[trigger] links[k]).position as int,
                ) == (word_at(wad.bytes, table + 4 * links[k].text) + 4) as u32
        }),
    decreases count,
{
    reveal(Wad::patched);
    if count > 0 {
        let last = count - 1;
        let before = wad.linked(links, table, (count - 1) as nat);
        lemma_linked(wad, links, table, start, texts, (count - 1) as nat);
        let link = links[last];
        let slot = table + 4 * link.text;
        lemma_word_kept(wad.bytes, before.bytes, slot);
        let value = (word_at(before.bytes, slot) + 4) as u32;
        lemma_with_word(before.bytes, link.position as int, value);
        let after = wad.linked(links, table, count);
        assert(after.bytes == with_word(before.bytes, link.position as int, value as int));
        assert forall|k: int| 0 <= k < count implies word_at(
            after.bytes,
            (#[trigger] links[k]).position as int,
        ) == (word_at(wad.bytes, table + 4 * links[k].text) + 4) as u32 by {
            if k < last {
                assert(are_apart(links[k].position as int, links[last].position as int));
                lemma_word_kept(before.bytes, after.bytes, links[k].position as int);
            }
        }
    }
}

/// What a file is before the words that refer to texts are filled in.
pub open spec fn unlinked(wad: Wad) -> Wad {
    wad.opened(seq![0x53, 0x54, 0x52, 0x47]).table_of(
        wad.texts,
        |w: Wad, text: Seq<char>| text_record(w, text),
    ).closed(wad.bytes.len() as int)
}

#[verifier::spinoff_prover]
proof fn lemma_unlinked(wad: Wad)
    requires
        unlinked(wad).fault is None,
        unlinked(wad).bytes.len() <= u32::MAX,
    ensures
        ({
            let table = wad.bytes.len() as int + 12;
            let bytes = unlinked(wad).bytes;
            &&& table + 4 * wad.texts.len() <= bytes.len()
            &&& texts_stand(
                bytes,
                table,
                table + 4 * wad.texts.len(),
                wad.texts,
                wad.texts.len() as int,
            )
        }),
{
    let start = wad.bytes.len() as int;
    let table = start + 12;
    let record = |w: Wad, text: Seq<char>| text_record(w, text);
    let opened = wad.opened(seq![0x53, 0x54, 0x52, 0x47]);
    let counted = opened.count(wad.texts.len(), "offset table count"@);
    let written = opened.table_of(wad.texts, record);
    lemma_closed_fault(written, start);
    let reserved = counted.reserved(wad.texts.len());
    assert(counted.fault is None);
    lemma_counted(wad);
    lemma_reserved_bytes(counted, wad.texts.len());
    assert(written == reserved.filled(wad.texts, record, table, wad.texts.len()));
    lemma_filled(reserved, wad.texts, table, wad.texts.len());
    law_closed_chunk_holds_its_length(written, start);
    let bytes = unlinked(wad).bytes;
    let behind = table + 4 * wad.texts.len();
    assert forall|k: int| 0 <= k < wad.texts.len() implies #[trigger] text_stands(
        bytes,
        table,
        behind,
        wad.texts,
        k,
    ) by {
        assert(text_stands(written.bytes, table, behind, wad.texts, k));
        lemma_word_kept(written.bytes, bytes, table + 4 * k);
        lemma_bytes_kept(
            written.bytes,
            bytes,
            word_at(written.bytes, table + 4 * k),
            text_bytes(wad.texts[k]),
        );
    }
}

proof fn lemma_closed_fault(wad: Wad, start: int)
    requires
        wad.closed(start).fault is None,
    ensures
        wad.fault is None,
        wad.closed(start).bytes.len() <= u32::MAX && 0 <= start ==> wad.bytes.len() <= u32::MAX,
{
    reveal(Wad::patched);
    let length = wad.bytes.len() - start - 8;
    if 0 <= length <= u32::MAX && 0 <= start {
        lemma_with_word(wad.bytes, start + 4, length as u32);
    }
}

proof fn lemma_counted(wad: Wad)
    requires
        wad.opened(seq![0x53, 0x54, 0x52, 0x47]).count(
            wad.texts.len(),
            "offset table count"@,
        ).fault is None,
    ensures
        wad.fault is None,
        wad.opened(seq![0x53, 0x54, 0x52, 0x47]).bytes.len() == wad.bytes.len() + 8,
        wad.opened(seq![0x53, 0x54, 0x52, 0x47]).count(
            wad.texts.len(),
            "offset table count"@,
        ).bytes.len() == wad.bytes.len() + 12,
{
    reveal(Wad::raw);
}

proof fn lemma_text_parts(bytes: Seq<u8>, place: int, text: Seq<char>)
    requires
        bytes_at(bytes, place, text_bytes(text)),
    ensures
        bytes_at(bytes, place + 4, encode_utf8(text) + seq![0u8]),
        bytes_at(bytes, place, le32(encode_utf8(text).len() as int)),
{
    reveal(text_bytes);
    let part = text_bytes(text);
    let head = le32(encode_utf8(text).len() as int);
    let body = encode_utf8(text) + seq![0u8];
    let all = bytes.subrange(place, place + part.len());
    assert(part =~= head + body);
    assert(bytes.subrange(place, place + 4) =~= all.subrange(0, 4));
    assert(part.subrange(0, 4) =~= head);
    assert(bytes.subrange(place + 4, place + 4 + body.len()) =~= all.subrange(
        4,
        part.len() as int,
    ));
    assert(part.subrange(4, part.len() as int) =~= body);
}

/// In a file with its texts, each word that refers to a text holds the position
/// of the text, which stands there before a zero and behind its length.
#[verifier::spinoff_prover]
pub proof fn law_text_references_lead_to_texts(wad: Wad, index: int)
    requires
        links_fit(wad),
        wad.with_texts().fault is None,
        wad.with_texts().bytes.len() <= u32::MAX,
        0 <= index < wad.text_links.len(),
    ensures
        ({
            let bytes = wad.with_texts().bytes;
            let link = wad.text_links[index];
            let text = encode_utf8(wad.texts[link.text as int]);
            let place = word_at(bytes, link.position as int);
            &&& bytes_at(bytes, place, text + seq![0u8])
            &&& bytes_at(bytes, place - 4, le32(text.len() as int))
        }),
{
    let start = wad.bytes.len() as int;
    let table = start + 12;
    let before = unlinked(wad);
    assert(wad.with_texts() == before.linked(wad.text_links, table, wad.text_links.len()));
    lemma_linked_fault(before, wad.text_links, table, wad.text_links.len());
    lemma_linked_length(before, wad.text_links, table, wad.text_links.len());
    lemma_unlinked(wad);
    lemma_linked(
        before,
        wad.text_links,
        table,
        start,
        wad.texts.len(),
        wad.text_links.len(),
    );
    let link = wad.text_links[index];
    let bytes = wad.with_texts().bytes;
    let text = wad.texts[link.text as int];
    let found = word_at(before.bytes, table + 4 * link.text);
    assert(text_stands(
        before.bytes,
        table,
        table + 4 * wad.texts.len(),
        wad.texts,
        link.text as int,
    ));
    lemma_bytes_kept(before.bytes, bytes, found, text_bytes(text));
    lemma_text_parts(bytes, found, text);
}

proof fn lemma_linked_fault(wad: Wad, links: Seq<TextLink>, table: int, count: nat)
    ensures
        wad.linked(links, table, count).fault == wad.fault,
    decreases count,
{
    reveal(Wad::patched);
    if count > 0 {
        lemma_linked_fault(wad, links, table, (count - 1) as nat);
    }
}

proof fn lemma_linked_length(wad: Wad, links: Seq<TextLink>, table: int, count: nat)
    ensures
        wad.linked(links, table, count).bytes.len() == wad.bytes.len(),
    decreases count,
{
    reveal(Wad::patched);
    if count > 0 {
        lemma_linked_length(wad, links, table, (count - 1) as nat);
        let before = wad.linked(links, table, (count - 1) as nat);
        let link = links[count - 1];
        let slot = table + 4 * link.text;
        if slot + 4 <= before.bytes.len() && link.position + 4 <= before.bytes.len() {
            lemma_with_word(
                before.bytes,
                link.position as int,
                (word_at(before.bytes, slot) + 4) as u32,
            );
        }
    }
}

/// Whether the words of references are within a file and apart from each other.
pub open spec fn payloads_fit(references: Seq<ReferenceLocation>, length: nat) -> bool {
    &&& forall|k: int|
        0 <= k < references.len() ==> (#[trigger] references[k]).payload + 4 <= length
    &&& forall|i: int, j: int|
        0 <= i < j < references.len() ==> are_apart(
            (#[trigger] references[i]).payload as int,
            (#[trigger] references[j]).payload as int,
        )
}

/// Where one comes from the first reference of a chain in some steps: each word
/// tells how far the next instruction is.
pub open spec fn chained(bytes: Seq<u8>, references: Seq<ReferenceLocation>, steps: int) -> int
    decreases steps,
{
    if steps <= 0 {
        references[0].instruction as int
    } else {
        chained(bytes, references, steps - 1) + word_at(
            bytes,
            references[steps - 1].payload as int,
        ) % 0x1000_0000
    }
}

/// Whether the word of a reference tells how far the next instruction is and
/// keeps the flags of the access.
pub open spec fn leads_on(bytes: Seq<u8>, references: Seq<ReferenceLocation>, index: int) -> bool {
    let word = word_at(bytes, references[index].payload as int);
    &&& word % 0x1000_0000 == references[index + 1].instruction - references[index].instruction
    &&& word / 0x1000_0000 == references[index].flags as int / 0x1000_0000
}

proof fn lemma_packed_word(flags: u32, distance: int)
    requires
        0 <= distance < 0x1000_0000,
    ensures
        ({
            let value = flags / 0x1000_0000 * 0x1000_0000 + distance;
            &&& 0 <= value <= u32::MAX
            &&& value % 0x1000_0000 == distance
            &&& value / 0x1000_0000 == flags as int / 0x1000_0000
        }),
{
}

#[verifier::spinoff_prover]
proof fn lemma_variable_links(wad: Wad, references: Seq<ReferenceLocation>, count: int)
    requires
        0 <= count < references.len(),
        payloads_fit(references, wad.bytes.len()),
        with_variable_links(wad, references, count).fault is None,
    ensures
        ({
            let after = with_variable_links(wad, references, count);
            &&& after.bytes.len() == wad.bytes.len()
            &&& forall|k: int| 0 <= k < count ==> #[trigger] leads_on(after.bytes, references, k)
        }),
    decreases count,
{
    reveal(Wad::patched);
    if count > 0 {
        let before = with_variable_links(wad, references, count - 1);
        let after = with_variable_links(wad, references, count);
        let current = references[count - 1];
        let distance = references[count].instruction - current.instruction;
        lemma_variable_links(wad, references, count - 1);
        assert(0 <= distance < 0x1000_0000);
        lemma_packed_word(current.flags, distance);
        let value = (current.flags / 0x1000_0000 * 0x1000_0000 + distance) as u32;
        lemma_with_word(before.bytes, current.payload as int, value);
        assert(word_at(after.bytes, current.payload as int) == value);
        assert(leads_on(after.bytes, references, count - 1));
        assert forall|k: int| 0 <= k < count - 1 implies #[trigger] leads_on(
            after.bytes,
            references,
            k,
        ) by {
            assert(leads_on(before.bytes, references, k));
            assert(are_apart(references[k].payload as int, current.payload as int));
            lemma_word_kept(before.bytes, after.bytes, references[k].payload as int);
        }
    }
}

/// The chain of a variable leads from its first reference to each other one, and
/// each word but the last keeps the flags of its access.
pub proof fn law_variable_chain_visits_each_reference(
    wad: Wad,
    references: Seq<ReferenceLocation>,
    index: int,
)
    requires
        0 <= index < references.len(),
        payloads_fit(references, wad.bytes.len()),
        with_variable_links(wad, references, link_count(references)).fault is None,
    ensures
        ({
            let bytes = with_variable_links(wad, references, link_count(references)).bytes;
            &&& chained(bytes, references, index) == references[index].instruction
            &&& index < references.len() - 1 ==> word_at(
                bytes,
                references[index].payload as int,
            ) / 0x1000_0000 == references[index].flags as int / 0x1000_0000
        }),
    decreases index,
{
    let bytes = with_variable_links(wad, references, link_count(references)).bytes;
    lemma_variable_links(wad, references, link_count(references));
    if index < references.len() - 1 {
        assert(leads_on(bytes, references, index));
    }
    if index > 0 {
        assert(leads_on(bytes, references, index - 1));
        law_variable_chain_visits_each_reference(wad, references, index - 1);
    }
}

/// Where one comes from the first call of a function in some steps: each word
/// tells how far the next instruction is.
pub open spec fn call_chained(
    bytes: Seq<u8>,
    references: Seq<ReferenceLocation>,
    steps: int,
) -> int
    decreases steps,
{
    if steps <= 0 {
        references[0].instruction as int
    } else {
        call_chained(bytes, references, steps - 1) + word_at(
            bytes,
            references[steps - 1].payload as int,
        )
    }
}

#[verifier::spinoff_prover]
proof fn lemma_function_links(wad: Wad, references: Seq<ReferenceLocation>, count: int)
    requires
        0 <= count < references.len(),
        payloads_fit(references, wad.bytes.len()),
        with_function_links(wad, references, count).fault is None,
    ensures
        ({
            let after = with_function_links(wad, references, count);
            &&& after.bytes.len() == wad.bytes.len()
            &&& forall|k: int|
                0 <= k < count ==> word_at(
                    after.bytes,
                    (#[trigger] references[k]).payload as int,
                ) == references[k + 1].instruction - references[k].instruction
        }),
    decreases count,
{
    reveal(Wad::patched);
    if count > 0 {
        let before = with_function_links(wad, references, count - 1);
        let current = references[count - 1];
        lemma_function_links(wad, references, count - 1);
        let value = (references[count].instruction - current.instruction) as u32;
        lemma_with_word(before.bytes, current.payload as int, value);
        let after = with_function_links(wad, references, count);
        assert forall|k: int| 0 <= k < count implies word_at(
            after.bytes,
            (#[trigger] references[k]).payload as int,
        ) == references[k + 1].instruction - references[k].instruction by {
            if k < count - 1 {
                assert(are_apart(references[k].payload as int, current.payload as int));
                lemma_word_kept(before.bytes, after.bytes, references[k].payload as int);
            }
        }
    }
}

/// The chain of a function leads from its first call to each other one.
pub proof fn law_function_chain_visits_each_call(
    wad: Wad,
    references: Seq<ReferenceLocation>,
    index: int,
)
    requires
        0 <= index < references.len(),
        payloads_fit(references, wad.bytes.len()),
        with_function_links(wad, references, link_count(references)).fault is None,
    ensures
        call_chained(
            with_function_links(wad, references, link_count(references)).bytes,
            references,
            index,
        ) == references[index].instruction,
    decreases index,
{
    lemma_function_links(wad, references, link_count(references));
    if index > 0 {
        law_function_chain_visits_each_call(wad, references, index - 1);
    }
}

/// The list of texts has no text twice, whatever is added to it.
pub proof fn law_texts_are_listed_once(wad: Wad, text: Seq<char>)
    requires
        wad.texts.no_duplicates(),
    ensures
        wad.with_text(text).texts.no_duplicates(),
        wad.text(text).texts.no_duplicates(),
        wad.fault is None ==> wad.with_text(text).texts.contains(text),
        wad.texts.is_prefix_of(wad.with_text(text).texts),
{
    reveal(Wad::text);
    let after = wad.with_text(text).texts;
    if wad.fault is None && !wad.texts.contains(text) {
        assert(after.last() == text);
        assert(after.drop_last() =~= wad.texts);
    }
}

/// Whether a variable has a number of its own: a global one, or one of instances
/// that the runner does not have.
pub open spec fn has_number(record: VariableRecord) -> bool {
    record.key.kind is Global || (record.key.kind is Instance && record.index != -6)
}

/// Whether each variable is there once, and each that has a number has one of its
/// own.
pub open spec fn are_numbered(variables: Variables) -> bool {
    let records = variables.records;
    &&& 0 <= variables.next_index
    &&& forall|i: int, j: int|
        0 <= i < j < records.len() ==> (#[trigger] records[i]).key != (#[trigger] records[j]).key
    &&& forall|i: int|
        0 <= i < records.len() && has_number(#[trigger] records[i]) ==> 0 <= records[i].index
            < variables.next_index
    &&& forall|i: int, j: int|
        0 <= i < j < records.len() && has_number(#[trigger] records[i]) && has_number(
            #[trigger] records[j],
        ) ==> records[i].index != records[j].index
}

proof fn lemma_variable_is_absent(records: Seq<VariableRecord>, key: VariableKey, index: int)
    requires
        0 <= index <= records.len(),
    ensures
        index <= variable_from(records, key, index) <= records.len(),
        variable_from(records, key, index) < records.len() ==> records[variable_from(
            records,
            key,
            index,
        )].key == key,
        variable_from(records, key, index) == records.len() ==> forall|k: int|
            index <= k < records.len() ==> (#[trigger] records[k]).key != key,
    decreases records.len() - index,
{
    if index < records.len() && records[index].key != key {
        lemma_variable_is_absent(records, key, index + 1);
    }
}

#[verifier::spinoff_prover]
proof fn lemma_with_variable(
    variables: Variables,
    builtins: Builtins,
    key: VariableKey,
    local_slot: Option<u32>,
)
    requires
        are_numbered(variables),
    ensures
        are_numbered(variables.with_variable(builtins, key, local_slot)),
{
    lemma_variable_is_absent(variables.records, key, 0);
}

#[verifier::spinoff_prover]
proof fn lemma_with_location(variables: Variables, key: VariableKey, location: ReferenceLocation)
    requires
        are_numbered(variables),
    ensures
        are_numbered(variables.with_location(key, location)),
{
    lemma_variable_is_absent(variables.records, key, 0);
    let before = variables.records;
    let after = variables.with_location(key, location).records;
    assert(after.len() == before.len());
    assert(forall|k: int|
        0 <= k < before.len() ==> (#[trigger] after[k]).key == before[k].key && after[k].index
            == before[k].index);
    assert forall|i: int, j: int| 0 <= i < j < after.len() implies (#[trigger] after[i]).key != (
    #[trigger] after[j]).key by {
        assert(before[i].key != before[j].key);
    }
    assert forall|i: int| 0 <= i < after.len() && has_number(#[trigger] after[i]) implies 0
        <= after[i].index < variables.next_index by {
        assert(has_number(before[i]));
    }
    assert forall|i: int, j: int|
        0 <= i < j < after.len() && has_number(#[trigger] after[i]) && has_number(
            #[trigger] after[j],
        ) implies after[i].index != after[j].index by {
        assert(has_number(before[i]) && has_number(before[j]));
    }
}

proof fn lemma_with_reference(
    variables: Variables,
    builtins: Builtins,
    code_index: usize,
    code: CompiledCode,
    base: usize,
    reference: VariableReference,
)
    requires
        are_numbered(variables),
    ensures
        are_numbered(variables.with_reference(builtins, code_index, code, base, reference)),
{
    let key = key_of(code_index, reference);
    lemma_with_variable(variables, builtins, key, reference.local_slot);
    let ensured = variables.with_variable(builtins, key, reference.local_slot);
    let location = location_of(
        "variable"@,
        code_index as int,
        code.bytecode.bytes@.len() as int,
        base,
        reference.offset,
        reference.flags,
    );
    if let Ok(location) = location {
        lemma_with_location(ensured, key, location);
    }
}

proof fn lemma_with_group(
    variables: Variables,
    builtins: Builtins,
    code_index: usize,
    code: CompiledCode,
    base: usize,
    name: Seq<char>,
    count: int,
)
    requires
        are_numbered(variables),
    ensures
        are_numbered(variables.with_group(builtins, code_index, code, base, name, count)),
    decreases count,
{
    if count > 0 {
        lemma_with_group(variables, builtins, code_index, code, base, name, count - 1);
        lemma_with_reference(
            variables.with_group(builtins, code_index, code, base, name, count - 1),
            builtins,
            code_index,
            code,
            base,
            code.bytecode.variable_references@[count - 1],
        );
    }
}

proof fn lemma_with_groups(
    variables: Variables,
    builtins: Builtins,
    code_index: usize,
    code: CompiledCode,
    base: usize,
    names: Seq<Seq<char>>,
    count: int,
)
    requires
        are_numbered(variables),
    ensures
        are_numbered(variables.with_groups(builtins, code_index, code, base, names, count)),
    decreases count,
{
    if count > 0 {
        lemma_with_groups(variables, builtins, code_index, code, base, names, count - 1);
        lemma_with_group(
            variables.with_groups(builtins, code_index, code, base, names, count - 1),
            builtins,
            code_index,
            code,
            base,
            names[count - 1],
            code.bytecode.variable_references@.len() as int,
        );
    }
}

proof fn lemma_with_code(
    variables: Variables,
    builtins: Builtins,
    code_index: usize,
    code: CompiledCode,
    base: usize,
)
    requires
        are_numbered(variables),
    ensures
        are_numbered(variables.with_code(builtins, code_index, code, base)),
{
    let references = code.bytecode.variable_references@;
    let names = reference_names(references, references.len() as int);
    let key = VariableKey {
        name: code.locals@[0].name@,
        kind: VariableKind::Local,
        code_index: Some(code_index),
    };
    let slot = Some(code.locals@[0].slot);
    lemma_with_variable(variables, builtins, key, slot);
    let begun = if code.locals@.len() > 0 {
        variables.with_variable(builtins, key, slot)
    } else {
        variables
    };
    lemma_with_groups(begun, builtins, code_index, code, base, names, names.len() as int);
}

/// Each variable of the code is listed once, and each global one and each one of
/// instances that the runner does not have gets a number of its own.
pub proof fn law_variables_are_listed_once(
    builtins: Builtins,
    codes: Seq<CompiledCode>,
    bases: Seq<usize>,
    count: int,
)
    ensures
        are_numbered(first_variables(builtins).with_codes(builtins, codes, bases, count)),
    decreases count,
{
    if count > 0 {
        law_variables_are_listed_once(builtins, codes, bases, count - 1);
        lemma_with_code(
            first_variables(builtins).with_codes(builtins, codes, bases, count - 1),
            builtins,
            (count - 1) as usize,
            codes[count - 1],
            bases[count - 1],
        );
    } else {
        let none = Variables { records: seq![], next_index: 0, fault: None };
        let first = VariableKey {
            name: "prototype"@,
            kind: VariableKind::Instance,
            code_index: None,
        };
        let second = VariableKey {
            name: "@@array@@"@,
            kind: VariableKind::Instance,
            code_index: None,
        };
        lemma_with_variable(none, builtins, first, None);
        lemma_with_variable(none.with_variable(builtins, first, None), builtins, second, None);
    }
}

} // verus!
