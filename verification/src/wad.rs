//! The data file of the runner: chunks with records that refer to each other by
//! their positions, and to texts and textures that are placed later.
//!
//! [`Wad`] is what is written so far, and its methods are the fields that the
//! records are made of.

use vstd::hash_map::StringHashMap;
use vstd::prelude::*;
use vstd::utf8::*;

use crate::bytes::{append, word_bytes};
use crate::gml::vm::{
    bits16, bits32, bits64, le32, le64, unsigned16, unsigned32, unsigned64, with_word, word_at,
};
use crate::text::spelled;

verus! {

/// Why a file cannot be written.
#[derive(Debug, Clone, PartialEq, Eq)]
pub enum WriteError {
    SizeOverflow { field: String, size: u64 },
    InvalidVmData { message: String },
}

/// A [`WriteError`] as sequences of characters.
pub enum WriteFault {
    SizeOverflow { field: Seq<char>, size: u64 },
    InvalidVmData { message: Seq<char> },
}

impl View for WriteError {
    type V = WriteFault;

    open spec fn view(&self) -> WriteFault {
        match self {
            WriteError::SizeOverflow { field, size } => WriteFault::SizeOverflow {
                field: field@,
                size: *size,
            },
            WriteError::InvalidVmData { message } => WriteFault::InvalidVmData {
                message: message@,
            },
        }
    }
}

/// What an optional error stands for.
pub open spec fn fault_view(error: Option<WriteError>) -> Option<WriteFault> {
    match error {
        Some(error) => Some(error@),
        None => None,
    }
}

/// A size that does not fit its field.
pub open spec fn overflow(field: Seq<char>, size: int) -> WriteFault {
    WriteFault::SizeOverflow { field, size: size as u64 }
}

/// Data that cannot be written.
pub open spec fn invalid(message: Seq<char>) -> WriteFault {
    WriteFault::InvalidVmData { message }
}

/// A texture that a record refers to.
#[derive(Debug, Clone, Copy, PartialEq, Eq, Structural)]
pub enum Texture {
    Sprite { index: usize, frame: usize },
    Background { index: usize },
    Font { index: usize },
}

/// A word that is to hold the position of a text.
#[derive(Debug, Clone, Copy, PartialEq, Eq, Structural)]
pub struct TextLink {
    pub position: usize,
    pub text: usize,
}

/// A word that is to hold the position of a texture.
#[derive(Debug, Clone, Copy, PartialEq, Eq, Structural)]
pub struct TextureLink {
    pub position: usize,
    pub texture: Texture,
}

/// A chunk of a file: its name and where its head is.
#[derive(Debug, Clone, Copy, PartialEq, Eq)]
pub struct WadChunk {
    pub name: [u8; 4],
    pub offset: usize,
}

/// A [`WadChunk`] with its name as a sequence.
pub struct ChunkView {
    pub name: Seq<u8>,
    pub offset: int,
}

impl View for WadChunk {
    type V = ChunkView;

    open spec fn view(&self) -> ChunkView {
        ChunkView { name: self.name@, offset: self.offset as int }
    }
}

/// What a list of chunks stands for.
pub open spec fn chunk_views(chunks: Seq<WadChunk>) -> Seq<ChunkView> {
    chunks.map_values(|chunk: WadChunk| chunk@)
}

/// A file that is written: its bytes and its chunks in their order.
#[derive(Debug, Clone, PartialEq, Eq)]
pub struct WadFile {
    pub bytes: Vec<u8>,
    pub chunks: Vec<WadChunk>,
}

/// What is written so far: the bytes, the chunks, the texts, the words that are to
/// refer to texts and textures, and what went wrong. Nothing is written behind a
/// fault.
pub struct Wad {
    pub bytes: Seq<u8>,
    pub chunks: Seq<ChunkView>,
    pub texts: Seq<Seq<char>>,
    pub text_links: Seq<TextLink>,
    pub texture_links: Seq<TextureLink>,
    pub fault: Option<WriteFault>,
}

/// The number of a text in a list that holds it.
pub open spec fn number_of(texts: Seq<Seq<char>>, text: Seq<char>) -> int {
    choose|k: int| 0 <= k < texts.len() && texts[k] == text
}

/// The least number of bytes that brings a length to a multiple.
pub open spec fn padding(length: nat, multiple: nat) -> nat
    recommends
        multiple > 0,
{
    if length % multiple == 0 {
        0
    } else {
        (multiple - length % multiple) as nat
    }
}

impl Wad {
    /// With a fault, if there is none yet.
    pub open spec fn failed(self, fault: WriteFault) -> Wad {
        if self.fault is Some {
            self
        } else {
            Wad { fault: Some(fault), ..self }
        }
    }

    /// With some bytes.
    #[verifier::opaque]
    pub open spec fn raw(self, more: Seq<u8>) -> Wad {
        if self.fault is Some {
            self
        } else {
            Wad { bytes: self.bytes + more, ..self }
        }
    }

    /// With a 16-bit number.
    pub open spec fn short(self, value: u16) -> Wad {
        self.raw(seq![(value % 256) as u8, (value / 256) as u8])
    }

    /// With a signed 16-bit number.
    pub open spec fn signed_short(self, value: i16) -> Wad {
        self.short(unsigned16(value) as u16)
    }

    /// With a 32-bit number.
    pub open spec fn word(self, value: u32) -> Wad {
        self.raw(le32(value as int))
    }

    /// With a signed 32-bit number.
    pub open spec fn integer(self, value: i32) -> Wad {
        self.raw(le32(unsigned32(value)))
    }

    /// With a 64-bit number.
    pub open spec fn long(self, value: u64) -> Wad {
        self.raw(le64(value as int))
    }

    /// With a signed 64-bit number.
    pub open spec fn signed_long(self, value: i64) -> Wad {
        self.raw(le64(unsigned64(value)))
    }

    /// With a truth value, which takes a word.
    pub open spec fn flag(self, value: bool) -> Wad {
        self.word(
            if value {
                1
            } else {
                0
            },
        )
    }

    /// With the length of a list.
    pub open spec fn count(self, length: nat, field: Seq<char>) -> Wad {
        if length <= u32::MAX {
            self.word(length as u32)
        } else {
            self.failed(overflow(field, length as int))
        }
    }

    /// With a text in the list of texts.
    pub open spec fn with_text(self, text: Seq<char>) -> Wad {
        if self.fault is Some || self.texts.contains(text) {
            self
        } else {
            Wad { texts: self.texts.push(text), ..self }
        }
    }

    /// With a word that is to refer to a text.
    #[verifier::opaque]
    pub open spec fn text(self, text: Seq<char>) -> Wad {
        if self.fault is Some {
            self
        } else {
            let listed = self.with_text(text);
            Wad {
                bytes: self.bytes + le32(0),
                text_links: self.text_links.push(
                    TextLink {
                        position: self.bytes.len() as usize,
                        text: number_of(listed.texts, text) as usize,
                    },
                ),
                ..listed
            }
        }
    }

    /// With a word that is to refer to a texture.
    #[verifier::opaque]
    pub open spec fn texture(self, texture: Texture) -> Wad {
        if self.fault is Some {
            self
        } else {
            Wad {
                bytes: self.bytes + le32(0),
                texture_links: self.texture_links.push(
                    TextureLink { position: self.bytes.len() as usize, texture },
                ),
                ..self
            }
        }
    }

    /// With zeros up to a multiple of a length.
    pub open spec fn aligned(self, multiple: nat) -> Wad {
        self.raw(Seq::new(padding(self.bytes.len(), multiple), |k: int| 0u8))
    }

    /// With another word at a position.
    #[verifier::opaque]
    pub open spec fn patched(self, position: int, value: u32) -> Wad {
        if self.fault is Some || position < 0 || position + 4 > self.bytes.len() {
            self
        } else {
            Wad { bytes: with_word(self.bytes, position, value as int), ..self }
        }
    }

    /// With the current position in a word.
    pub open spec fn here(self, position: int) -> Wad {
        if self.bytes.len() <= u32::MAX {
            self.patched(position, self.bytes.len() as u32)
        } else {
            self.failed(overflow("file position"@, self.bytes.len() as int))
        }
    }

    /// With the current position in those of the first words for textures that are
    /// to refer to one of some textures.
    pub open spec fn placed(
        self,
        textures: Seq<Texture>,
        links: Seq<TextureLink>,
        count: nat,
    ) -> Wad
        decreases count,
    {
        if count == 0 {
            self
        } else {
            let before = self.placed(textures, links, (count - 1) as nat);
            let link = links[count - 1];
            if textures.contains(link.texture) {
                before.here(link.position as int)
            } else {
                before
            }
        }
    }

    /// With some words that are zero.
    pub open spec fn reserved(self, count: nat) -> Wad
        decreases count,
    {
        if count == 0 {
            self
        } else {
            self.reserved((count - 1) as nat).word(0)
        }
    }

    /// With the records of a list, each behind its position in a table.
    pub open spec fn filled<T>(
        self,
        items: Seq<T>,
        record: spec_fn(Wad, T) -> Wad,
        table: int,
        count: nat,
    ) -> Wad
        decreases count,
    {
        if count == 0 {
            self
        } else {
            record(
                self.filled(items, record, table, (count - 1) as nat).here(
                    table + 4 * (count - 1),
                ),
                items[count - 1],
            )
        }
    }

    /// With a table of the positions of records, and the records behind it.
    pub open spec fn table_of<T>(self, items: Seq<T>, record: spec_fn(Wad, T) -> Wad) -> Wad {
        let counted = self.count(items.len(), "offset table count"@);
        if counted.fault is Some {
            counted
        } else {
            counted.reserved(items.len()).filled(
                items,
                record,
                self.bytes.len() as int + 4,
                items.len(),
            )
        }
    }

    /// With a table of the positions of records, and the records behind it.
    pub open spec fn table<T: Record>(self, items: Seq<T>) -> Wad {
        self.table_of(items, |wad: Wad, item: T| item.record(wad))
    }

    /// With the head of a chunk.
    pub open spec fn opened(self, name: Seq<u8>) -> Wad {
        if self.fault is Some {
            self
        } else {
            Wad {
                chunks: self.chunks.push(
                    ChunkView { name, offset: self.bytes.len() as int },
                ),
                ..self.raw(name).word(0)
            }
        }
    }

    /// With the length of the chunk that begins at a position.
    pub open spec fn closed(self, start: int) -> Wad {
        let length = self.bytes.len() - start - 8;
        if length < 0 {
            self
        } else if length <= u32::MAX {
            self.patched(start + 4, length as u32)
        } else {
            self.failed(overflow("chunk size"@, length))
        }
    }

    /// With the first words that refer to texts filled in. The table of the
    /// positions of the texts is at a position.
    pub open spec fn linked(self, links: Seq<TextLink>, table: int, count: nat) -> Wad
        decreases count,
    {
        if count == 0 {
            self
        } else {
            let before = self.linked(links, table, (count - 1) as nat);
            let link = links[count - 1];
            let slot = table + 4 * link.text;
            if slot + 4 <= before.bytes.len() {
                before.patched(
                    link.position as int,
                    (word_at(before.bytes, slot) + 4) as u32,
                )
            } else {
                before
            }
        }
    }

    /// With the chunk of the texts, and all words that refer to them.
    pub open spec fn with_texts(self) -> Wad {
        let written = self.opened(seq![0x53, 0x54, 0x52, 0x47]).table_of(
            self.texts,
            |wad: Wad, text: Seq<char>| text_record(wad, text),
        );
        written.closed(self.bytes.len() as int).linked(
            self.text_links,
            self.bytes.len() as int + 12,
            self.text_links.len(),
        )
    }
}

/// A file without a chunk.
pub open spec fn empty_wad() -> Wad {
    Wad {
        bytes: seq![0x46, 0x4f, 0x52, 0x4d, 0, 0, 0, 0],
        chunks: seq![],
        texts: seq![],
        text_links: seq![],
        texture_links: seq![],
        fault: None,
    }
}

/// The name of the chunk of the texts.
pub open spec fn texts_name() -> Seq<u8> {
    seq![0x53, 0x54, 0x52, 0x47]
}

/// Whether a file has no chunk of texts yet, and the words that are to refer to
/// texts are within it.
#[verifier::opaque]
pub open spec fn plain(wad: Wad) -> bool {
    &&& 8 <= wad.bytes.len()
    &&& forall|k: int|
        0 <= k < wad.chunks.len() ==> (#[trigger] wad.chunks[k]).name != texts_name()
    &&& forall|k: int|
        0 <= k < wad.text_links.len() ==> (#[trigger] wad.text_links[k]).position + 4
            <= wad.bytes.len()
}

pub broadcast proof fn lemma_plain_raw(wad: Wad, more: Seq<u8>)
    ensures
        plain(wad) ==> plain(#[trigger] wad.raw(more)),
{
    reveal(plain);
    reveal(Wad::raw);
}

pub broadcast proof fn lemma_plain_text(wad: Wad, text: Seq<char>)
    ensures
        plain(wad) ==> plain(#[trigger] wad.text(text)),
{
    reveal(plain);
    reveal(Wad::text);
    if plain(wad) && wad.fault is None {
        let after = wad.text(text);
        assert(after.bytes.len() == wad.bytes.len() + 4);
        assert forall|k: int| 0 <= k < after.text_links.len() implies (
        #[trigger] after.text_links[k]).position + 4 <= after.bytes.len() by {
            if k < wad.text_links.len() {
                assert(after.text_links[k] == wad.text_links[k]);
            }
        }
    }
}

pub broadcast proof fn lemma_plain_listed(wad: Wad, text: Seq<char>)
    ensures
        plain(wad) ==> plain(#[trigger] wad.with_text(text)),
{
    reveal(plain);
}

pub broadcast proof fn lemma_plain_texture(wad: Wad, texture: Texture)
    ensures
        plain(wad) ==> plain(#[trigger] wad.texture(texture)),
{
    reveal(plain);
    reveal(Wad::texture);
}

pub broadcast proof fn lemma_plain_patched(wad: Wad, position: int, value: u32)
    ensures
        plain(wad) ==> plain(#[trigger] wad.patched(position, value)),
{
    reveal(plain);
    reveal(Wad::patched);
}

pub broadcast proof fn lemma_plain_failed(wad: Wad, fault: WriteFault)
    ensures
        plain(wad) ==> plain(#[trigger] wad.failed(fault)),
{
    reveal(plain);
}

pub broadcast group group_plain {
    lemma_plain_raw,
    lemma_plain_text,
    lemma_plain_listed,
    lemma_plain_texture,
    lemma_plain_patched,
    lemma_plain_failed,
}

pub proof fn lemma_plain_opened(wad: Wad, name: Seq<u8>)
    requires
        plain(wad),
        name.len() == 4,
        name[0] != 0x53 || name[1] != 0x54 || name[2] != 0x52 || name[3] != 0x47,
    ensures
        plain(wad.opened(name)),
{
    broadcast use group_plain;

    let whole = wad.raw(name).word(0);
    assert(plain(whole));
    reveal(plain);
    reveal(Wad::raw);
    let texts = texts_name();
    assert(texts[0] == 0x53 && texts[1] == 0x54 && texts[2] == 0x52 && texts[3] == 0x47);
}

pub proof fn lemma_plain_reserved(wad: Wad, count: nat)
    requires
        plain(wad),
    ensures
        plain(wad.reserved(count)),
    decreases count,
{
    broadcast use group_plain;

    if count > 0 {
        lemma_plain_reserved(wad, (count - 1) as nat);
    }
}

pub proof fn lemma_plain_placed(
    wad: Wad,
    textures: Seq<Texture>,
    links: Seq<TextureLink>,
    count: nat,
)
    requires
        plain(wad),
    ensures
        plain(wad.placed(textures, links, count)),
    decreases count,
{
    broadcast use group_plain;

    if count > 0 {
        lemma_plain_placed(wad, textures, links, (count - 1) as nat);
    }
}

pub proof fn lemma_plain_filled<T>(
    wad: Wad,
    items: Seq<T>,
    record: spec_fn(Wad, T) -> Wad,
    table: int,
    count: nat,
)
    requires
        plain(wad),
        forall|wad: Wad, item: T| plain(wad) ==> plain(#[trigger] record(wad, item)),
    ensures
        plain(wad.filled(items, record, table, count)),
    decreases count,
{
    broadcast use group_plain;

    if count > 0 {
        lemma_plain_filled(wad, items, record, table, (count - 1) as nat);
    }
}

pub proof fn lemma_plain_table_of<T>(wad: Wad, items: Seq<T>, record: spec_fn(Wad, T) -> Wad)
    requires
        plain(wad),
        forall|wad: Wad, item: T| plain(wad) ==> plain(#[trigger] record(wad, item)),
    ensures
        plain(wad.table_of(items, record)),
{
    broadcast use group_plain;

    let counted = wad.count(items.len(), "offset table count"@);
    lemma_plain_reserved(counted, items.len());
    lemma_plain_filled(
        counted.reserved(items.len()),
        items,
        record,
        wad.bytes.len() as int + 4,
        items.len(),
    );
}

pub proof fn lemma_plain_table<T: Record>(wad: Wad, items: Seq<T>)
    requires
        plain(wad),
    ensures
        plain(wad.table(items)),
{
    let record = |wad: Wad, item: T| item.record(wad);
    assert forall|wad: Wad, item: T| plain(wad) implies plain(#[trigger] record(wad, item)) by {
        item.lemma_plain(wad);
    }
    lemma_plain_table_of(wad, items, record);
}

/// What can be written as a record.
pub trait Record: Sized {
    /// The file with the record.
    spec fn record(self, wad: Wad) -> Wad;

    /// A record begins no chunk, and its words for texts are within the file.
    proof fn lemma_plain(self, wad: Wad)
        requires
            plain(wad),
        ensures
            plain(self.record(wad)),
    ;

    /// Writes the record.
    fn write(&self, writer: &mut WadWriter)
        requires
            old(writer).wf(),
        ensures
            final(writer).wf(),
            final(writer)@ == self.record(old(writer)@),
    ;
}

/// The file with a text behind its length and before a zero.
pub open spec fn text_record(wad: Wad, text: Seq<char>) -> Wad {
    let bytes = encode_utf8(text);
    wad.count(bytes.len(), "text length"@).raw(bytes).raw(seq![0])
}

/// Writes a file.
pub struct WadWriter {
    bytes: Vec<u8>,
    chunks: Vec<WadChunk>,
    texts: Vec<String>,
    numbers: StringHashMap<usize>,
    text_links: Vec<TextLink>,
    texture_links: Vec<TextureLink>,
    fault: Option<WriteError>,
}

impl View for WadWriter {
    type V = Wad;

    closed spec fn view(&self) -> Wad {
        Wad {
            bytes: self.bytes@,
            chunks: chunk_views(self.chunks@),
            texts: spelled(self.texts@),
            text_links: self.text_links@,
            texture_links: self.texture_links@,
            fault: fault_view(self.fault),
        }
    }
}

impl WadWriter {
    /// Whether the numbers of the texts are known.
    pub closed spec fn wf(&self) -> bool {
        let texts = spelled(self.texts@);
        &&& forall|k: int|
            0 <= k < texts.len() ==> self.numbers@.contains_key(#[trigger] texts[k])
                && self.numbers@[texts[k]] == k
        &&& forall|text: Seq<char>| #[trigger]
            self.numbers@.contains_key(text) ==> self.numbers@[text] < texts.len()
                && texts[self.numbers@[text] as int] == text
    }

    /// Makes a file without a chunk.
    pub fn new() -> (writer: Self)
        ensures
            writer.wf(),
            writer@ == empty_wad(),
    {
        let mut bytes: Vec<u8> = Vec::new();
        append(&mut bytes, &[0x46, 0x4f, 0x52, 0x4d, 0, 0, 0, 0]);
        let writer = WadWriter {
            bytes,
            chunks: Vec::new(),
            texts: Vec::new(),
            numbers: StringHashMap::new(),
            text_links: Vec::new(),
            texture_links: Vec::new(),
            fault: None,
        };
        proof {
            assert(spelled(writer.texts@) =~= seq![]);
            assert(writer.bytes@ =~= empty_wad().bytes);
            assert(chunk_views(writer.chunks@) =~= seq![]);
        }
        writer
    }

    /// Returns the position behind what is written.
    pub fn position(&self) -> (position: usize)
        ensures
            position == self@.bytes.len(),
    {
        self.bytes.len()
    }

    /// Returns whether something went wrong.
    pub fn is_faulty(&self) -> (result: bool)
        ensures
            result == (self@.fault is Some),
    {
        self.fault.is_some()
    }

    /// Notes what went wrong.
    pub fn fail(&mut self, error: WriteError)
        requires
            old(self).wf(),
        ensures
            final(self).wf(),
            final(self)@ == old(self)@.failed(error@),
    {
        if self.fault.is_none() {
            self.fault = Some(error);
        }
    }

    /// Notes that a size does not fit its field.
    pub fn fail_overflow(&mut self, field: &str, size: usize)
        requires
            old(self).wf(),
        ensures
            final(self).wf(),
            final(self)@ == old(self)@.failed(overflow(field@, size as int)),
    {
        self.fail(WriteError::SizeOverflow { field: field.to_owned(), size: size as u64 });
    }

    /// Notes that some data cannot be written.
    pub fn fail_invalid(&mut self, message: &str)
        requires
            old(self).wf(),
        ensures
            final(self).wf(),
            final(self)@ == old(self)@.failed(invalid(message@)),
    {
        self.fail(WriteError::InvalidVmData { message: message.to_owned() });
    }

    /// Writes some bytes.
    pub fn write_all(&mut self, bytes: &[u8])
        requires
            old(self).wf(),
        ensures
            final(self).wf(),
            final(self)@ == old(self)@.raw(bytes@),
    {
        reveal(Wad::raw);
        if self.fault.is_none() {
            append(&mut self.bytes, bytes);
        }
    }

    /// Writes a 16-bit number.
    pub fn write_u16(&mut self, value: u16)
        requires
            old(self).wf(),
        ensures
            final(self).wf(),
            final(self)@ == old(self)@.short(value),
    {
        let bytes = [(value % 256) as u8, (value / 256) as u8];
        assert(bytes@ =~= seq![(value % 256) as u8, (value / 256) as u8]);
        self.write_all(&bytes);
    }

    /// Writes a signed 16-bit number.
    pub fn write_i16(&mut self, value: i16)
        requires
            old(self).wf(),
        ensures
            final(self).wf(),
            final(self)@ == old(self)@.signed_short(value),
    {
        self.write_u16(bits16(value));
    }

    /// Writes a 32-bit number.
    pub fn write_u32(&mut self, value: u32)
        requires
            old(self).wf(),
        ensures
            final(self).wf(),
            final(self)@ == old(self)@.word(value),
    {
        let bytes = word_bytes(value);
        self.write_all(&bytes);
    }

    /// Writes a signed 32-bit number.
    pub fn write_i32(&mut self, value: i32)
        requires
            old(self).wf(),
        ensures
            final(self).wf(),
            final(self)@ == old(self)@.integer(value),
    {
        self.write_u32(bits32(value));
    }

    /// Writes a 64-bit number.
    pub fn write_u64(&mut self, value: u64)
        requires
            old(self).wf(),
        ensures
            final(self).wf(),
            final(self)@ == old(self)@.long(value),
    {
        reveal(Wad::raw);
        let ghost before = self@.bytes;
        self.write_u32((value % 0x1_0000_0000) as u32);
        self.write_u32((value / 0x1_0000_0000) as u32);
        if self.fault.is_none() {
            assert(self@.bytes =~= before + le64(value as int));
        }
    }

    /// Writes a signed 64-bit number.
    pub fn write_i64(&mut self, value: i64)
        requires
            old(self).wf(),
        ensures
            final(self).wf(),
            final(self)@ == old(self)@.signed_long(value),
    {
        self.write_u64(bits64(value));
    }

    /// Writes a truth value.
    pub fn write_bool(&mut self, value: bool)
        requires
            old(self).wf(),
        ensures
            final(self).wf(),
            final(self)@ == old(self)@.flag(value),
    {
        self.write_u32(
            if value {
                1
            } else {
                0
            },
        );
    }

    /// Writes the length of a list.
    pub fn write_count(&mut self, length: usize, field: &str)
        requires
            old(self).wf(),
        ensures
            final(self).wf(),
            final(self)@ == old(self)@.count(length as nat, field@),
    {
        if length as u64 <= u32::MAX as u64 {
            self.write_u32(length as u32);
        } else {
            self.fail_overflow(field, length);
        }
    }

    /// Adds a text to the list of texts.
    pub fn intern(&mut self, text: &str)
        requires
            old(self).wf(),
        ensures
            final(self).wf(),
            final(self)@ == old(self)@.with_text(text@),
    {
        if self.fault.is_some() {
            return;
        }
        let ghost before = spelled(self.texts@);
        if self.numbers.contains_key(text) {
            assert(before[self.numbers@[text@] as int] == text@);
            assert(before.contains(text@));
            return;
        }
        proof {
            if before.contains(text@) {
                let at = choose|k: int| 0 <= k < before.len() && before[k] == text@;
                assert(self.numbers@.contains_key(before[at]));
            }
        }
        let number = self.texts.len();
        self.texts.push(text.to_owned());
        self.numbers.insert(text.to_owned(), number);
        proof {
            let now = spelled(self.texts@);
            assert(now =~= before.push(text@));
            assert forall|k: int| 0 <= k < now.len() implies self.numbers@.contains_key(
                #[trigger] now[k],
            ) && self.numbers@[now[k]] == k by {
                if k < before.len() {
                    assert(now[k] == before[k]);
                }
            }
            assert forall|other: Seq<char>| #[trigger]
                self.numbers@.contains_key(other) implies self.numbers@[other] < now.len()
                && now[self.numbers@[other] as int] == other by {
                if other != text@ {
                    assert(before[self.numbers@[other] as int] == other);
                }
            }
        }
    }

    /// Returns the number of a text in the list of texts.
    pub fn text_number(&self, text: &str) -> (number: Option<usize>)
        requires
            self.wf(),
        ensures
            match number {
                Some(number) => self@.texts.contains(text@) && number == number_of(
                    self@.texts,
                    text@,
                ),
                None => !self@.texts.contains(text@),
            },
    {
        let ghost texts = spelled(self.texts@);
        match self.numbers.get(text) {
            Some(number) => {
                proof {
                    assert(texts[*number as int] == text@);
                    let chosen = number_of(texts, text@);
                    assert(0 <= chosen < texts.len() && texts[chosen] == text@);
                    assert(self.numbers@[texts[chosen]] == chosen);
                }
                Some(*number)
            },
            None => {
                proof {
                    if texts.contains(text@) {
                        let at = choose|k: int| 0 <= k < texts.len() && texts[k] == text@;
                        assert(self.numbers@.contains_key(texts[at]));
                    }
                }
                None
            },
        }
    }

    /// Writes a word that is to refer to a text.
    pub fn write_reference(&mut self, text: &str)
        requires
            old(self).wf(),
        ensures
            final(self).wf(),
            final(self)@ == old(self)@.text(text@),
    {
        reveal(Wad::text);
        if self.fault.is_some() {
            return;
        }
        self.intern(text);
        let number = self.text_number(text);
        proof {
            let listed = old(self)@.with_text(text@);
            if !old(self)@.texts.contains(text@) {
                assert(listed.texts.last() == text@);
            }
            assert(self@.texts.contains(text@));
        }
        if let Some(number) = number {
            let position = self.bytes.len();
            let bytes = word_bytes(0);
            append(&mut self.bytes, &bytes);
            self.text_links.push(TextLink { position, text: number });
        }
    }

    /// Writes a word that is to refer to a texture.
    pub fn write_texture(&mut self, texture: Texture)
        requires
            old(self).wf(),
        ensures
            final(self).wf(),
            final(self)@ == old(self)@.texture(texture),
    {
        reveal(Wad::texture);
        if self.fault.is_some() {
            return;
        }
        let position = self.bytes.len();
        let bytes = word_bytes(0);
        append(&mut self.bytes, &bytes);
        self.texture_links.push(TextureLink { position, texture });
    }

    /// Writes zeros up to a multiple of a length.
    pub fn align(&mut self, multiple: usize)
        requires
            old(self).wf(),
            multiple > 0,
        ensures
            final(self).wf(),
            final(self)@ == old(self)@.aligned(multiple as nat),
    {
        let rest = self.bytes.len() % multiple;
        let count = if rest == 0 {
            0
        } else {
            multiple - rest
        };
        let mut zeros: Vec<u8> = Vec::new();
        while zeros.len() < count
            invariant
                zeros.len() <= count,
                forall|k: int| 0 <= k < zeros@.len() ==> zeros@[k] == 0,
            decreases count - zeros.len(),
        {
            zeros.push(0);
        }
        assert(zeros@ =~= Seq::new(
            padding(self@.bytes.len(), multiple as nat),
            |k: int| 0u8,
        ));
        self.write_all(zeros.as_slice());
    }

    /// Replaces the word at a position.
    pub fn patch_u32_at(&mut self, position: usize, value: u32)
        requires
            old(self).wf(),
        ensures
            final(self).wf(),
            final(self)@ == old(self)@.patched(position as int, value),
    {
        reveal(Wad::patched);
        let length = self.bytes.len();
        if self.fault.is_some() || length < 4 || position > length - 4 {
            return;
        }
        let ghost before = self.bytes@;
        let bytes = word_bytes(value);
        self.bytes.set(position, bytes[0]);
        self.bytes.set(position + 1, bytes[1]);
        self.bytes.set(position + 2, bytes[2]);
        self.bytes.set(position + 3, bytes[3]);
        assert(self.bytes@ =~= with_word(before, position as int, value as int));
    }

    /// Writes the current position to a word.
    pub fn patch_position(&mut self, position: usize)
        requires
            old(self).wf(),
        ensures
            final(self).wf(),
            final(self)@ == old(self)@.here(position as int),
    {
        let length = self.bytes.len();
        if length as u64 <= u32::MAX as u64 {
            self.patch_u32_at(position, length as u32);
        } else {
            self.fail_overflow("file position", length);
        }
    }

    /// Writes the current position to the words that are to refer to one of some
    /// textures.
    pub fn place_textures(&mut self, textures: &Vec<Texture>)
        requires
            old(self).wf(),
        ensures
            final(self).wf(),
            final(self)@ == old(self)@.placed(
                textures@,
                old(self)@.texture_links,
                old(self)@.texture_links.len(),
            ),
    {
        let ghost before = self@;
        let ghost links = self.texture_links@;
        let mut index: usize = 0;
        while index < self.texture_links.len()
            invariant
                index <= links.len(),
                self.wf(),
                self.texture_links@ == links,
                self@ == before.placed(textures@, links, index as nat),
            decreases links.len() - index,
        {
            let link = self.texture_links[index];
            let mut found = false;
            let mut other: usize = 0;
            while other < textures.len() && !found
                invariant
                    other <= textures@.len(),
                    found ==> textures@.contains(link.texture),
                    !found ==> forall|k: int| 0 <= k < other ==> textures@[k] != link.texture,
                decreases textures.len() - other,
            {
                if textures[other] == link.texture {
                    assert(textures@[other as int] == link.texture);
                    found = true;
                }
                other += 1;
            }
            if found {
                self.patch_position(link.position);
                proof {
                    reveal(Wad::patched);
                }
                assert(self.texture_links@ == self@.texture_links);
            }
            index += 1;
        }
    }

    /// Writes a word that is filled in later, and returns its position.
    pub fn reserve_u32(&mut self) -> (position: usize)
        requires
            old(self).wf(),
        ensures
            final(self).wf(),
            final(self)@ == old(self)@.word(0),
            position == old(self)@.bytes.len(),
    {
        let position = self.bytes.len();
        self.write_u32(0);
        position
    }

    pub(crate) fn reserve_table(&mut self, count: usize, field: &str) -> (slots: Option<Vec<usize>>)
        requires
            old(self).wf(),
        ensures
            final(self).wf(),
            ({
                let counted = old(self)@.count(count as nat, field@);
                match slots {
                    None => counted.fault is Some && final(self)@ == counted,
                    Some(slots) => {
                        &&& counted.fault is None
                        &&& final(self)@ == counted.reserved(count as nat)
                        &&& slots@.len() == count
                        &&& forall|k: int|
                            0 <= k < count ==> (#[trigger] slots@[k]) == old(self)@.bytes.len() + 4
                                + 4 * k
                    },
                }
            }),
    {
        let start = self.bytes.len();
        self.write_count(count, field);
        let ghost counted = self@;
        if self.fault.is_some() {
            return None;
        }
        let mut slots: Vec<usize> = Vec::new();
        let mut index: usize = 0;
        proof {
            reveal(Wad::raw);
            assert(self@.bytes.len() == start + 4);
        }
        while index < count
            invariant
                index <= count,
                self.wf(),
                self@ == counted.reserved(index as nat),
                self@.fault is None,
                self@.bytes.len() == start + 4 + 4 * index,
                slots@.len() == index,
                forall|k: int| 0 <= k < index ==> (#[trigger] slots@[k]) == start + 4 + 4 * k,
            decreases count - index,
        {
            proof {
                reveal(Wad::raw);
            }
            let slot = self.reserve_u32();
            slots.push(slot);
            assert(counted.reserved((index + 1) as nat) == counted.reserved(index as nat).word(0));
            index += 1;
        }
        Some(slots)
    }

    /// Writes a table of the positions of records, and the records behind it.
    pub fn write_offset_table<T: Record>(&mut self, items: &[T])
        requires
            old(self).wf(),
        ensures
            final(self).wf(),
            final(self)@ == old(self)@.table(items@),
    {
        let ghost record = |wad: Wad, item: T| item.record(wad);
        let ghost table = self@.bytes.len() as int + 4;
        let slots = match self.reserve_table(items.len(), "offset table count") {
            Some(slots) => slots,
            None => {
                return;
            },
        };
        let ghost reserved = self@;
        let mut index: usize = 0;
        while index < items.len()
            invariant
                index <= items.len(),
                self.wf(),
                slots@.len() == items.len(),
                forall|k: int| 0 <= k < items.len() ==> (#[trigger] slots@[k]) == table + 4 * k,
                record == (|wad: Wad, item: T| item.record(wad)),
                self@ == reserved.filled(items@, record, table, index as nat),
            decreases items.len() - index,
        {
            let slot = slots[index];
            self.patch_position(slot);
            items[index].write(self);
            index += 1;
        }
    }

    fn write_text_table(&mut self)
        requires
            old(self).wf(),
        ensures
            final(self).wf(),
            final(self)@ == old(self)@.table_of(
                old(self)@.texts,
                |wad: Wad, text: Seq<char>| text_record(wad, text),
            ),
            final(self)@.text_links == old(self)@.text_links,
    {
        let ghost record = |wad: Wad, text: Seq<char>| text_record(wad, text);
        let ghost table = self@.bytes.len() as int + 4;
        let ghost texts = self@.texts;
        let ghost links = self@.text_links;
        proof {
            reveal(Wad::raw);
            reveal(Wad::patched);
        }
        let slots = match self.reserve_table(self.texts.len(), "offset table count") {
            Some(slots) => slots,
            None => {
                return;
            },
        };
        let ghost reserved = self@;
        proof {
            lemma_reserved(old(self)@.count(texts.len(), "offset table count"@), texts.len());
        }
        let mut index: usize = 0;
        while index < self.texts.len()
            invariant
                index <= texts.len(),
                self.wf(),
                self@.texts == texts,
                self@.text_links == links,
                slots@.len() == texts.len(),
                forall|k: int| 0 <= k < texts.len() ==> (#[trigger] slots@[k]) == table + 4 * k,
                record == (|wad: Wad, text: Seq<char>| text_record(wad, text)),
                self@ == reserved.filled(texts, record, table, index as nat),
            decreases texts.len() - index,
        {
            proof {
                reveal(Wad::raw);
                reveal(Wad::patched);
            }
            let slot = slots[index];
            self.patch_position(slot);
            let text = self.texts[index].clone();
            assert(text@ == texts[index as int]);
            let bytes = text.as_str().as_bytes();
            self.write_count(bytes.len(), "text length");
            self.write_all(bytes);
            self.write_all(&[0]);
            assert([0u8]@ =~= seq![0u8]);
            index += 1;
        }
    }

    /// Begins a chunk and returns its position.
    pub fn open_chunk(&mut self, name: [u8; 4]) -> (start: usize)
        requires
            old(self).wf(),
        ensures
            final(self).wf(),
            start == old(self)@.bytes.len(),
            final(self)@ == old(self)@.opened(name@),
    {
        let start = self.bytes.len();
        if self.fault.is_some() {
            return start;
        }
        let ghost before = chunk_views(self.chunks@);
        let chunk = WadChunk { name, offset: start };
        self.write_all(&name);
        self.write_u32(0);
        assert(chunk_views(self.chunks@) == before) by {
            reveal(Wad::raw);
        }
        self.chunks.push(chunk);
        assert(chunk_views(self.chunks@) =~= before.push(chunk@));
        start
    }

    /// Ends the chunk that begins at a position.
    pub fn close_chunk(&mut self, start: usize)
        requires
            old(self).wf(),
        ensures
            final(self).wf(),
            final(self)@ == old(self)@.closed(start as int),
    {
        let length = self.bytes.len();
        if length < 8 || start > length - 8 {
            return;
        }
        let size = length - 8 - start;
        if size as u64 <= u32::MAX as u64 {
            self.patch_u32_at(start + 4, size as u32);
        } else {
            self.fail_overflow("chunk size", size);
        }
    }

    /// Writes the chunk of the texts and fills in all words that refer to them.
    pub fn write_strg(&mut self)
        requires
            old(self).wf(),
        ensures
            final(self).wf(),
            final(self)@ == old(self)@.with_texts(),
    {
        proof {
            reveal(Wad::raw);
            reveal(Wad::patched);
        }
        let ghost start_state = self@;
        let links = copy_links(&self.text_links);
        let start = self.open_chunk([0x53, 0x54, 0x52, 0x47]);
        assert([0x53u8, 0x54u8, 0x52u8, 0x47u8]@ =~= seq![0x53u8, 0x54u8, 0x52u8, 0x47u8]);
        self.write_text_table();
        self.close_chunk(start);
        let ghost written = self@;
        let ghost table = start + 12;
        let mut index: usize = 0;
        while index < links.len()
            invariant
                index <= links.len(),
                self.wf(),
                table == start + 12,
                self@ == written.linked(links@, table, index as nat),
            decreases links.len() - index,
        {
            let link = links[index];
            let length = self.bytes.len() as u128;
            let slot = start as u128 + 12 + 4 * link.text as u128;
            if slot + 4 <= length {
                let at = slot as usize;
                let target = self.word(at);
                self.patch_u32_at(link.position, target.wrapping_add(4));
                proof {
                    lemma_wrapped(target);
                }
            }
            index += 1;
        }
    }

    fn word(&self, position: usize) -> (value: u32)
        requires
            position + 4 <= self@.bytes.len(),
        ensures
            value == word_at(self@.bytes, position as int),
    {
        assert(position + 4 <= self.bytes.len());
        self.bytes[position] as u32 + self.bytes[position + 1] as u32 * 0x100 + self.bytes[position
            + 2] as u32 * 0x1_0000 + self.bytes[position + 3] as u32 * 0x100_0000
    }

    /// Ends the file: returns it, or what went wrong.
    pub fn finish(self) -> (result: Result<WadFile, WriteError>)
        requires
            self.wf(),
        ensures
            match result {
                Ok(file) => self@.closed(0).fault is None && file.bytes@ == self@.closed(0).bytes
                    && chunk_views(file.chunks@) == self@.closed(0).chunks,
                Err(error) => self@.closed(0).fault == Some(error@),
            },
    {
        let mut writer = self;
        writer.close_chunk(0);
        match writer.fault {
            Some(error) => Err(error),
            None => Ok(WadFile { bytes: writer.bytes, chunks: writer.chunks }),
        }
    }
}

fn copy_links(links: &Vec<TextLink>) -> (copy: Vec<TextLink>)
    ensures
        copy@ == links@,
{
    let mut copy: Vec<TextLink> = Vec::new();
    let mut index: usize = 0;
    while index < links.len()
        invariant
            index <= links.len(),
            copy@ == links@.take(index as int),
        decreases links.len() - index,
    {
        copy.push(links[index]);
        assert(copy@ =~= links@.take(index + 1));
        index += 1;
    }
    assert(links@.take(index as int) =~= links@);
    copy
}

proof fn lemma_reserved(wad: Wad, count: nat)
    ensures
        wad.reserved(count).texts == wad.texts,
        wad.reserved(count).text_links == wad.text_links,
    decreases count,
{
    reveal(Wad::raw);
    if count > 0 {
        lemma_reserved(wad, (count - 1) as nat);
    }
}

proof fn lemma_wrapped(value: u32)
    ensures
        value.wrapping_add(4) == (value + 4) as u32,
{
    assert((value + 4) as u32 == (if value <= 0xffff_fffb {
        (value + 4) as int
    } else {
        value + 4 - 0x1_0000_0000
    })) by (bit_vector);
}

} // verus!
