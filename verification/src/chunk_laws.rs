//! Where the fields of resources stand in the data file.

use vstd::prelude::*;

use crate::gml::backend::CompiledCode;
use crate::gml::project::CodeKind;
use crate::gml::vm::{le32, unsigned32, with_word, word_at};
use crate::resource_chunks::{
    code_from, first_character, instance_key, room_chunk, room_records, sprite_record, tile_color,
    with_code, with_corners, with_frames, with_kerning, with_masks, with_points, InstanceRecord,
    ObjectRecord, RoomRecord, ScriptRecord, SoundRecord,
};
use crate::resources::{
    Background, CollisionType, Font, GamePath, Glyph, KerningPair, PathPoint, PhysicsShapePoint,
    Room, RoomBackground, RoomInstance, RoomTile, RoomView, Sprite,
};
use crate::wad::{Record, Texture, Wad};

verus! {

/// The signed number at an offset of a file, least significant byte first.
pub open spec fn integer_at(bytes: Seq<u8>, offset: int) -> int {
    let word = bytes[offset] + bytes[offset + 1] * 0x100 + bytes[offset + 2] * 0x1_0000
        + bytes[offset + 3] * 0x100_0000;
    if word < 0x8000_0000 {
        word
    } else {
        word - 0x1_0000_0000
    }
}

/// The unsigned number at an offset of a file, least significant byte first.
pub open spec fn number_at(bytes: Seq<u8>, offset: int) -> int {
    bytes[offset] + bytes[offset + 1] * 0x100 + bytes[offset + 2] * 0x1_0000 + bytes[offset + 3]
        * 0x100_0000
}

/// Whether the word at an offset is to refer to a text.
#[verifier::opaque]
pub open spec fn refers(wad: Wad, offset: int, text: Seq<char>) -> bool {
    exists|k: int|
        0 <= k < wad.text_links.len() && (#[trigger] wad.text_links[k]).position == offset
            && wad.text_links[k].text < wad.texts.len()
            && wad.texts[wad.text_links[k].text as int] == text
}

/// Whether the word at an offset is to refer to a texture.
#[verifier::opaque]
pub open spec fn shows(wad: Wad, offset: int, texture: Texture) -> bool {
    exists|k: int|
        0 <= k < wad.texture_links.len() && (#[trigger] wad.texture_links[k]).position == offset
            && wad.texture_links[k].texture == texture
}

/// Whether a word stands at an offset, unless something went wrong.
#[verifier::opaque]
spec fn field(wad: Wad, offset: int, value: int) -> bool {
    wad.fault is None ==> 0 <= offset && offset + 4 <= wad.bytes.len() && word_at(
        wad.bytes,
        offset,
    ) == value
}

/// The same of a word that is to refer to a text.
#[verifier::opaque]
spec fn named(wad: Wad, offset: int, text: Seq<char>) -> bool {
    wad.fault is None && wad.bytes.len() <= u32::MAX && wad.texts.len() <= u32::MAX ==> refers(
        wad,
        offset,
        text,
    )
}

/// The same of a word that is to refer to a texture.
#[verifier::opaque]
spec fn drawn(wad: Wad, offset: int, texture: Texture) -> bool {
    wad.fault is None && wad.bytes.len() <= u32::MAX ==> shows(wad, offset, texture)
}

broadcast proof fn lemma_raw(wad: Wad, more: Seq<u8>)
    ensures
        (#[trigger] wad.raw(more)).fault == wad.fault,
        wad.fault is None ==> wad.raw(more).bytes.len() == wad.bytes.len() + more.len(),
        wad.raw(more).texts == wad.texts,
{
    reveal(Wad::raw);
}

broadcast proof fn lemma_raw_word(wad: Wad, value: int)
    requires
        0 <= value < 0x1_0000_0000,
    ensures
        field(#[trigger] wad.raw(le32(value)), wad.bytes.len() as int, value),
        wad.fault is None ==> wad.raw(le32(value)).bytes.len() == wad.bytes.len() + 4,
{
    reveal(Wad::raw);
    reveal(field);
    if wad.fault is None {
        let word = le32(value);
        let after = wad.raw(word).bytes;
        let at = wad.bytes.len() as int;
        assert(after[at] == word[0] && after[at + 1] == word[1] && after[at + 2] == word[2]
            && after[at + 3] == word[3]);
        crate::gml::vm::law_word_reads_back(value);
    }
}

broadcast proof fn lemma_raw_keeps(wad: Wad, more: Seq<u8>, offset: int, value: int)
    requires
        #[trigger] field(wad, offset, value),
    ensures
        field(#[trigger] wad.raw(more), offset, value),
{
    reveal(Wad::raw);
    reveal(field);
}

broadcast proof fn lemma_text(wad: Wad, text: Seq<char>)
    ensures
        (#[trigger] wad.text(text)).fault == wad.fault,
        wad.fault is None ==> wad.text(text).bytes.len() == wad.bytes.len() + 4,
        named(wad.text(text), wad.bytes.len() as int, text),
        wad.texts.len() <= wad.text(text).texts.len(),
{
    reveal(Wad::text);
    reveal(named);
    reveal(refers);
    let after = wad.text(text);
    if wad.fault is None {
        let listed = wad.with_text(text);
        if !wad.texts.contains(text) {
            assert(listed.texts.last() == text);
        }
        assert(listed.texts.contains(text));
        let last = after.text_links.len() - 1;
        assert(after.text_links[last].position == wad.bytes.len() as usize);
    }
}

broadcast proof fn lemma_text_keeps(wad: Wad, text: Seq<char>, offset: int, value: int)
    requires
        #[trigger] field(wad, offset, value),
    ensures
        field(#[trigger] wad.text(text), offset, value),
{
    reveal(Wad::text);
    reveal(field);
}

broadcast proof fn lemma_texture(wad: Wad, texture: Texture)
    ensures
        (#[trigger] wad.texture(texture)).fault == wad.fault,
        wad.fault is None ==> wad.texture(texture).bytes.len() == wad.bytes.len() + 4,
        drawn(wad.texture(texture), wad.bytes.len() as int, texture),
        wad.texture(texture).texts == wad.texts,
{
    reveal(Wad::texture);
    reveal(drawn);
    reveal(shows);
    let after = wad.texture(texture);
    if wad.fault is None {
        let last = after.texture_links.len() - 1;
        assert(after.texture_links[last].position == wad.bytes.len() as usize);
    }
}

broadcast proof fn lemma_texture_keeps(wad: Wad, texture: Texture, offset: int, value: int)
    requires
        #[trigger] field(wad, offset, value),
    ensures
        field(#[trigger] wad.texture(texture), offset, value),
{
    reveal(Wad::texture);
    reveal(field);
}

broadcast proof fn lemma_raw_names(wad: Wad, more: Seq<u8>, offset: int, name: Seq<char>)
    requires
        #[trigger] named(wad, offset, name),
    ensures
        named(#[trigger] wad.raw(more), offset, name),
{
    reveal(Wad::raw);
    reveal(named);
    reveal(refers);
    let after = wad.raw(more);
    if wad.fault is None && after.bytes.len() <= u32::MAX && after.texts.len() <= u32::MAX {
        let k = choose|k: int|
            0 <= k < wad.text_links.len() && (#[trigger] wad.text_links[k]).position == offset
                && wad.text_links[k].text < wad.texts.len()
                && wad.texts[wad.text_links[k].text as int] == name;
        assert(after.text_links[k] == wad.text_links[k]);
    }
}

broadcast proof fn lemma_texture_names(wad: Wad, texture: Texture, offset: int, name: Seq<char>)
    requires
        #[trigger] named(wad, offset, name),
    ensures
        named(#[trigger] wad.texture(texture), offset, name),
{
    reveal(Wad::texture);
    reveal(named);
    reveal(refers);
    let after = wad.texture(texture);
    if wad.fault is None && after.bytes.len() <= u32::MAX && after.texts.len() <= u32::MAX {
        let k = choose|k: int|
            0 <= k < wad.text_links.len() && (#[trigger] wad.text_links[k]).position == offset
                && wad.text_links[k].text < wad.texts.len()
                && wad.texts[wad.text_links[k].text as int] == name;
        assert(after.text_links[k] == wad.text_links[k]);
    }
}

broadcast proof fn lemma_text_names(wad: Wad, text: Seq<char>, offset: int, name: Seq<char>)
    requires
        #[trigger] named(wad, offset, name),
    ensures
        named(#[trigger] wad.text(text), offset, name),
{
    reveal(Wad::text);
    reveal(named);
    reveal(refers);
    let after = wad.text(text);
    if wad.fault is None && after.bytes.len() <= u32::MAX && after.texts.len() <= u32::MAX {
        let k = choose|k: int|
            0 <= k < wad.text_links.len() && (#[trigger] wad.text_links[k]).position == offset
                && wad.text_links[k].text < wad.texts.len()
                && wad.texts[wad.text_links[k].text as int] == name;
        assert(after.text_links[k] == wad.text_links[k]);
    }
}

broadcast proof fn lemma_raw_draws(wad: Wad, more: Seq<u8>, offset: int, shown: Texture)
    requires
        #[trigger] drawn(wad, offset, shown),
    ensures
        drawn(#[trigger] wad.raw(more), offset, shown),
{
    reveal(Wad::raw);
    reveal(drawn);
    reveal(shows);
}

broadcast group group_fields {
    lemma_raw,
    lemma_raw_word,
    lemma_raw_keeps,
    lemma_raw_names,
    lemma_raw_draws,
    lemma_text,
    lemma_text_keeps,
    lemma_text_names,
    lemma_texture,
    lemma_texture_keeps,
    lemma_texture_names,
}

/// The index of the code of a kind with a name, or -1.
proof fn lemma_code(wad: Wad, codes: Seq<CompiledCode>, kind: CodeKind, name: Seq<char>)
    requires
        with_code(wad, codes, kind, name).fault is None,
    ensures
        ({
            let index = code_from(codes, kind, name, 0);
            &&& -1 <= index <= i32::MAX
            &&& with_code(wad, codes, kind, name) == wad.raw(le32(unsigned32(index as i32)))
        }),
{
    lemma_code_index(codes, kind, name, 0);
}

proof fn lemma_code_index(codes: Seq<CompiledCode>, kind: CodeKind, name: Seq<char>, from: int)
    ensures
        -1 <= code_from(codes, kind, name, from),
    decreases codes.len() - from,
{
    if 0 <= from < codes.len() {
        lemma_code_index(codes, kind, name, from + 1);
    }
}

/// Where the fields of a tile of a room stand.
#[verifier::spinoff_prover]
pub proof fn law_tile_layout(tile: RoomTile, wad: Wad)
    requires
        tile.record(wad).fault is None,
    ensures
        ({
            let file = tile.record(wad);
            let bytes = file.bytes;
            let at = wad.bytes.len() as int;
            &&& bytes.len() == at + 48
            &&& integer_at(bytes, at) == tile.x
            &&& integer_at(bytes, at + 4) == tile.y
            &&& integer_at(bytes, at + 8) == tile.background_index
            &&& integer_at(bytes, at + 12) == tile.source_x
            &&& integer_at(bytes, at + 16) == tile.source_y
            &&& integer_at(bytes, at + 20) == tile.width
            &&& integer_at(bytes, at + 24) == tile.height
            &&& integer_at(bytes, at + 28) == tile.depth
            &&& integer_at(bytes, at + 32) == tile.id
            &&& number_at(bytes, at + 36) == tile.scale_x
            &&& number_at(bytes, at + 40) == tile.scale_y
            &&& number_at(bytes, at + 44) == tile_color(tile)
        }),
{
    broadcast use group_fields;

    let file = tile.record(wad);
    let at = wad.bytes.len() as int;
    assert(field(file, at, unsigned32(tile.x)));
    assert(field(file, at + 4, unsigned32(tile.y)));
    assert(field(file, at + 8, unsigned32(tile.background_index)));
    assert(field(file, at + 12, unsigned32(tile.source_x)));
    assert(field(file, at + 16, unsigned32(tile.source_y)));
    assert(field(file, at + 20, unsigned32(tile.width)));
    assert(field(file, at + 24, unsigned32(tile.height)));
    assert(field(file, at + 28, unsigned32(tile.depth)));
    assert(field(file, at + 32, unsigned32(tile.id)));
    assert(field(file, at + 36, tile.scale_x as int));
    assert(field(file, at + 40, tile.scale_y as int));
    assert(field(file, at + 44, tile_color(tile) as int));
    reveal(field);
}

/// Where the fields of a view of a room stand.
#[verifier::spinoff_prover]
pub proof fn law_view_layout(view: RoomView, wad: Wad)
    requires
        view.record(wad).fault is None,
    ensures
        ({
            let file = view.record(wad);
            let bytes = file.bytes;
            let at = wad.bytes.len() as int;
            &&& bytes.len() == at + 56
            &&& number_at(bytes, at) == (if view.visible {
                1int
            } else {
                0
            })
            &&& integer_at(bytes, at + 4) == view.x_view
            &&& integer_at(bytes, at + 8) == view.y_view
            &&& integer_at(bytes, at + 12) == view.width_view
            &&& integer_at(bytes, at + 16) == view.height_view
            &&& integer_at(bytes, at + 20) == view.x_port
            &&& integer_at(bytes, at + 24) == view.y_port
            &&& integer_at(bytes, at + 28) == view.width_port
            &&& integer_at(bytes, at + 32) == view.height_port
            &&& integer_at(bytes, at + 36) == view.horizontal_border
            &&& integer_at(bytes, at + 40) == view.vertical_border
            &&& integer_at(bytes, at + 44) == view.horizontal_speed
            &&& integer_at(bytes, at + 48) == view.vertical_speed
            &&& integer_at(bytes, at + 52) == view.object_index
        }),
{
    broadcast use group_fields;

    let file = view.record(wad);
    let at = wad.bytes.len() as int;
    assert(field(
        file,
        at,
        if view.visible {
            1int
        } else {
            0
        },
    ));
    assert(field(file, at + 4, unsigned32(view.x_view)));
    assert(field(file, at + 8, unsigned32(view.y_view)));
    assert(field(file, at + 12, unsigned32(view.width_view)));
    assert(field(file, at + 16, unsigned32(view.height_view)));
    assert(field(file, at + 20, unsigned32(view.x_port)));
    assert(field(file, at + 24, unsigned32(view.y_port)));
    assert(field(file, at + 28, unsigned32(view.width_port)));
    assert(field(file, at + 32, unsigned32(view.height_port)));
    assert(field(file, at + 36, unsigned32(view.horizontal_border)));
    assert(field(file, at + 40, unsigned32(view.vertical_border)));
    assert(field(file, at + 44, unsigned32(view.horizontal_speed)));
    assert(field(file, at + 48, unsigned32(view.vertical_speed)));
    assert(field(file, at + 52, unsigned32(view.object_index)));
    reveal(field);
}

/// Where the fields of a background of a room stand.
#[verifier::spinoff_prover]
pub proof fn law_room_background_layout(background: RoomBackground, wad: Wad)
    requires
        background.record(wad).fault is None,
    ensures
        ({
            let file = background.record(wad);
            let bytes = file.bytes;
            let at = wad.bytes.len() as int;
            &&& bytes.len() == at + 40
            &&& number_at(bytes, at) == (if background.visible {
                1int
            } else {
                0
            })
            &&& number_at(bytes, at + 4) == (if background.foreground {
                1int
            } else {
                0
            })
            &&& integer_at(bytes, at + 8) == background.background_index
            &&& integer_at(bytes, at + 12) == background.x
            &&& integer_at(bytes, at + 16) == background.y
            &&& number_at(bytes, at + 20) == (if background.horizontal_tile {
                1int
            } else {
                0
            })
            &&& number_at(bytes, at + 24) == (if background.vertical_tile {
                1int
            } else {
                0
            })
            &&& integer_at(bytes, at + 28) == background.horizontal_speed
            &&& integer_at(bytes, at + 32) == background.vertical_speed
            &&& number_at(bytes, at + 36) == (if background.stretch {
                1int
            } else {
                0
            })
        }),
{
    broadcast use group_fields;

    let file = background.record(wad);
    let at = wad.bytes.len() as int;
    assert(field(
        file,
        at,
        if background.visible {
            1int
        } else {
            0
        },
    ));
    assert(field(
        file,
        at + 4,
        if background.foreground {
            1int
        } else {
            0
        },
    ));
    assert(field(file, at + 8, unsigned32(background.background_index)));
    assert(field(file, at + 12, unsigned32(background.x)));
    assert(field(file, at + 16, unsigned32(background.y)));
    assert(field(
        file,
        at + 20,
        if background.horizontal_tile {
            1int
        } else {
            0
        },
    ));
    assert(field(
        file,
        at + 24,
        if background.vertical_tile {
            1int
        } else {
            0
        },
    ));
    assert(field(file, at + 28, unsigned32(background.horizontal_speed)));
    assert(field(file, at + 32, unsigned32(background.vertical_speed)));
    assert(field(
        file,
        at + 36,
        if background.stretch {
            1int
        } else {
            0
        },
    ));
    reveal(field);
}

/// Where the fields of an instance in a room stand: its place first, across and
/// then down.
#[verifier::spinoff_prover]
pub proof fn law_instance_layout(record: InstanceRecord, wad: Wad)
    requires
        record.record(wad).fault is None,
    ensures
        ({
            let file = record.record(wad);
            let bytes = file.bytes;
            let at = wad.bytes.len() as int;
            &&& bytes.len() == at + 40
            &&& integer_at(bytes, at) == record.instance.x
            &&& integer_at(bytes, at + 4) == record.instance.y
            &&& integer_at(bytes, at + 8) == record.instance.object_index
            &&& integer_at(bytes, at + 12) == record.instance.id
            &&& integer_at(bytes, at + 16) == code_from(
                record.codes@,
                CodeKind::RoomInstance,
                record.room.name@ + "."@ + record.instance.name@,
                0,
            )
            &&& number_at(bytes, at + 20) == record.instance.scale_x
            &&& number_at(bytes, at + 24) == record.instance.scale_y
            &&& number_at(bytes, at + 28) == record.instance.wad_color
            &&& number_at(bytes, at + 32) == record.instance.rotation
            &&& integer_at(bytes, at + 36) == -1
        }),
{
    broadcast use group_fields;

    let begun = wad.integer(record.instance.x).integer(record.instance.y).integer(
        record.instance.object_index,
    ).integer(record.instance.id);
    let key = instance_key(record.room.name@, record.instance.name@);
    lemma_code(begun, record.codes@, CodeKind::RoomInstance, key);
    let code = code_from(record.codes@, CodeKind::RoomInstance, key, 0) as i32;
    let file = record.record(wad);
    let at = wad.bytes.len() as int;
    assert(field(file, at, unsigned32(record.instance.x)));
    assert(field(file, at + 4, unsigned32(record.instance.y)));
    assert(field(file, at + 8, unsigned32(record.instance.object_index)));
    assert(field(file, at + 12, unsigned32(record.instance.id)));
    assert(field(file, at + 20, record.instance.scale_x as int));
    assert(field(file, at + 24, record.instance.scale_y as int));
    assert(field(file, at + 28, record.instance.wad_color as int));
    assert(field(file, at + 32, record.instance.rotation as int));
    assert(field(file, at + 16, unsigned32(code)));
    assert(field(file, at + 36, unsigned32(-1i32)));
    reveal(field);
}

/// Where the fields of a script stand.
#[verifier::spinoff_prover]
pub proof fn law_script_layout(script: ScriptRecord, wad: Wad)
    requires
        script.record(wad).fault is None,
        script.record(wad).bytes.len() <= u32::MAX,
        script.record(wad).texts.len() <= u32::MAX,
    ensures
        ({
            let file = script.record(wad);
            let bytes = file.bytes;
            let at = wad.bytes.len() as int;
            &&& bytes.len() == at + 8
            &&& refers(file, at, script.name@)
            &&& integer_at(bytes, at + 4) == script.code_index
        }),
{
    broadcast use group_fields;

    let file = script.record(wad);
    let at = wad.bytes.len() as int;
    assert(named(file, at, script.name@));
    assert(field(file, at + 4, unsigned32(script.code_index)));
    reveal(field);
    reveal(named);
}

/// Where the fields of a background stand.
#[verifier::spinoff_prover]
pub proof fn law_background_layout(background: Background, wad: Wad)
    requires
        background.record(wad).fault is None,
        background.record(wad).bytes.len() <= u32::MAX,
        background.record(wad).texts.len() <= u32::MAX,
    ensures
        ({
            let file = background.record(wad);
            let bytes = file.bytes;
            let at = wad.bytes.len() as int;
            &&& bytes.len() == at + 20
            &&& refers(file, at, background.name@)
            &&& number_at(bytes, at + 4) == 0
            &&& number_at(bytes, at + 8) == 0
            &&& number_at(bytes, at + 12) == 0
            &&& shows(file, at + 16, Texture::Background { index: background.index })
        }),
{
    broadcast use group_fields;

    let file = background.record(wad);
    let at = wad.bytes.len() as int;
    assert(named(file, at, background.name@));
    assert(field(file, at + 4, 0));
    assert(field(file, at + 8, 0));
    assert(field(file, at + 12, 0));
    assert(drawn(file, at + 16, Texture::Background { index: background.index }));
    reveal(field);
    reveal(named);
    reveal(drawn);
}

/// Where the fields of a sound stand.
#[verifier::spinoff_prover]
pub proof fn law_sound_layout(record: SoundRecord, wad: Wad)
    requires
        record.record(wad).fault is None,
        record.record(wad).bytes.len() <= u32::MAX,
        record.record(wad).texts.len() <= u32::MAX,
    ensures
        ({
            let file = record.record(wad);
            let bytes = file.bytes;
            let at = wad.bytes.len() as int;
            &&& bytes.len() == at + 36
            &&& refers(file, at, record.sound.name@)
            &&& integer_at(bytes, at + 4) == record.media.kind
            &&& refers(file, at + 8, record.sound.extension@)
            &&& refers(file, at + 12, record.media.filename@)
            &&& integer_at(bytes, at + 16) == record.sound.effects
            &&& number_at(bytes, at + 20) == record.sound.volume
            &&& number_at(bytes, at + 24) == record.sound.pan
            &&& integer_at(bytes, at + 28) == (if record.sound.new_audio {
                record.media.group as int
            } else if record.sound.preload {
                1
            } else {
                0
            })
            &&& integer_at(bytes, at + 32) == record.media.audio_id
        }),
{
    broadcast use group_fields;

    let file = record.record(wad);
    let at = wad.bytes.len() as int;
    assert(named(file, at, record.sound.name@));
    assert(field(file, at + 4, unsigned32(record.media.kind)));
    assert(named(file, at + 8, record.sound.extension@));
    assert(named(file, at + 12, record.media.filename@));
    assert(field(file, at + 16, unsigned32(record.sound.effects)));
    assert(field(file, at + 20, record.sound.volume as int));
    assert(field(file, at + 24, record.sound.pan as int));
    assert(field(file, at + 32, unsigned32(record.media.audio_id)));
    assert(field(
        file,
        at + 28,
        if record.sound.new_audio {
            record.media.group as int
        } else if record.sound.preload {
            1
        } else {
            0
        },
    ));
    reveal(field);
    reveal(named);
}

proof fn lemma_masks(wad: Wad, masks: Seq<Seq<u8>>, count: int)
    ensures
        with_masks(wad, masks, count).fault == wad.fault,
        with_masks(wad, masks, count).texts == wad.texts,
        wad.bytes.len() <= with_masks(wad, masks, count).bytes.len(),
    decreases count,
{
    broadcast use group_fields;

    if count > 0 {
        lemma_masks(wad, masks, count - 1);
        reveal(Wad::raw);
    }
}

proof fn lemma_masks_keep(wad: Wad, masks: Seq<Seq<u8>>, count: int, offset: int, value: int)
    requires
        field(wad, offset, value),
    ensures
        field(with_masks(wad, masks, count), offset, value),
    decreases count,
{
    broadcast use group_fields;

    if count > 0 {
        lemma_masks_keep(wad, masks, count - 1, offset, value);
    }
}

proof fn lemma_masks_name(wad: Wad, masks: Seq<Seq<u8>>, count: int, offset: int, name: Seq<char>)
    requires
        named(wad, offset, name),
    ensures
        named(with_masks(wad, masks, count), offset, name),
    decreases count,
{
    broadcast use group_fields;

    if count > 0 {
        lemma_masks_name(wad, masks, count - 1, offset, name);
    }
}

proof fn lemma_masks_draw(
    wad: Wad,
    masks: Seq<Seq<u8>>,
    count: int,
    offset: int,
    texture: Texture,
)
    requires
        drawn(wad, offset, texture),
    ensures
        drawn(with_masks(wad, masks, count), offset, texture),
    decreases count,
{
    broadcast use group_fields;

    if count > 0 {
        lemma_masks_draw(wad, masks, count - 1, offset, texture);
    }
}

proof fn lemma_frames(wad: Wad, sprite: int, count: int)
    ensures
        with_frames(wad, sprite, count).fault == wad.fault,
        with_frames(wad, sprite, count).texts == wad.texts,
        wad.fault is None && 0 <= count ==> with_frames(wad, sprite, count).bytes.len()
            == wad.bytes.len() + 4 * count,
    decreases count,
{
    broadcast use group_fields;

    if count > 0 {
        lemma_frames(wad, sprite, count - 1);
    }
}

proof fn lemma_frames_keep(wad: Wad, sprite: int, count: int, offset: int, value: int)
    requires
        field(wad, offset, value),
    ensures
        field(with_frames(wad, sprite, count), offset, value),
    decreases count,
{
    broadcast use group_fields;

    if count > 0 {
        lemma_frames_keep(wad, sprite, count - 1, offset, value);
    }
}

proof fn lemma_frames_name(wad: Wad, sprite: int, count: int, offset: int, name: Seq<char>)
    requires
        named(wad, offset, name),
    ensures
        named(with_frames(wad, sprite, count), offset, name),
    decreases count,
{
    broadcast use group_fields;

    if count > 0 {
        lemma_frames_name(wad, sprite, count - 1, offset, name);
    }
}

proof fn lemma_frames_tile(wad: Wad, sprite: int, count: int, end: int)
    requires
        0 <= sprite <= usize::MAX,
        0 <= count <= end,
        wad.fault is None,
        with_frames(wad, sprite, count).bytes.len() <= u32::MAX,
    ensures
        forall|k: int|
            #![trigger drawn(
                with_frames(wad, sprite, count),
                wad.bytes.len() + 4 * k,
                Texture::Sprite { index: sprite as usize, frame: k as usize },
            )]
            0 <= k < count ==> drawn(
                with_frames(wad, sprite, count),
                wad.bytes.len() + 4 * k,
                Texture::Sprite { index: sprite as usize, frame: k as usize },
            ),
    decreases count,
{
    broadcast use group_fields;

    if count > 0 {
        lemma_frames(wad, sprite, count);
        lemma_frames(wad, sprite, count - 1);
        lemma_frames_tile(wad, sprite, count - 1, end);
        let before = with_frames(wad, sprite, count - 1);
        let texture = Texture::Sprite { index: sprite as usize, frame: (count - 1) as usize };
        assert forall|k: int| 0 <= k < count implies #[trigger] drawn(
            with_frames(wad, sprite, count),
            wad.bytes.len() + 4 * k,
            Texture::Sprite { index: sprite as usize, frame: k as usize },
        ) by {
            if k < count - 1 {
                let other = Texture::Sprite { index: sprite as usize, frame: k as usize };
                assert(drawn(before, wad.bytes.len() + 4 * k, other));
                lemma_texture_draws(before, texture, wad.bytes.len() + 4 * k, other);
            }
        }
    }
}

proof fn lemma_texture_draws(wad: Wad, texture: Texture, offset: int, shown: Texture)
    requires
        drawn(wad, offset, shown),
    ensures
        drawn(wad.texture(texture), offset, shown),
{
    reveal(Wad::texture);
    reveal(drawn);
    reveal(shows);
    let after = wad.texture(texture);
    if wad.fault is None && after.bytes.len() <= u32::MAX {
        let k = choose|k: int|
            0 <= k < wad.texture_links.len() && (#[trigger] wad.texture_links[k]).position
                == offset && wad.texture_links[k].texture == shown;
        assert(after.texture_links[k] == wad.texture_links[k]);
    }
}

/// Where the fields of a sprite stand.
#[verifier::spinoff_prover]
pub proof fn law_sprite_layout(wad: Wad, sprite: Sprite, masks: Seq<Seq<u8>>)
    requires
        sprite_record(wad, sprite, masks).fault is None,
        sprite_record(wad, sprite, masks).bytes.len() <= u32::MAX,
        sprite_record(wad, sprite, masks).texts.len() <= u32::MAX,
    ensures
        ({
            let file = sprite_record(wad, sprite, masks);
            let bytes = file.bytes;
            let at = wad.bytes.len() as int;
            &&& bytes.len() >= at + 60 + 4 * sprite.frames@.len() + 4
            &&& refers(file, at, sprite.name@)
            &&& integer_at(bytes, at + 4) == sprite.width
            &&& integer_at(bytes, at + 8) == sprite.height
            &&& integer_at(bytes, at + 12) == sprite.bounding_box_left
            &&& integer_at(bytes, at + 16) == sprite.bounding_box_right
            &&& integer_at(bytes, at + 20) == sprite.bounding_box_bottom
            &&& integer_at(bytes, at + 24) == sprite.bounding_box_top
            &&& number_at(bytes, at + 28) == 0
            &&& number_at(bytes, at + 32) == 0
            &&& number_at(bytes, at + 36) == 0
            &&& integer_at(bytes, at + 40) == sprite.bounding_box_mode
            &&& integer_at(bytes, at + 44) == (match sprite.collision_type {
                CollisionType::AxisAlignedRectangle => 0int,
                CollisionType::Precise => 1,
                CollisionType::RotatedRectangle => 2,
            })
            &&& integer_at(bytes, at + 48) == sprite.x_origin
            &&& integer_at(bytes, at + 52) == sprite.y_origin
            &&& number_at(bytes, at + 56) == sprite.frames@.len()
            &&& number_at(bytes, at + 60 + 4 * sprite.frames@.len()) == masks.len()
            &&& forall|k: int|
                0 <= k < sprite.frames@.len() ==> #[trigger] shows(
                    file,
                    at + 60 + 4 * k,
                    Texture::Sprite { index: sprite.index, frame: k as usize },
                )
        }),
{
    broadcast use group_fields;

    let sized = wad.text(sprite.name@).integer(sprite.width).integer(sprite.height).integer(
        sprite.bounding_box_left,
    ).integer(sprite.bounding_box_right).integer(sprite.bounding_box_bottom).integer(
        sprite.bounding_box_top,
    ).flag(false).flag(false).flag(false).integer(sprite.bounding_box_mode).integer(
        crate::resource_chunks::collision_number(sprite.collision_type),
    ).integer(sprite.x_origin).integer(sprite.y_origin);
    let counted = sized.count(sprite.frames@.len(), "sprite frame count"@);
    let count = sprite.frames@.len() as int;
    let framed = with_frames(counted, sprite.index as int, count);
    let listed = framed.count(masks.len(), "sprite mask count"@);
    lemma_masks(listed, masks, masks.len() as int);
    lemma_frames(counted, sprite.index as int, count);
    lemma_frames_tile(counted, sprite.index as int, count, count);
    let file = sprite_record(wad, sprite, masks);
    let at = wad.bytes.len() as int;
    assert(counted.fault is None && sized.fault is None);
    assert(sized.bytes.len() == at + 56);
    assert(counted.bytes.len() == at + 60);
    assert(named(counted, at, sprite.name@));
    assert(field(counted, at + 4, unsigned32(sprite.width)));
    assert(field(counted, at + 8, unsigned32(sprite.height)));
    assert(field(counted, at + 12, unsigned32(sprite.bounding_box_left)));
    assert(field(counted, at + 16, unsigned32(sprite.bounding_box_right)));
    assert(field(counted, at + 20, unsigned32(sprite.bounding_box_bottom)));
    assert(field(counted, at + 24, unsigned32(sprite.bounding_box_top)));
    assert(field(counted, at + 28, 0));
    assert(field(counted, at + 32, 0));
    assert(field(counted, at + 36, 0));
    assert(field(counted, at + 40, unsigned32(sprite.bounding_box_mode)));
    assert(field(counted, at + 48, unsigned32(sprite.x_origin)));
    assert(field(counted, at + 52, unsigned32(sprite.y_origin)));
    assert(field(counted, at + 56, sprite.frames@.len() as int));
    let collision = match sprite.collision_type {
        CollisionType::AxisAlignedRectangle => 0int,
        CollisionType::Precise => 1,
        CollisionType::RotatedRectangle => 2,
    };
    assert(field(counted, at + 44, collision));
    let last = at + 60 + 4 * count;
    assert(framed.bytes.len() == last);
    assert(field(listed, last, masks.len() as int));
    lemma_frames_name(counted, sprite.index as int, count, at, sprite.name@);
    lemma_masks_name(listed, masks, masks.len() as int, at, sprite.name@);
    assert forall|k: int| 0 <= k < count implies #[trigger] shows(
        file,
        at + 60 + 4 * k,
        Texture::Sprite { index: sprite.index, frame: k as usize },
    ) by {
        let texture = Texture::Sprite { index: sprite.index, frame: k as usize };
        assert(drawn(framed, counted.bytes.len() + 4 * k, texture));
        assert(drawn(listed, at + 60 + 4 * k, texture));
        lemma_masks_draw(listed, masks, masks.len() as int, at + 60 + 4 * k, texture);
        reveal(drawn);
    }
    lemma_frames_keep(counted, sprite.index as int, count, at + 4, unsigned32(sprite.width));
    lemma_masks_keep(listed, masks, masks.len() as int, at + 4, unsigned32(sprite.width));
    lemma_frames_keep(counted, sprite.index as int, count, at + 8, unsigned32(sprite.height));
    lemma_masks_keep(listed, masks, masks.len() as int, at + 8, unsigned32(sprite.height));
    lemma_frames_keep(
        counted,
        sprite.index as int,
        count,
        at + 12,
        unsigned32(sprite.bounding_box_left),
    );
    lemma_masks_keep(
        listed,
        masks,
        masks.len() as int,
        at + 12,
        unsigned32(sprite.bounding_box_left),
    );
    lemma_frames_keep(
        counted,
        sprite.index as int,
        count,
        at + 16,
        unsigned32(sprite.bounding_box_right),
    );
    lemma_masks_keep(
        listed,
        masks,
        masks.len() as int,
        at + 16,
        unsigned32(sprite.bounding_box_right),
    );
    lemma_frames_keep(
        counted,
        sprite.index as int,
        count,
        at + 20,
        unsigned32(sprite.bounding_box_bottom),
    );
    lemma_masks_keep(
        listed,
        masks,
        masks.len() as int,
        at + 20,
        unsigned32(sprite.bounding_box_bottom),
    );
    lemma_frames_keep(
        counted,
        sprite.index as int,
        count,
        at + 24,
        unsigned32(sprite.bounding_box_top),
    );
    lemma_masks_keep(
        listed,
        masks,
        masks.len() as int,
        at + 24,
        unsigned32(sprite.bounding_box_top),
    );
    lemma_frames_keep(counted, sprite.index as int, count, at + 28, 0);
    lemma_masks_keep(listed, masks, masks.len() as int, at + 28, 0);
    lemma_frames_keep(counted, sprite.index as int, count, at + 32, 0);
    lemma_masks_keep(listed, masks, masks.len() as int, at + 32, 0);
    lemma_frames_keep(counted, sprite.index as int, count, at + 36, 0);
    lemma_masks_keep(listed, masks, masks.len() as int, at + 36, 0);
    lemma_frames_keep(
        counted,
        sprite.index as int,
        count,
        at + 40,
        unsigned32(sprite.bounding_box_mode),
    );
    lemma_masks_keep(
        listed,
        masks,
        masks.len() as int,
        at + 40,
        unsigned32(sprite.bounding_box_mode),
    );
    lemma_frames_keep(counted, sprite.index as int, count, at + 48, unsigned32(sprite.x_origin));
    lemma_masks_keep(listed, masks, masks.len() as int, at + 48, unsigned32(sprite.x_origin));
    lemma_frames_keep(counted, sprite.index as int, count, at + 52, unsigned32(sprite.y_origin));
    lemma_masks_keep(listed, masks, masks.len() as int, at + 52, unsigned32(sprite.y_origin));
    lemma_frames_keep(counted, sprite.index as int, count, at + 56, sprite.frames@.len() as int);
    lemma_masks_keep(listed, masks, masks.len() as int, at + 56, sprite.frames@.len() as int);
    lemma_frames_keep(counted, sprite.index as int, count, at + 44, collision);
    lemma_masks_keep(listed, masks, masks.len() as int, at + 44, collision);
    lemma_masks_keep(listed, masks, masks.len() as int, last, masks.len() as int);
    reveal(field);
    reveal(named);
}

/// Whether what was written before stands in a file as it did, from an offset on,
/// unless something went wrong.
#[verifier::opaque]
spec fn kept(before: Wad, after: Wad, from: int) -> bool {
    after.fault is None ==> {
        &&& before.fault is None
        &&& before.bytes.len() <= after.bytes.len()
        &&& forall|k: int|
            0 <= from <= k < before.bytes.len() ==> #[trigger] after.bytes[k] == before.bytes[k]
    }
}

proof fn lemma_kept_same(wad: Wad, from: int)
    ensures
        kept(wad, wad, from),
{
    reveal(kept);
}

proof fn lemma_kept_chain(first: Wad, second: Wad, third: Wad, from: int, other: int)
    requires
        kept(first, second, from),
        kept(second, third, other),
        0 <= other <= from,
    ensures
        kept(first, third, from),
{
    reveal(kept);
    if third.fault is None {
        assert forall|k: int| 0 <= from <= k < first.bytes.len() implies #[trigger] third.bytes[k]
            == first.bytes[k] by {
            assert(third.bytes[k] == second.bytes[k]);
        }
    }
}

broadcast proof fn lemma_kept_raw(base: Wad, wad: Wad, more: Seq<u8>, from: int)
    requires
        #[trigger] kept(base, wad, from),
    ensures
        kept(base, #[trigger] wad.raw(more), from),
{
    reveal(kept);
    reveal(Wad::raw);
}

broadcast proof fn lemma_kept_text(base: Wad, wad: Wad, text: Seq<char>, from: int)
    requires
        #[trigger] kept(base, wad, from),
    ensures
        kept(base, #[trigger] wad.text(text), from),
{
    reveal(kept);
    reveal(Wad::text);
}

broadcast proof fn lemma_kept_failed(
    base: Wad,
    wad: Wad,
    fault: crate::wad::WriteFault,
    from: int,
)
    requires
        #[trigger] kept(base, wad, from),
    ensures
        kept(base, #[trigger] wad.failed(fault), from),
{
    reveal(kept);
}

broadcast proof fn lemma_kept_patched(base: Wad, wad: Wad, position: int, value: u32, from: int)
    requires
        #[trigger] kept(base, wad, from),
        position + 4 <= from || base.bytes.len() <= position,
    ensures
        kept(base, #[trigger] wad.patched(position, value), from),
{
    reveal(kept);
    reveal(Wad::patched);
    if wad.fault is None && 0 <= position && position + 4 <= wad.bytes.len() {
        lemma_word_replaced(wad.bytes, position, value as int);
    }
}

proof fn lemma_word_replaced(bytes: Seq<u8>, position: int, value: int)
    requires
        0 <= position,
        position + 4 <= bytes.len(),
    ensures
        with_word(bytes, position, value).len() == bytes.len(),
        forall|k: int|
            0 <= k < bytes.len() && !(position <= k < position + 4) ==> #[trigger] with_word(
                bytes,
                position,
                value,
            )[k] == bytes[k],
        0 <= value < 0x1_0000_0000 ==> word_at(with_word(bytes, position, value), position)
            == value,
{
    let after = with_word(bytes, position, value);
    let word = le32(value);
    assert(after[position] == word[0]);
    assert(after[position + 1] == word[1]);
    assert(after[position + 2] == word[2]);
    assert(after[position + 3] == word[3]);
    if 0 <= value < 0x1_0000_0000 {
        crate::gml::vm::law_word_reads_back(value);
    }
}

broadcast group group_kept {
    lemma_kept_raw,
    lemma_kept_text,
    lemma_kept_failed,
    lemma_kept_patched,
}

proof fn lemma_kept_field(before: Wad, after: Wad, from: int, offset: int, value: int)
    requires
        kept(before, after, from),
        field(before, offset, value),
        0 <= from <= offset,
    ensures
        field(after, offset, value),
{
    reveal(kept);
    reveal(field);
    if after.fault is None {
        assert(after.bytes[offset] == before.bytes[offset]);
        assert(after.bytes[offset + 1] == before.bytes[offset + 1]);
        assert(after.bytes[offset + 2] == before.bytes[offset + 2]);
        assert(after.bytes[offset + 3] == before.bytes[offset + 3]);
    }
}

proof fn lemma_here(wad: Wad, position: int)
    requires
        0 <= position,
        position + 4 <= wad.bytes.len(),
        wad.here(position).fault is None,
    ensures
        wad.fault is None,
        wad.bytes.len() <= u32::MAX,
        wad.here(position).bytes.len() == wad.bytes.len(),
        field(wad.here(position), position, wad.bytes.len() as int),
        forall|offset: int, value: int|
            #![trigger field(wad.here(position), offset, value)]
            field(wad, offset, value) && (offset + 4 <= position || position + 4 <= offset)
                ==> field(wad.here(position), offset, value),
{
    reveal(field);
    reveal(Wad::patched);
    if wad.bytes.len() <= u32::MAX && wad.fault is None {
        lemma_word_replaced(wad.bytes, position, wad.bytes.len() as int);
    }
}

/// Whether each record of a list leaves what was written before as it is.
spec fn append_only<T: Record>(items: Seq<T>) -> bool {
    forall|k: int, wad: Wad|
        #![trigger items[k].record(wad)]
        0 <= k < items.len() ==> kept(wad, items[k].record(wad), 0)
}

proof fn lemma_reserved(wad: Wad, count: nat)
    ensures
        kept(wad, wad.reserved(count), 0),
        wad.reserved(count).fault == wad.fault,
        wad.fault is None ==> wad.reserved(count).bytes.len() == wad.bytes.len() + 4 * count,
    decreases count,
{
    broadcast use {group_kept, group_fields};

    lemma_kept_same(wad, 0);
    if count > 0 {
        lemma_reserved(wad, (count - 1) as nat);
    }
}

/// The state in which the record of an item of a table begins.
spec fn begun<T: Record>(wad: Wad, items: Seq<T>, table: int, k: int) -> Wad {
    wad.filled(items, |wad: Wad, item: T| item.record(wad), table, k as nat).here(table + 4 * k)
}

#[verifier::spinoff_prover]
proof fn lemma_filled_table<T: Record>(wad: Wad, items: Seq<T>, table: int, count: nat)
    requires
        append_only(items),
        count <= items.len(),
        0 <= table,
        table + 4 * items.len() <= wad.bytes.len(),
        wad.filled(items, |wad: Wad, item: T| item.record(wad), table, count).fault is None,
    ensures
        ({
            let after = wad.filled(items, |wad: Wad, item: T| item.record(wad), table, count);
            &&& wad.fault is None
            &&& wad.bytes.len() <= after.bytes.len()
            &&& forall|k: int|
                0 <= k < wad.bytes.len() && (k < table || table + 4 * items.len() <= k)
                    ==> #[trigger] after.bytes[k] == wad.bytes[k]
            &&& forall|k: int|
                #![trigger begun(wad, items, table, k)]
                0 <= k < count ==> {
                    let start = begun(wad, items, table, k);
                    &&& start.fault is None
                    &&& wad.bytes.len() <= start.bytes.len() <= u32::MAX
                    &&& field(after, table + 4 * k, start.bytes.len() as int)
                    &&& kept(items[k].record(start), after, wad.bytes.len() as int)
                }
        }),
    decreases count,
{
    let form = |wad: Wad, item: T| item.record(wad);
    if count == 0 {
        assert(wad.filled(items, form, table, count) == wad);
    } else {
        let last = (count - 1) as nat;
        let before = wad.filled(items, form, table, last);
        let slot = table + 4 * last;
        let start = before.here(slot);
        let after = wad.filled(items, form, table, count);
        assert(after == items[last as int].record(start));
        assert(kept(start, after, 0));
        assert(start.fault is None) by {
            reveal(kept);
        }
        assert(before.fault is None) by {
            reveal(Wad::patched);
        }
        lemma_filled_table(wad, items, table, last);
        lemma_here(before, slot);
        reveal(Wad::patched);
        lemma_word_replaced(before.bytes, slot, before.bytes.len() as int);
        assert forall|k: int|
            0 <= k < wad.bytes.len() && (k < table || table + 4 * items.len() <= k) implies
            #[trigger] after.bytes[k] == wad.bytes[k] by {
            reveal(kept);
            assert(after.bytes[k] == start.bytes[k]);
        }
        assert(wad.bytes.len() <= after.bytes.len()) by {
            reveal(kept);
        }
        assert forall|k: int|
            #![trigger begun(wad, items, table, k)]
            0 <= k < count implies {
            let start = begun(wad, items, table, k);
            &&& start.fault is None
            &&& wad.bytes.len() <= start.bytes.len() <= u32::MAX
            &&& field(after, table + 4 * k, start.bytes.len() as int)
            &&& kept(items[k].record(start), after, wad.bytes.len() as int)
        } by {
            let first = begun(wad, items, table, k);
            if k == last {
                assert(first == start);
                lemma_kept_same(after, wad.bytes.len() as int);
                lemma_kept_field(start, after, 0, slot, before.bytes.len() as int);
            } else {
                assert(field(start, table + 4 * k, first.bytes.len() as int));
                lemma_kept_field(start, after, 0, table + 4 * k, first.bytes.len() as int);
                let written = items[k].record(first);
                assert(kept(written, before, wad.bytes.len() as int));
                lemma_kept_patched(
                    written,
                    before,
                    slot,
                    before.bytes.len() as u32,
                    wad.bytes.len() as int,
                );
                lemma_kept_chain(written, start, after, wad.bytes.len() as int, 0);
            }
        }
    }
}

/// A table holds the number of its records, and for each the position at which it
/// stands in the file.
#[verifier::spinoff_prover]
proof fn lemma_table<T: Record>(wad: Wad, items: Seq<T>)
    requires
        append_only(items),
        wad.table(items).fault is None,
    ensures
        ({
            let after = wad.table(items);
            let at = wad.bytes.len() as int;
            let base = wad.count(items.len(), "offset table count"@).reserved(items.len());
            &&& wad.fault is None
            &&& kept(wad, after, 0)
            &&& items.len() <= u32::MAX
            &&& field(after, at, items.len() as int)
            &&& base.bytes.len() == at + 4 + 4 * items.len()
            &&& base.bytes.len() <= after.bytes.len()
            &&& forall|k: int|
                #![trigger begun(base, items, at + 4, k)]
                0 <= k < items.len() ==> {
                    let start = begun(base, items, at + 4, k);
                    &&& start.fault is None
                    &&& base.bytes.len() <= start.bytes.len() <= u32::MAX
                    &&& field(after, at + 4 + 4 * k, start.bytes.len() as int)
                    &&& kept(items[k].record(start), after, base.bytes.len() as int)
                }
        }),
{
    broadcast use {group_kept, group_fields};

    let at = wad.bytes.len() as int;
    let counted = wad.count(items.len(), "offset table count"@);
    let base = counted.reserved(items.len());
    let after = wad.table(items);
    lemma_kept_same(wad, 0);
    assert(counted.fault is None);
    assert(items.len() <= u32::MAX);
    assert(counted.bytes.len() == at + 4);
    assert(field(counted, at, items.len() as int));
    assert(kept(wad, counted, 0));
    lemma_reserved(counted, items.len());
    lemma_kept_field(counted, base, 0, at, items.len() as int);
    lemma_kept_chain(wad, counted, base, 0, 0);
    lemma_filled_table(base, items, at + 4, items.len());
    reveal(kept);
    reveal(field);
}

proof fn lemma_tables_keep<T: Record>(base: Wad, wad: Wad, items: Seq<T>, from: int)
    requires
        append_only(items),
        kept(base, wad, from),
        0 <= from,
    ensures
        kept(base, wad.table(items), from),
{
    if wad.table(items).fault is None {
        lemma_table(wad, items);
        lemma_kept_chain(base, wad, wad.table(items), from, 0);
    } else {
        reveal(kept);
    }
}

/// Whether an instance stands at an offset.
pub open spec fn instance_stands(bytes: Seq<u8>, at: int, instance: RoomInstance) -> bool {
    &&& integer_at(bytes, at) == instance.x
    &&& integer_at(bytes, at + 4) == instance.y
    &&& integer_at(bytes, at + 8) == instance.object_index
    &&& integer_at(bytes, at + 12) == instance.id
    &&& number_at(bytes, at + 20) == instance.scale_x
    &&& number_at(bytes, at + 24) == instance.scale_y
    &&& number_at(bytes, at + 28) == instance.wad_color
    &&& number_at(bytes, at + 32) == instance.rotation
}

/// Whether a tile stands at an offset.
pub open spec fn tile_stands(bytes: Seq<u8>, at: int, tile: RoomTile) -> bool {
    &&& integer_at(bytes, at) == tile.x
    &&& integer_at(bytes, at + 4) == tile.y
    &&& integer_at(bytes, at + 8) == tile.background_index
    &&& integer_at(bytes, at + 12) == tile.source_x
    &&& integer_at(bytes, at + 16) == tile.source_y
    &&& integer_at(bytes, at + 20) == tile.width
    &&& integer_at(bytes, at + 24) == tile.height
    &&& integer_at(bytes, at + 28) == tile.depth
    &&& integer_at(bytes, at + 32) == tile.id
    &&& number_at(bytes, at + 36) == tile.scale_x
    &&& number_at(bytes, at + 40) == tile.scale_y
}

/// Whether a view stands at an offset.
pub open spec fn view_stands(bytes: Seq<u8>, at: int, view: RoomView) -> bool {
    &&& number_at(bytes, at) == (if view.visible {
        1int
    } else {
        0
    })
    &&& integer_at(bytes, at + 4) == view.x_view
    &&& integer_at(bytes, at + 8) == view.y_view
    &&& integer_at(bytes, at + 12) == view.width_view
    &&& integer_at(bytes, at + 16) == view.height_view
    &&& integer_at(bytes, at + 20) == view.x_port
    &&& integer_at(bytes, at + 24) == view.y_port
    &&& integer_at(bytes, at + 28) == view.width_port
    &&& integer_at(bytes, at + 32) == view.height_port
    &&& integer_at(bytes, at + 52) == view.object_index
}

/// Whether a background of a room stands at an offset.
pub open spec fn background_stands(bytes: Seq<u8>, at: int, background: RoomBackground) -> bool {
    &&& number_at(bytes, at) == (if background.visible {
        1int
    } else {
        0
    })
    &&& number_at(bytes, at + 4) == (if background.foreground {
        1int
    } else {
        0
    })
    &&& integer_at(bytes, at + 8) == background.background_index
    &&& integer_at(bytes, at + 12) == background.x
    &&& integer_at(bytes, at + 16) == background.y
}

/// Whether a table stands at an offset: the number of its records, and behind it
/// the offset of each, at which the record stands.
pub open spec fn table_stands<T>(
    bytes: Seq<u8>,
    start: int,
    end: int,
    table: int,
    items: Seq<T>,
    stands: spec_fn(Seq<u8>, int, T) -> bool,
    size: int,
) -> bool {
    &&& start <= table
    &&& table + 4 + 4 * items.len() <= end
    &&& number_at(bytes, table) == items.len()
    &&& forall|k: int|
        0 <= k < items.len() ==> #[trigger] entry_stands(
            bytes,
            start,
            end,
            table + 4 + 4 * k,
            items[k],
            stands,
            size,
        )
}

/// Whether an entry of a table holds the offset at which a record stands.
pub open spec fn entry_stands<T>(
    bytes: Seq<u8>,
    start: int,
    end: int,
    entry: int,
    item: T,
    stands: spec_fn(Seq<u8>, int, T) -> bool,
    size: int,
) -> bool {
    let at = number_at(bytes, entry);
    &&& start <= at
    &&& at + size <= end
    &&& stands(bytes, at, item)
}

/// Whether a room stands at an offset: its size, its speed and the tables of what
/// is in it.
pub open spec fn room_stands(bytes: Seq<u8>, start: int, end: int, room: Room) -> bool {
    &&& start + 88 <= end
    &&& integer_at(bytes, start + 8) == room.width
    &&& integer_at(bytes, start + 12) == room.height
    &&& integer_at(bytes, start + 16) == room.speed
    &&& number_at(bytes, start + 20) == (if room.persistent {
        1int
    } else {
        0
    })
    &&& integer_at(bytes, start + 24) == room.color
    &&& number_at(bytes, start + 28) == (if room.show_color {
        1int
    } else {
        0
    })
    &&& number_at(bytes, start + 36) == (if room.enable_views {
        1int
    } else {
        0
    }) + (if room.clear_view_background {
        2int
    } else {
        0
    }) + (if room.clear_display_buffer {
        0int
    } else {
        4
    })
    &&& table_stands(
        bytes,
        start,
        end,
        number_at(bytes, start + 40),
        room.backgrounds@,
        |bytes: Seq<u8>, at: int, item: RoomBackground| background_stands(bytes, at, item),
        40,
    )
    &&& table_stands(
        bytes,
        start,
        end,
        number_at(bytes, start + 44),
        room.views@,
        |bytes: Seq<u8>, at: int, item: RoomView| view_stands(bytes, at, item),
        56,
    )
    &&& table_stands(
        bytes,
        start,
        end,
        number_at(bytes, start + 48),
        room.instances@,
        |bytes: Seq<u8>, at: int, item: RoomInstance| instance_stands(bytes, at, item),
        40,
    )
    &&& table_stands(
        bytes,
        start,
        end,
        number_at(bytes, start + 52),
        room.tiles@,
        |bytes: Seq<u8>, at: int, item: RoomTile| tile_stands(bytes, at, item),
        48,
    )
}

proof fn lemma_records_append(room: Room, record: RoomRecord)
    ensures
        append_only(room.backgrounds@),
        append_only(room.views@),
        append_only(record.instances()),
        append_only(room.tiles@),
{
    broadcast use group_kept;

    assert forall|k: int, wad: Wad|
        #![trigger room.backgrounds@[k].record(wad)]
        0 <= k < room.backgrounds@.len() implies kept(
        wad,
        room.backgrounds@[k].record(wad),
        0,
    ) by {
        lemma_kept_same(wad, 0);
    }
    assert forall|k: int, wad: Wad|
        #![trigger room.views@[k].record(wad)]
        0 <= k < room.views@.len() implies kept(wad, room.views@[k].record(wad), 0) by {
        lemma_kept_same(wad, 0);
    }
    assert forall|k: int, wad: Wad|
        #![trigger record.instances()[k].record(wad)]
        0 <= k < record.instances().len() implies kept(
        wad,
        record.instances()[k].record(wad),
        0,
    ) by {
        lemma_kept_same(wad, 0);
    }
    assert forall|k: int, wad: Wad|
        #![trigger room.tiles@[k].record(wad)]
        0 <= k < room.tiles@.len() implies kept(wad, room.tiles@[k].record(wad), 0) by {
        lemma_kept_same(wad, 0);
    }
}

/// What a table shows once its records are known to stand.
proof fn lemma_table_stands<T: Record, U>(
    wad: Wad,
    items: Seq<T>,
    after: Wad,
    start: int,
    shown: Seq<U>,
    stands: spec_fn(Seq<u8>, int, U) -> bool,
    size: int,
)
    requires
        append_only(items),
        wad.table(items).fault is None,
        kept(wad.table(items), after, wad.bytes.len() as int),
        after.fault is None,
        0 <= start <= wad.bytes.len(),
        shown.len() == items.len(),
        0 <= size,
        forall|k: int, state: Wad|
            #![trigger items[k].record(state)]
            0 <= k < items.len() && items[k].record(state).fault is None ==> {
                let written = items[k].record(state);
                &&& written.bytes.len() == state.bytes.len() + size
                &&& stands(written.bytes, state.bytes.len() as int, shown[k])
            },
        forall|k: int, first: Seq<u8>, second: Seq<u8>, at: int|
            #![trigger stands(first, at, shown[k]), stands(second, at, shown[k])]
            0 <= k < shown.len() && stands(first, at, shown[k]) && agree(first, second, at, size)
                ==> stands(second, at, shown[k]),
    ensures
        table_stands(
            after.bytes,
            start,
            after.bytes.len() as int,
            wad.bytes.len() as int,
            shown,
            stands,
            size,
        ),
{
    let at = wad.bytes.len() as int;
    lemma_table_head(wad, items, after);
    assert forall|k: int| 0 <= k < shown.len() implies #[trigger] entry_stands(
        after.bytes,
        start,
        after.bytes.len() as int,
        at + 4 + 4 * k,
        shown[k],
        stands,
        size,
    ) by {
        lemma_record_stands(wad, items, after, start, shown, stands, size, k);
    }
}

proof fn lemma_table_head<T: Record>(wad: Wad, items: Seq<T>, after: Wad)
    requires
        append_only(items),
        wad.table(items).fault is None,
        kept(wad.table(items), after, wad.bytes.len() as int),
        after.fault is None,
    ensures
        wad.bytes.len() + 4 + 4 * items.len() <= after.bytes.len(),
        number_at(after.bytes, wad.bytes.len() as int) == items.len(),
{
    let at = wad.bytes.len() as int;
    lemma_table(wad, items);
    let table = wad.table(items);
    lemma_kept_field(table, after, at, at, items.len() as int);
    lemma_field_number(after, at, items.len() as int);
    assert(table.bytes.len() <= after.bytes.len()) by {
        reveal(kept);
    }
}

proof fn lemma_record_stands<T: Record, U>(
    wad: Wad,
    items: Seq<T>,
    after: Wad,
    start: int,
    shown: Seq<U>,
    stands: spec_fn(Seq<u8>, int, U) -> bool,
    size: int,
    k: int,
)
    requires
        append_only(items),
        wad.table(items).fault is None,
        kept(wad.table(items), after, wad.bytes.len() as int),
        after.fault is None,
        0 <= start <= wad.bytes.len(),
        shown.len() == items.len(),
        0 <= size,
        forall|k: int, state: Wad|
            #![trigger items[k].record(state)]
            0 <= k < items.len() && items[k].record(state).fault is None ==> {
                let written = items[k].record(state);
                &&& written.bytes.len() == state.bytes.len() + size
                &&& stands(written.bytes, state.bytes.len() as int, shown[k])
            },
        forall|k: int, first: Seq<u8>, second: Seq<u8>, at: int|
            #![trigger stands(first, at, shown[k]), stands(second, at, shown[k])]
            0 <= k < shown.len() && stands(first, at, shown[k]) && agree(first, second, at, size)
                ==> stands(second, at, shown[k]),
        0 <= k < shown.len(),
    ensures
        ({
            let place = number_at(after.bytes, wad.bytes.len() + 4 + 4 * k);
            &&& start <= place
            &&& place + size <= after.bytes.len()
            &&& stands(after.bytes, place, shown[k])
        }),
{
    let at = wad.bytes.len() as int;
    let base = wad.count(items.len(), "offset table count"@).reserved(items.len());
    let table = wad.table(items);
    lemma_table(wad, items);
    let first = begun(base, items, at + 4, k);
    let place = first.bytes.len() as int;
    lemma_kept_field(table, after, at, at + 4 + 4 * k, place);
    lemma_field_number(after, at + 4 + 4 * k, place);
    let written = items[k].record(first);
    assert(written.fault is None) by {
        reveal(kept);
    }
    assert(stands(written.bytes, place, shown[k]));
    lemma_kept_chain(written, table, after, base.bytes.len() as int, at);
    assert(agree(written.bytes, after.bytes, place, size)) by {
        reveal(kept);
    }
    assert(written.bytes.len() <= after.bytes.len()) by {
        reveal(kept);
    }
    assert(stands(after.bytes, place, shown[k]));
}

proof fn lemma_field_number(wad: Wad, offset: int, value: int)
    requires
        field(wad, offset, value),
        wad.fault is None,
    ensures
        0 <= offset,
        offset + 4 <= wad.bytes.len(),
        number_at(wad.bytes, offset) == value,
        integer_at(wad.bytes, offset) == if value < 0x8000_0000 {
            value
        } else {
            value - 0x1_0000_0000
        },
{
    reveal(field);
}

/// Whether two files have the same bytes at an offset.
pub open spec fn agree(first: Seq<u8>, second: Seq<u8>, at: int, size: int) -> bool {
    forall|k: int| at <= k < at + size ==> #[trigger] first[k] == second[k]
}

#[verifier::spinoff_prover]
proof fn lemma_backgrounds(wad: Wad, room: Room, after: Wad, start: int)
    requires
        append_only(room.backgrounds@),
        wad.table(room.backgrounds@).fault is None,
        kept(wad.table(room.backgrounds@), after, wad.bytes.len() as int),
        after.fault is None,
        0 <= start <= wad.bytes.len(),
    ensures
        table_stands(
            after.bytes,
            start,
            after.bytes.len() as int,
            wad.bytes.len() as int,
            room.backgrounds@,
            |bytes: Seq<u8>, at: int, item: RoomBackground| background_stands(bytes, at, item),
            40,
        ),
{
    let items = room.backgrounds@;
    let shown = room.backgrounds@;
    let stands = |bytes: Seq<u8>, at: int, item: RoomBackground| background_stands(bytes, at, item);
    assert forall|k: int, state: Wad|
        #![trigger items[k].record(state)]
        0 <= k < items.len() && items[k].record(state).fault is None implies {
        let written = items[k].record(state);
        &&& written.bytes.len() == state.bytes.len() + 40
        &&& stands(written.bytes, state.bytes.len() as int, shown[k])
    } by {
        law_room_background_layout(items[k], state);
    }
    assert forall|k: int, first: Seq<u8>, second: Seq<u8>, at: int|
        #![trigger stands(first, at, shown[k]), stands(second, at, shown[k])]
        0 <= k < shown.len() && stands(first, at, shown[k]) && agree(
            first,
            second,
            at,
            40,
        ) implies stands(second, at, shown[k]) by {
        lemma_background_stands(first, second, at, shown[k]);
    }
    lemma_table_stands(wad, items, after, start, shown, stands, 40);
}

#[verifier::spinoff_prover]
proof fn lemma_background_stands(first: Seq<u8>, second: Seq<u8>, at: int, item: RoomBackground)
    requires
        background_stands(first, at, item),
        agree(first, second, at, 40),
    ensures
        background_stands(second, at, item),
{
    assert forall|k: int| 0 <= k <= 40 - 4 implies #[trigger] number_at(second, at + k)
        == number_at(first, at + k) by {
        assert(first[at + k] == second[at + k]);
        assert(first[at + k + 1] == second[at + k + 1]);
        assert(first[at + k + 2] == second[at + k + 2]);
        assert(first[at + k + 3] == second[at + k + 3]);
    }
    assert forall|k: int| 0 <= k <= 40 - 4 implies #[trigger] integer_at(second, at + k)
        == integer_at(first, at + k) by {
        assert(number_at(second, at + k) == number_at(first, at + k));
    }
    assert(number_at(second, at + 0) == number_at(first, at + 0));
    assert(integer_at(second, at + 0) == integer_at(first, at + 0));
}

#[verifier::spinoff_prover]
proof fn lemma_views(wad: Wad, room: Room, after: Wad, start: int)
    requires
        append_only(room.views@),
        wad.table(room.views@).fault is None,
        kept(wad.table(room.views@), after, wad.bytes.len() as int),
        after.fault is None,
        0 <= start <= wad.bytes.len(),
    ensures
        table_stands(
            after.bytes,
            start,
            after.bytes.len() as int,
            wad.bytes.len() as int,
            room.views@,
            |bytes: Seq<u8>, at: int, item: RoomView| view_stands(bytes, at, item),
            56,
        ),
{
    let items = room.views@;
    let shown = room.views@;
    let stands = |bytes: Seq<u8>, at: int, item: RoomView| view_stands(bytes, at, item);
    assert forall|k: int, state: Wad|
        #![trigger items[k].record(state)]
        0 <= k < items.len() && items[k].record(state).fault is None implies {
        let written = items[k].record(state);
        &&& written.bytes.len() == state.bytes.len() + 56
        &&& stands(written.bytes, state.bytes.len() as int, shown[k])
    } by {
        law_view_layout(items[k], state);
    }
    assert forall|k: int, first: Seq<u8>, second: Seq<u8>, at: int|
        #![trigger stands(first, at, shown[k]), stands(second, at, shown[k])]
        0 <= k < shown.len() && stands(first, at, shown[k]) && agree(
            first,
            second,
            at,
            56,
        ) implies stands(second, at, shown[k]) by {
        lemma_view_stands(first, second, at, shown[k]);
    }
    lemma_table_stands(wad, items, after, start, shown, stands, 56);
}

#[verifier::spinoff_prover]
proof fn lemma_view_stands(first: Seq<u8>, second: Seq<u8>, at: int, item: RoomView)
    requires
        view_stands(first, at, item),
        agree(first, second, at, 56),
    ensures
        view_stands(second, at, item),
{
    assert forall|k: int| 0 <= k <= 56 - 4 implies #[trigger] number_at(second, at + k)
        == number_at(first, at + k) by {
        assert(first[at + k] == second[at + k]);
        assert(first[at + k + 1] == second[at + k + 1]);
        assert(first[at + k + 2] == second[at + k + 2]);
        assert(first[at + k + 3] == second[at + k + 3]);
    }
    assert forall|k: int| 0 <= k <= 56 - 4 implies #[trigger] integer_at(second, at + k)
        == integer_at(first, at + k) by {
        assert(number_at(second, at + k) == number_at(first, at + k));
    }
    assert(number_at(second, at + 0) == number_at(first, at + 0));
    assert(integer_at(second, at + 0) == integer_at(first, at + 0));
}

#[verifier::spinoff_prover]
proof fn lemma_tiles(wad: Wad, room: Room, after: Wad, start: int)
    requires
        append_only(room.tiles@),
        wad.table(room.tiles@).fault is None,
        kept(wad.table(room.tiles@), after, wad.bytes.len() as int),
        after.fault is None,
        0 <= start <= wad.bytes.len(),
    ensures
        table_stands(
            after.bytes,
            start,
            after.bytes.len() as int,
            wad.bytes.len() as int,
            room.tiles@,
            |bytes: Seq<u8>, at: int, item: RoomTile| tile_stands(bytes, at, item),
            48,
        ),
{
    let items = room.tiles@;
    let shown = room.tiles@;
    let stands = |bytes: Seq<u8>, at: int, item: RoomTile| tile_stands(bytes, at, item);
    assert forall|k: int, state: Wad|
        #![trigger items[k].record(state)]
        0 <= k < items.len() && items[k].record(state).fault is None implies {
        let written = items[k].record(state);
        &&& written.bytes.len() == state.bytes.len() + 48
        &&& stands(written.bytes, state.bytes.len() as int, shown[k])
    } by {
        law_tile_layout(items[k], state);
    }
    assert forall|k: int, first: Seq<u8>, second: Seq<u8>, at: int|
        #![trigger stands(first, at, shown[k]), stands(second, at, shown[k])]
        0 <= k < shown.len() && stands(first, at, shown[k]) && agree(
            first,
            second,
            at,
            48,
        ) implies stands(second, at, shown[k]) by {
        lemma_tile_stands(first, second, at, shown[k]);
    }
    lemma_table_stands(wad, items, after, start, shown, stands, 48);
}

#[verifier::spinoff_prover]
proof fn lemma_tile_stands(first: Seq<u8>, second: Seq<u8>, at: int, item: RoomTile)
    requires
        tile_stands(first, at, item),
        agree(first, second, at, 48),
    ensures
        tile_stands(second, at, item),
{
    assert forall|k: int| 0 <= k <= 48 - 4 implies #[trigger] number_at(second, at + k)
        == number_at(first, at + k) by {
        assert(first[at + k] == second[at + k]);
        assert(first[at + k + 1] == second[at + k + 1]);
        assert(first[at + k + 2] == second[at + k + 2]);
        assert(first[at + k + 3] == second[at + k + 3]);
    }
    assert forall|k: int| 0 <= k <= 48 - 4 implies #[trigger] integer_at(second, at + k)
        == integer_at(first, at + k) by {
        assert(number_at(second, at + k) == number_at(first, at + k));
    }
    assert(number_at(second, at + 0) == number_at(first, at + 0));
    assert(integer_at(second, at + 0) == integer_at(first, at + 0));
}

#[verifier::spinoff_prover]
proof fn lemma_instances(wad: Wad, record: RoomRecord, after: Wad, start: int)
    requires
        append_only(record.instances()),
        wad.table(record.instances()).fault is None,
        kept(wad.table(record.instances()), after, wad.bytes.len() as int),
        after.fault is None,
        0 <= start <= wad.bytes.len(),
    ensures
        table_stands(
            after.bytes,
            start,
            after.bytes.len() as int,
            wad.bytes.len() as int,
            record.room.instances@,
            |bytes: Seq<u8>, at: int, item: RoomInstance| instance_stands(bytes, at, item),
            40,
        ),
{
    let items = record.instances();
    let shown = record.room.instances@;
    let stands = |bytes: Seq<u8>, at: int, item: RoomInstance| instance_stands(bytes, at, item);
    assert forall|k: int, state: Wad|
        #![trigger items[k].record(state)]
        0 <= k < items.len() && items[k].record(state).fault is None implies {
        let written = items[k].record(state);
        &&& written.bytes.len() == state.bytes.len() + 40
        &&& stands(written.bytes, state.bytes.len() as int, shown[k])
    } by {
        law_instance_layout(items[k], state);
    }
    assert forall|k: int, first: Seq<u8>, second: Seq<u8>, at: int|
        #![trigger stands(first, at, shown[k]), stands(second, at, shown[k])]
        0 <= k < shown.len() && stands(first, at, shown[k]) && agree(
            first,
            second,
            at,
            40,
        ) implies stands(second, at, shown[k]) by {
        lemma_instance_stands(first, second, at, shown[k]);
    }
    lemma_table_stands(wad, items, after, start, shown, stands, 40);
}

#[verifier::spinoff_prover]
proof fn lemma_instance_stands(first: Seq<u8>, second: Seq<u8>, at: int, item: RoomInstance)
    requires
        instance_stands(first, at, item),
        agree(first, second, at, 40),
    ensures
        instance_stands(second, at, item),
{
    assert forall|k: int| 0 <= k <= 40 - 4 implies #[trigger] number_at(second, at + k)
        == number_at(first, at + k) by {
        assert(first[at + k] == second[at + k]);
        assert(first[at + k + 1] == second[at + k + 1]);
        assert(first[at + k + 2] == second[at + k + 2]);
        assert(first[at + k + 3] == second[at + k + 3]);
    }
    assert forall|k: int| 0 <= k <= 40 - 4 implies #[trigger] integer_at(second, at + k)
        == integer_at(first, at + k) by {
        assert(number_at(second, at + k) == number_at(first, at + k));
    }
    assert(number_at(second, at + 0) == number_at(first, at + 0));
    assert(integer_at(second, at + 0) == integer_at(first, at + 0));
}

proof fn lemma_here_fault(wad: Wad, position: int)
    requires
        wad.here(position).fault is None,
    ensures
        wad.fault is None,
        wad.here(position) == wad.patched(position, wad.bytes.len() as u32),
        wad.bytes.len() <= u32::MAX,
        wad.here(position).bytes.len() == wad.bytes.len(),
{
    reveal(Wad::patched);
    if 0 <= position && position + 4 <= wad.bytes.len() && wad.fault is None {
        lemma_word_replaced(wad.bytes, position, wad.bytes.len() as int);
    }
}

/// What a room begins with, before the words for its tables.
#[verifier::spinoff_prover]
proof fn lemma_room_head(record: RoomRecord, wad: Wad)
    requires
        record.head(wad).fault is None,
    ensures
        ({
            let head = record.head(wad);
            let room = *record.room;
            let at = wad.bytes.len() as int;
            &&& wad.fault is None
            &&& head.bytes.len() == at + 40
            &&& kept(wad, head, 0)
            &&& field(head, at + 8, unsigned32(room.width))
            &&& field(head, at + 12, unsigned32(room.height))
            &&& field(head, at + 16, unsigned32(room.speed))
            &&& field(
                head,
                at + 20,
                if room.persistent {
                    1
                } else {
                    0
                },
            )
            &&& field(head, at + 24, unsigned32(room.color))
            &&& field(
                head,
                at + 28,
                if room.show_color {
                    1
                } else {
                    0
                },
            )
            &&& field(head, at + 36, unsigned32(crate::resource_chunks::room_flags(room)))
        }),
{
    broadcast use {group_fields, group_kept};

    let room = *record.room;
    let at = wad.bytes.len() as int;
    lemma_kept_same(wad, 0);
    let shown = wad.text(room.name@).text(room.caption@).integer(room.width).integer(
        room.height,
    ).integer(room.speed).flag(room.persistent).integer(room.color).flag(room.show_color);
    lemma_code(shown, record.codes@, CodeKind::RoomCreation, room.name@);
    assert(shown.fault is None);
    assert(shown.bytes.len() == at + 32);
}

/// The states that a room is written through.
struct RoomStates {
    physical: Wad,
    first: Wad,
    second: Wad,
    third: Wad,
    fourth: Wad,
}

spec fn room_states(record: RoomRecord, wad: Wad) -> RoomStates {
    let room = *record.room;
    let world = room.physics_world;
    let at = wad.bytes.len() as int;
    let physical = record.head(wad).word(0).word(0).word(0).word(0).flag(world.enabled).integer(
        world.top,
    ).integer(world.left).integer(world.right).integer(world.bottom).word(world.gravity_x).word(
        world.gravity_y,
    ).word(world.pixels_to_meters);
    let first = physical.here(at + 40);
    let second = first.table(room.backgrounds@).here(at + 44);
    let third = second.table(room.views@).here(at + 48);
    let fourth = third.table(record.instances()).here(at + 52);
    RoomStates { physical, first, second, third, fourth }
}

#[verifier::spinoff_prover]
#[verifier::rlimit(40)]
proof fn lemma_room_states(record: RoomRecord, wad: Wad)
    requires
        record.record(wad).fault is None,
    ensures
        ({
            let states = room_states(record, wad);
            let room = *record.room;
            let after = record.record(wad);
            let at = wad.bytes.len() as int;
            &&& after == states.fourth.table(room.tiles@)
            &&& record.head(wad).fault is None
            &&& states.physical.fault is None
            &&& states.physical.bytes.len() == at + 88
            &&& states.first.fault is None
            &&& states.second.fault is None
            &&& states.third.fault is None
            &&& states.fourth.fault is None
            &&& states.first.table(room.backgrounds@).fault is None
            &&& states.second.table(room.views@).fault is None
            &&& states.third.table(record.instances()).fault is None
            &&& kept(record.head(wad), states.physical, 0)
        }),
{
    broadcast use {group_fields, group_kept};

    let room = *record.room;
    let at = wad.bytes.len() as int;
    let states = room_states(record, wad);
    let after = record.record(wad);
    lemma_records_append(room, record);
    let head = record.head(wad);
    lemma_kept_same(head, 0);
    if head.fault is None {
        lemma_room_head(record, wad);
        assert(head.word(0).bytes.len() == at + 44);
        assert(head.word(0).word(0).bytes.len() == at + 48);
        assert(head.word(0).word(0).word(0).bytes.len() == at + 52);
        assert(after == states.fourth.table(room.tiles@));
        lemma_table(states.fourth, room.tiles@);
        lemma_here_fault(states.third.table(record.instances()), at + 52);
        lemma_table(states.third, record.instances());
        lemma_here_fault(states.second.table(room.views@), at + 48);
        lemma_table(states.second, room.views@);
        lemma_here_fault(states.first.table(room.backgrounds@), at + 44);
        lemma_table(states.first, room.backgrounds@);
        lemma_here_fault(states.physical, at + 40);
    } else {
        lemma_room_fault(record, wad);
    }
}

proof fn lemma_table_fault<T: Record>(wad: Wad, items: Seq<T>)
    requires
        append_only(items),
        wad.fault is Some,
    ensures
        wad.table(items).fault is Some,
{
    if wad.table(items).fault is None {
        lemma_table(wad, items);
    }
}

proof fn lemma_here_keeps_fault(wad: Wad, position: int)
    requires
        wad.fault is Some,
    ensures
        wad.here(position).fault is Some,
{
    reveal(Wad::patched);
}

/// Nothing is written of a room behind a fault.
proof fn lemma_room_fault(record: RoomRecord, wad: Wad)
    requires
        record.head(wad).fault is Some,
    ensures
        record.record(wad).fault is Some,
{
    broadcast use group_fields;

    let room = *record.room;
    let world = room.physics_world;
    let backgrounds = record.head(wad);
    let views = backgrounds.word(0);
    let instances = views.word(0);
    let tiles = instances.word(0);
    let physical = tiles.word(0).flag(world.enabled).integer(world.top).integer(
        world.left,
    ).integer(world.right).integer(world.bottom).word(world.gravity_x).word(
        world.gravity_y,
    ).word(world.pixels_to_meters);
    lemma_records_append(room, record);
    let first = physical.here(backgrounds.bytes.len() as int);
    lemma_here_keeps_fault(physical, backgrounds.bytes.len() as int);
    lemma_table_fault(first, room.backgrounds@);
    let second = first.table(room.backgrounds@).here(views.bytes.len() as int);
    lemma_here_keeps_fault(first.table(room.backgrounds@), views.bytes.len() as int);
    lemma_table_fault(second, room.views@);
    let third = second.table(room.views@).here(instances.bytes.len() as int);
    lemma_here_keeps_fault(second.table(room.views@), instances.bytes.len() as int);
    lemma_table_fault(third, record.instances());
    let fourth = third.table(record.instances()).here(tiles.bytes.len() as int);
    lemma_here_keeps_fault(third.table(record.instances()), tiles.bytes.len() as int);
    lemma_table_fault(fourth, room.tiles@);
}

/// A word of a room that stands before the words for its tables stays as it is,
/// and each of those words holds the offset of its table.
#[verifier::spinoff_prover]
#[verifier::rlimit(40)]
proof fn lemma_room_kept(record: RoomRecord, wad: Wad)
    requires
        record.record(wad).fault is None,
    ensures
        ({
            let states = room_states(record, wad);
            let room = *record.room;
            let after = record.record(wad);
            let at = wad.bytes.len() as int;
            &&& kept(record.head(wad), after, 0)
            &&& at + 88 == states.first.bytes.len()
            &&& states.first.bytes.len() <= states.second.bytes.len() <= states.third.bytes.len()
                <= states.fourth.bytes.len()
            &&& field(after, at + 40, states.first.bytes.len() as int)
            &&& field(after, at + 44, states.second.bytes.len() as int)
            &&& field(after, at + 48, states.third.bytes.len() as int)
            &&& field(after, at + 52, states.fourth.bytes.len() as int)
            &&& kept(
                states.first.table(room.backgrounds@),
                after,
                states.first.bytes.len() as int,
            )
            &&& kept(states.second.table(room.views@), after, states.second.bytes.len() as int)
            &&& kept(
                states.third.table(record.instances()),
                after,
                states.third.bytes.len() as int,
            )
            &&& kept(after, after, states.fourth.bytes.len() as int)
        }),
{
    let room = *record.room;
    let at = wad.bytes.len() as int;
    let states = room_states(record, wad);
    let after = record.record(wad);
    lemma_room_states(record, wad);
    lemma_room_head(record, wad);
    lemma_records_append(room, record);
    let head = record.head(wad);
    let a = states.first.table(room.backgrounds@);
    let b = states.second.table(room.views@);
    let c = states.third.table(record.instances());
    lemma_here_fault(states.physical, at + 40);
    lemma_here_fault(a, at + 44);
    lemma_here_fault(b, at + 48);
    lemma_here_fault(c, at + 52);
    lemma_grown(states.first, room.backgrounds@);
    lemma_grown(states.second, room.views@);
    lemma_grown(states.third, record.instances());
    lemma_grown(states.fourth, room.tiles@);
    // The head.
    lemma_kept_patched(head, states.physical, at + 40, states.physical.bytes.len() as u32, 0);
    lemma_tables_keep(head, states.first, room.backgrounds@, 0);
    lemma_kept_patched(head, a, at + 44, a.bytes.len() as u32, 0);
    lemma_tables_keep(head, states.second, room.views@, 0);
    lemma_kept_patched(head, b, at + 48, b.bytes.len() as u32, 0);
    lemma_tables_keep(head, states.third, record.instances(), 0);
    lemma_kept_patched(head, c, at + 52, c.bytes.len() as u32, 0);
    lemma_tables_keep(head, states.fourth, room.tiles@, 0);
    // The tables.
    let first = states.first.bytes.len() as int;
    let second = states.second.bytes.len() as int;
    let third = states.third.bytes.len() as int;
    let fourth = states.fourth.bytes.len() as int;
    lemma_kept_same(a, first);
    lemma_kept_patched(a, a, at + 44, a.bytes.len() as u32, first);
    lemma_tables_keep(a, states.second, room.views@, first);
    lemma_kept_patched(a, b, at + 48, b.bytes.len() as u32, first);
    lemma_tables_keep(a, states.third, record.instances(), first);
    lemma_kept_patched(a, c, at + 52, c.bytes.len() as u32, first);
    lemma_tables_keep(a, states.fourth, room.tiles@, first);
    lemma_kept_same(b, second);
    lemma_kept_patched(b, b, at + 48, b.bytes.len() as u32, second);
    lemma_tables_keep(b, states.third, record.instances(), second);
    lemma_kept_patched(b, c, at + 52, c.bytes.len() as u32, second);
    lemma_tables_keep(b, states.fourth, room.tiles@, second);
    lemma_kept_same(c, third);
    lemma_kept_patched(c, c, at + 52, c.bytes.len() as u32, third);
    lemma_tables_keep(c, states.fourth, room.tiles@, third);
    lemma_kept_same(after, fourth);
    // The words for the tables.
    lemma_here(states.physical, at + 40);
    lemma_here(a, at + 44);
    lemma_here(b, at + 48);
    lemma_here(c, at + 52);
    lemma_kept_field(states.first, a, 0, at + 40, first);
    assert(field(states.second, at + 40, first));
    lemma_kept_field(states.second, b, 0, at + 40, first);
    lemma_kept_field(states.second, b, 0, at + 44, second);
    assert(field(states.third, at + 40, first));
    assert(field(states.third, at + 44, second));
    lemma_kept_field(states.third, c, 0, at + 40, first);
    lemma_kept_field(states.third, c, 0, at + 44, second);
    lemma_kept_field(states.third, c, 0, at + 48, third);
    assert(field(states.fourth, at + 40, first));
    assert(field(states.fourth, at + 44, second));
    assert(field(states.fourth, at + 48, third));
    lemma_kept_field(states.fourth, after, 0, at + 40, first);
    lemma_kept_field(states.fourth, after, 0, at + 44, second);
    lemma_kept_field(states.fourth, after, 0, at + 48, third);
    lemma_kept_field(states.fourth, after, 0, at + 52, fourth);
}

proof fn lemma_grown<T: Record>(wad: Wad, items: Seq<T>)
    requires
        append_only(items),
        wad.table(items).fault is None,
    ensures
        kept(wad, wad.table(items), 0),
        wad.bytes.len() <= wad.table(items).bytes.len(),
{
    lemma_table(wad, items);
}

/// A room stands in the file at the offset at which it is written: its size and
/// speed, and tables that lead to its backgrounds, views, instances and tiles,
/// each of which stands with its place first.
#[verifier::spinoff_prover]
#[verifier::rlimit(40)]
pub proof fn law_room_layout(record: RoomRecord, wad: Wad)
    requires
        record.record(wad).fault is None,
    ensures
        wad.fault is None,
        room_stands(
            record.record(wad).bytes,
            wad.bytes.len() as int,
            record.record(wad).bytes.len() as int,
            *record.room,
        ),
{
    let room = *record.room;
    let at = wad.bytes.len() as int;
    let states = room_states(record, wad);
    let after = record.record(wad);
    lemma_records_append(room, record);
    lemma_room_states(record, wad);
    lemma_room_head(record, wad);
    lemma_room_kept(record, wad);
    let head = record.head(wad);
    lemma_backgrounds(states.first, room, after, at);
    lemma_views(states.second, room, after, at);
    lemma_instances(states.third, record, after, at);
    lemma_tiles(states.fourth, room, after, at);
    lemma_kept_number(head, after, at + 8, unsigned32(room.width));
    lemma_kept_number(head, after, at + 12, unsigned32(room.height));
    lemma_kept_number(head, after, at + 16, unsigned32(room.speed));
    lemma_kept_number(
        head,
        after,
        at + 20,
        if room.persistent {
            1
        } else {
            0
        },
    );
    lemma_kept_number(head, after, at + 24, unsigned32(room.color));
    lemma_kept_number(
        head,
        after,
        at + 28,
        if room.show_color {
            1
        } else {
            0
        },
    );
    lemma_kept_number(
        head,
        after,
        at + 36,
        unsigned32(crate::resource_chunks::room_flags(room)),
    );
    lemma_field_number(after, at + 40, states.first.bytes.len() as int);
    lemma_field_number(after, at + 44, states.second.bytes.len() as int);
    lemma_field_number(after, at + 48, states.third.bytes.len() as int);
    lemma_field_number(after, at + 52, states.fourth.bytes.len() as int);
    lemma_grown(states.fourth, room.tiles@);
}

proof fn lemma_kept_number(before: Wad, after: Wad, offset: int, value: int)
    requires
        kept(before, after, 0),
        field(before, offset, value),
        0 <= offset,
        after.fault is None,
    ensures
        number_at(after.bytes, offset) == value,
        integer_at(after.bytes, offset) == if value < 0x8000_0000 {
            value
        } else {
            value - 0x1_0000_0000
        },
{
    lemma_kept_field(before, after, 0, offset, value);
    lemma_field_number(after, offset, value);
}

proof fn lemma_room_appends(record: RoomRecord, wad: Wad)
    ensures
        kept(wad, record.record(wad), 0),
{
    if record.record(wad).fault is None {
        lemma_room_states(record, wad);
        lemma_room_head(record, wad);
        lemma_room_kept(record, wad);
        lemma_kept_chain(wad, record.head(wad), record.record(wad), 0, 0);
    } else {
        reveal(kept);
    }
}

proof fn lemma_number_agrees(first: Seq<u8>, second: Seq<u8>, start: int, end: int, at: int)
    requires
        agree(first, second, start, end - start),
        start <= at,
        at + 4 <= end,
    ensures
        number_at(second, at) == number_at(first, at),
        integer_at(second, at) == integer_at(first, at),
{
    assert(first[at] == second[at]);
    assert(first[at + 1] == second[at + 1]);
    assert(first[at + 2] == second[at + 2]);
    assert(first[at + 3] == second[at + 3]);
}

proof fn lemma_table_agrees<T>(
    first: Seq<u8>,
    second: Seq<u8>,
    start: int,
    end: int,
    further: int,
    table: int,
    items: Seq<T>,
    stands: spec_fn(Seq<u8>, int, T) -> bool,
    size: int,
)
    requires
        table_stands(first, start, end, table, items, stands, size),
        agree(first, second, start, end - start),
        end <= further,
        0 <= size,
        forall|a: Seq<u8>, b: Seq<u8>, at: int, item: T|
            #![trigger stands(a, at, item), stands(b, at, item)]
            stands(a, at, item) && agree(a, b, at, size) ==> stands(b, at, item),
    ensures
        table_stands(second, start, further, table, items, stands, size),
{
    lemma_number_agrees(first, second, start, end, table);
    assert forall|k: int| 0 <= k < items.len() implies #[trigger] entry_stands(
        second,
        start,
        further,
        table + 4 + 4 * k,
        items[k],
        stands,
        size,
    ) by {
        assert(entry_stands(first, start, end, table + 4 + 4 * k, items[k], stands, size));
        lemma_number_agrees(first, second, start, end, table + 4 + 4 * k);
        let at = number_at(first, table + 4 + 4 * k);
        assert(stands(first, at, items[k]));
        assert(agree(first, second, at, size));
        assert(stands(second, at, items[k]));
    }
}

#[verifier::spinoff_prover]
#[verifier::rlimit(40)]
proof fn lemma_room_agrees(
    first: Seq<u8>,
    second: Seq<u8>,
    start: int,
    end: int,
    further: int,
    room: Room,
)
    requires
        room_stands(first, start, end, room),
        agree(first, second, start, end - start),
        end <= further,
    ensures
        room_stands(second, start, further, room),
{
    lemma_number_agrees(first, second, start, end, start + 8);
    lemma_number_agrees(first, second, start, end, start + 12);
    lemma_number_agrees(first, second, start, end, start + 16);
    lemma_number_agrees(first, second, start, end, start + 20);
    lemma_number_agrees(first, second, start, end, start + 24);
    lemma_number_agrees(first, second, start, end, start + 28);
    lemma_number_agrees(first, second, start, end, start + 36);
    lemma_number_agrees(first, second, start, end, start + 40);
    lemma_number_agrees(first, second, start, end, start + 44);
    lemma_number_agrees(first, second, start, end, start + 48);
    lemma_number_agrees(first, second, start, end, start + 52);
    let backgrounds = |bytes: Seq<u8>, at: int, item: RoomBackground|
        background_stands(bytes, at, item);
    let views = |bytes: Seq<u8>, at: int, item: RoomView| view_stands(bytes, at, item);
    let instances = |bytes: Seq<u8>, at: int, item: RoomInstance|
        instance_stands(bytes, at, item);
    let tiles = |bytes: Seq<u8>, at: int, item: RoomTile| tile_stands(bytes, at, item);
    assert forall|a: Seq<u8>, b: Seq<u8>, at: int, item: RoomBackground|
        #![trigger backgrounds(a, at, item), backgrounds(b, at, item)]
        backgrounds(a, at, item) && agree(a, b, at, 40) implies backgrounds(b, at, item) by {
        lemma_background_stands(a, b, at, item);
    }
    assert forall|a: Seq<u8>, b: Seq<u8>, at: int, item: RoomView|
        #![trigger views(a, at, item), views(b, at, item)]
        views(a, at, item) && agree(a, b, at, 56) implies views(b, at, item) by {
        lemma_view_stands(a, b, at, item);
    }
    assert forall|a: Seq<u8>, b: Seq<u8>, at: int, item: RoomInstance|
        #![trigger instances(a, at, item), instances(b, at, item)]
        instances(a, at, item) && agree(a, b, at, 40) implies instances(b, at, item) by {
        lemma_instance_stands(a, b, at, item);
    }
    assert forall|a: Seq<u8>, b: Seq<u8>, at: int, item: RoomTile|
        #![trigger tiles(a, at, item), tiles(b, at, item)]
        tiles(a, at, item) && agree(a, b, at, 48) implies tiles(b, at, item) by {
        lemma_tile_stands(a, b, at, item);
    }
    let table = number_at(first, start + 40);
    lemma_table_agrees(
        first,
        second,
        start,
        end,
        further,
        table,
        room.backgrounds@,
        backgrounds,
        40,
    );
    let table = number_at(first, start + 44);
    lemma_table_agrees(first, second, start, end, further, table, room.views@, views, 56);
    let table = number_at(first, start + 48);
    lemma_table_agrees(first, second, start, end, further, table, room.instances@, instances, 40);
    let table = number_at(first, start + 52);
    lemma_table_agrees(first, second, start, end, further, table, room.tiles@, tiles, 48);
}

/// The chunk of the rooms lists the number of rooms and the offset of each, at
/// which the room stands with its backgrounds, views, instances and tiles.
#[verifier::spinoff_prover]
#[verifier::rlimit(40)]
pub proof fn law_rooms_stand_where_the_chunk_lists_them(
    wad: Wad,
    rooms: Seq<Room>,
    codes: &Vec<CompiledCode>,
    at: int,
)
    requires
        room_chunk(wad, rooms, codes).fault is None,
        0 <= at < rooms.len(),
    ensures
        ({
            let bytes = room_chunk(wad, rooms, codes).bytes;
            let start = wad.bytes.len() as int;
            &&& bytes.subrange(start, start + 4) == seq![0x52u8, 0x4fu8, 0x4fu8, 0x4du8]
            &&& number_at(bytes, start + 4) == bytes.len() - start - 8
            &&& number_at(bytes, start + 8) == rooms.len()
            &&& room_stands(
                bytes,
                number_at(bytes, start + 12 + 4 * at),
                bytes.len() as int,
                rooms[at],
            )
        }),
{
    let start = wad.bytes.len() as int;
    let name = seq![0x52u8, 0x4fu8, 0x4fu8, 0x4du8];
    let opened = wad.opened(name);
    let items = room_records(rooms, codes);
    let after = room_chunk(wad, rooms, codes);
    assert forall|k: int, state: Wad|
        #![trigger items[k].record(state)]
        0 <= k < items.len() implies kept(state, items[k].record(state), 0) by {
        lemma_room_appends(items[k], state);
    }
    assert(append_only(items));
    lemma_chunk(wad, name, items);
    let base = opened.count(items.len(), "offset table count"@).reserved(items.len());
    let first = begun(base, items, start + 12, at);
    let written = items[at].record(first);
    lemma_room_lifted(items[at], first, after, base.bytes.len() as int);
}

proof fn lemma_room_lifted(record: RoomRecord, first: Wad, after: Wad, from: int)
    requires
        kept(record.record(first), after, from),
        after.fault is None,
        0 <= from <= first.bytes.len(),
    ensures
        room_stands(
            after.bytes,
            first.bytes.len() as int,
            after.bytes.len() as int,
            *record.room,
        ),
{
    let written = record.record(first);
    let place = first.bytes.len() as int;
    assert(written.fault is None && written.bytes.len() <= after.bytes.len()) by {
        reveal(kept);
    }
    law_room_layout(record, first);
    assert(agree(written.bytes, after.bytes, place, written.bytes.len() - place)) by {
        reveal(kept);
    }
    lemma_room_agrees(
        written.bytes,
        after.bytes,
        place,
        written.bytes.len() as int,
        after.bytes.len() as int,
        *record.room,
    );
}

/// A chunk of records holds its name, its length, the number of records and the
/// offset of each.
#[verifier::spinoff_prover]
proof fn lemma_chunk<T: Record>(wad: Wad, name: Seq<u8>, items: Seq<T>)
    requires
        append_only(items),
        name.len() == 4,
        wad.opened(name).table(items).closed(wad.bytes.len() as int).fault is None,
    ensures
        ({
            let after = wad.opened(name).table(items).closed(wad.bytes.len() as int);
            let bytes = after.bytes;
            let start = wad.bytes.len() as int;
            let base = wad.opened(name).count(items.len(), "offset table count"@).reserved(
                items.len(),
            );
            &&& bytes.subrange(start, start + 4) == name
            &&& number_at(bytes, start + 4) == bytes.len() - start - 8
            &&& number_at(bytes, start + 8) == items.len()
            &&& forall|k: int|
                #![trigger begun(base, items, start + 12, k)]
                0 <= k < items.len() ==> {
                    let first = begun(base, items, start + 12, k);
                    &&& first.fault is None
                    &&& 0 <= base.bytes.len() <= first.bytes.len()
                    &&& number_at(bytes, start + 12 + 4 * k) == first.bytes.len()
                    &&& kept(items[k].record(first), after, base.bytes.len() as int)
                }
        }),
{
    let start = wad.bytes.len() as int;
    let opened = wad.opened(name);
    let listed = opened.table(items);
    let after = listed.closed(start);
    assert(listed.fault is None) by {
        reveal(Wad::patched);
    }
    lemma_table(opened, items);
    assert(opened.bytes == wad.bytes + name + le32(0)) by {
        reveal(Wad::raw);
    }
    let base = opened.count(items.len(), "offset table count"@).reserved(items.len());
    let length = listed.bytes.len() - start - 8;
    assert(after == listed.patched(start + 4, length as u32));
    assert(after.bytes == with_word(listed.bytes, start + 4, length)) by {
        reveal(Wad::patched);
    }
    lemma_word_replaced(listed.bytes, start + 4, length);
    let bytes = after.bytes;
    lemma_number_agrees(listed.bytes, bytes, start + 8, listed.bytes.len() as int, start + 8);
    lemma_field_number(listed, start + 8, items.len() as int);
    assert forall|k: int|
        #![trigger begun(base, items, start + 12, k)]
        0 <= k < items.len() implies {
        let first = begun(base, items, start + 12, k);
        &&& first.fault is None
        &&& 0 <= base.bytes.len() <= first.bytes.len()
        &&& number_at(bytes, start + 12 + 4 * k) == first.bytes.len()
        &&& kept(items[k].record(first), after, base.bytes.len() as int)
    } by {
        let first = begun(base, items, start + 12, k);
        lemma_field_number(listed, start + 12 + 4 * k, first.bytes.len() as int);
        lemma_number_agrees(
            listed.bytes,
            bytes,
            start + 8,
            listed.bytes.len() as int,
            start + 12 + 4 * k,
        );
        lemma_kept_patched(
            items[k].record(first),
            listed,
            start + 4,
            length as u32,
            base.bytes.len() as int,
        );
    }
    assert(bytes.subrange(start, start + 4) =~= name) by {
        reveal(kept);
        assert forall|k: int| 0 <= k < 4 implies bytes[start + k] == name[k] by {
            assert(listed.bytes[start + k] == opened.bytes[start + k]);
        }
    }
}

proof fn lemma_actions_append(
    wad: Wad,
    actions: Seq<crate::resources::Action>,
    codes: Seq<CompiledCode>,
    kind: CodeKind,
    name: Seq<char>,
)
    ensures
        kept(wad, crate::resource_chunks::with_actions(wad, actions, codes, kind, name), 0),
{
    broadcast use {group_fields, group_kept};

    lemma_kept_same(wad, 0);
    let after = crate::resource_chunks::with_actions(wad, actions, codes, kind, name);
    if actions.len() > 0 {
        let counted = wad.word(1);
        if wad.fault is None {
            assert(counted.bytes.len() == wad.bytes.len() + 4);
        } else {
            lemma_here_keeps_fault(counted.word(0), counted.bytes.len() as int);
            assert(after.fault is Some);
            reveal(kept);
        }
    }
}

proof fn lemma_events_append(record: ObjectRecord)
    ensures
        append_only(record.groups()),
{
    let groups = record.groups();
    assert forall|k: int, wad: Wad|
        #![trigger groups[k].record(wad)]
        0 <= k < groups.len() implies kept(wad, groups[k].record(wad), 0) by {
        let events = groups[k].records();
        assert forall|j: int, state: Wad|
            #![trigger events[j].record(state)]
            0 <= j < events.len() implies kept(state, events[j].record(state), 0) by {
            let begun = state.integer(events[j].event.subtype);
            let key = crate::resource_chunks::event_key(
                events[j].object.name@,
                *events[j].event,
            );
            lemma_kept_same(state, 0);
            lemma_kept_raw(state, state, le32(unsigned32(events[j].event.subtype)), 0);
            lemma_actions_append(
                begun,
                events[j].event.actions@,
                events[j].codes@,
                CodeKind::ObjectEvent,
                key,
            );
            lemma_kept_chain(state, begun, events[j].record(state), 0, 0);
        }
        assert(append_only(events));
        lemma_kept_same(wad, 0);
        lemma_tables_keep(wad, wad, events, 0);
    }
}

proof fn lemma_corners_keep(wad: Wad, points: Seq<PhysicsShapePoint>, count: int)
    ensures
        kept(wad, with_corners(wad, points, count), 0),
        with_corners(wad, points, count).fault == wad.fault,
        wad.fault is None && 0 <= count ==> with_corners(wad, points, count).bytes.len()
            == wad.bytes.len() + 8 * count,
    decreases count,
{
    broadcast use {group_fields, group_kept};

    lemma_kept_same(wad, 0);
    if count > 0 {
        lemma_corners_keep(wad, points, count - 1);
    }
}

proof fn lemma_corner(wad: Wad, points: Seq<PhysicsShapePoint>, count: int, k: int)
    requires
        0 <= k < count <= points.len(),
        wad.fault is None,
    ensures
        field(with_corners(wad, points, count), wad.bytes.len() + 8 * k, points[k].x as int),
        field(with_corners(wad, points, count), wad.bytes.len() + 8 * k + 4, points[k].y as int),
    decreases count,
{
    broadcast use group_fields;

    lemma_corners_keep(wad, points, count - 1);
    if k < count - 1 {
        lemma_corner(wad, points, count - 1, k);
    }
}

/// The file with what is known of an object before its corners.
spec fn shown_object(record: ObjectRecord, wad: Wad) -> Wad {
    let object = *record.object;
    let physics = object.physics;
    wad.text(object.name@).integer(object.sprite_index).flag(object.visible).flag(
        object.solid,
    ).integer(object.depth).flag(object.persistent).integer(object.parent_index).integer(
        object.mask_index,
    ).flag(physics.object).flag(physics.sensor).integer(physics.shape).word(
        physics.density,
    ).word(physics.restitution).integer(physics.group).word(physics.linear_damping).word(
        physics.angular_damping,
    ).count(physics.shape_points@.len(), "physics vertex count"@).word(physics.friction).flag(
        physics.awake,
    ).flag(physics.kinematic)
}

#[verifier::spinoff_prover]
proof fn lemma_shown_object(record: ObjectRecord, wad: Wad)
    requires
        shown_object(record, wad).fault is None,
    ensures
        ({
            let shown = shown_object(record, wad);
            let at = wad.bytes.len() as int;
            &&& wad.fault is None
            &&& shown.bytes.len() == at + 80
            &&& field(
                shown,
                at + 4,
                unsigned32(record.object.sprite_index),
            )
            &&& field(
                shown,
                at + 8,
                if record.object.visible {
            1int
        } else {
            0
        },
            )
            &&& field(
                shown,
                at + 12,
                if record.object.solid {
            1int
        } else {
            0
        },
            )
            &&& field(
                shown,
                at + 16,
                unsigned32(record.object.depth),
            )
            &&& field(
                shown,
                at + 20,
                if record.object.persistent {
            1int
        } else {
            0
        },
            )
            &&& field(
                shown,
                at + 24,
                unsigned32(record.object.parent_index),
            )
            &&& field(
                shown,
                at + 28,
                unsigned32(record.object.mask_index),
            )
            &&& field(
                shown,
                at + 32,
                if record.object.physics.object {
            1int
        } else {
            0
        },
            )
            &&& field(
                shown,
                at + 36,
                if record.object.physics.sensor {
            1int
        } else {
            0
        },
            )
            &&& field(
                shown,
                at + 40,
                unsigned32(record.object.physics.shape),
            )
            &&& field(
                shown,
                at + 44,
                record.object.physics.density as int,
            )
            &&& field(
                shown,
                at + 48,
                record.object.physics.restitution as int,
            )
            &&& field(
                shown,
                at + 52,
                unsigned32(record.object.physics.group),
            )
            &&& field(
                shown,
                at + 56,
                record.object.physics.linear_damping as int,
            )
            &&& field(
                shown,
                at + 60,
                record.object.physics.angular_damping as int,
            )
            &&& field(
                shown,
                at + 64,
                record.object.physics.shape_points@.len() as int,
            )
            &&& field(
                shown,
                at + 68,
                record.object.physics.friction as int,
            )
            &&& field(
                shown,
                at + 72,
                if record.object.physics.awake {
            1int
        } else {
            0
        },
            )
            &&& field(
                shown,
                at + 76,
                if record.object.physics.kinematic {
            1int
        } else {
            0
        },
            )
        }),
{
    broadcast use group_fields;

    let shown = shown_object(record, wad);
    let at = wad.bytes.len() as int;
}

/// Where the fields of an object stand: what it looks like, how it moves, and the
/// corners of its shape.
#[verifier::spinoff_prover]
#[verifier::rlimit(40)]
pub proof fn law_object_layout(record: ObjectRecord, wad: Wad, corner: int)
    requires
        record.record(wad).fault is None,
    ensures
        ({
            let bytes = record.record(wad).bytes;
            let at = wad.bytes.len() as int;
            let corners = record.object.physics.shape_points@;
            &&& integer_at(bytes, at + 4) == record.object.sprite_index
            &&& number_at(bytes, at + 8) == (if record.object.visible {
                1int
            } else {
                0
            })
            &&& number_at(bytes, at + 12) == (if record.object.solid {
                1int
            } else {
                0
            })
            &&& integer_at(bytes, at + 16) == record.object.depth
            &&& number_at(bytes, at + 20) == (if record.object.persistent {
                1int
            } else {
                0
            })
            &&& integer_at(bytes, at + 24) == record.object.parent_index
            &&& integer_at(bytes, at + 28) == record.object.mask_index
            &&& number_at(bytes, at + 32) == (if record.object.physics.object {
                1int
            } else {
                0
            })
            &&& number_at(bytes, at + 36) == (if record.object.physics.sensor {
                1int
            } else {
                0
            })
            &&& integer_at(bytes, at + 40) == record.object.physics.shape
            &&& number_at(bytes, at + 44) == record.object.physics.density
            &&& number_at(bytes, at + 48) == record.object.physics.restitution
            &&& integer_at(bytes, at + 52) == record.object.physics.group
            &&& number_at(bytes, at + 56) == record.object.physics.linear_damping
            &&& number_at(bytes, at + 60) == record.object.physics.angular_damping
            &&& number_at(bytes, at + 64) == record.object.physics.shape_points@.len()
            &&& number_at(bytes, at + 68) == record.object.physics.friction
            &&& number_at(bytes, at + 72) == (if record.object.physics.awake {
                1int
            } else {
                0
            })
            &&& number_at(bytes, at + 76) == (if record.object.physics.kinematic {
                1int
            } else {
                0
            })
            &&& 0 <= corner < corners.len() ==> number_at(bytes, at + 80 + 8 * corner)
                == corners[corner].x && number_at(bytes, at + 84 + 8 * corner)
                == corners[corner].y
            &&& number_at(bytes, at + 80 + 8 * corners.len()) == record.object.events@.len()
        }),
{
    let shown = shown_object(record, wad);
    let corners = record.object.physics.shape_points@;
    let count = corners.len() as int;
    let cornered = with_corners(shown, corners, count);
    let after = record.record(wad);
    let at = wad.bytes.len() as int;
    assert(after == cornered.table(record.groups()));
    lemma_events_append(record);
    lemma_table(cornered, record.groups());
    lemma_corners_keep(shown, corners, count);
    lemma_shown_object(record, wad);
    lemma_kept_chain(shown, cornered, after, 0, 0);
    if 0 <= corner < count {
        lemma_corner(shown, corners, count, corner);
        lemma_kept_number(cornered, after, at + 80 + 8 * corner, corners[corner].x as int);
        lemma_kept_number(cornered, after, at + 84 + 8 * corner, corners[corner].y as int);
    }
    lemma_field_number(after, at + 80 + 8 * count, record.groups().len() as int);
    lemma_kept_number(
        shown,
        after,
        at + 4,
        unsigned32(record.object.sprite_index),
    );
    lemma_kept_number(
        shown,
        after,
        at + 8,
        if record.object.visible {
            1int
        } else {
            0
        },
    );
    lemma_kept_number(
        shown,
        after,
        at + 12,
        if record.object.solid {
            1int
        } else {
            0
        },
    );
    lemma_kept_number(
        shown,
        after,
        at + 16,
        unsigned32(record.object.depth),
    );
    lemma_kept_number(
        shown,
        after,
        at + 20,
        if record.object.persistent {
            1int
        } else {
            0
        },
    );
    lemma_kept_number(
        shown,
        after,
        at + 24,
        unsigned32(record.object.parent_index),
    );
    lemma_kept_number(
        shown,
        after,
        at + 28,
        unsigned32(record.object.mask_index),
    );
    lemma_kept_number(
        shown,
        after,
        at + 32,
        if record.object.physics.object {
            1int
        } else {
            0
        },
    );
    lemma_kept_number(
        shown,
        after,
        at + 36,
        if record.object.physics.sensor {
            1int
        } else {
            0
        },
    );
    lemma_kept_number(
        shown,
        after,
        at + 40,
        unsigned32(record.object.physics.shape),
    );
    lemma_kept_number(
        shown,
        after,
        at + 44,
        record.object.physics.density as int,
    );
    lemma_kept_number(
        shown,
        after,
        at + 48,
        record.object.physics.restitution as int,
    );
    lemma_kept_number(
        shown,
        after,
        at + 52,
        unsigned32(record.object.physics.group),
    );
    lemma_kept_number(
        shown,
        after,
        at + 56,
        record.object.physics.linear_damping as int,
    );
    lemma_kept_number(
        shown,
        after,
        at + 60,
        record.object.physics.angular_damping as int,
    );
    lemma_kept_number(
        shown,
        after,
        at + 64,
        record.object.physics.shape_points@.len() as int,
    );
    lemma_kept_number(
        shown,
        after,
        at + 68,
        record.object.physics.friction as int,
    );
    lemma_kept_number(
        shown,
        after,
        at + 72,
        if record.object.physics.awake {
            1int
        } else {
            0
        },
    );
    lemma_kept_number(
        shown,
        after,
        at + 76,
        if record.object.physics.kinematic {
            1int
        } else {
            0
        },
    );
}

proof fn lemma_point(wad: Wad, points: Seq<PathPoint>, count: int, k: int)
    requires
        0 <= k < count <= points.len(),
        wad.fault is None,
    ensures
        field(with_points(wad, points, count), wad.bytes.len() + 12 * k, points[k].x as int),
        field(with_points(wad, points, count), wad.bytes.len() + 12 * k + 4, points[k].y as int),
        field(
            with_points(wad, points, count),
            wad.bytes.len() + 12 * k + 8,
            points[k].speed as int,
        ),
    decreases count,
{
    broadcast use group_fields;

    lemma_points(wad, points, count - 1);
    if k < count - 1 {
        lemma_point(wad, points, count - 1, k);
    }
}

proof fn lemma_points(wad: Wad, points: Seq<PathPoint>, count: int)
    ensures
        kept(wad, with_points(wad, points, count), 0),
        with_points(wad, points, count).fault == wad.fault,
        wad.fault is None && 0 <= count ==> with_points(wad, points, count).bytes.len()
            == wad.bytes.len() + 12 * count,
    decreases count,
{
    broadcast use {group_fields, group_kept};

    lemma_kept_same(wad, 0);
    if count > 0 {
        lemma_points(wad, points, count - 1);
    }
}

/// Where the fields of a path stand, and its points behind them.
#[verifier::spinoff_prover]
pub proof fn law_path_layout(path: GamePath, wad: Wad, point: int)
    requires
        path.record(wad).fault is None,
    ensures
        ({
            let bytes = path.record(wad).bytes;
            let at = wad.bytes.len() as int;
            &&& bytes.len() == at + 20 + 12 * path.points@.len()
            &&& integer_at(bytes, at + 4) == path.kind
            &&& number_at(bytes, at + 8) == (if path.closed {
                1int
            } else {
                0
            })
            &&& integer_at(bytes, at + 12) == path.precision
            &&& number_at(bytes, at + 16) == path.points@.len()
            &&& 0 <= point < path.points@.len() ==> {
                &&& number_at(bytes, at + 20 + 12 * point) == path.points@[point].x
                &&& number_at(bytes, at + 24 + 12 * point) == path.points@[point].y
                &&& number_at(bytes, at + 28 + 12 * point) == path.points@[point].speed
            }
        }),
{
    broadcast use group_fields;

    let at = wad.bytes.len() as int;
    let head = wad.text(path.name@).integer(path.kind).flag(path.closed).integer(
        path.precision,
    ).count(path.points@.len(), "path point count"@);
    let count = path.points@.len() as int;
    let after = path.record(wad);
    lemma_points(head, path.points@, count);
    assert(head.fault is None);
    assert(head.bytes.len() == at + 20);
    assert(field(head, at + 4, unsigned32(path.kind)));
    assert(field(head, at + 16, count));
    lemma_kept_number(head, after, at + 4, unsigned32(path.kind));
    lemma_kept_number(
        head,
        after,
        at + 8,
        if path.closed {
            1
        } else {
            0
        },
    );
    lemma_kept_number(head, after, at + 12, unsigned32(path.precision));
    lemma_kept_number(head, after, at + 16, count);
    if 0 <= point < count {
        lemma_point(head, path.points@, count, point);
        lemma_field_number(after, at + 20 + 12 * point, path.points@[point].x as int);
        lemma_field_number(after, at + 24 + 12 * point, path.points@[point].y as int);
        lemma_field_number(after, at + 28 + 12 * point, path.points@[point].speed as int);
    }
}

proof fn lemma_kerning_keeps(wad: Wad, pairs: Seq<KerningPair>, count: int)
    ensures
        kept(wad, with_kerning(wad, pairs, count), 0),
    decreases count,
{
    broadcast use group_kept;

    lemma_kept_same(wad, 0);
    if count > 0 {
        lemma_kerning_keeps(wad, pairs, count - 1);
    }
}

proof fn lemma_glyphs_append(glyphs: Seq<Glyph>)
    ensures
        append_only(glyphs),
{
    assert forall|k: int, wad: Wad|
        #![trigger glyphs[k].record(wad)]
        0 <= k < glyphs.len() implies kept(wad, glyphs[k].record(wad), 0) by {
        broadcast use group_kept;

        let glyph = glyphs[k];
        lemma_kept_same(wad, 0);
        let head = wad.signed_short(glyph.character as i16).signed_short(
            glyph.x as i16,
        ).signed_short(glyph.y as i16).signed_short(glyph.width as i16).signed_short(
            glyph.height as i16,
        ).signed_short(glyph.shift as i16).signed_short(glyph.offset as i16).signed_short(
            glyph.kerning@.len() as i16,
        );
        assert(kept(wad, head, 0));
        lemma_kerning_keeps(head, glyph.kerning@, glyph.kerning@.len() as int);
        lemma_kept_chain(wad, head, glyph.record(wad), 0, 0);
    }
}

/// Where the fields of a font stand, and the number of its glyphs behind them.
#[verifier::spinoff_prover]
#[verifier::rlimit(40)]
pub proof fn law_font_layout(font: Font, wad: Wad)
    requires
        font.record(wad).fault is None,
    ensures
        ({
            let bytes = font.record(wad).bytes;
            let at = wad.bytes.len() as int;
            &&& integer_at(bytes, at + 8) == font.size
            &&& number_at(bytes, at + 12) == (if font.bold {
                1int
            } else {
                0
            })
            &&& number_at(bytes, at + 16) == (if font.italic {
                1int
            } else {
                0
            })
            &&& integer_at(bytes, at + 24) == font.last
            &&& number_at(bytes, at + 32) == font.scale_x
            &&& number_at(bytes, at + 36) == font.scale_y
            &&& number_at(bytes, at + 40) == font.glyphs@.len()
        }),
{
    broadcast use group_fields;

    let at = wad.bytes.len() as int;
    let head = wad.text(font.name@).text(font.font_name@).integer(font.size).flag(
        font.bold,
    ).flag(font.italic).word(first_character(font)).integer(font.last).texture(
        Texture::Font { index: font.index },
    ).word(font.scale_x).word(font.scale_y);
    let after = font.record(wad);
    assert(after == head.table(font.glyphs@));
    lemma_glyphs_append(font.glyphs@);
    lemma_table(head, font.glyphs@);
    assert(head.bytes.len() == at + 40);
    lemma_kept_number(head, after, at + 8, unsigned32(font.size));
    lemma_kept_number(
        head,
        after,
        at + 12,
        if font.bold {
            1
        } else {
            0
        },
    );
    lemma_kept_number(
        head,
        after,
        at + 16,
        if font.italic {
            1
        } else {
            0
        },
    );
    lemma_kept_number(head, after, at + 24, unsigned32(font.last));
    lemma_kept_number(head, after, at + 32, font.scale_x as int);
    lemma_kept_number(head, after, at + 36, font.scale_y as int);
    lemma_field_number(after, at + 40, font.glyphs@.len() as int);
}

} // verus!
