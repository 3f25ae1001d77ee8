//! The chunks of the resources of a project.

use vstd::prelude::*;

use crate::assets::Assets;
use crate::audio::{are_numbered, AudioData, SoundMedia};
use crate::compile::{with_index, write_index};
use crate::gml::backend::{CompiledCode, CompiledProject};
use crate::gml::project::{kind_name, CodeKind};
use crate::gml::vm::{bits32, unsigned32};
use crate::layout::{
    lemma_plain_corners, lemma_plain_entries, lemma_plain_kerning, lemma_plain_listed_texts,
    lemma_plain_points, lemma_plain_steps,
};
use crate::masks::{
    decode_alpha_frame, frame_views, is_geometry, loaded_frame, mask_views, masks_of, sprite_masks,
    within_by, AlphaFrame, FrameView, ShapePoint,
};
use crate::resources::{
    Action, AudioGroup, Background, CollisionType, Font, GameObject, GamePath, Glyph, KerningPair,
    ObjectEvent, PathPoint, PhysicsShapePoint, Room, RoomBackground, RoomInstance, RoomTile,
    RoomView, Sound, Sprite, SpriteFrame, SpriteType, Timeline, TimelineEntry,
};
use crate::text::{
    characters, debug_quoted, debug_spelling, decimal, digits, found_at, same_text, signed_decimal,
    signed_digits, spell, stands_at,
};
use crate::wad::{
    group_plain, invalid, lemma_plain_reserved, lemma_plain_table, overflow, Record, Texture, Wad,
    WadWriter, WriteError, WriteFault,
};

verus! {

/// A sound with what the data file says of its contents.
pub struct SoundRecord<'a> {
    pub sound: &'a Sound,
    pub media: &'a SoundMedia,
}

impl<'a> Record for SoundRecord<'a> {
    open spec fn record(self, wad: Wad) -> Wad {
        let named = wad.text(self.sound.name@).integer(self.media.kind).text(
            self.sound.extension@,
        ).text(self.media.filename@).integer(self.sound.effects).word(self.sound.volume).word(
            self.sound.pan,
        );
        let grouped = if self.sound.new_audio {
            with_index(named, self.media.group as int, "sound group index"@)
        } else {
            named.flag(self.sound.preload)
        };
        grouped.integer(self.media.audio_id)
    }

    proof fn lemma_plain(self, wad: Wad) {
        broadcast use group_plain;

    }

    fn write(&self, writer: &mut WadWriter) {
        writer.write_reference(self.sound.name.as_str());
        writer.write_i32(self.media.kind);
        writer.write_reference(self.sound.extension.as_str());
        writer.write_reference(self.media.filename.as_str());
        writer.write_i32(self.sound.effects);
        writer.write_u32(self.sound.volume);
        writer.write_u32(self.sound.pan);
        if self.sound.new_audio {
            write_index(writer, self.media.group, "sound group index");
        } else {
            writer.write_bool(self.sound.preload);
        }
        writer.write_i32(self.media.audio_id);
    }
}

/// The sounds with their media, which their numbers give.
pub open spec fn sound_records<'a>(sounds: Seq<Sound>, media: Seq<SoundMedia>) -> Seq<
    SoundRecord<'a>,
> {
    Seq::new(
        sounds.len(),
        |k: int| SoundRecord { sound: &sounds[k], media: &media[sounds[k].index as int] },
    )
}

/// The file with the sounds.
pub open spec fn sound_chunk(wad: Wad, sounds: Seq<Sound>, media: Seq<SoundMedia>) -> Wad {
    wad.opened(seq![0x53, 0x4f, 0x4e, 0x44]).table(sound_records(sounds, media)).closed(
        wad.bytes.len() as int,
    )
}

/// Writes the sounds.
pub fn write_sounds(writer: &mut WadWriter, assets: &Assets, audio: &AudioData)
    requires
        old(writer).wf(),
        audio.sounds@.len() == assets.sounds@.len(),
        are_numbered(assets.sounds@),
    ensures
        final(writer).wf(),
        final(writer)@ == sound_chunk(old(writer)@, assets.sounds@, audio.sounds@),
{
    let start = writer.open_chunk([0x53, 0x4f, 0x4e, 0x44]);
    assert([0x53u8, 0x4fu8, 0x4eu8, 0x44u8]@ =~= seq![0x53u8, 0x4fu8, 0x4eu8, 0x44u8]);
    let mut records: Vec<SoundRecord> = Vec::new();
    let mut index: usize = 0;
    while index < assets.sounds.len()
        invariant
            index <= assets.sounds@.len(),
            audio.sounds@.len() == assets.sounds@.len(),
            are_numbered(assets.sounds@),
            records@.len() == index,
            forall|k: int|
                0 <= k < index ==> (#[trigger] records@[k]) == (SoundRecord {
                    sound: &assets.sounds@[k],
                    media: &audio.sounds@[assets.sounds@[k].index as int],
                }),
        decreases assets.sounds.len() - index,
    {
        let sound = &assets.sounds[index];
        records.push(SoundRecord { sound, media: audio.sound(sound.index) });
        index += 1;
    }
    assert(records@ =~= sound_records(assets.sounds@, audio.sounds@));
    writer.write_offset_table(records.as_slice());
    writer.close_chunk(start);
}

impl<'a> Record for &'a AudioGroup {
    open spec fn record(self, wad: Wad) -> Wad {
        wad.text(self.name@)
    }

    proof fn lemma_plain(self, wad: Wad) {
        broadcast use group_plain;

    }

    fn write(&self, writer: &mut WadWriter) {
        writer.write_reference(self.name.as_str());
    }
}

/// The first groups of sounds that the project lists.
pub open spec fn listed_groups<'a>(groups: Seq<AudioGroup>, count: int) -> Seq<&'a AudioGroup>
    decreases count,
{
    if count <= 0 {
        seq![]
    } else {
        let before = listed_groups(groups, count - 1);
        if groups[count - 1].implicit {
            before
        } else {
            before.push(&groups[count - 1])
        }
    }
}

/// The file with the groups of sounds.
pub open spec fn group_chunk(wad: Wad, groups: Seq<AudioGroup>) -> Wad {
    wad.opened(seq![0x41, 0x47, 0x52, 0x50]).table(
        listed_groups(groups, groups.len() as int),
    ).closed(wad.bytes.len() as int)
}

/// Writes the groups of sounds.
pub fn write_groups(writer: &mut WadWriter, groups: &Vec<AudioGroup>)
    requires
        old(writer).wf(),
    ensures
        final(writer).wf(),
        final(writer)@ == group_chunk(old(writer)@, groups@),
{
    let start = writer.open_chunk([0x41, 0x47, 0x52, 0x50]);
    assert([0x41u8, 0x47u8, 0x52u8, 0x50u8]@ =~= seq![0x41u8, 0x47u8, 0x52u8, 0x50u8]);
    let mut records: Vec<&AudioGroup> = Vec::new();
    let mut index: usize = 0;
    assert(records@ =~= seq![]);
    while index < groups.len()
        invariant
            index <= groups@.len(),
            records@ == listed_groups(groups@, index as int),
        decreases groups.len() - index,
    {
        if !groups[index].implicit {
            records.push(&groups[index]);
        }
        index += 1;
    }
    writer.write_offset_table(records.as_slice());
    writer.close_chunk(start);
}

/// A sprite with its masks.
pub struct SpriteRecord<'a> {
    pub sprite: &'a Sprite,
    pub masks: Vec<Vec<u8>>,
}

/// The name of what a sprite is made of.
pub open spec fn made_of(sprite_type: SpriteType) -> Seq<char> {
    match sprite_type {
        SpriteType::Bitmap => "bitmap"@,
        SpriteType::Swf => "SWF"@,
        SpriteType::Spine => "Spine"@,
    }
}

/// The first frames of a sprite.
pub open spec fn sprite_frames(assets: Assets, frames: Seq<SpriteFrame>, count: int) -> Result<
    Seq<FrameView>,
    WriteFault,
>
    decreases count,
{
    if count <= 0 {
        Ok(seq![])
    } else {
        match sprite_frames(assets, frames, count - 1) {
            Err(fault) => Err(fault),
            Ok(before) => match loaded_frame(assets, frames[count - 1].source@) {
                Err(fault) => Err(fault),
                Ok(frame) => Ok(before.push(frame)),
            },
        }
    }
}

/// The masks of a sprite, which is to be a bitmap.
pub open spec fn prepared(
    assets: Assets,
    sprite: Sprite,
    within: spec_fn(ShapePoint) -> bool,
) -> Result<Seq<Seq<u8>>, WriteFault> {
    if sprite.sprite_type != SpriteType::Bitmap {
        Err(
            invalid(
                "sprite "@ + debug_spelling(sprite.name@) + " ("@ + sprite.source@
                    + ") uses unsupported "@ + made_of(sprite.sprite_type)
                    + " data; only bitmap sprites are supported"@,
            ),
        )
    } else {
        match sprite_frames(assets, sprite.frames@, sprite.frames@.len() as int) {
            Err(fault) => Err(fault),
            Ok(frames) => masks_of(sprite, frames, within),
        }
    }
}

/// The masks of the first sprites.
pub open spec fn all_prepared(
    assets: Assets,
    within: spec_fn(ShapePoint) -> bool,
    count: int,
) -> Result<Seq<Seq<Seq<u8>>>, WriteFault>
    decreases count,
{
    if count <= 0 {
        Ok(seq![])
    } else {
        match all_prepared(assets, within, count - 1) {
            Err(fault) => Err(fault),
            Ok(before) => match prepared(assets, assets.sprites@[count - 1], within) {
                Err(fault) => Err(fault),
                Ok(masks) => Ok(before.push(masks)),
            },
        }
    }
}

proof fn lemma_frame_fault_stays(assets: Assets, frames: Seq<SpriteFrame>, count: int, end: int)
    requires
        0 <= count <= end,
        sprite_frames(assets, frames, count) is Err,
    ensures
        sprite_frames(assets, frames, end) == sprite_frames(assets, frames, count),
    decreases end - count,
{
    if count < end {
        lemma_frame_fault_stays(assets, frames, count, end - 1);
    }
}

proof fn lemma_sprite_fault_stays(
    assets: Assets,
    within: spec_fn(ShapePoint) -> bool,
    count: int,
    end: int,
)
    requires
        0 <= count <= end,
        all_prepared(assets, within, count) is Err,
    ensures
        all_prepared(assets, within, end) == all_prepared(assets, within, count),
    decreases end - count,
{
    if count < end {
        lemma_sprite_fault_stays(assets, within, count, end - 1);
    }
}

fn name_of_type(sprite_type: SpriteType) -> (name: &'static str)
    ensures
        name@ == made_of(sprite_type),
{
    match sprite_type {
        SpriteType::Bitmap => "bitmap",
        SpriteType::Swf => "SWF",
        SpriteType::Spine => "Spine",
    }
}

fn prepare_sprite<F: Fn(ShapePoint) -> bool>(
    assets: &Assets,
    sprite: &Sprite,
    within: &F,
) -> (result: Result<Vec<Vec<u8>>, WriteError>)
    requires
        is_geometry(*within),
    ensures
        match result {
            Ok(masks) => prepared(*assets, *sprite, within_by(*within)) == Ok::<
                Seq<Seq<u8>>,
                WriteFault,
            >(mask_views(masks@)),
            Err(error) => prepared(*assets, *sprite, within_by(*within)) == Err::<
                Seq<Seq<u8>>,
                WriteFault,
            >(error@),
        },
{
    if sprite.sprite_type != SpriteType::Bitmap {
        let mut message = "sprite ".to_owned();
        let name = debug_quoted(sprite.name.as_str());
        message.append(name.as_str());
        message.append(" (");
        message.append(sprite.source.as_str());
        message.append(") uses unsupported ");
        message.append(name_of_type(sprite.sprite_type));
        message.append(" data; only bitmap sprites are supported");
        return Err(WriteError::InvalidVmData { message });
    }
    let mut frames: Vec<AlphaFrame> = Vec::new();
    let mut index: usize = 0;
    assert(frame_views(frames@) =~= seq![]);
    while index < sprite.frames.len()
        invariant
            index <= sprite.frames@.len(),
            sprite_frames(*assets, sprite.frames@, index as int) == Ok::<
                Seq<FrameView>,
                WriteFault,
            >(frame_views(frames@)),
            sprite.sprite_type == SpriteType::Bitmap,
        decreases sprite.frames.len() - index,
    {
        match decode_alpha_frame(assets, sprite.frames[index].source.as_str()) {
            Err(error) => {
                proof {
                    lemma_frame_fault_stays(
                        *assets,
                        sprite.frames@,
                        index + 1,
                        sprite.frames@.len() as int,
                    );
                }
                return Err(error);
            },
            Ok(frame) => {
                let ghost before = frame_views(frames@);
                let ghost added = frame@;
                frames.push(frame);
                assert(frame_views(frames@) =~= before.push(added));
            },
        }
        index += 1;
    }
    sprite_masks(sprite, frames.as_slice(), within)
}

/// Whether records are those of the first sprites, with masks.
pub open spec fn are_sprites(
    records: Seq<SpriteRecord>,
    sprites: Seq<Sprite>,
    masks: Seq<Seq<Seq<u8>>>,
) -> bool {
    &&& records.len() == masks.len()
    &&& records.len() <= sprites.len()
    &&& forall|k: int|
        0 <= k < records.len() ==> *(#[trigger] records[k]).sprite == sprites[k] && mask_views(
            records[k].masks@,
        ) == masks[k]
}

/// Returns the sprites of a project with their masks.
pub fn prepare_sprites<'a, F: Fn(ShapePoint) -> bool>(assets: &'a Assets, within: &F) -> (result:
    Result<Vec<SpriteRecord<'a>>, WriteError>)
    requires
        is_geometry(*within),
    ensures
        match (
            result,
            all_prepared(*assets, within_by(*within), assets.sprites@.len() as int),
        ) {
            (Ok(records), Ok(masks)) => are_sprites(records@, assets.sprites@, masks),
            (Err(error), Err(fault)) => error@ == fault,
            _ => false,
        },
{
    let ghost inside = within_by(*within);
    let ghost mut masks: Seq<Seq<Seq<u8>>> = seq![];
    let mut records: Vec<SpriteRecord<'a>> = Vec::new();
    let mut index: usize = 0;
    while index < assets.sprites.len()
        invariant
            index <= assets.sprites@.len(),
            is_geometry(*within),
            inside == within_by(*within),
            records@.len() == index,
            all_prepared(*assets, inside, index as int) == Ok::<Seq<Seq<Seq<u8>>>, WriteFault>(
                masks,
            ),
            are_sprites(records@, assets.sprites@, masks),
        decreases assets.sprites.len() - index,
    {
        let sprite = &assets.sprites[index];
        match prepare_sprite(assets, sprite, within) {
            Err(error) => {
                proof {
                    lemma_sprite_fault_stays(
                        *assets,
                        inside,
                        index + 1,
                        assets.sprites@.len() as int,
                    );
                }
                return Err(error);
            },
            Ok(found) => {
                let ghost before = records@;
                proof {
                    masks = masks.push(mask_views(found@));
                }
                records.push(SpriteRecord { sprite, masks: found });
                assert(forall|k: int| 0 <= k < before.len() ==> records@[k] == before[k]);
            },
        }
        index += 1;
    }
    Ok(records)
}

/// The number of a way to find collisions.
pub open spec fn collision_number(collision: CollisionType) -> i32 {
    match collision {
        CollisionType::AxisAlignedRectangle => 0,
        CollisionType::Precise => 1,
        CollisionType::RotatedRectangle => 2,
    }
}

/// The file with the first frames of a sprite.
pub open spec fn with_frames(wad: Wad, sprite: int, count: int) -> Wad
    decreases count,
{
    if count <= 0 {
        wad
    } else {
        with_frames(wad, sprite, count - 1).texture(
            Texture::Sprite { index: sprite as usize, frame: (count - 1) as usize },
        )
    }
}

/// The file with the first masks.
pub open spec fn with_masks(wad: Wad, masks: Seq<Seq<u8>>, count: int) -> Wad
    decreases count,
{
    if count <= 0 {
        wad
    } else {
        with_masks(wad, masks, count - 1).raw(masks[count - 1])
    }
}

/// The file with a sprite.
pub open spec fn sprite_record(wad: Wad, sprite: Sprite, masks: Seq<Seq<u8>>) -> Wad {
    let sized = wad.text(sprite.name@).integer(sprite.width).integer(sprite.height).integer(
        sprite.bounding_box_left,
    ).integer(sprite.bounding_box_right).integer(sprite.bounding_box_bottom).integer(
        sprite.bounding_box_top,
    ).flag(false).flag(false).flag(false).integer(sprite.bounding_box_mode).integer(
        collision_number(sprite.collision_type),
    ).integer(sprite.x_origin).integer(sprite.y_origin);
    let framed = with_frames(
        sized.count(sprite.frames@.len(), "sprite frame count"@),
        sprite.index as int,
        sprite.frames@.len() as int,
    );
    with_masks(framed.count(masks.len(), "sprite mask count"@), masks, masks.len() as int)
}

#[verifier::spinoff_prover]
fn write_sprite(writer: &mut WadWriter, record: &SpriteRecord)
    requires
        old(writer).wf(),
    ensures
        final(writer).wf(),
        final(writer)@ == sprite_record(
            old(writer)@,
            *record.sprite,
            mask_views(record.masks@),
        ),
{
    let sprite = record.sprite;
    writer.write_reference(sprite.name.as_str());
    writer.write_i32(sprite.width);
    writer.write_i32(sprite.height);
    writer.write_i32(sprite.bounding_box_left);
    writer.write_i32(sprite.bounding_box_right);
    writer.write_i32(sprite.bounding_box_bottom);
    writer.write_i32(sprite.bounding_box_top);
    writer.write_bool(false);
    writer.write_bool(false);
    writer.write_bool(false);
    writer.write_i32(sprite.bounding_box_mode);
    writer.write_i32(
        match sprite.collision_type {
            CollisionType::AxisAlignedRectangle => 0,
            CollisionType::Precise => 1,
            CollisionType::RotatedRectangle => 2,
        },
    );
    writer.write_i32(sprite.x_origin);
    writer.write_i32(sprite.y_origin);
    writer.write_count(sprite.frames.len(), "sprite frame count");
    let ghost counted = writer@;
    let mut frame: usize = 0;
    while frame < sprite.frames.len()
        invariant
            frame <= sprite.frames@.len(),
            writer.wf(),
            writer@ == with_frames(counted, sprite.index as int, frame as int),
        decreases sprite.frames.len() - frame,
    {
        writer.write_texture(Texture::Sprite { index: sprite.index, frame });
        frame += 1;
    }
    writer.write_count(record.masks.len(), "sprite mask count");
    let ghost listed = writer@;
    let ghost masks = mask_views(record.masks@);
    let mut index: usize = 0;
    while index < record.masks.len()
        invariant
            index <= record.masks@.len(),
            writer.wf(),
            masks == mask_views(record.masks@),
            writer@ == with_masks(listed, masks, index as int),
        decreases record.masks.len() - index,
    {
        writer.write_all(record.masks[index].as_slice());
        index += 1;
    }
}

/// The file with the first sprites, each behind its position in a table.
pub open spec fn with_sprites(
    wad: Wad,
    sprites: Seq<Sprite>,
    masks: Seq<Seq<Seq<u8>>>,
    table: int,
    count: nat,
) -> Wad
    decreases count,
{
    if count == 0 {
        wad
    } else {
        sprite_record(
            with_sprites(wad, sprites, masks, table, (count - 1) as nat).aligned(4).here(
                table + 4 * (count - 1),
            ),
            sprites[count - 1],
            masks[count - 1],
        )
    }
}

/// The file with the sprites.
pub open spec fn sprite_chunk(wad: Wad, sprites: Seq<Sprite>, masks: Seq<Seq<Seq<u8>>>) -> Wad {
    let opened = wad.opened(seq![0x53, 0x50, 0x52, 0x54]);
    let counted = opened.count(masks.len(), "sprite count"@);
    let written = if counted.fault is Some {
        counted
    } else {
        with_sprites(
            counted.reserved(masks.len()),
            sprites,
            masks,
            opened.bytes.len() as int + 4,
            masks.len(),
        )
    };
    written.closed(wad.bytes.len() as int)
}

/// Writes the sprites.
#[verifier::spinoff_prover]
fn write_sprites(
    writer: &mut WadWriter,
    records: &Vec<SpriteRecord>,
    Ghost(sprites): Ghost<Seq<Sprite>>,
    Ghost(masks): Ghost<Seq<Seq<Seq<u8>>>>,
)
    requires
        old(writer).wf(),
        are_sprites(records@, sprites, masks),
    ensures
        final(writer).wf(),
        final(writer)@ == sprite_chunk(old(writer)@, sprites, masks),
{
    let start = writer.open_chunk([0x53, 0x50, 0x52, 0x54]);
    assert([0x53u8, 0x50u8, 0x52u8, 0x54u8]@ =~= seq![0x53u8, 0x50u8, 0x52u8, 0x54u8]);
    let ghost table = writer@.bytes.len() as int + 4;
    if let Some(slots) = writer.reserve_table(records.len(), "sprite count") {
        let ghost reserved = writer@;
        let mut index: usize = 0;
        while index < records.len()
            invariant
                index <= records@.len(),
                writer.wf(),
                are_sprites(records@, sprites, masks),
                slots@.len() == records@.len(),
                forall|k: int|
                    0 <= k < records@.len() ==> (#[trigger] slots@[k]) == table + 4 * k,
                writer@ == with_sprites(reserved, sprites, masks, table, index as nat),
            decreases records.len() - index,
        {
            writer.align(4);
            writer.patch_position(slots[index]);
            write_sprite(writer, &records[index]);
            index += 1;
        }
    }
    writer.close_chunk(start);
}

impl Record for Background {
    open spec fn record(self, wad: Wad) -> Wad {
        wad.text(self.name@).flag(false).flag(false).flag(false).texture(
            Texture::Background { index: self.index },
        )
    }

    proof fn lemma_plain(self, wad: Wad) {
        broadcast use group_plain;

    }

    fn write(&self, writer: &mut WadWriter) {
        writer.write_reference(self.name.as_str());
        writer.write_bool(false);
        writer.write_bool(false);
        writer.write_bool(false);
        writer.write_texture(Texture::Background { index: self.index });
    }
}

/// The file with the backgrounds.
pub open spec fn background_chunk(wad: Wad, items: Seq<Background>) -> Wad {
    wad.opened(seq![0x42, 0x47, 0x4e, 0x44]).table(items).closed(wad.bytes.len() as int)
}

/// Writes the backgrounds.
pub fn write_backgrounds(writer: &mut WadWriter, items: &Vec<Background>)
    requires
        old(writer).wf(),
    ensures
        final(writer).wf(),
        final(writer)@ == background_chunk(old(writer)@, items@),
{
    let start = writer.open_chunk([0x42, 0x47, 0x4e, 0x44]);
    assert([0x42u8, 0x47u8, 0x4eu8, 0x44u8]@ =~= seq![0x42u8, 0x47u8, 0x4eu8, 0x44u8]);
    writer.write_offset_table(items.as_slice());
    writer.close_chunk(start);
}

/// The file with the first points of a path.
pub open spec fn with_points(wad: Wad, points: Seq<PathPoint>, count: int) -> Wad
    decreases count,
{
    if count <= 0 {
        wad
    } else {
        let point = points[count - 1];
        with_points(wad, points, count - 1).word(point.x).word(point.y).word(point.speed)
    }
}

impl Record for GamePath {
    open spec fn record(self, wad: Wad) -> Wad {
        with_points(
            wad.text(self.name@).integer(self.kind).flag(self.closed).integer(
                self.precision,
            ).count(self.points@.len(), "path point count"@),
            self.points@,
            self.points@.len() as int,
        )
    }

    proof fn lemma_plain(self, wad: Wad) {
        broadcast use group_plain;

        lemma_plain_points(
            wad.text(self.name@).integer(self.kind).flag(self.closed).integer(
                self.precision,
            ).count(self.points@.len(), "path point count"@),
            self.points@,
            self.points@.len() as int,
        );
    }

    fn write(&self, writer: &mut WadWriter) {
        writer.write_reference(self.name.as_str());
        writer.write_i32(self.kind);
        writer.write_bool(self.closed);
        writer.write_i32(self.precision);
        writer.write_count(self.points.len(), "path point count");
        let ghost counted = writer@;
        let mut index: usize = 0;
        while index < self.points.len()
            invariant
                index <= self.points@.len(),
                writer.wf(),
                writer@ == with_points(counted, self.points@, index as int),
            decreases self.points.len() - index,
        {
            writer.write_u32(self.points[index].x);
            writer.write_u32(self.points[index].y);
            writer.write_u32(self.points[index].speed);
            index += 1;
        }
    }
}

/// The file with the paths.
pub open spec fn path_chunk(wad: Wad, items: Seq<GamePath>) -> Wad {
    wad.opened(seq![0x50, 0x41, 0x54, 0x48]).table(items).closed(wad.bytes.len() as int)
}

/// Writes the paths.
pub fn write_paths(writer: &mut WadWriter, items: &Vec<GamePath>)
    requires
        old(writer).wf(),
    ensures
        final(writer).wf(),
        final(writer)@ == path_chunk(old(writer)@, items@),
{
    let start = writer.open_chunk([0x50, 0x41, 0x54, 0x48]);
    assert([0x50u8, 0x41u8, 0x54u8, 0x48u8]@ =~= seq![0x50u8, 0x41u8, 0x54u8, 0x48u8]);
    writer.write_offset_table(items.as_slice());
    writer.close_chunk(start);
}

/// A script with the index of its code.
#[derive(Debug, Clone, PartialEq, Eq)]
pub struct ScriptRecord {
    pub name: String,
    pub code_index: i32,
}

/// A [`ScriptRecord`] with its name as a sequence of characters.
pub struct ScriptView {
    pub name: Seq<char>,
    pub code_index: i32,
}

impl View for ScriptRecord {
    type V = ScriptView;

    open spec fn view(&self) -> ScriptView {
        ScriptView { name: self.name@, code_index: self.code_index }
    }
}

/// What a list of scripts stands for.
pub open spec fn script_views(scripts: Seq<ScriptRecord>) -> Seq<ScriptView> {
    scripts.map_values(|script: ScriptRecord| script@)
}

impl Record for ScriptRecord {
    open spec fn record(self, wad: Wad) -> Wad {
        wad.text(self.name@).integer(self.code_index)
    }

    proof fn lemma_plain(self, wad: Wad) {
        broadcast use group_plain;

    }

    fn write(&self, writer: &mut WadWriter) {
        writer.write_reference(self.name.as_str());
        writer.write_i32(self.code_index);
    }
}

/// Whether code can be called as a script.
pub open spec fn is_script(kind: CodeKind) -> bool {
    kind is Script || kind is GeneratedScript || kind is Extension
}

/// The first codes that can be called as scripts, or what is wrong with them.
pub open spec fn scripts_in(codes: Seq<CompiledCode>, count: int) -> Result<
    Seq<ScriptView>,
    WriteFault,
>
    decreases count,
{
    if count <= 0 {
        Ok(seq![])
    } else {
        let code = codes[count - 1];
        let prefix = "gml_Script_"@;
        match scripts_in(codes, count - 1) {
            Err(fault) => Err(fault),
            Ok(before) => if !is_script(code.kind) {
                Ok(before)
            } else if !stands_at(code.vm_name@, 0, prefix) {
                Err(
                    invalid(
                        "script CODE entry "@ + code.vm_name@ + " has an invalid VM name"@,
                    ),
                )
            } else if count - 1 > i32::MAX {
                Err(overflow("script CODE index"@, count - 1))
            } else {
                Ok(
                    before.push(
                        ScriptView {
                            name: code.vm_name@.skip(prefix.len() as int),
                            code_index: (count - 1) as i32,
                        },
                    ),
                )
            },
        }
    }
}

proof fn lemma_script_fault_stays(codes: Seq<CompiledCode>, count: int, end: int)
    requires
        0 <= count <= end,
        scripts_in(codes, count) is Err,
    ensures
        scripts_in(codes, end) == scripts_in(codes, count),
    decreases end - count,
{
    if count < end {
        lemma_script_fault_stays(codes, count, end - 1);
    }
}

/// Returns the codes that can be called as scripts.
pub fn script_records(compiled: &CompiledProject) -> (result: Result<
    Vec<ScriptRecord>,
    WriteError,
>)
    ensures
        match result {
            Ok(scripts) => scripts_in(compiled.codes@, compiled.codes@.len() as int) == Ok::<
                Seq<ScriptView>,
                WriteFault,
            >(script_views(scripts@)),
            Err(error) => scripts_in(compiled.codes@, compiled.codes@.len() as int) == Err::<
                Seq<ScriptView>,
                WriteFault,
            >(error@),
        },
{
    let codes = &compiled.codes;
    let prefix = characters("gml_Script_");
    let mut scripts: Vec<ScriptRecord> = Vec::new();
    let mut index: usize = 0;
    assert(script_views(scripts@) =~= seq![]);
    while index < codes.len()
        invariant
            index <= codes@.len(),
            codes == compiled.codes,
            prefix@ == "gml_Script_"@,
            scripts_in(codes@, index as int) == Ok::<Seq<ScriptView>, WriteFault>(
                script_views(scripts@),
            ),
        decreases codes.len() - index,
    {
        let code = &codes[index];
        proof {
            if scripts_in(codes@, index + 1) is Err {
                lemma_script_fault_stays(codes@, index + 1, codes@.len() as int);
            }
        }
        if matches!(
            code.kind,
            CodeKind::Script | CodeKind::GeneratedScript { .. } | CodeKind::Extension
        ) {
            let letters = characters(code.vm_name.as_str());
            if !found_at(letters.as_slice(), 0, prefix.as_slice()) {
                let mut message = "script CODE entry ".to_owned();
                message.append(code.vm_name.as_str());
                message.append(" has an invalid VM name");
                return Err(WriteError::InvalidVmData { message });
            }
            if index as u64 > i32::MAX as u64 {
                return Err(
                    WriteError::SizeOverflow {
                        field: "script CODE index".to_owned(),
                        size: index as u64,
                    },
                );
            }
            let rest = vstd::slice::slice_subrange(
                letters.as_slice(),
                prefix.len(),
                letters.len(),
            );
            assert(rest@ =~= code.vm_name@.skip(prefix@.len() as int));
            let script = ScriptRecord { name: spell(rest), code_index: index as i32 };
            let ghost before = script_views(scripts@);
            let ghost added = script@;
            scripts.push(script);
            assert(script_views(scripts@) =~= before.push(added));
        }
        index += 1;
    }
    Ok(scripts)
}

/// The indices of the first codes that run when the game starts.
pub open spec fn global_codes(codes: Seq<CompiledCode>, count: int) -> Seq<usize>
    decreases count,
{
    if count <= 0 {
        seq![]
    } else if codes[count - 1].kind is Global {
        global_codes(codes, count - 1).push((count - 1) as usize)
    } else {
        global_codes(codes, count - 1)
    }
}

/// The file with the first indices.
pub open spec fn with_indices(wad: Wad, indices: Seq<usize>, count: int) -> Wad
    decreases count,
{
    if count <= 0 {
        wad
    } else {
        with_index(
            with_indices(wad, indices, count - 1),
            indices[count - 1] as int,
            "global CODE index"@,
        )
    }
}

/// The file with the codes that run when the game starts.
pub open spec fn global_chunk(wad: Wad, codes: Seq<CompiledCode>) -> Wad {
    let indices = global_codes(codes, codes.len() as int);
    with_indices(
        wad.opened(seq![0x47, 0x4c, 0x4f, 0x42]).count(indices.len(), "global code count"@),
        indices,
        indices.len() as int,
    ).closed(wad.bytes.len() as int)
}

/// Writes the codes that run when the game starts.
pub fn write_globals(writer: &mut WadWriter, codes: &Vec<CompiledCode>)
    requires
        old(writer).wf(),
    ensures
        final(writer).wf(),
        final(writer)@ == global_chunk(old(writer)@, codes@),
{
    let mut indices: Vec<usize> = Vec::new();
    let mut index: usize = 0;
    assert(indices@ =~= seq![]);
    while index < codes.len()
        invariant
            index <= codes@.len(),
            indices@ == global_codes(codes@, index as int),
        decreases codes.len() - index,
    {
        if matches!(codes[index].kind, CodeKind::Global) {
            indices.push(index);
        }
        index += 1;
    }
    let start = writer.open_chunk([0x47, 0x4c, 0x4f, 0x42]);
    assert([0x47u8, 0x4cu8, 0x4fu8, 0x42u8]@ =~= seq![0x47u8, 0x4cu8, 0x4fu8, 0x42u8]);
    writer.write_count(indices.len(), "global code count");
    let ghost counted = writer@;
    let mut position: usize = 0;
    while position < indices.len()
        invariant
            position <= indices@.len(),
            writer.wf(),
            writer@ == with_indices(counted, indices@, position as int),
        decreases indices.len() - position,
    {
        write_index(writer, indices[position], "global CODE index");
        position += 1;
    }
    writer.close_chunk(start);
}

/// The sources and the binaries of a shader.
#[derive(Debug, Clone, PartialEq, Eq)]
pub struct ShaderData {
    pub name: String,
    pub kind: i32,
    pub glsles_vertex: String,
    pub glsles_fragment: String,
    pub glsl_vertex: String,
    pub glsl_fragment: String,
    pub hlsl9_vertex: String,
    pub hlsl9_pixel: String,
    pub hlsl11_vertex: Vec<u8>,
    pub hlsl11_pixel: Vec<u8>,
    pub attributes: Vec<String>,
}

/// The file with the first texts.
pub open spec fn with_listed_texts(wad: Wad, texts: Seq<String>, count: int) -> Wad
    decreases count,
{
    if count <= 0 {
        wad
    } else {
        with_listed_texts(wad, texts, count - 1).text(texts[count - 1]@)
    }
}

/// The file with a binary, whose position goes to a word. An empty one is left
/// out.
pub open spec fn with_binary(wad: Wad, position: int, data: Seq<u8>) -> Wad {
    if data.len() == 0 {
        wad
    } else {
        wad.aligned(8).here(position).raw(data)
    }
}

impl Record for ShaderData {
    open spec fn record(self, wad: Wad) -> Wad {
        let sources = wad.text(self.name@).integer(self.kind).text(self.glsles_vertex@).text(
            self.glsles_fragment@,
        ).text(self.glsl_vertex@).text(self.glsl_fragment@).text(self.hlsl9_vertex@).text(
            self.hlsl9_pixel@,
        );
        let listed = with_listed_texts(
            sources.word(0).word(0).count(self.attributes@.len(), "shader attribute count"@),
            self.attributes@,
            self.attributes@.len() as int,
        ).integer(2).reserved(12);
        with_binary(
            with_binary(listed, sources.bytes.len() as int, self.hlsl11_vertex@),
            sources.word(0).bytes.len() as int,
            self.hlsl11_pixel@,
        )
    }

    proof fn lemma_plain(self, wad: Wad) {
        broadcast use group_plain;

        let sources = wad.text(self.name@).integer(self.kind).text(self.glsles_vertex@).text(
            self.glsles_fragment@,
        ).text(self.glsl_vertex@).text(self.glsl_fragment@).text(self.hlsl9_vertex@).text(
            self.hlsl9_pixel@,
        );
        let counted = sources.word(0).word(0).count(
            self.attributes@.len(),
            "shader attribute count"@,
        );
        lemma_plain_listed_texts(counted, self.attributes@, self.attributes@.len() as int);
        lemma_plain_reserved(
            with_listed_texts(
                counted,
                self.attributes@,
                self.attributes@.len() as int,
            ).integer(2),
            12,
        );
    }

    #[verifier::spinoff_prover]
    fn write(&self, writer: &mut WadWriter) {
        writer.write_reference(self.name.as_str());
        writer.write_i32(self.kind);
        writer.write_reference(self.glsles_vertex.as_str());
        writer.write_reference(self.glsles_fragment.as_str());
        writer.write_reference(self.glsl_vertex.as_str());
        writer.write_reference(self.glsl_fragment.as_str());
        writer.write_reference(self.hlsl9_vertex.as_str());
        writer.write_reference(self.hlsl9_pixel.as_str());
        let vertex = writer.reserve_u32();
        let pixel = writer.reserve_u32();
        writer.write_count(self.attributes.len(), "shader attribute count");
        let ghost counted = writer@;
        let mut index: usize = 0;
        while index < self.attributes.len()
            invariant
                index <= self.attributes@.len(),
                writer.wf(),
                writer@ == with_listed_texts(counted, self.attributes@, index as int),
            decreases self.attributes.len() - index,
        {
            writer.write_reference(self.attributes[index].as_str());
            index += 1;
        }
        writer.write_i32(2);
        let ghost before = writer@;
        let mut count: u8 = 0;
        while count < 12
            invariant
                count <= 12,
                writer.wf(),
                writer@ == before.reserved(count as nat),
            decreases 12 - count,
        {
            writer.write_u32(0);
            count += 1;
        }
        if self.hlsl11_vertex.len() > 0 {
            writer.align(8);
            writer.patch_position(vertex);
            writer.write_all(self.hlsl11_vertex.as_slice());
        }
        if self.hlsl11_pixel.len() > 0 {
            writer.align(8);
            writer.patch_position(pixel);
            writer.write_all(self.hlsl11_pixel.as_slice());
        }
    }
}

/// The file with the shaders.
pub open spec fn shader_chunk(wad: Wad, items: Seq<ShaderData>) -> Wad {
    wad.opened(seq![0x53, 0x48, 0x44, 0x52]).table(items).closed(wad.bytes.len() as int)
}

/// Writes the shaders.
pub fn write_shaders(writer: &mut WadWriter, items: &Vec<ShaderData>)
    requires
        old(writer).wf(),
    ensures
        final(writer).wf(),
        final(writer)@ == shader_chunk(old(writer)@, items@),
{
    let start = writer.open_chunk([0x53, 0x48, 0x44, 0x52]);
    assert([0x53u8, 0x48u8, 0x44u8, 0x52u8]@ =~= seq![0x53u8, 0x48u8, 0x44u8, 0x52u8]);
    writer.write_offset_table(items.as_slice());
    writer.close_chunk(start);
}

/// The file with the first kerning pairs of a glyph.
pub open spec fn with_kerning(wad: Wad, pairs: Seq<KerningPair>, count: int) -> Wad
    decreases count,
{
    if count <= 0 {
        wad
    } else {
        with_kerning(wad, pairs, count - 1).signed_short(pairs[count - 1].other as i16).signed_short(
            pairs[count - 1].amount as i16,
        )
    }
}

impl Record for Glyph {
    open spec fn record(self, wad: Wad) -> Wad {
        with_kerning(
            wad.signed_short(self.character as i16).signed_short(self.x as i16).signed_short(
                self.y as i16,
            ).signed_short(self.width as i16).signed_short(self.height as i16).signed_short(
                self.shift as i16,
            ).signed_short(self.offset as i16).signed_short(self.kerning@.len() as i16),
            self.kerning@,
            self.kerning@.len() as int,
        )
    }

    proof fn lemma_plain(self, wad: Wad) {
        broadcast use group_plain;

        lemma_plain_kerning(
            wad.signed_short(self.character as i16).signed_short(self.x as i16).signed_short(
                self.y as i16,
            ).signed_short(self.width as i16).signed_short(self.height as i16).signed_short(
                self.shift as i16,
            ).signed_short(self.offset as i16).signed_short(self.kerning@.len() as i16),
            self.kerning@,
            self.kerning@.len() as int,
        );
    }

    fn write(&self, writer: &mut WadWriter) {
        writer.write_i16(
            #[verifier::truncate]
            (self.character as i16),
        );
        writer.write_i16(
            #[verifier::truncate]
            (self.x as i16),
        );
        writer.write_i16(
            #[verifier::truncate]
            (self.y as i16),
        );
        writer.write_i16(
            #[verifier::truncate]
            (self.width as i16),
        );
        writer.write_i16(
            #[verifier::truncate]
            (self.height as i16),
        );
        writer.write_i16(
            #[verifier::truncate]
            (self.shift as i16),
        );
        writer.write_i16(
            #[verifier::truncate]
            (self.offset as i16),
        );
        writer.write_i16(
            #[verifier::truncate]
            (self.kerning.len() as i16),
        );
        let ghost counted = writer@;
        let mut index: usize = 0;
        while index < self.kerning.len()
            invariant
                index <= self.kerning@.len(),
                writer.wf(),
                writer@ == with_kerning(counted, self.kerning@, index as int),
            decreases self.kerning.len() - index,
        {
            writer.write_i16(
                #[verifier::truncate]
                (self.kerning[index].other as i16),
            );
            writer.write_i16(
                #[verifier::truncate]
                (self.kerning[index].amount as i16),
            );
            index += 1;
        }
    }
}

/// The first character of a font, with its character set and how its edges are
/// smoothed.
pub open spec fn first_character(font: Font) -> u32 {
    (unsigned32(font.first) as u32) | ((unsigned32(font.charset) as u32) << 16u32) | ((unsigned32(
        font.anti_alias,
    ) as u32) << 24u32)
}

impl Record for Font {
    open spec fn record(self, wad: Wad) -> Wad {
        wad.text(self.name@).text(self.font_name@).integer(self.size).flag(self.bold).flag(
            self.italic,
        ).word(first_character(self)).integer(self.last).texture(
            Texture::Font { index: self.index },
        ).word(self.scale_x).word(self.scale_y).table(self.glyphs@)
    }

    proof fn lemma_plain(self, wad: Wad) {
        broadcast use group_plain;

        lemma_plain_table(
            wad.text(self.name@).text(self.font_name@).integer(self.size).flag(self.bold).flag(
                self.italic,
            ).word(first_character(self)).integer(self.last).texture(
                Texture::Font { index: self.index },
            ).word(self.scale_x).word(self.scale_y),
            self.glyphs@,
        );
    }

    fn write(&self, writer: &mut WadWriter) {
        writer.write_reference(self.name.as_str());
        writer.write_reference(self.font_name.as_str());
        writer.write_i32(self.size);
        writer.write_bool(self.bold);
        writer.write_bool(self.italic);
        writer.write_u32(
            bits32(self.first) | (bits32(self.charset) << 16u32) | (bits32(self.anti_alias)
                << 24u32),
        );
        writer.write_i32(self.last);
        writer.write_texture(Texture::Font { index: self.index });
        writer.write_u32(self.scale_x);
        writer.write_u32(self.scale_y);
        writer.write_offset_table(self.glyphs.as_slice());
    }
}

/// The file with the characters that the first bytes stand for: those that are
/// not ASCII are question marks.
pub open spec fn with_letters(wad: Wad, count: int) -> Wad
    decreases count,
{
    if count <= 0 {
        wad
    } else {
        with_letters(wad, count - 1).short(
            if count - 1 < 128 {
                (count - 1) as u16
            } else {
                63u16
            },
        )
    }
}

/// The file with the fonts.
pub open spec fn font_chunk(wad: Wad, fonts: Seq<Font>) -> Wad {
    with_letters(wad.opened(seq![0x46, 0x4f, 0x4e, 0x54]).table(fonts), 256).closed(
        wad.bytes.len() as int,
    )
}

/// Writes the fonts.
pub fn write_fonts(writer: &mut WadWriter, fonts: &Vec<Font>)
    requires
        old(writer).wf(),
    ensures
        final(writer).wf(),
        final(writer)@ == font_chunk(old(writer)@, fonts@),
{
    let start = writer.open_chunk([0x46, 0x4f, 0x4e, 0x54]);
    assert([0x46u8, 0x4fu8, 0x4eu8, 0x54u8]@ =~= seq![0x46u8, 0x4fu8, 0x4eu8, 0x54u8]);
    writer.write_offset_table(fonts.as_slice());
    let ghost listed = writer@;
    let mut value: u16 = 0;
    while value < 256
        invariant
            value <= 256,
            writer.wf(),
            writer@ == with_letters(listed, value as int),
        decreases 256 - value,
    {
        writer.write_u16(
            if value < 128 {
                value
            } else {
                63
            },
        );
        value += 1;
    }
    writer.close_chunk(start);
}

/// The index of the first code of a kind with a name, from an index on; -1 if
/// there is none.
pub open spec fn code_from(
    codes: Seq<CompiledCode>,
    kind: CodeKind,
    name: Seq<char>,
    index: int,
) -> int
    decreases codes.len() - index,
{
    if index < 0 || index >= codes.len() {
        -1
    } else if codes[index].kind == kind && codes[index].name@ == name {
        index
    } else {
        code_from(codes, kind, name, index + 1)
    }
}

fn find_code(codes: &Vec<CompiledCode>, kind: CodeKind, name: &str) -> (found: Option<usize>)
    ensures
        match found {
            Some(index) => code_from(codes@, kind, name@, 0) == index,
            None => code_from(codes@, kind, name@, 0) == -1,
        },
{
    let mut index: usize = 0;
    while index < codes.len()
        invariant
            index <= codes@.len(),
            code_from(codes@, kind, name@, 0) == code_from(codes@, kind, name@, index as int),
        decreases codes.len() - index,
    {
        if codes[index].kind == kind && same_text(codes[index].name.as_str(), name) {
            return Some(index);
        }
        index += 1;
    }
    None
}

/// Whether a resource names code of a kind.
pub open spec fn is_keyed(kind: CodeKind) -> bool {
    kind is ObjectEvent || kind is Timeline || kind is RoomCreation || kind is RoomInstance
}

/// Whether one of the first codes has a kind and a name.
pub open spec fn is_known(
    codes: Seq<CompiledCode>,
    count: int,
    kind: CodeKind,
    name: Seq<char>,
) -> bool {
    exists|k: int|
        0 <= k < count && (#[trigger] codes[k]).kind == kind && codes[k].name@ == name
}

/// What is wrong with the first codes that resources name: each is to be known
/// once.
pub open spec fn key_fault(codes: Seq<CompiledCode>, count: int) -> Option<WriteFault>
    decreases count,
{
    if count <= 0 {
        None
    } else {
        let code = codes[count - 1];
        match key_fault(codes, count - 1) {
            Some(fault) => Some(fault),
            None => if count - 1 > i32::MAX {
                Some(overflow("resource CODE index"@, count - 1))
            } else if is_keyed(code.kind) && is_known(codes, count - 1, code.kind, code.name@) {
                Some(
                    invalid("duplicate "@ + kind_name(code.kind) + " CODE key "@ + code.name@),
                )
            } else {
                None
            },
        }
    }
}

proof fn lemma_key_fault_stays(codes: Seq<CompiledCode>, count: int, end: int)
    requires
        0 <= count <= end,
        key_fault(codes, count) is Some,
    ensures
        key_fault(codes, end) == key_fault(codes, count),
    decreases end - count,
{
    if count < end {
        lemma_key_fault_stays(codes, count, end - 1);
    }
}

fn knows(codes: &Vec<CompiledCode>, count: usize, kind: CodeKind, name: &str) -> (result: bool)
    requires
        count <= codes@.len(),
    ensures
        result == is_known(codes@, count as int, kind, name@),
{
    let mut index: usize = 0;
    while index < count
        invariant
            index <= count,
            count <= codes@.len(),
            forall|k: int|
                0 <= k < index ==> !((#[trigger] codes@[k]).kind == kind && codes@[k].name@
                    == name@),
        decreases count - index,
    {
        if codes[index].kind == kind && same_text(codes[index].name.as_str(), name) {
            return true;
        }
        index += 1;
    }
    false
}

/// Checks that each code that a resource names is known once.
pub fn check_code_keys(codes: &Vec<CompiledCode>) -> (result: Result<(), WriteError>)
    ensures
        match result {
            Ok(()) => key_fault(codes@, codes@.len() as int) is None,
            Err(error) => key_fault(codes@, codes@.len() as int) == Some(error@),
        },
{
    let mut index: usize = 0;
    while index < codes.len()
        invariant
            index <= codes@.len(),
            key_fault(codes@, index as int) is None,
        decreases codes.len() - index,
    {
        let code = &codes[index];
        proof {
            if key_fault(codes@, index + 1) is Some {
                lemma_key_fault_stays(codes@, index + 1, codes@.len() as int);
            }
        }
        if index as u64 > i32::MAX as u64 {
            return Err(
                WriteError::SizeOverflow {
                    field: "resource CODE index".to_owned(),
                    size: index as u64,
                },
            );
        }
        let keyed = matches!(
            code.kind,
            CodeKind::ObjectEvent
                | CodeKind::Timeline
                | CodeKind::RoomCreation
                | CodeKind::RoomInstance
        );
        if keyed && knows(codes, index, code.kind, code.name.as_str()) {
            let mut message = "duplicate ".to_owned();
            message.append(code.kind.text());
            message.append(" CODE key ");
            message.append(code.name.as_str());
            return Err(WriteError::InvalidVmData { message });
        }
        index += 1;
    }
    Ok(())
}

/// The file with the index of the code of a kind with a name; -1 if there is
/// none.
pub open spec fn with_code(
    wad: Wad,
    codes: Seq<CompiledCode>,
    kind: CodeKind,
    name: Seq<char>,
) -> Wad {
    let index = code_from(codes, kind, name, 0);
    if index < 0 {
        wad.integer(-1i32)
    } else {
        with_index(wad, index, "resource CODE index"@)
    }
}

fn write_code_index(writer: &mut WadWriter, codes: &Vec<CompiledCode>, kind: CodeKind, name: &str)
    requires
        old(writer).wf(),
    ensures
        final(writer).wf(),
        final(writer)@ == with_code(old(writer)@, codes@, kind, name@),
{
    match find_code(codes, kind, name) {
        Some(index) => write_index(writer, index, "resource CODE index"),
        None => writer.write_i32(-1),
    }
}

/// The file with the actions of an event: one action that runs the code of the
/// event, if it has any.
pub open spec fn with_actions(
    wad: Wad,
    actions: Seq<Action>,
    codes: Seq<CompiledCode>,
    kind: CodeKind,
    name: Seq<char>,
) -> Wad {
    if actions.len() == 0 {
        wad.word(0)
    } else {
        let counted = wad.word(1);
        let begun = counted.word(0).here(counted.bytes.len() as int).integer(1).integer(
            actions[0].id,
        ).integer(7).flag(false).flag(false).flag(true).integer(2).text(""@);
        with_code(begun, codes, kind, name).integer(1).integer(-1i32).flag(false).flag(
            false,
        ).integer(0)
    }
}

fn write_event_actions(
    writer: &mut WadWriter,
    actions: &Vec<Action>,
    codes: &Vec<CompiledCode>,
    kind: CodeKind,
    name: &str,
)
    requires
        old(writer).wf(),
    ensures
        final(writer).wf(),
        final(writer)@ == with_actions(old(writer)@, actions@, codes@, kind, name@),
{
    if actions.len() == 0 {
        writer.write_u32(0);
        return;
    }
    writer.write_u32(1);
    let action = writer.reserve_u32();
    writer.patch_position(action);
    writer.write_i32(1);
    writer.write_i32(actions[0].id);
    writer.write_i32(7);
    writer.write_bool(false);
    writer.write_bool(false);
    writer.write_bool(true);
    writer.write_i32(2);
    writer.write_reference("");
    write_code_index(writer, codes, kind, name);
    writer.write_i32(1);
    writer.write_i32(-1);
    writer.write_bool(false);
    writer.write_bool(false);
    writer.write_i32(0);
}

/// The name of the code of a step of a timeline.
pub open spec fn step_key(timeline: Seq<char>, step: i32) -> Seq<char> {
    timeline + "[step="@ + signed_digits(step as int) + "]"@
}

/// The name of the code of an event of an object.
pub open spec fn event_key(object: Seq<char>, event: ObjectEvent) -> Seq<char> {
    object + "["@ + digits(event.event_type as nat, 10) + ","@ + signed_digits(
        event.subtype as int,
    ) + "]"@
}

/// The name of the code of an instance in a room.
pub open spec fn instance_key(room: Seq<char>, instance: Seq<char>) -> Seq<char> {
    room + "."@ + instance
}

/// A timeline with the code of the project.
pub struct TimelineRecord<'a> {
    pub timeline: &'a Timeline,
    pub codes: &'a Vec<CompiledCode>,
}

/// The file with the first steps of a timeline, and a word for each.
pub open spec fn with_steps(wad: Wad, entries: Seq<TimelineEntry>, count: int) -> Wad
    decreases count,
{
    if count <= 0 {
        wad
    } else {
        with_steps(wad, entries, count - 1).integer(entries[count - 1].step).word(0)
    }
}

/// The position of the word of a step.
pub open spec fn step_slot(wad: Wad, entries: Seq<TimelineEntry>, index: int) -> int {
    with_steps(wad, entries, index).integer(entries[index].step).bytes.len() as int
}

/// The file with the actions of the first steps. A state tells where the words
/// of the steps are.
pub open spec fn with_entries(
    wad: Wad,
    counted: Wad,
    timeline: Timeline,
    codes: Seq<CompiledCode>,
    count: int,
) -> Wad
    decreases count,
{
    if count <= 0 {
        wad
    } else {
        let entry = timeline.entries@[count - 1];
        with_actions(
            with_entries(wad, counted, timeline, codes, count - 1).here(
                step_slot(counted, timeline.entries@, count - 1),
            ),
            entry.actions@,
            codes,
            CodeKind::Timeline,
            step_key(timeline.name@, entry.step),
        )
    }
}

fn spell_step(timeline: &str, step: i32) -> (key: String)
    ensures
        key@ == step_key(timeline@, step),
{
    let mut key = timeline.to_owned();
    key.append("[step=");
    let number = signed_decimal(step as i64);
    key.append(number.as_str());
    key.append("]");
    key
}

impl<'a> Record for TimelineRecord<'a> {
    open spec fn record(self, wad: Wad) -> Wad {
        let entries = self.timeline.entries@;
        let counted = wad.text(self.timeline.name@).count(
            entries.len(),
            "timeline entry count"@,
        );
        with_entries(
            with_steps(counted, entries, entries.len() as int),
            counted,
            *self.timeline,
            self.codes@,
            entries.len() as int,
        )
    }

    proof fn lemma_plain(self, wad: Wad) {
        broadcast use group_plain;

        let entries = self.timeline.entries@;
        let counted = wad.text(self.timeline.name@).count(
            entries.len(),
            "timeline entry count"@,
        );
        lemma_plain_steps(counted, entries, entries.len() as int);
        lemma_plain_entries(
            with_steps(counted, entries, entries.len() as int),
            counted,
            *self.timeline,
            self.codes@,
            entries.len() as int,
        );
    }

    #[verifier::spinoff_prover]
    fn write(&self, writer: &mut WadWriter) {
        let timeline = self.timeline;
        let entries = &timeline.entries;
        writer.write_reference(timeline.name.as_str());
        writer.write_count(entries.len(), "timeline entry count");
        let ghost counted = writer@;
        let mut slots: Vec<usize> = Vec::new();
        let mut index: usize = 0;
        while index < entries.len()
            invariant
                index <= entries@.len(),
                writer.wf(),
                slots@.len() == index,
                forall|k: int|
                    0 <= k < index ==> (#[trigger] slots@[k]) == step_slot(counted, entries@, k),
                writer@ == with_steps(counted, entries@, index as int),
            decreases entries.len() - index,
        {
            writer.write_i32(entries[index].step);
            let slot = writer.reserve_u32();
            slots.push(slot);
            index += 1;
        }
        let ghost stepped = writer@;
        let mut position: usize = 0;
        while position < entries.len()
            invariant
                position <= entries@.len(),
                entries == timeline.entries,
                timeline == self.timeline,
                writer.wf(),
                slots@.len() == entries@.len(),
                forall|k: int|
                    0 <= k < entries@.len() ==> (#[trigger] slots@[k]) == step_slot(
                        counted,
                        entries@,
                        k,
                    ),
                writer@ == with_entries(
                    stepped,
                    counted,
                    *timeline,
                    self.codes@,
                    position as int,
                ),
            decreases entries.len() - position,
        {
            let entry = &entries[position];
            writer.patch_position(slots[position]);
            let key = spell_step(timeline.name.as_str(), entry.step);
            write_event_actions(
                writer,
                &entry.actions,
                self.codes,
                CodeKind::Timeline,
                key.as_str(),
            );
            position += 1;
        }
    }
}

/// The timelines with the code of the project.
pub open spec fn timeline_records<'a>(
    timelines: Seq<Timeline>,
    codes: &'a Vec<CompiledCode>,
) -> Seq<TimelineRecord<'a>> {
    Seq::new(timelines.len(), |k: int| TimelineRecord { timeline: &timelines[k], codes })
}

/// The file with the timelines.
pub open spec fn timeline_chunk(wad: Wad, timelines: Seq<Timeline>, codes: &Vec<CompiledCode>) -> Wad {
    wad.opened(seq![0x54, 0x4d, 0x4c, 0x4e]).table(timeline_records(timelines, codes)).closed(
        wad.bytes.len() as int,
    )
}

/// Writes the timelines.
pub fn write_timelines(writer: &mut WadWriter, timelines: &Vec<Timeline>, codes: &Vec<CompiledCode>)
    requires
        old(writer).wf(),
    ensures
        final(writer).wf(),
        final(writer)@ == timeline_chunk(old(writer)@, timelines@, codes),
{
    let start = writer.open_chunk([0x54, 0x4d, 0x4c, 0x4e]);
    assert([0x54u8, 0x4du8, 0x4cu8, 0x4eu8]@ =~= seq![0x54u8, 0x4du8, 0x4cu8, 0x4eu8]);
    let mut records: Vec<TimelineRecord> = Vec::new();
    let mut index: usize = 0;
    while index < timelines.len()
        invariant
            index <= timelines@.len(),
            records@.len() == index,
            forall|k: int|
                0 <= k < index ==> (#[trigger] records@[k]) == (TimelineRecord {
                    timeline: &timelines@[k],
                    codes,
                }),
        decreases timelines.len() - index,
    {
        records.push(TimelineRecord { timeline: &timelines[index], codes });
        index += 1;
    }
    assert(records@ =~= timeline_records(timelines@, codes));
    writer.write_offset_table(records.as_slice());
    writer.close_chunk(start);
}

/// An event of an object with the code of the project.
pub struct EventRecord<'a> {
    pub object: &'a GameObject,
    pub event: &'a ObjectEvent,
    pub codes: &'a Vec<CompiledCode>,
}

fn spell_event(object: &str, event: &ObjectEvent) -> (key: String)
    ensures
        key@ == event_key(object@, *event),
{
    let mut key = object.to_owned();
    key.append("[");
    let number = decimal(event.event_type as u64);
    key.append(number.as_str());
    key.append(",");
    let subtype = signed_decimal(event.subtype as i64);
    key.append(subtype.as_str());
    key.append("]");
    key
}

impl<'a> Record for EventRecord<'a> {
    open spec fn record(self, wad: Wad) -> Wad {
        with_actions(
            wad.integer(self.event.subtype),
            self.event.actions@,
            self.codes@,
            CodeKind::ObjectEvent,
            event_key(self.object.name@, *self.event),
        )
    }

    proof fn lemma_plain(self, wad: Wad) {
        broadcast use group_plain;

    }

    fn write(&self, writer: &mut WadWriter) {
        writer.write_i32(self.event.subtype);
        let key = spell_event(self.object.name.as_str(), self.event);
        write_event_actions(
            writer,
            &self.event.actions,
            self.codes,
            CodeKind::ObjectEvent,
            key.as_str(),
        );
    }
}

/// The events of one type of an object, with the code of the project.
pub struct EventGroup<'a> {
    pub object: &'a GameObject,
    pub events: &'a Vec<ObjectEvent>,
    pub codes: &'a Vec<CompiledCode>,
}

impl<'a> EventGroup<'a> {
    /// The events of the group.
    pub open spec fn records(self) -> Seq<EventRecord<'a>> {
        Seq::new(
            self.events@.len(),
            |k: int|
                EventRecord { object: self.object, event: &self.events@[k], codes: self.codes },
        )
    }
}

impl<'a> Record for EventGroup<'a> {
    open spec fn record(self, wad: Wad) -> Wad {
        wad.table(self.records())
    }

    proof fn lemma_plain(self, wad: Wad) {
        broadcast use group_plain;

        lemma_plain_table(wad, self.records());
    }

    fn write(&self, writer: &mut WadWriter) {
        let mut records: Vec<EventRecord<'a>> = Vec::new();
        let mut index: usize = 0;
        while index < self.events.len()
            invariant
                index <= self.events@.len(),
                records@.len() == index,
                forall|k: int|
                    0 <= k < index ==> (#[trigger] records@[k]) == (EventRecord {
                        object: self.object,
                        event: &self.events@[k],
                        codes: self.codes,
                    }),
            decreases self.events.len() - index,
        {
            records.push(
                EventRecord {
                    object: self.object,
                    event: &self.events[index],
                    codes: self.codes,
                },
            );
            index += 1;
        }
        assert(records@ =~= self.records());
        writer.write_offset_table(records.as_slice());
    }
}

/// An object with the code of the project.
pub struct ObjectRecord<'a> {
    pub object: &'a GameObject,
    pub codes: &'a Vec<CompiledCode>,
}

/// The file with the first corners of a shape.
pub open spec fn with_corners(wad: Wad, points: Seq<PhysicsShapePoint>, count: int) -> Wad
    decreases count,
{
    if count <= 0 {
        wad
    } else {
        with_corners(wad, points, count - 1).word(points[count - 1].x).word(points[count - 1].y)
    }
}

impl<'a> ObjectRecord<'a> {
    /// The events of the object, grouped by their type.
    pub open spec fn groups(self) -> Seq<EventGroup<'a>> {
        Seq::new(
            self.object.events@.len(),
            |k: int|
                EventGroup {
                    object: self.object,
                    events: &self.object.events@[k],
                    codes: self.codes,
                },
        )
    }
}

impl<'a> Record for ObjectRecord<'a> {
    open spec fn record(self, wad: Wad) -> Wad {
        let object = *self.object;
        let physics = object.physics;
        let shown = wad.text(object.name@).integer(object.sprite_index).flag(
            object.visible,
        ).flag(object.solid).integer(object.depth).flag(object.persistent).integer(
            object.parent_index,
        ).integer(object.mask_index).flag(physics.object).flag(physics.sensor).integer(
            physics.shape,
        ).word(physics.density).word(physics.restitution).integer(physics.group).word(
            physics.linear_damping,
        ).word(physics.angular_damping).count(
            physics.shape_points@.len(),
            "physics vertex count"@,
        ).word(physics.friction).flag(physics.awake).flag(physics.kinematic);
        with_corners(
            shown,
            physics.shape_points@,
            physics.shape_points@.len() as int,
        ).table(self.groups())
    }

    proof fn lemma_plain(self, wad: Wad) {
        broadcast use group_plain;

        let object = *self.object;
        let physics = object.physics;
        let shown = wad.text(object.name@).integer(object.sprite_index).flag(
            object.visible,
        ).flag(object.solid).integer(object.depth).flag(object.persistent).integer(
            object.parent_index,
        ).integer(object.mask_index).flag(physics.object).flag(physics.sensor).integer(
            physics.shape,
        ).word(physics.density).word(physics.restitution).integer(physics.group).word(
            physics.linear_damping,
        ).word(physics.angular_damping).count(
            physics.shape_points@.len(),
            "physics vertex count"@,
        ).word(physics.friction).flag(physics.awake).flag(physics.kinematic);
        let corners = physics.shape_points@;
        lemma_plain_corners(shown, corners, corners.len() as int);
        lemma_plain_table(with_corners(shown, corners, corners.len() as int), self.groups());
    }

    #[verifier::spinoff_prover]
    fn write(&self, writer: &mut WadWriter) {
        let object = self.object;
        let physics = &object.physics;
        writer.write_reference(object.name.as_str());
        writer.write_i32(object.sprite_index);
        writer.write_bool(object.visible);
        writer.write_bool(object.solid);
        writer.write_i32(object.depth);
        writer.write_bool(object.persistent);
        writer.write_i32(object.parent_index);
        writer.write_i32(object.mask_index);
        writer.write_bool(physics.object);
        writer.write_bool(physics.sensor);
        writer.write_i32(physics.shape);
        writer.write_u32(physics.density);
        writer.write_u32(physics.restitution);
        writer.write_i32(physics.group);
        writer.write_u32(physics.linear_damping);
        writer.write_u32(physics.angular_damping);
        writer.write_count(physics.shape_points.len(), "physics vertex count");
        writer.write_u32(physics.friction);
        writer.write_bool(physics.awake);
        writer.write_bool(physics.kinematic);
        let ghost shown = writer@;
        let mut point: usize = 0;
        while point < physics.shape_points.len()
            invariant
                point <= physics.shape_points@.len(),
                writer.wf(),
                writer@ == with_corners(shown, physics.shape_points@, point as int),
            decreases physics.shape_points.len() - point,
        {
            writer.write_u32(physics.shape_points[point].x);
            writer.write_u32(physics.shape_points[point].y);
            point += 1;
        }
        let mut groups: Vec<EventGroup<'a>> = Vec::new();
        let mut index: usize = 0;
        while index < object.events.len()
            invariant
                index <= object.events@.len(),
                object == self.object,
                groups@.len() == index,
                forall|k: int|
                    0 <= k < index ==> (#[trigger] groups@[k]) == (EventGroup {
                        object,
                        events: &object.events@[k],
                        codes: self.codes,
                    }),
            decreases object.events.len() - index,
        {
            groups.push(EventGroup { object, events: &object.events[index], codes: self.codes });
            index += 1;
        }
        assert(groups@ =~= self.groups());
        writer.write_offset_table(groups.as_slice());
    }
}

/// The objects with the code of the project.
pub open spec fn object_records<'a>(objects: Seq<GameObject>, codes: &'a Vec<CompiledCode>) -> Seq<
    ObjectRecord<'a>,
> {
    Seq::new(objects.len(), |k: int| ObjectRecord { object: &objects[k], codes })
}

/// The file with the objects.
pub open spec fn object_chunk(wad: Wad, objects: Seq<GameObject>, codes: &Vec<CompiledCode>) -> Wad {
    wad.opened(seq![0x4f, 0x42, 0x4a, 0x54]).table(object_records(objects, codes)).closed(
        wad.bytes.len() as int,
    )
}

/// Writes the objects.
pub fn write_objects(writer: &mut WadWriter, objects: &Vec<GameObject>, codes: &Vec<CompiledCode>)
    requires
        old(writer).wf(),
    ensures
        final(writer).wf(),
        final(writer)@ == object_chunk(old(writer)@, objects@, codes),
{
    let start = writer.open_chunk([0x4f, 0x42, 0x4a, 0x54]);
    assert([0x4fu8, 0x42u8, 0x4au8, 0x54u8]@ =~= seq![0x4fu8, 0x42u8, 0x4au8, 0x54u8]);
    let mut records: Vec<ObjectRecord> = Vec::new();
    let mut index: usize = 0;
    while index < objects.len()
        invariant
            index <= objects@.len(),
            records@.len() == index,
            forall|k: int|
                0 <= k < index ==> (#[trigger] records@[k]) == (ObjectRecord {
                    object: &objects@[k],
                    codes,
                }),
        decreases objects.len() - index,
    {
        records.push(ObjectRecord { object: &objects[index], codes });
        index += 1;
    }
    assert(records@ =~= object_records(objects@, codes));
    writer.write_offset_table(records.as_slice());
    writer.close_chunk(start);
}

impl Record for RoomBackground {
    open spec fn record(self, wad: Wad) -> Wad {
        wad.flag(self.visible).flag(self.foreground).integer(self.background_index).integer(
            self.x,
        ).integer(self.y).flag(self.horizontal_tile).flag(self.vertical_tile).integer(
            self.horizontal_speed,
        ).integer(self.vertical_speed).flag(self.stretch)
    }

    proof fn lemma_plain(self, wad: Wad) {
        broadcast use group_plain;

    }

    fn write(&self, writer: &mut WadWriter) {
        writer.write_bool(self.visible);
        writer.write_bool(self.foreground);
        writer.write_i32(self.background_index);
        writer.write_i32(self.x);
        writer.write_i32(self.y);
        writer.write_bool(self.horizontal_tile);
        writer.write_bool(self.vertical_tile);
        writer.write_i32(self.horizontal_speed);
        writer.write_i32(self.vertical_speed);
        writer.write_bool(self.stretch);
    }
}

impl Record for RoomView {
    open spec fn record(self, wad: Wad) -> Wad {
        wad.flag(self.visible).integer(self.x_view).integer(self.y_view).integer(
            self.width_view,
        ).integer(self.height_view).integer(self.x_port).integer(self.y_port).integer(
            self.width_port,
        ).integer(self.height_port).integer(self.horizontal_border).integer(
            self.vertical_border,
        ).integer(self.horizontal_speed).integer(self.vertical_speed).integer(self.object_index)
    }

    proof fn lemma_plain(self, wad: Wad) {
        broadcast use group_plain;

    }

    fn write(&self, writer: &mut WadWriter) {
        writer.write_bool(self.visible);
        writer.write_i32(self.x_view);
        writer.write_i32(self.y_view);
        writer.write_i32(self.width_view);
        writer.write_i32(self.height_view);
        writer.write_i32(self.x_port);
        writer.write_i32(self.y_port);
        writer.write_i32(self.width_port);
        writer.write_i32(self.height_port);
        writer.write_i32(self.horizontal_border);
        writer.write_i32(self.vertical_border);
        writer.write_i32(self.horizontal_speed);
        writer.write_i32(self.vertical_speed);
        writer.write_i32(self.object_index);
    }
}

/// The colour of a tile with its opacity in the highest byte.
pub open spec fn tile_color(tile: RoomTile) -> u32 {
    (unsigned32(tile.blend) as u32).wrapping_add((unsigned32(tile.alpha) as u32) << 24u32)
}

impl Record for RoomTile {
    open spec fn record(self, wad: Wad) -> Wad {
        wad.integer(self.x).integer(self.y).integer(self.background_index).integer(
            self.source_x,
        ).integer(self.source_y).integer(self.width).integer(self.height).integer(
            self.depth,
        ).integer(self.id).word(self.scale_x).word(self.scale_y).word(tile_color(self))
    }

    proof fn lemma_plain(self, wad: Wad) {
        broadcast use group_plain;

    }

    fn write(&self, writer: &mut WadWriter) {
        writer.write_i32(self.x);
        writer.write_i32(self.y);
        writer.write_i32(self.background_index);
        writer.write_i32(self.source_x);
        writer.write_i32(self.source_y);
        writer.write_i32(self.width);
        writer.write_i32(self.height);
        writer.write_i32(self.depth);
        writer.write_i32(self.id);
        writer.write_u32(self.scale_x);
        writer.write_u32(self.scale_y);
        writer.write_u32(bits32(self.blend).wrapping_add(bits32(self.alpha) << 24u32));
    }
}

/// An instance in a room with the code of the project.
pub struct InstanceRecord<'a> {
    pub room: &'a Room,
    pub instance: &'a RoomInstance,
    pub codes: &'a Vec<CompiledCode>,
}

impl<'a> Record for InstanceRecord<'a> {
    open spec fn record(self, wad: Wad) -> Wad {
        with_code(
            wad.integer(self.instance.x).integer(self.instance.y).integer(
                self.instance.object_index,
            ).integer(self.instance.id),
            self.codes@,
            CodeKind::RoomInstance,
            instance_key(self.room.name@, self.instance.name@),
        ).word(self.instance.scale_x).word(self.instance.scale_y).word(
            self.instance.wad_color,
        ).word(self.instance.rotation).integer(-1i32)
    }

    proof fn lemma_plain(self, wad: Wad) {
        broadcast use group_plain;

    }

    fn write(&self, writer: &mut WadWriter) {
        let instance = self.instance;
        writer.write_i32(instance.x);
        writer.write_i32(instance.y);
        writer.write_i32(instance.object_index);
        writer.write_i32(instance.id);
        let mut key = self.room.name.clone();
        key.append(".");
        key.append(instance.name.as_str());
        write_code_index(writer, self.codes, CodeKind::RoomInstance, key.as_str());
        writer.write_u32(instance.scale_x);
        writer.write_u32(instance.scale_y);
        writer.write_u32(instance.wad_color);
        writer.write_u32(instance.rotation);
        writer.write_i32(-1);
    }
}

/// A room with the code of the project.
pub struct RoomRecord<'a> {
    pub room: &'a Room,
    pub codes: &'a Vec<CompiledCode>,
}

/// The flags of a room.
pub open spec fn room_flags(room: Room) -> i32 {
    ((if room.enable_views {
        1int
    } else {
        0
    }) + (if room.clear_view_background {
        2int
    } else {
        0
    }) + (if room.clear_display_buffer {
        0int
    } else {
        4
    })) as i32
}

impl<'a> RoomRecord<'a> {
    /// The instances in the room.
    pub open spec fn instances(self) -> Seq<InstanceRecord<'a>> {
        Seq::new(
            self.room.instances@.len(),
            |k: int|
                InstanceRecord {
                    room: self.room,
                    instance: &self.room.instances@[k],
                    codes: self.codes,
                },
        )
    }

    /// The file with what is known of the room itself.
    pub open spec fn head(self, wad: Wad) -> Wad {
        let room = *self.room;
        with_code(
            wad.text(room.name@).text(room.caption@).integer(room.width).integer(
                room.height,
            ).integer(room.speed).flag(room.persistent).integer(room.color).flag(
                room.show_color,
            ),
            self.codes@,
            CodeKind::RoomCreation,
            room.name@,
        ).integer(room_flags(room))
    }
}

impl<'a> Record for RoomRecord<'a> {
    open spec fn record(self, wad: Wad) -> Wad {
        let room = *self.room;
        let world = room.physics_world;
        let backgrounds = self.head(wad);
        let views = backgrounds.word(0);
        let instances = views.word(0);
        let tiles = instances.word(0);
        let physical = tiles.word(0).flag(world.enabled).integer(world.top).integer(
            world.left,
        ).integer(world.right).integer(world.bottom).word(world.gravity_x).word(
            world.gravity_y,
        ).word(world.pixels_to_meters);
        physical.here(backgrounds.bytes.len() as int).table(room.backgrounds@).here(
            views.bytes.len() as int,
        ).table(room.views@).here(instances.bytes.len() as int).table(self.instances()).here(
            tiles.bytes.len() as int,
        ).table(room.tiles@)
    }

    proof fn lemma_plain(self, wad: Wad) {
        broadcast use group_plain;

        let room = *self.room;
        let world = room.physics_world;
        let backgrounds = self.head(wad);
        let views = backgrounds.word(0);
        let instances = views.word(0);
        let tiles = instances.word(0);
        let physical = tiles.word(0).flag(world.enabled).integer(world.top).integer(
            world.left,
        ).integer(world.right).integer(world.bottom).word(world.gravity_x).word(
            world.gravity_y,
        ).word(world.pixels_to_meters);
        let first = physical.here(backgrounds.bytes.len() as int);
        lemma_plain_table(first, room.backgrounds@);
        let second = first.table(room.backgrounds@).here(views.bytes.len() as int);
        lemma_plain_table(second, room.views@);
        let third = second.table(room.views@).here(instances.bytes.len() as int);
        lemma_plain_table(third, self.instances());
        let fourth = third.table(self.instances()).here(tiles.bytes.len() as int);
        lemma_plain_table(fourth, room.tiles@);
    }

    #[verifier::spinoff_prover]
    fn write(&self, writer: &mut WadWriter) {
        let room = self.room;
        let world = room.physics_world;
        writer.write_reference(room.name.as_str());
        writer.write_reference(room.caption.as_str());
        writer.write_i32(room.width);
        writer.write_i32(room.height);
        writer.write_i32(room.speed);
        writer.write_bool(room.persistent);
        writer.write_i32(room.color);
        writer.write_bool(room.show_color);
        write_code_index(writer, self.codes, CodeKind::RoomCreation, room.name.as_str());
        let mut flags: i32 = 0;
        if room.enable_views {
            flags += 1;
        }
        if room.clear_view_background {
            flags += 2;
        }
        if !room.clear_display_buffer {
            flags += 4;
        }
        writer.write_i32(flags);
        let backgrounds = writer.reserve_u32();
        let views = writer.reserve_u32();
        let instances = writer.reserve_u32();
        let tiles = writer.reserve_u32();
        writer.write_bool(world.enabled);
        writer.write_i32(world.top);
        writer.write_i32(world.left);
        writer.write_i32(world.right);
        writer.write_i32(world.bottom);
        writer.write_u32(world.gravity_x);
        writer.write_u32(world.gravity_y);
        writer.write_u32(world.pixels_to_meters);
        let mut records: Vec<InstanceRecord<'a>> = Vec::new();
        let mut index: usize = 0;
        while index < room.instances.len()
            invariant
                index <= room.instances@.len(),
                room == self.room,
                records@.len() == index,
                forall|k: int|
                    0 <= k < index ==> (#[trigger] records@[k]) == (InstanceRecord {
                        room,
                        instance: &room.instances@[k],
                        codes: self.codes,
                    }),
            decreases room.instances.len() - index,
        {
            records.push(
                InstanceRecord { room, instance: &room.instances[index], codes: self.codes },
            );
            index += 1;
        }
        assert(records@ =~= self.instances());
        writer.patch_position(backgrounds);
        writer.write_offset_table(room.backgrounds.as_slice());
        writer.patch_position(views);
        writer.write_offset_table(room.views.as_slice());
        writer.patch_position(instances);
        writer.write_offset_table(records.as_slice());
        writer.patch_position(tiles);
        writer.write_offset_table(room.tiles.as_slice());
    }
}

/// The rooms with the code of the project.
pub open spec fn room_records<'a>(rooms: Seq<Room>, codes: &'a Vec<CompiledCode>) -> Seq<
    RoomRecord<'a>,
> {
    Seq::new(rooms.len(), |k: int| RoomRecord { room: &rooms[k], codes })
}

/// The file with the rooms.
pub open spec fn room_chunk(wad: Wad, rooms: Seq<Room>, codes: &Vec<CompiledCode>) -> Wad {
    wad.opened(seq![0x52, 0x4f, 0x4f, 0x4d]).table(room_records(rooms, codes)).closed(
        wad.bytes.len() as int,
    )
}

/// Writes the rooms.
pub fn write_rooms(writer: &mut WadWriter, rooms: &Vec<Room>, codes: &Vec<CompiledCode>)
    requires
        old(writer).wf(),
    ensures
        final(writer).wf(),
        final(writer)@ == room_chunk(old(writer)@, rooms@, codes),
{
    let start = writer.open_chunk([0x52, 0x4f, 0x4f, 0x4d]);
    assert([0x52u8, 0x4fu8, 0x4fu8, 0x4du8]@ =~= seq![0x52u8, 0x4fu8, 0x4fu8, 0x4du8]);
    let mut records: Vec<RoomRecord> = Vec::new();
    let mut index: usize = 0;
    while index < rooms.len()
        invariant
            index <= rooms@.len(),
            records@.len() == index,
            forall|k: int|
                0 <= k < index ==> (#[trigger] records@[k]) == (RoomRecord {
                    room: &rooms@[k],
                    codes,
                }),
        decreases rooms.len() - index,
    {
        records.push(RoomRecord { room: &rooms[index], codes });
        index += 1;
    }
    assert(records@ =~= room_records(rooms@, codes));
    writer.write_offset_table(records.as_slice());
    writer.close_chunk(start);
}

/// How a script is written.
pub open spec fn script_form() -> spec_fn(Wad, ScriptView) -> Wad {
    |wad: Wad, script: ScriptView| wad.text(script.name).integer(script.code_index)
}

/// The file with the scripts.
pub open spec fn script_chunk(wad: Wad, scripts: Seq<ScriptView>) -> Wad {
    wad.opened(seq![0x53, 0x43, 0x50, 0x54]).table_of(scripts, script_form()).closed(
        wad.bytes.len() as int,
    )
}

proof fn lemma_scripts_filled(wad: Wad, scripts: Seq<ScriptRecord>, table: int, count: nat)
    requires
        count <= scripts.len(),
    ensures
        wad.filled(
            scripts,
            |wad: Wad, item: ScriptRecord| item.record(wad),
            table,
            count,
        ) == wad.filled(script_views(scripts), script_form(), table, count),
    decreases count,
{
    if count > 0 {
        lemma_scripts_filled(wad, scripts, table, (count - 1) as nat);
    }
}

/// Writes the scripts.
pub fn write_scripts(writer: &mut WadWriter, scripts: &Vec<ScriptRecord>)
    requires
        old(writer).wf(),
    ensures
        final(writer).wf(),
        final(writer)@ == script_chunk(old(writer)@, script_views(scripts@)),
{
    let start = writer.open_chunk([0x53, 0x43, 0x50, 0x54]);
    assert([0x53u8, 0x43u8, 0x50u8, 0x54u8]@ =~= seq![0x53u8, 0x43u8, 0x50u8, 0x54u8]);
    proof {
        let counted = writer@.count(scripts@.len(), "offset table count"@);
        lemma_scripts_filled(
            counted.reserved(scripts@.len()),
            scripts@,
            writer@.bytes.len() as int + 4,
            scripts@.len(),
        );
    }
    writer.write_offset_table(scripts.as_slice());
    writer.close_chunk(start);
}

/// The file with the mark of the included files.
pub open spec fn mark_chunk(wad: Wad) -> Wad {
    wad.opened(seq![0x44, 0x41, 0x46, 0x4c]).closed(wad.bytes.len() as int)
}

/// What the chunks of the resources are made of besides the project.
pub struct Prepared {
    pub masks: Seq<Seq<Seq<u8>>>,
    pub scripts: Seq<ScriptView>,
}

/// What the chunks of the resources are made of, or what is wrong.
pub open spec fn preparation(
    assets: Assets,
    codes: Seq<CompiledCode>,
    within: spec_fn(ShapePoint) -> bool,
) -> Result<Prepared, WriteFault> {
    match all_prepared(assets, within, assets.sprites@.len() as int) {
        Err(fault) => Err(fault),
        Ok(masks) => match scripts_in(codes, codes.len() as int) {
            Err(fault) => Err(fault),
            Ok(scripts) => match key_fault(codes, codes.len() as int) {
                Some(fault) => Err(fault),
                None => Ok(Prepared { masks, scripts }),
            },
        },
    }
}

/// The file with the chunks of the resources.
pub open spec fn resource_chunks(
    wad: Wad,
    assets: Assets,
    codes: &Vec<CompiledCode>,
    shaders: Seq<ShaderData>,
    media: Seq<SoundMedia>,
    prepared: Prepared,
) -> Wad {
    let sounds = group_chunk(sound_chunk(wad, assets.sounds@, media), assets.audio_groups@);
    let pictures = background_chunk(
        sprite_chunk(sounds, assets.sprites@, prepared.masks),
        assets.backgrounds@,
    );
    let scripts = global_chunk(
        script_chunk(path_chunk(pictures, assets.paths@), prepared.scripts),
        codes@,
    );
    let fonts = font_chunk(shader_chunk(scripts, shaders), assets.fonts@);
    let objects = object_chunk(
        timeline_chunk(fonts, assets.timelines@, codes),
        assets.objects@,
        codes,
    );
    mark_chunk(room_chunk(objects, assets.rooms@, codes))
}

/// Writes the chunks of the resources. Nothing is written if the sprites, the
/// scripts or the code cannot be prepared.
#[verifier::spinoff_prover]
pub fn add_resource_chunks<F: Fn(ShapePoint) -> bool>(
    writer: &mut WadWriter,
    assets: &Assets,
    compiled: &CompiledProject,
    shaders: &Vec<ShaderData>,
    audio: &AudioData,
    within: &F,
) -> (result: Result<(), WriteError>)
    requires
        old(writer).wf(),
        audio.sounds@.len() == assets.sounds@.len(),
        are_numbered(assets.sounds@),
        is_geometry(*within),
    ensures
        final(writer).wf(),
        match (result, preparation(*assets, compiled.codes@, within_by(*within))) {
            (Ok(()), Ok(prepared)) => final(writer)@ == resource_chunks(
                old(writer)@,
                *assets,
                &compiled.codes,
                shaders@,
                audio.sounds@,
                prepared,
            ),
            (Err(error), Err(fault)) => error@ == fault && final(writer)@ == old(writer)@,
            _ => false,
        },
{
    let sprites = match prepare_sprites(assets, within) {
        Ok(sprites) => sprites,
        Err(error) => {
            return Err(error);
        },
    };
    let ghost masks = all_prepared(
        *assets,
        within_by(*within),
        assets.sprites@.len() as int,
    )->Ok_0;
    let scripts = match script_records(compiled) {
        Ok(scripts) => scripts,
        Err(error) => {
            return Err(error);
        },
    };
    if let Err(error) = check_code_keys(&compiled.codes) {
        return Err(error);
    }
    write_sounds(writer, assets, audio);
    write_groups(writer, &assets.audio_groups);
    write_sprites(writer, &sprites, Ghost(assets.sprites@), Ghost(masks));
    write_backgrounds(writer, &assets.backgrounds);
    write_paths(writer, &assets.paths);
    write_scripts(writer, &scripts);
    write_globals(writer, &compiled.codes);
    write_shaders(writer, shaders);
    write_fonts(writer, &assets.fonts);
    write_timelines(writer, &assets.timelines, &compiled.codes);
    write_objects(writer, &assets.objects, &compiled.codes);
    write_rooms(writer, &assets.rooms, &compiled.codes);
    let start = writer.open_chunk([0x44, 0x41, 0x46, 0x4c]);
    assert([0x44u8, 0x41u8, 0x46u8, 0x4cu8]@ =~= seq![0x44u8, 0x41u8, 0x46u8, 0x4cu8]);
    writer.close_chunk(start);
    Ok(())
}

} // verus!
