//! The order of the chunks of a data file: the texts come last.

use vstd::prelude::*;
use vstd::utf8::*;

use crate::assets::Assets;
use crate::audio::{audio_chunk, blob_bytes, with_waveforms, AudioData, SoundMedia};
use crate::bytes::lemma_word_round_trip;
use crate::compile::{
    base_chunks, build_classes, extension_chunk, extension_records, general_chunk, language_chunk,
    option_chunk, option_constants, textless_wad, with_constants, with_numbers, with_products,
    with_rooms, BuildOptions, ExtensionRecord,
};
use crate::gml::backend::{CompiledCode, CompiledProject, LocalVariable};
use crate::gml::chunks::{
    code_chunk, first_variables, function_chunk, link_count, variable_chunk, vm_chunks,
    with_all_locals, with_all_names, with_code_records, with_codes, with_function_links,
    with_function_records, with_locals, with_names, with_string_numbers, with_variable_links,
    with_variable_records, FunctionRecord, Functions, Listed, ReferenceLocation, VariableRecord,
    CODE, FUNC, VARI,
};
use crate::gml::symbols::Builtins;
use crate::gml::vm::{le32, with_word, word_at};
use crate::project::ProjectManifest;
use crate::resource_chunks::{
    background_chunk, collision_number, font_chunk, global_chunk, global_codes, group_chunk,
    listed_groups, mark_chunk, object_chunk, object_records, path_chunk, resource_chunks,
    room_chunk, room_records, script_chunk, script_form, shader_chunk, sound_chunk, sound_records,
    sprite_chunk, sprite_record, timeline_chunk, timeline_records, with_corners, with_entries,
    with_frames, with_indices, with_kerning, with_letters, with_listed_texts, with_masks,
    with_points, with_sprites, with_steps, Prepared, ScriptView, ShaderData,
};
use crate::resources::{
    AudioGroup, Background, Font, GameObject, GamePath, KerningPair, PathPoint, PhysicsShapePoint,
    Room, Sound, Sprite, Timeline, TimelineEntry,
};
use crate::settings::CompileConstant;
use crate::text::spelled;
use crate::textures::{texture_chunks, TextureData};
use crate::wad::{
    chunk_views, empty_wad, group_plain, lemma_plain_opened, lemma_plain_reserved,
    lemma_plain_table, lemma_plain_table_of, plain, text_record, texts_name, ChunkView, TextLink,
    Wad, WadFile,
};

verus! {

proof fn lemma_plain_frames(wad: Wad, sprite: int, count: int)
    requires
        plain(wad),
    ensures
        plain(with_frames(wad, sprite, count)),
    decreases count,
{
    broadcast use group_plain;

    if count > 0 {
        lemma_plain_frames(wad, sprite, count - 1);
    }
}

proof fn lemma_plain_masks(wad: Wad, masks: Seq<Seq<u8>>, count: int)
    requires
        plain(wad),
    ensures
        plain(with_masks(wad, masks, count)),
    decreases count,
{
    broadcast use group_plain;

    if count > 0 {
        lemma_plain_masks(wad, masks, count - 1);
    }
}

proof fn lemma_plain_sprite(wad: Wad, sprite: Sprite, masks: Seq<Seq<u8>>)
    requires
        plain(wad),
    ensures
        plain(sprite_record(wad, sprite, masks)),
{
    broadcast use group_plain;

    let sized = wad.text(sprite.name@).integer(sprite.width).integer(sprite.height).integer(
        sprite.bounding_box_left,
    ).integer(sprite.bounding_box_right).integer(sprite.bounding_box_bottom).integer(
        sprite.bounding_box_top,
    ).flag(false).flag(false).flag(false).integer(sprite.bounding_box_mode).integer(
        collision_number(sprite.collision_type),
    ).integer(sprite.x_origin).integer(sprite.y_origin);
    let counted = sized.count(sprite.frames@.len(), "sprite frame count"@);
    lemma_plain_frames(counted, sprite.index as int, sprite.frames@.len() as int);
    let framed = with_frames(counted, sprite.index as int, sprite.frames@.len() as int);
    lemma_plain_masks(
        framed.count(masks.len(), "sprite mask count"@),
        masks,
        masks.len() as int,
    );
}

proof fn lemma_plain_sprites(
    wad: Wad,
    sprites: Seq<Sprite>,
    masks: Seq<Seq<Seq<u8>>>,
    table: int,
    count: nat,
)
    requires
        plain(wad),
    ensures
        plain(with_sprites(wad, sprites, masks, table, count)),
    decreases count,
{
    broadcast use group_plain;

    if count > 0 {
        lemma_plain_sprites(wad, sprites, masks, table, (count - 1) as nat);
        lemma_plain_sprite(
            with_sprites(wad, sprites, masks, table, (count - 1) as nat).aligned(4).here(
                table + 4 * (count - 1),
            ),
            sprites[count - 1],
            masks[count - 1],
        );
    }
}

pub proof fn lemma_plain_points(wad: Wad, points: Seq<PathPoint>, count: int)
    requires
        plain(wad),
    ensures
        plain(with_points(wad, points, count)),
    decreases count,
{
    broadcast use group_plain;

    if count > 0 {
        lemma_plain_points(wad, points, count - 1);
    }
}

proof fn lemma_plain_indices(wad: Wad, indices: Seq<usize>, count: int)
    requires
        plain(wad),
    ensures
        plain(with_indices(wad, indices, count)),
    decreases count,
{
    broadcast use group_plain;

    if count > 0 {
        lemma_plain_indices(wad, indices, count - 1);
    }
}

pub proof fn lemma_plain_listed_texts(wad: Wad, texts: Seq<String>, count: int)
    requires
        plain(wad),
    ensures
        plain(with_listed_texts(wad, texts, count)),
    decreases count,
{
    broadcast use group_plain;

    if count > 0 {
        lemma_plain_listed_texts(wad, texts, count - 1);
    }
}

pub proof fn lemma_plain_kerning(wad: Wad, pairs: Seq<KerningPair>, count: int)
    requires
        plain(wad),
    ensures
        plain(with_kerning(wad, pairs, count)),
    decreases count,
{
    broadcast use group_plain;

    if count > 0 {
        lemma_plain_kerning(wad, pairs, count - 1);
    }
}

proof fn lemma_plain_letters(wad: Wad, count: int)
    requires
        plain(wad),
    ensures
        plain(with_letters(wad, count)),
    decreases count,
{
    broadcast use group_plain;

    if count > 0 {
        lemma_plain_letters(wad, count - 1);
    }
}

pub proof fn lemma_plain_steps(wad: Wad, entries: Seq<TimelineEntry>, count: int)
    requires
        plain(wad),
    ensures
        plain(with_steps(wad, entries, count)),
    decreases count,
{
    broadcast use group_plain;

    if count > 0 {
        lemma_plain_steps(wad, entries, count - 1);
    }
}

pub proof fn lemma_plain_entries(
    wad: Wad,
    counted: Wad,
    timeline: Timeline,
    codes: Seq<CompiledCode>,
    count: int,
)
    requires
        plain(wad),
    ensures
        plain(with_entries(wad, counted, timeline, codes, count)),
    decreases count,
{
    broadcast use group_plain;

    if count > 0 {
        lemma_plain_entries(wad, counted, timeline, codes, count - 1);
    }
}

pub proof fn lemma_plain_corners(wad: Wad, points: Seq<PhysicsShapePoint>, count: int)
    requires
        plain(wad),
    ensures
        plain(with_corners(wad, points, count)),
    decreases count,
{
    broadcast use group_plain;

    if count > 0 {
        lemma_plain_corners(wad, points, count - 1);
    }
}

proof fn lemma_plain_rooms(wad: Wad, rooms: Seq<Room>, count: int)
    requires
        plain(wad),
    ensures
        plain(with_rooms(wad, rooms, count)),
    decreases count,
{
    broadcast use group_plain;

    if count > 0 {
        lemma_plain_rooms(wad, rooms, count - 1);
    }
}

proof fn lemma_plain_constants(wad: Wad, constants: Seq<CompileConstant>, count: int)
    requires
        plain(wad),
    ensures
        plain(with_constants(wad, constants, count)),
    decreases count,
{
    broadcast use group_plain;

    if count > 0 {
        lemma_plain_constants(wad, constants, count - 1);
    }
}

pub proof fn lemma_plain_numbers(wad: Wad, numbers: Seq<i32>, count: int)
    requires
        plain(wad),
    ensures
        plain(with_numbers(wad, numbers, count)),
    decreases count,
{
    broadcast use group_plain;

    if count > 0 {
        lemma_plain_numbers(wad, numbers, count - 1);
    }
}

proof fn lemma_plain_products(wad: Wad, records: Seq<ExtensionRecord>, count: int)
    requires
        plain(wad),
    ensures
        plain(with_products(wad, records, count).wad),
    decreases count,
{
    broadcast use group_plain;

    if count > 0 {
        lemma_plain_products(wad, records, count - 1);
    }
}

proof fn lemma_plain_names(wad: Wad, code: CompiledCode, listed: Listed)
    requires
        plain(wad),
    ensures
        plain(with_names(wad, code, listed)),
    decreases
        code.bytecode.variable_references@.len() - listed.variables
            + code.bytecode.function_references@.len() - listed.functions
            + code.bytecode.string_references@.len() - listed.strings,
{
    broadcast use group_plain;

    let variables = code.bytecode.variable_references@;
    let functions = code.bytecode.function_references@;
    let strings = code.bytecode.string_references@;
    if listed.variables > variables.len() || listed.functions > functions.len() || listed.strings
        > strings.len() {
    } else {
        if 0 <= listed.variables < variables.len() {
            lemma_plain_names(
                wad.with_text(variables[listed.variables].name@),
                code,
                Listed { variables: listed.variables + 1, ..listed },
            );
        }
        if 0 <= listed.functions < functions.len() {
            lemma_plain_names(
                wad.with_text(functions[listed.functions].name@),
                code,
                Listed { functions: listed.functions + 1, ..listed },
            );
        }
        if 0 <= listed.strings < strings.len() {
            lemma_plain_names(
                wad.with_text(strings[listed.strings].value@),
                code,
                Listed { strings: listed.strings + 1, ..listed },
            );
        }
    }
}

proof fn lemma_plain_all_names(wad: Wad, codes: Seq<CompiledCode>, count: int)
    requires
        plain(wad),
    ensures
        plain(with_all_names(wad, codes, count)),
    decreases count,
{
    broadcast use group_plain;

    if count > 0 {
        lemma_plain_all_names(wad, codes, count - 1);
        lemma_plain_names(
            with_all_names(wad, codes, count - 1),
            codes[count - 1],
            Listed { variables: 0, functions: 0, strings: 0 },
        );
    }
}

proof fn lemma_plain_string_numbers(
    wad: Wad,
    code_index: int,
    code: CompiledCode,
    base: int,
    count: int,
)
    requires
        plain(wad),
    ensures
        plain(with_string_numbers(wad, code_index, code, base, count)),
    decreases count,
{
    broadcast use group_plain;

    if count > 0 {
        lemma_plain_string_numbers(wad, code_index, code, base, count - 1);
    }
}

proof fn lemma_plain_codes(wad: Wad, codes: Seq<CompiledCode>, count: int)
    requires
        plain(wad),
    ensures
        plain(with_codes(wad, codes, count).wad),
    decreases count,
{
    broadcast use group_plain;

    if count > 0 {
        lemma_plain_codes(wad, codes, count - 1);
        let before = with_codes(wad, codes, count - 1).wad;
        let code = codes[count - 1];
        lemma_plain_string_numbers(
            before.raw(code.bytecode.bytes@),
            count - 1,
            code,
            before.bytes.len() as int,
            code.bytecode.string_references@.len() as int,
        );
    }
}

proof fn lemma_plain_code_records(
    wad: Wad,
    codes: Seq<CompiledCode>,
    bases: Seq<usize>,
    table: int,
    count: int,
)
    requires
        plain(wad),
    ensures
        plain(with_code_records(wad, codes, bases, table, count)),
    decreases count,
{
    broadcast use group_plain;

    if count > 0 {
        lemma_plain_code_records(wad, codes, bases, table, count - 1);
    }
}

proof fn lemma_plain_variable_links(wad: Wad, references: Seq<ReferenceLocation>, count: int)
    requires
        plain(wad),
    ensures
        plain(with_variable_links(wad, references, count)),
    decreases count,
{
    broadcast use group_plain;

    if count > 0 {
        lemma_plain_variable_links(wad, references, count - 1);
    }
}

proof fn lemma_plain_variable_records(wad: Wad, records: Seq<VariableRecord>, count: int)
    requires
        plain(wad),
    ensures
        plain(with_variable_records(wad, records, count)),
    decreases count,
{
    broadcast use group_plain;

    if count > 0 {
        lemma_plain_variable_records(wad, records, count - 1);
        let before = with_variable_records(wad, records, count - 1);
        let record = records[count - 1];
        let counted = before.text(record.key.name).integer(record.instance).integer(
            record.index,
        ).count(record.references.len(), "VARI reference count"@);
        let begun = if record.references.len() > 0 {
            counted.word(record.references[0].instruction)
        } else {
            counted.integer(-1i32)
        };
        lemma_plain_variable_links(begun, record.references, link_count(record.references));
    }
}

proof fn lemma_plain_function_links(wad: Wad, references: Seq<ReferenceLocation>, count: int)
    requires
        plain(wad),
    ensures
        plain(with_function_links(wad, references, count)),
    decreases count,
{
    broadcast use group_plain;

    if count > 0 {
        lemma_plain_function_links(wad, references, count - 1);
    }
}

proof fn lemma_plain_function_records(wad: Wad, records: Seq<FunctionRecord>, count: int)
    requires
        plain(wad),
    ensures
        plain(with_function_records(wad, records, count)),
    decreases count,
{
    broadcast use group_plain;

    if count > 0 {
        lemma_plain_function_records(wad, records, count - 1);
        let record = records[count - 1];
        lemma_plain_function_links(
            with_function_records(wad, records, count - 1).text(record.name).count(
                record.references.len(),
                "FUNC reference count"@,
            ).word(record.references[0].instruction),
            record.references,
            link_count(record.references),
        );
    }
}

proof fn lemma_plain_locals(wad: Wad, locals: Seq<LocalVariable>, count: int)
    requires
        plain(wad),
    ensures
        plain(with_locals(wad, locals, count)),
    decreases count,
{
    broadcast use group_plain;

    if count > 0 {
        lemma_plain_locals(wad, locals, count - 1);
    }
}

proof fn lemma_plain_all_locals(wad: Wad, codes: Seq<CompiledCode>, count: int)
    requires
        plain(wad),
    ensures
        plain(with_all_locals(wad, codes, count)),
    decreases count,
{
    broadcast use group_plain;

    if count > 0 {
        lemma_plain_all_locals(wad, codes, count - 1);
        let code = codes[count - 1];
        lemma_plain_locals(
            with_all_locals(wad, codes, count - 1).count(
                code.locals@.len(),
                "FUNC local count"@,
            ).text(code.vm_name@),
            code.locals@,
            code.locals@.len() as int,
        );
    }
}

proof fn lemma_plain_waveforms(
    wad: Wad,
    blobs: Seq<Seq<u8>>,
    table: int,
    count: nat,
)
    requires
        plain(wad),
    ensures
        plain(with_waveforms(wad, blobs, table, count)),
    decreases count,
{
    broadcast use group_plain;

    if count > 0 {
        lemma_plain_waveforms(wad, blobs, table, (count - 1) as nat);
    }
}

proof fn lemma_plain_sound_chunk(wad: Wad, sounds: Seq<Sound>, media: Seq<SoundMedia>)
    requires
        plain(wad),
    ensures
        plain(sound_chunk(wad, sounds, media)),
{
    broadcast use group_plain;

    lemma_plain_opened(wad, seq![0x53, 0x4f, 0x4e, 0x44]);
    lemma_plain_table(wad.opened(seq![0x53, 0x4f, 0x4e, 0x44]), sound_records(sounds, media));
}

proof fn lemma_plain_group_chunk(wad: Wad, groups: Seq<AudioGroup>)
    requires
        plain(wad),
    ensures
        plain(group_chunk(wad, groups)),
{
    broadcast use group_plain;

    lemma_plain_opened(wad, seq![0x41, 0x47, 0x52, 0x50]);
    lemma_plain_table(wad.opened(seq![0x41, 0x47, 0x52, 0x50]), listed_groups(groups, groups.len() as int));
}

proof fn lemma_plain_sprite_chunk(wad: Wad, sprites: Seq<Sprite>, masks: Seq<Seq<Seq<u8>>>)
    requires
        plain(wad),
    ensures
        plain(sprite_chunk(wad, sprites, masks)),
{
    broadcast use group_plain;

    lemma_plain_opened(wad, seq![0x53, 0x50, 0x52, 0x54]);
    let opened = wad.opened(seq![0x53, 0x50, 0x52, 0x54]);
    let counted = opened.count(masks.len(), "sprite count"@);
    lemma_plain_reserved(counted, masks.len());
    lemma_plain_sprites(
        counted.reserved(masks.len()),
        sprites,
        masks,
        opened.bytes.len() as int + 4,
        masks.len(),
    );
}

proof fn lemma_plain_background_chunk(wad: Wad, items: Seq<Background>)
    requires
        plain(wad),
    ensures
        plain(background_chunk(wad, items)),
{
    broadcast use group_plain;

    lemma_plain_opened(wad, seq![0x42, 0x47, 0x4e, 0x44]);
    lemma_plain_table(wad.opened(seq![0x42, 0x47, 0x4e, 0x44]), items);
}

proof fn lemma_plain_path_chunk(wad: Wad, items: Seq<GamePath>)
    requires
        plain(wad),
    ensures
        plain(path_chunk(wad, items)),
{
    broadcast use group_plain;

    lemma_plain_opened(wad, seq![0x50, 0x41, 0x54, 0x48]);
    lemma_plain_table(wad.opened(seq![0x50, 0x41, 0x54, 0x48]), items);
}

proof fn lemma_plain_global_chunk(wad: Wad, codes: Seq<CompiledCode>)
    requires
        plain(wad),
    ensures
        plain(global_chunk(wad, codes)),
{
    broadcast use group_plain;

    let indices = global_codes(codes, codes.len() as int);
    lemma_plain_opened(wad, seq![0x47, 0x4c, 0x4f, 0x42]);
    lemma_plain_indices(
        wad.opened(seq![0x47, 0x4c, 0x4f, 0x42]).count(indices.len(), "global code count"@),
        indices,
        indices.len() as int,
    );
}

proof fn lemma_plain_shader_chunk(wad: Wad, items: Seq<ShaderData>)
    requires
        plain(wad),
    ensures
        plain(shader_chunk(wad, items)),
{
    broadcast use group_plain;

    lemma_plain_opened(wad, seq![0x53, 0x48, 0x44, 0x52]);
    lemma_plain_table(wad.opened(seq![0x53, 0x48, 0x44, 0x52]), items);
}

proof fn lemma_plain_font_chunk(wad: Wad, fonts: Seq<Font>)
    requires
        plain(wad),
    ensures
        plain(font_chunk(wad, fonts)),
{
    broadcast use group_plain;

    lemma_plain_opened(wad, seq![0x46, 0x4f, 0x4e, 0x54]);
    lemma_plain_table(wad.opened(seq![0x46, 0x4f, 0x4e, 0x54]), fonts);
    lemma_plain_letters(wad.opened(seq![0x46, 0x4f, 0x4e, 0x54]).table(fonts), 256);
}

proof fn lemma_plain_timeline_chunk(
    wad: Wad,
    timelines: Seq<Timeline>,
    codes: &Vec<CompiledCode>,
)
    requires
        plain(wad),
    ensures
        plain(timeline_chunk(wad, timelines, codes)),
{
    broadcast use group_plain;

    lemma_plain_opened(wad, seq![0x54, 0x4d, 0x4c, 0x4e]);
    lemma_plain_table(wad.opened(seq![0x54, 0x4d, 0x4c, 0x4e]), timeline_records(timelines, codes));
}

proof fn lemma_plain_object_chunk(
    wad: Wad,
    objects: Seq<GameObject>,
    codes: &Vec<CompiledCode>,
)
    requires
        plain(wad),
    ensures
        plain(object_chunk(wad, objects, codes)),
{
    broadcast use group_plain;

    lemma_plain_opened(wad, seq![0x4f, 0x42, 0x4a, 0x54]);
    lemma_plain_table(wad.opened(seq![0x4f, 0x42, 0x4a, 0x54]), object_records(objects, codes));
}

proof fn lemma_plain_room_chunk(wad: Wad, rooms: Seq<Room>, codes: &Vec<CompiledCode>)
    requires
        plain(wad),
    ensures
        plain(room_chunk(wad, rooms, codes)),
{
    broadcast use group_plain;

    lemma_plain_opened(wad, seq![0x52, 0x4f, 0x4f, 0x4d]);
    lemma_plain_table(wad.opened(seq![0x52, 0x4f, 0x4f, 0x4d]), room_records(rooms, codes));
}

proof fn lemma_plain_script_chunk(wad: Wad, scripts: Seq<ScriptView>)
    requires
        plain(wad),
    ensures
        plain(script_chunk(wad, scripts)),
{
    broadcast use group_plain;

    lemma_plain_opened(wad, seq![0x53, 0x43, 0x50, 0x54]);
    let form = script_form();
    assert forall|wad: Wad, script: ScriptView| plain(wad) implies plain(
        #[trigger] form(wad, script),
    ) by {
        assert(plain(wad.text(script.name)));
    }
    lemma_plain_table_of(wad.opened(seq![0x53, 0x43, 0x50, 0x54]), scripts, form);
}

proof fn lemma_plain_mark_chunk(wad: Wad)
    requires
        plain(wad),
    ensures
        plain(mark_chunk(wad)),
{
    broadcast use group_plain;

    lemma_plain_opened(wad, seq![0x44, 0x41, 0x46, 0x4c]);
}

proof fn lemma_plain_resources(
    wad: Wad,
    assets: Assets,
    codes: &Vec<CompiledCode>,
    shaders: Seq<ShaderData>,
    media: Seq<SoundMedia>,
    prepared: Prepared,
)
    requires
        plain(wad),
    ensures
        plain(resource_chunks(wad, assets, codes, shaders, media, prepared)),
{
    lemma_plain_sound_chunk(wad, assets.sounds@, media);
    let sounds = sound_chunk(wad, assets.sounds@, media);
    lemma_plain_group_chunk(sounds, assets.audio_groups@);
    let groups = group_chunk(sounds, assets.audio_groups@);
    lemma_plain_sprite_chunk(groups, assets.sprites@, prepared.masks);
    let sprites = sprite_chunk(groups, assets.sprites@, prepared.masks);
    lemma_plain_background_chunk(sprites, assets.backgrounds@);
    let pictures = background_chunk(sprites, assets.backgrounds@);
    lemma_plain_path_chunk(pictures, assets.paths@);
    let paths = path_chunk(pictures, assets.paths@);
    lemma_plain_script_chunk(paths, prepared.scripts);
    let scripts = script_chunk(paths, prepared.scripts);
    lemma_plain_global_chunk(scripts, codes@);
    let globals = global_chunk(scripts, codes@);
    lemma_plain_shader_chunk(globals, shaders);
    let shaded = shader_chunk(globals, shaders);
    lemma_plain_font_chunk(shaded, assets.fonts@);
    let fonts = font_chunk(shaded, assets.fonts@);
    lemma_plain_timeline_chunk(fonts, assets.timelines@, codes);
    let timelines = timeline_chunk(fonts, assets.timelines@, codes);
    lemma_plain_object_chunk(timelines, assets.objects@, codes);
    let objects = object_chunk(timelines, assets.objects@, codes);
    lemma_plain_room_chunk(objects, assets.rooms@, codes);
    lemma_plain_mark_chunk(room_chunk(objects, assets.rooms@, codes));
}

proof fn lemma_plain_textures(wad: Wad, textures: TextureData)
    requires
        plain(wad),
    ensures
        plain(texture_chunks(wad, textures)),
{
    broadcast use group_plain;

    lemma_plain_opened(wad, seq![0x54, 0x50, 0x41, 0x47]);
    lemma_plain_table(wad.opened(seq![0x54, 0x50, 0x41, 0x47]), textures.items@);
    let items = wad.opened(seq![0x54, 0x50, 0x41, 0x47]).table(textures.items@).closed(
        wad.bytes.len() as int,
    );
    lemma_plain_opened(items, seq![0x54, 0x58, 0x54, 0x52]);
    lemma_plain_table(items.opened(seq![0x54, 0x58, 0x54, 0x52]), textures.pages@);
}

proof fn lemma_plain_general_chunk(
    wad: Wad,
    project: ProjectManifest,
    assets: Assets,
    build: BuildOptions,
)
    requires
        plain(wad),
    ensures
        plain(general_chunk(wad, project, assets, build)),
{
    broadcast use group_plain;

    lemma_plain_opened(wad, seq![0x47, 0x45, 0x4e, 0x38]);
    assert forall|before: Wad| plain(before) implies plain(
        #[trigger] with_rooms(before, assets.rooms@, assets.rooms@.len() as int),
    ) by {
        lemma_plain_rooms(before, assets.rooms@, assets.rooms@.len() as int);
    }
}

proof fn lemma_plain_option_chunk(wad: Wad, assets: Assets, build: BuildOptions)
    requires
        plain(wad),
    ensures
        plain(option_chunk(wad, assets, build)),
{
    broadcast use group_plain;

    lemma_plain_opened(wad, seq![0x4f, 0x50, 0x54, 0x4e]);
    let used = option_constants(
        assets.constants@,
        spelled(build.used_constants@),
        assets.constants@.len() as int,
    );
    assert forall|before: Wad| plain(before) implies plain(
        #[trigger] with_constants(before, used, used.len() as int),
    ) by {
        lemma_plain_constants(before, used, used.len() as int);
    }
}

proof fn lemma_plain_language_chunk(wad: Wad)
    requires
        plain(wad),
    ensures
        plain(language_chunk(wad)),
{
    broadcast use group_plain;

    lemma_plain_opened(wad, seq![0x4c, 0x41, 0x4e, 0x47]);
}

proof fn lemma_plain_extension_chunk(wad: Wad, assets: Assets)
    requires
        plain(wad),
    ensures
        plain(extension_chunk(wad, assets)),
{
    broadcast use group_plain;

    let records = extension_records(
        &assets,
        assets.extensions@,
        assets.extensions@.len() as int,
    );
    lemma_plain_opened(wad, seq![0x45, 0x58, 0x54, 0x4e]);
    let opened = wad.opened(seq![0x45, 0x58, 0x54, 0x4e]);
    lemma_plain_table(opened, records);
    lemma_plain_products(opened.table(records), records, records.len() as int);
}

proof fn lemma_plain_code(wad: Wad, builtins: Builtins, codes: Seq<CompiledCode>)
    requires
        plain(wad),
    ensures
        plain(vm_chunks(wad, builtins, codes)),
{
    broadcast use group_plain;

    let count = codes.len() as int;
    lemma_plain_opened(wad, CODE@);
    let opened = wad.opened(CODE@);
    let counted = opened.count(codes.len(), "CODE record count"@);
    lemma_plain_reserved(counted, codes.len());
    lemma_plain_codes(counted.reserved(codes.len()), codes, count);
    let placed = with_codes(counted.reserved(codes.len()), codes, count);
    lemma_plain_code_records(
        placed.wad.aligned(4),
        codes,
        placed.bases,
        opened.bytes.len() as int + 4,
        count,
    );
    let layout = code_chunk(opened, codes);
    assert(plain(layout.wad));
    let code = layout.wad.closed(wad.bytes.len() as int);
    assert(plain(code));
    lemma_plain_opened(code, VARI@);
    lemma_plain_variables(code.opened(VARI@), builtins, codes, layout.bases);
    let variables = variable_chunk(code.opened(VARI@), builtins, codes, layout.bases).closed(
        code.bytes.len() as int,
    );
    assert(plain(variables));
    lemma_plain_opened(variables, FUNC@);
    lemma_plain_functions(variables.opened(FUNC@), codes, layout.bases);
}

proof fn lemma_plain_variables(
    wad: Wad,
    builtins: Builtins,
    codes: Seq<CompiledCode>,
    bases: Seq<usize>,
)
    requires
        plain(wad),
    ensures
        plain(variable_chunk(wad, builtins, codes, bases)),
{
    broadcast use group_plain;

    let count = codes.len() as int;
    let variables = first_variables(builtins).with_codes(builtins, codes, bases, count);
    let records = variables.records;
    assert forall|before: Wad| plain(before) implies plain(
        #[trigger] with_variable_records(before, records, records.len() as int),
    ) by {
        lemma_plain_variable_records(before, records, records.len() as int);
    }
}

proof fn lemma_plain_functions(wad: Wad, codes: Seq<CompiledCode>, bases: Seq<usize>)
    requires
        plain(wad),
    ensures
        plain(function_chunk(wad, codes, bases)),
{
    broadcast use group_plain;

    let count = codes.len() as int;
    let functions = Functions { records: seq![], fault: None }.with_codes(codes, bases, count);
    let records = functions.records;
    let counted = wad.count(records.len(), "FUNC record count"@);
    lemma_plain_function_records(counted, records, records.len() as int);
    let listed = with_function_records(counted, records, records.len() as int);
    lemma_plain_all_locals(
        listed.count(codes.len(), "FUNC local table count"@),
        codes,
        count,
    );
}

proof fn lemma_plain_audio(wad: Wad, blobs: Seq<Seq<u8>>)
    requires
        plain(wad),
    ensures
        plain(audio_chunk(wad, blobs)),
{
    broadcast use group_plain;

    let name = seq![0x41u8, 0x55u8, 0x44u8, 0x4fu8];
    lemma_plain_opened(wad, name);
    let counted = wad.opened(name).count(blobs.len(), "audio waveform count"@);
    lemma_plain_reserved(counted, blobs.len());
    lemma_plain_waveforms(
        counted.reserved(blobs.len()),
        blobs,
        wad.opened(name).bytes.len() as int + 4,
        blobs.len(),
    );
}

/// Whether a file has the chunks of another one and begins with the same bytes.
spec fn extends(before: Wad, after: Wad, length: int) -> bool {
    &&& after.chunks == before.chunks
    &&& length <= after.bytes.len()
    &&& forall|k: int| 0 <= k < length ==> #[trigger] after.bytes[k] == before.bytes[k]
    &&& after.fault is None ==> before.fault is None
}

proof fn lemma_extends_raw(before: Wad, wad: Wad, length: int, more: Seq<u8>)
    requires
        extends(before, wad, length),
    ensures
        extends(before, wad.raw(more), length),
{
    reveal(Wad::raw);
}

proof fn lemma_extends_patched(before: Wad, wad: Wad, length: int, position: int, value: u32)
    requires
        extends(before, wad, length),
        length <= position,
    ensures
        extends(before, wad.patched(position, value), length),
{
    reveal(Wad::patched);
}

proof fn lemma_extends_text(before: Wad, wad: Wad, length: int, text: Seq<char>)
    requires
        extends(before, wad, length),
    ensures
        extends(before, text_record(wad, text), length),
{
    let bytes = encode_utf8(text);
    let counted = wad.count(bytes.len(), "text length"@);
    lemma_extends_raw(before, wad, length, le32(bytes.len() as u32 as int));
    lemma_extends_raw(before, counted, length, bytes);
    lemma_extends_raw(before, counted.raw(bytes), length, seq![0]);
}

proof fn lemma_extends_reserved(before: Wad, wad: Wad, length: int, count: nat)
    requires
        extends(before, wad, length),
    ensures
        extends(before, wad.reserved(count), length),
    decreases count,
{
    if count > 0 {
        lemma_extends_reserved(before, wad, length, (count - 1) as nat);
        lemma_extends_raw(
            before,
            wad.reserved((count - 1) as nat),
            length,
            le32(0),
        );
    }
}

proof fn lemma_extends_filled(
    before: Wad,
    wad: Wad,
    length: int,
    texts: Seq<Seq<char>>,
    table: int,
    count: nat,
)
    requires
        extends(before, wad, length),
        length <= table,
    ensures
        extends(
            before,
            wad.filled(texts, |wad: Wad, text: Seq<char>| text_record(wad, text), table, count),
            length,
        ),
    decreases count,
{
    let record = |wad: Wad, text: Seq<char>| text_record(wad, text);
    if count > 0 {
        let filled = wad.filled(texts, record, table, (count - 1) as nat);
        lemma_extends_filled(before, wad, length, texts, table, (count - 1) as nat);
        lemma_extends_patched(
            before,
            filled,
            length,
            table + 4 * (count - 1),
            filled.bytes.len() as u32,
        );
        lemma_extends_text(
            before,
            filled.here(table + 4 * (count - 1)),
            length,
            texts[count - 1],
        );
    }
}

proof fn lemma_linked_tail(
    wad: Wad,
    links: Seq<TextLink>,
    table: int,
    start: int,
    count: nat,
)
    requires
        count <= links.len(),
        start <= wad.bytes.len(),
        forall|k: int| 0 <= k < links.len() ==> (#[trigger] links[k]).position + 4 <= start,
    ensures
        ({
            let after = wad.linked(links, table, count);
            &&& after.chunks == wad.chunks
            &&& after.fault == wad.fault
            &&& after.bytes.len() == wad.bytes.len()
            &&& forall|k: int|
                start <= k < wad.bytes.len() ==> #[trigger] after.bytes[k] == wad.bytes[k]
        }),
    decreases count,
{
    reveal(Wad::patched);
    if count > 0 {
        lemma_linked_tail(wad, links, table, start, (count - 1) as nat);
        assert(links[count - 1].position + 4 <= start);
    }
}

/// Whether the chunk of the texts is in a file once, and is the last one: it ends
/// where the file ends.
pub open spec fn ends_with_texts(file: WadFile) -> bool {
    let chunks = chunk_views(file.chunks@);
    let last = chunks.last();
    let length = file.bytes@.len();
    &&& chunks.len() > 0
    &&& last.name == texts_name()
    &&& forall|k: int|
        0 <= k < chunks.len() - 1 ==> (#[trigger] chunks[k]).name != texts_name()
    &&& 8 <= last.offset
    &&& last.offset + 8 <= length
    &&& file.bytes@.subrange(last.offset, last.offset + 4) == texts_name()
    &&& last.offset + 8 + word_at(file.bytes@, last.offset + 4) == length
}

#[verifier::spinoff_prover]
proof fn lemma_word_read(bytes: Seq<u8>, position: int, value: u32)
    requires
        0 <= position,
        position + 4 <= bytes.len(),
    ensures
        word_at(with_word(bytes, position, value as int), position) == value,
        with_word(bytes, position, value as int).len() == bytes.len(),
{
    let after = with_word(bytes, position, value as int);
    let word = le32(value as int);
    assert(after[position] == word[0]);
    assert(after[position + 1] == word[1]);
    assert(after[position + 2] == word[2]);
    assert(after[position + 3] == word[3]);
    assert(word.subrange(0, 4) =~= word);
    lemma_word_round_trip(word, 0, value);
}

/// A file without texts to which they are added has them once, as its last chunk.
#[verifier::spinoff_prover]
pub proof fn law_texts_are_the_last_chunk(wad: Wad, file: WadFile)
    requires
        plain(wad),
        wad.with_texts().closed(0).fault is None,
        file.bytes@ == wad.with_texts().closed(0).bytes,
        chunk_views(file.chunks@) == wad.with_texts().closed(0).chunks,
    ensures
        ends_with_texts(file),
{
    reveal(plain);
    let start = wad.bytes.len() as int;
    let opened = wad.opened(texts_name());
    let length = start + 8;
    let counted = opened.count(wad.texts.len(), "offset table count"@);
    let record = |wad: Wad, text: Seq<char>| text_record(wad, text);
    let written = opened.table_of(wad.texts, record);
    let unlinked = written.closed(start);
    let linked = wad.with_texts();
    assert(linked == unlinked.linked(wad.text_links, start + 12, wad.text_links.len()));
    if opened.fault is None {
        assert(opened.bytes.len() == start + 8) by {
            reveal(Wad::raw);
        }
        lemma_extends_raw(opened, opened, length, le32(wad.texts.len() as int));
        assert(extends(opened, counted, length));
        lemma_extends_reserved(opened, counted, length, wad.texts.len());
        lemma_extends_filled(
            opened,
            counted.reserved(wad.texts.len()),
            length,
            wad.texts,
            start + 12,
            wad.texts.len(),
        );
        assert(extends(opened, written, length));
    } else {
        assert(opened == wad) by {
            reveal(Wad::raw);
        }
        lemma_extends_raw(opened, opened, start, le32(wad.texts.len() as int));
        lemma_extends_reserved(opened, counted, start, wad.texts.len());
        lemma_extends_filled(
            opened,
            counted.reserved(wad.texts.len()),
            start,
            wad.texts,
            opened.bytes.len() as int + 4,
            wad.texts.len(),
        );
        assert(extends(opened, written, start));
    }
    assert(unlinked.fault is None ==> written.fault is None) by {
        reveal(Wad::patched);
    }
    assert(unlinked.bytes.len() == written.bytes.len()) by {
        reveal(Wad::patched);
    }
    lemma_linked_tail(
        unlinked,
        wad.text_links,
        start + 12,
        start,
        wad.text_links.len(),
    );
    assert(linked.fault is None) by {
        reveal(Wad::patched);
    }
    assert(wad.fault is None);
    let size = (written.bytes.len() - start - 8) as u32;
    reveal(Wad::patched);
    reveal(Wad::raw);
    lemma_word_read(written.bytes, start + 4, size);
    let bytes = file.bytes@;
    assert(bytes.len() == written.bytes.len());
    assert(forall|k: int| start <= k < bytes.len() ==> #[trigger] bytes[k] == unlinked.bytes[k]);
    assert(word_at(bytes, start + 4) == size);
    assert(bytes.subrange(start, start + 4) =~= texts_name());
    let chunks = chunk_views(file.chunks@);
    assert(chunks == wad.chunks.push(ChunkView { name: texts_name(), offset: start }));
}

pub proof fn lemma_plain_base(project: ProjectManifest, assets: Assets, options: BuildOptions)
    ensures
        plain(base_chunks(empty_wad(), project, assets, options)),
{
    assert(plain(empty_wad())) by {
        reveal(plain);
    }
    lemma_plain_general_chunk(empty_wad(), project, assets, options);
    let general = general_chunk(empty_wad(), project, assets, options);
    lemma_plain_option_chunk(general, assets, options);
    let told = option_chunk(general, assets, options);
    lemma_plain_language_chunk(told);
    lemma_plain_extension_chunk(language_chunk(told), assets);
}

/// The data file of a project before its texts are added has no chunk of texts.
pub proof fn lemma_plain_project(
    project: ProjectManifest,
    assets: Assets,
    options: BuildOptions,
    compiled: CompiledProject,
    builtins: Builtins,
    textures: TextureData,
    shaders: Seq<ShaderData>,
    audio: AudioData,
    prepared: Prepared,
)
    ensures
        plain(
            textless_wad(
                project,
                assets,
                options,
                compiled,
                builtins,
                textures,
                shaders,
                audio,
                prepared,
            ),
        ),
{
    let effective = BuildOptions {
        function_classifications: build_classes(options, compiled, builtins),
        ..options
    };
    assert(plain(empty_wad())) by {
        reveal(plain);
    }
    let codes = compiled.codes@;
    lemma_plain_all_names(empty_wad(), codes, codes.len() as int);
    let listed = with_all_names(empty_wad(), codes, codes.len() as int);
    lemma_plain_general_chunk(listed, project, assets, effective);
    let general = general_chunk(listed, project, assets, effective);
    lemma_plain_option_chunk(general, assets, options);
    let told = option_chunk(general, assets, options);
    lemma_plain_language_chunk(told);
    lemma_plain_extension_chunk(language_chunk(told), assets);
    let base = extension_chunk(language_chunk(told), assets);
    lemma_plain_resources(base, assets, &compiled.codes, shaders, audio.sounds@, prepared);
    let resources = resource_chunks(
        base,
        assets,
        &compiled.codes,
        shaders,
        audio.sounds@,
        prepared,
    );
    lemma_plain_textures(resources, textures);
    lemma_plain_code(texture_chunks(resources, textures), builtins, codes);
    lemma_plain_audio(
        vm_chunks(texture_chunks(resources, textures), builtins, codes),
        blob_bytes(audio.groups@[0]@),
    );
}

} // verus!
