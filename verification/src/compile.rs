//! The data file of a project.

use vstd::prelude::*;

use crate::artifact::{
    file_views, merge_generated_files, merged_files, ArtifactFault, FileView, GeneratedFile,
};
use crate::assets::{extension_function_from, Assets};
use crate::audio::{are_numbered, audio_chunk, blob_bytes, AudioData};
use crate::gml::backend::{code_classes, function_classifications, CompiledProject};
use crate::gml::chunks::{add_vm_chunks, intern_vm_strings, vm_chunks, with_all_names};
use crate::gml::numbers::{digit_of, digit_value};
use crate::gml::symbols::Builtins;
use crate::layout::{
    ends_with_texts, law_texts_are_the_last_chunk, lemma_plain_base, lemma_plain_numbers,
    lemma_plain_project,
};
use crate::masks::{is_geometry, within_by, ShapePoint};
use crate::package::{collect_project_files, project_files, ReadFile};
use crate::project::ProjectManifest;
use crate::resource_chunks::{
    add_resource_chunks, preparation, resource_chunks, Prepared, ShaderData,
};
use crate::resources::{Extension, ExtensionFile, ExtensionFunction, Room, RoomView};
use crate::settings::{CompileConstant, ConstantSource};
use crate::text::{
    ascii_hex_digit, characters, replace, replaced, same_text, signed_decimal, signed_digits,
    spelled,
};
use crate::textures::{add_texture_chunks, texture_chunks, TextureData};
use crate::wad::{
    chunk_views, empty_wad, group_plain, invalid, lemma_plain_table, overflow, Record, Wad,
    WadFile, WadWriter, WriteError, WriteFault,
};

verus! {

/// What a build is told besides the project.
#[derive(Debug, Clone, PartialEq, Eq)]
pub struct BuildOptions {
    pub debug: bool,
    pub timestamp: i64,
    pub major_version: i32,
    pub minor_version: i32,
    pub release_version: i32,
    pub build_version: i32,
    pub license_crc: i32,
    pub license_md5: [u8; 16],
    pub function_classifications: i64,
    pub steam_app_id: i32,
    pub debugger_port: i32,
    pub steam_project: bool,
    pub ecma_script: bool,
    pub used_constants: Vec<String>,
}

impl Default for BuildOptions {
    /// Makes the options of a release build. The time is fixed, so the same
    /// project gives the same data file.
    fn default() -> (options: Self)
        ensures
            !options.debug && options.timestamp == 0,
            options.major_version == 1 && options.minor_version == 0,
            options.release_version == 0 && options.build_version == 9999,
            options.license_crc == 0 && options.license_md5@ == seq![0u8; 16],
            options.function_classifications == 0 && options.steam_app_id == 0,
            options.debugger_port == 6502 && !options.steam_project && !options.ecma_script,
            options.used_constants@.len() == 0,
    {
        let license_md5 = [0u8; 16];
        assert(license_md5@ =~= seq![0u8; 16]);
        BuildOptions {
            debug: false,
            timestamp: 0,
            major_version: 1,
            minor_version: 0,
            release_version: 0,
            build_version: 9999,
            license_crc: 0,
            license_md5,
            function_classifications: 0,
            steam_app_id: 0,
            debugger_port: 6502,
            steam_project: false,
            ecma_script: false,
            used_constants: Vec::new(),
        }
    }
}

/// A rectangle, and whether it is only the one of the room.
pub struct Bounds {
    pub left: i32,
    pub top: i32,
    pub right: i32,
    pub bottom: i32,
    pub first: bool,
}

pub open spec fn least(first: i32, second: i32) -> i32 {
    if first <= second {
        first
    } else {
        second
    }
}

pub open spec fn greatest(first: i32, second: i32) -> i32 {
    if first >= second {
        first
    } else {
        second
    }
}

/// A rectangle that also holds the port of a view. The first view replaces the
/// rectangle of the room.
pub open spec fn with_view(bounds: Bounds, view: RoomView) -> Bounds {
    let right = view.x_port.wrapping_add(view.width_port);
    let bottom = view.y_port.wrapping_add(view.height_port);
    if !view.visible {
        bounds
    } else if bounds.first {
        Bounds { left: view.x_port, top: view.y_port, right, bottom, first: false }
    } else {
        Bounds {
            left: least(bounds.left, view.x_port),
            top: least(bounds.top, view.y_port),
            right: greatest(bounds.right, right),
            bottom: greatest(bounds.bottom, bottom),
            first: false,
        }
    }
}

/// The rectangle that holds the ports of the first views.
pub open spec fn view_bounds(room: Room, count: int) -> Bounds
    decreases count,
{
    if count <= 0 {
        Bounds { left: 0, top: 0, right: room.width, bottom: room.height, first: true }
    } else {
        with_view(view_bounds(room, count - 1), room.views@[count - 1])
    }
}

/// The size of the first room, or of the ports of its views.
pub open spec fn room_size(rooms: Seq<Room>) -> (i32, i32) {
    if rooms.len() == 0 {
        (0i32, 0i32)
    } else {
        let room = rooms[0];
        let bounds = view_bounds(
            room,
            if room.enable_views {
                room.views@.len() as int
            } else {
                0
            },
        );
        (bounds.right.wrapping_sub(bounds.left), bounds.bottom.wrapping_sub(bounds.top))
    }
}

/// Returns the size of the first room, or of the ports of its views. Numbers
/// that are too large wrap around.
pub fn first_room_size(rooms: &Vec<Room>) -> (size: (i32, i32))
    ensures
        size == room_size(rooms@),
{
    if rooms.len() == 0 {
        return (0, 0);
    }
    let room = &rooms[0];
    let mut left: i32 = 0;
    let mut top: i32 = 0;
    let mut right: i32 = room.width;
    let mut bottom: i32 = room.height;
    let mut first = true;
    let count = if room.enable_views {
        room.views.len()
    } else {
        0
    };
    let mut index: usize = 0;
    while index < count
        invariant
            index <= count,
            count <= room.views@.len(),
            view_bounds(*room, index as int) == (Bounds { left, top, right, bottom, first }),
        decreases count - index,
    {
        let view = &room.views[index];
        if view.visible {
            let view_right = view.x_port.wrapping_add(view.width_port);
            let view_bottom = view.y_port.wrapping_add(view.height_port);
            if first {
                left = view.x_port;
                top = view.y_port;
                right = view_right;
                bottom = view_bottom;
                first = false;
            } else {
                if view.x_port < left {
                    left = view.x_port;
                }
                if view.y_port < top {
                    top = view.y_port;
                }
                if view_right > right {
                    right = view_right;
                }
                if view_bottom > bottom {
                    bottom = view_bottom;
                }
            }
        }
        index += 1;
    }
    (right.wrapping_sub(left), bottom.wrapping_sub(top))
}

/// Returns the name of a game: the one of the project with underscores in place
/// of blanks.
pub fn internal_game_name(project_name: &str) -> (name: String)
    ensures
        name@ == replaced(project_name@, " "@, "_"@),
{
    proof {
        reveal_strlit(" ");
    }
    replace(project_name, " ", "_")
}

/// The file with the index of a list or a resource.
pub open spec fn with_index(wad: Wad, index: int, field: Seq<char>) -> Wad {
    if index <= i32::MAX {
        wad.integer(index as i32)
    } else {
        wad.failed(overflow(field, index))
    }
}

/// Writes the index of a list or a resource.
pub fn write_index(writer: &mut WadWriter, index: usize, field: &str)
    requires
        old(writer).wf(),
    ensures
        final(writer).wf(),
        final(writer)@ == with_index(old(writer)@, index as int, field@),
{
    if index as u64 <= i32::MAX as u64 {
        writer.write_i32(index as i32);
    } else {
        writer.fail_overflow(field, index);
    }
}

/// The file with the order of the first rooms.
pub open spec fn with_rooms(wad: Wad, rooms: Seq<Room>, count: int) -> Wad
    decreases count,
{
    if count <= 0 {
        wad
    } else {
        with_index(
            with_rooms(wad, rooms, count - 1),
            rooms[count - 1].index as int,
            "room index"@,
        )
    }
}

/// The flags of a game in its general information.
pub open spec fn general_flags(flags: u32, build: BuildOptions) -> u32 {
    let steam = if build.steam_project {
        flags | 0x1000
    } else {
        flags
    };
    if build.ecma_script {
        steam | 0x8000
    } else {
        steam
    }
}

/// The file with the general information.
pub open spec fn general_chunk(
    wad: Wad,
    project: ProjectManifest,
    assets: Assets,
    build: BuildOptions,
) -> Wad {
    let options = assets.options;
    let named = wad.opened(seq![0x47, 0x45, 0x4e, 0x38]).integer(
        if build.debug {
            0x1000i32
        } else {
            0x1001i32
        },
    ).text(project.name@).text(options.config@);
    let numbered = named.integer(assets.next_room_instance_id).integer(
        assets.next_room_tile_id,
    ).integer(options.game_id).integer(0).integer(0).integer(0).integer(0);
    let versioned = numbered.text(replaced(project.name@, " "@, "_"@)).integer(
        build.major_version,
    ).integer(build.minor_version).integer(build.release_version).integer(build.build_version);
    let (width, height) = room_size(assets.rooms@);
    let licensed = versioned.integer(width).integer(height).word(
        general_flags(options.gen8_flags, build),
    ).integer(build.license_crc).raw(build.license_md5@).signed_long(build.timestamp);
    let shown = licensed.text(options.display_name@).signed_long(
        options.active_targets,
    ).signed_long(
        if build.ecma_script {
            -1i64
        } else {
            build.function_classifications
        },
    ).integer(build.steam_app_id).integer(build.debugger_port);
    let counted = with_index(shown, assets.rooms@.len() as int, "room order count"@);
    with_rooms(counted, assets.rooms@, assets.rooms@.len() as int).closed(
        wad.bytes.len() as int,
    )
}

/// Writes the general information.
#[verifier::spinoff_prover]
pub fn write_gen8(
    writer: &mut WadWriter,
    project: &ProjectManifest,
    assets: &Assets,
    build: &BuildOptions,
)
    requires
        old(writer).wf(),
    ensures
        final(writer).wf(),
        final(writer)@ == general_chunk(old(writer)@, *project, *assets, *build),
{
    let options = &assets.options;
    let start = writer.open_chunk([0x47, 0x45, 0x4e, 0x38]);
    assert([0x47u8, 0x45u8, 0x4eu8, 0x38u8]@ =~= seq![0x47u8, 0x45u8, 0x4eu8, 0x38u8]);
    writer.write_i32(
        if build.debug {
            0x1000
        } else {
            0x1001
        },
    );
    writer.write_reference(project.name.as_str());
    writer.write_reference(options.config.as_str());
    writer.write_i32(assets.next_room_instance_id);
    writer.write_i32(assets.next_room_tile_id);
    writer.write_i32(options.game_id);
    writer.write_i32(0);
    writer.write_i32(0);
    writer.write_i32(0);
    writer.write_i32(0);
    let game_name = internal_game_name(project.name.as_str());
    writer.write_reference(game_name.as_str());
    writer.write_i32(build.major_version);
    writer.write_i32(build.minor_version);
    writer.write_i32(build.release_version);
    writer.write_i32(build.build_version);
    let (width, height) = first_room_size(&assets.rooms);
    writer.write_i32(width);
    writer.write_i32(height);
    let mut flags = options.gen8_flags;
    if build.steam_project {
        flags = flags | 0x1000;
    }
    if build.ecma_script {
        flags = flags | 0x8000;
    }
    writer.write_u32(flags);
    writer.write_i32(build.license_crc);
    writer.write_all(&build.license_md5);
    writer.write_i64(build.timestamp);
    writer.write_reference(options.display_name.as_str());
    writer.write_i64(options.active_targets);
    writer.write_i64(
        if build.ecma_script {
            -1
        } else {
            build.function_classifications
        },
    );
    writer.write_i32(build.steam_app_id);
    writer.write_i32(build.debugger_port);
    write_index(writer, assets.rooms.len(), "room order count");
    let ghost counted = writer@;
    let mut index: usize = 0;
    while index < assets.rooms.len()
        invariant
            index <= assets.rooms@.len(),
            writer.wf(),
            writer@ == with_rooms(counted, assets.rooms@, index as int),
        decreases assets.rooms.len() - index,
    {
        write_index(writer, assets.rooms[index].index, "room index");
        index += 1;
    }
    writer.close_chunk(start);
}

/// Whether a name is in a list.
pub open spec fn is_named(names: Seq<Seq<char>>, name: Seq<char>) -> bool {
    names.contains(name)
}

/// The constants among the first ones that are used and that no extension
/// defines.
pub open spec fn option_constants(
    constants: Seq<CompileConstant>,
    used: Seq<Seq<char>>,
    count: int,
) -> Seq<CompileConstant>
    decreases count,
{
    if count <= 0 {
        seq![]
    } else {
        let before = option_constants(constants, used, count - 1);
        let constant = constants[count - 1];
        if constant.source != ConstantSource::Extension && is_named(used, constant.name@) {
            before.push(constant)
        } else {
            before
        }
    }
}

fn has_name(names: &Vec<String>, name: &str) -> (result: bool)
    ensures
        result == is_named(spelled(names@), name@),
{
    let mut index: usize = 0;
    while index < names.len()
        invariant
            index <= names@.len(),
            forall|k: int| 0 <= k < index ==> (#[trigger] spelled(names@)[k]) != name@,
        decreases names.len() - index,
    {
        assert(spelled(names@)[index as int] == names@[index as int]@);
        if same_text(names[index].as_str(), name) {
            return true;
        }
        index += 1;
    }
    false
}

/// Returns the indices of the constants that are used and that no extension
/// defines.
pub fn used_option_constants(constants: &Vec<CompileConstant>, used_names: &Vec<String>) -> (used:
    Vec<usize>)
    ensures
        forall|k: int| 0 <= k < used@.len() ==> (#[trigger] used@[k]) < constants@.len(),
        used@.map_values(|index: usize| constants@[index as int]) == option_constants(
            constants@,
            spelled(used_names@),
            constants@.len() as int,
        ),
{
    let ghost names = spelled(used_names@);
    let mut used: Vec<usize> = Vec::new();
    let mut index: usize = 0;
    assert(used@.map_values(|index: usize| constants@[index as int]) =~= seq![]);
    while index < constants.len()
        invariant
            index <= constants@.len(),
            names == spelled(used_names@),
            forall|k: int| 0 <= k < used@.len() ==> (#[trigger] used@[k]) < constants@.len(),
            used@.map_values(|index: usize| constants@[index as int]) == option_constants(
                constants@,
                names,
                index as int,
            ),
        decreases constants.len() - index,
    {
        let constant = &constants[index];
        if constant.source != ConstantSource::Extension && has_name(
            used_names,
            constant.name.as_str(),
        ) {
            let ghost before = used@.map_values(|index: usize| constants@[index as int]);
            used.push(index);
            assert(used@.map_values(|index: usize| constants@[index as int]) =~= before.push(
                *constant,
            ));
        }
        index += 1;
    }
    used
}

/// The file with the first constants.
pub open spec fn with_constants(wad: Wad, constants: Seq<CompileConstant>, count: int) -> Wad
    decreases count,
{
    if count <= 0 {
        wad
    } else {
        with_constants(wad, constants, count - 1).text(constants[count - 1].name@).text(
            constants[count - 1].value@,
        )
    }
}

/// The file with the options.
pub open spec fn option_chunk(wad: Wad, assets: Assets, build: BuildOptions) -> Wad {
    let options = assets.options;
    let first = wad.opened(seq![0x4f, 0x50, 0x54, 0x4e]).integer(i32::MIN).integer(2).long(
        options.optn_flags,
    ).integer(options.scale).integer(options.window_color).integer(options.color_depth).integer(
        options.resolution,
    ).integer(options.frequency).integer(options.sync_vertex).integer(options.priority).word(
        0,
    ).word(0).word(0).integer(options.load_alpha);
    let used = option_constants(
        assets.constants@,
        spelled(build.used_constants@),
        assets.constants@.len() as int,
    );
    let listed = with_constants(
        first.count(used.len() + 2, "option constant count"@),
        used,
        used.len() as int,
    );
    listed.text("@@SleepMargin"@).text(signed_digits(options.sleep_margin as int)).text(
        "@@DrawColour"@,
    ).text(signed_digits(options.draw_color as int)).closed(wad.bytes.len() as int)
}

fn write_constant_count(writer: &mut WadWriter, used: usize)
    requires
        old(writer).wf(),
    ensures
        final(writer).wf(),
        final(writer)@ == old(writer)@.count(used as nat + 2, "option constant count"@),
{
    let count = used as u128 + 2;
    if count <= u32::MAX as u128 {
        writer.write_u32(count as u32);
    } else {
        writer.fail(
            WriteError::SizeOverflow {
                field: "option constant count".to_owned(),
                size: #[verifier::truncate]
                (count as u64),
            },
        );
    }
}

/// Writes the options.
#[verifier::spinoff_prover]
pub fn write_optn(writer: &mut WadWriter, assets: &Assets, build: &BuildOptions)
    requires
        old(writer).wf(),
    ensures
        final(writer).wf(),
        final(writer)@ == option_chunk(old(writer)@, *assets, *build),
{
    let options = &assets.options;
    let start = writer.open_chunk([0x4f, 0x50, 0x54, 0x4e]);
    assert([0x4fu8, 0x50u8, 0x54u8, 0x4eu8]@ =~= seq![0x4fu8, 0x50u8, 0x54u8, 0x4eu8]);
    writer.write_i32(i32::MIN);
    writer.write_i32(2);
    writer.write_u64(options.optn_flags);
    writer.write_i32(options.scale);
    writer.write_i32(options.window_color);
    writer.write_i32(options.color_depth);
    writer.write_i32(options.resolution);
    writer.write_i32(options.frequency);
    writer.write_i32(options.sync_vertex);
    writer.write_i32(options.priority);
    writer.write_u32(0);
    writer.write_u32(0);
    writer.write_u32(0);
    writer.write_i32(options.load_alpha);
    let used = used_option_constants(&assets.constants, &build.used_constants);
    let ghost chosen = option_constants(
        assets.constants@,
        spelled(build.used_constants@),
        assets.constants@.len() as int,
    );
    assert(used@.len() == chosen.len());
    write_constant_count(writer, used.len());
    let ghost counted = writer@;
    let mut index: usize = 0;
    while index < used.len()
        invariant
            index <= used@.len(),
            writer.wf(),
            used@.len() == chosen.len(),
            forall|k: int| 0 <= k < used@.len() ==> (#[trigger] used@[k]) < assets.constants@.len(),
            used@.map_values(|index: usize| assets.constants@[index as int]) == chosen,
            writer@ == with_constants(counted, chosen, index as int),
        decreases used.len() - index,
    {
        let constant = &assets.constants[used[index]];
        assert(used@.map_values(|index: usize| assets.constants@[index as int])[index as int]
            == *constant);
        writer.write_reference(constant.name.as_str());
        writer.write_reference(constant.value.as_str());
        index += 1;
    }
    writer.write_reference("@@SleepMargin");
    let margin = signed_decimal(options.sleep_margin as i64);
    writer.write_reference(margin.as_str());
    writer.write_reference("@@DrawColour");
    let color = signed_decimal(options.draw_color as i64);
    writer.write_reference(color.as_str());
    writer.close_chunk(start);
}

/// The file with the languages: there are none.
pub open spec fn language_chunk(wad: Wad) -> Wad {
    wad.opened(seq![0x4c, 0x41, 0x4e, 0x47]).integer(1).integer(0).integer(0).closed(
        wad.bytes.len() as int,
    )
}

/// Writes that there are no languages.
pub fn write_empty_lang(writer: &mut WadWriter)
    requires
        old(writer).wf(),
    ensures
        final(writer).wf(),
        final(writer)@ == language_chunk(old(writer)@),
{
    let start = writer.open_chunk([0x4c, 0x41, 0x4e, 0x47]);
    assert([0x4cu8, 0x41u8, 0x4eu8, 0x47u8]@ =~= seq![0x4cu8, 0x41u8, 0x4eu8, 0x47u8]);
    writer.write_i32(1);
    writer.write_i32(0);
    writer.write_i32(0);
    writer.close_chunk(start);
}

/// Whether a text is a product number: thirty-two hexadecimal digits.
pub open spec fn is_product_id(value: Seq<char>) -> bool {
    value.len() == 32 && forall|k: int| 0 <= k < 32 ==> ascii_hex_digit(#[trigger] value[k])
}

/// The sixteen bytes that a product number stands for: each two hexadecimal digits
/// are a byte.
pub open spec fn product_id(value: Seq<char>) -> Option<Seq<u8>> {
    if is_product_id(value) {
        Some(
            Seq::new(
                16,
                |k: int|
                    (16 * digit_value(value[2 * k], 16)->0 + digit_value(
                        value[2 * k + 1],
                        16,
                    )->0) as u8,
            ),
        )
    } else {
        None
    }
}

/// Returns the sixteen bytes that a product number stands for.
pub fn decode_product_id(value: &str) -> (bytes: Option<[u8; 16]>)
    ensures
        match bytes {
            Some(bytes) => product_id(value@) == Some(bytes@),
            None => product_id(value@) is None,
        },
{
    let letters = characters(value);
    if letters.len() != 32 {
        return None;
    }
    let mut output = [0u8; 16];
    let mut index: usize = 0;
    while index < 16
        invariant
            index <= 16,
            letters@ == value@,
            letters@.len() == 32,
            forall|k: int| 0 <= k < 2 * index ==> ascii_hex_digit(#[trigger] value@[k]),
            forall|k: int|
                0 <= k < index ==> #[trigger] output@[k] == (16 * digit_value(
                    value@[2 * k],
                    16,
                )->0 + digit_value(value@[2 * k + 1], 16)->0) as u8,
        decreases 16 - index,
    {
        let first = digit_of(letters[2 * index], 16);
        let second = digit_of(letters[2 * index + 1], 16);
        match (first, second) {
            (Some(first), Some(second)) => {
                output[index] = (16 * first + second) as u8;
            },
            _ => {
                return None;
            },
        }
        index += 1;
    }
    assert(output@ =~= product_id(value@)->0);
    Some(output)
}

/// The name under which the runner calls a function of an extension.
pub open spec fn called_name(function: ExtensionFunction) -> Seq<char> {
    if function.external_name@.len() == 0 {
        function.name@
    } else {
        function.external_name@
    }
}

/// The name under which the runner calls the function with a name.
pub open spec fn translated(assets: Assets, name: Seq<char>) -> Seq<char> {
    if name.len() == 0 {
        name
    } else {
        match extension_function_from(assets.extensions@, name, 0) {
            Some(function) => called_name(function),
            None => name,
        }
    }
}

fn called(function: &ExtensionFunction) -> (name: &str)
    ensures
        name@ == called_name(*function),
{
    if function.external_name.as_str().is_empty() {
        function.name.as_str()
    } else {
        function.external_name.as_str()
    }
}

/// Returns the name under which the runner calls the function with a name.
pub fn translate_extension_function<'a>(assets: &'a Assets, name: &'a str) -> (result: &'a str)
    ensures
        result@ == translated(*assets, name@),
{
    if name.is_empty() {
        return name;
    }
    match assets.extension_function(name) {
        Some(function) => called(function),
        None => name,
    }
}

/// The file with the first of some numbers.
pub open spec fn with_numbers(wad: Wad, numbers: Seq<i32>, count: int) -> Wad
    decreases count,
{
    if count <= 0 {
        wad
    } else {
        with_numbers(wad, numbers, count - 1).integer(numbers[count - 1])
    }
}

impl Record for ExtensionFunction {
    open spec fn record(self, wad: Wad) -> Wad {
        with_numbers(
            wad.text(self.name@).integer(self.id).integer(self.kind).integer(
                self.return_type,
            ).text(called_name(self)).count(
                self.arguments@.len(),
                "extension function argument count"@,
            ),
            self.arguments@,
            self.arguments@.len() as int,
        )
    }

    proof fn lemma_plain(self, wad: Wad) {
        broadcast use group_plain;

        lemma_plain_numbers(
            wad.text(self.name@).integer(self.id).integer(self.kind).integer(
                self.return_type,
            ).text(called_name(self)).count(
                self.arguments@.len(),
                "extension function argument count"@,
            ),
            self.arguments@,
            self.arguments@.len() as int,
        );
    }

    fn write(&self, writer: &mut WadWriter) {
        writer.write_reference(self.name.as_str());
        writer.write_i32(self.id);
        writer.write_i32(self.kind);
        writer.write_i32(self.return_type);
        writer.write_reference(called(self));
        writer.write_count(self.arguments.len(), "extension function argument count");
        let ghost counted = writer@;
        let mut index: usize = 0;
        while index < self.arguments.len()
            invariant
                index <= self.arguments@.len(),
                writer.wf(),
                writer@ == with_numbers(counted, self.arguments@, index as int),
            decreases self.arguments.len() - index,
        {
            writer.write_i32(self.arguments[index]);
            index += 1;
        }
    }
}

/// A file of an extension of a project.
pub struct FileRecord<'a> {
    pub assets: &'a Assets,
    pub file: &'a ExtensionFile,
}

impl<'a> Record for FileRecord<'a> {
    open spec fn record(self, wad: Wad) -> Wad {
        let named = wad.text(self.file.target_filename@).text(
            translated(*self.assets, self.file.finalizer@),
        ).text(translated(*self.assets, self.file.init@)).integer(self.file.kind);
        if self.file.kind == 2 {
            named.word(0)
        } else {
            named.table(self.file.functions@)
        }
    }

    proof fn lemma_plain(self, wad: Wad) {
        broadcast use group_plain;

        let named = wad.text(self.file.target_filename@).text(
            translated(*self.assets, self.file.finalizer@),
        ).text(translated(*self.assets, self.file.init@)).integer(self.file.kind);
        lemma_plain_table(named, self.file.functions@);
    }

    fn write(&self, writer: &mut WadWriter) {
        let file = self.file;
        writer.write_reference(file.target_filename.as_str());
        writer.write_reference(
            translate_extension_function(self.assets, file.finalizer.as_str()),
        );
        writer.write_reference(translate_extension_function(self.assets, file.init.as_str()));
        writer.write_i32(file.kind);
        if file.kind == 2 {
            writer.write_u32(0);
        } else {
            writer.write_offset_table(file.functions.as_slice());
        }
    }
}

/// The first files of an extension that are enabled and used.
pub open spec fn file_records<'a>(
    assets: &'a Assets,
    files: Seq<ExtensionFile>,
    count: int,
) -> Seq<FileRecord<'a>>
    decreases count,
{
    if count <= 0 {
        seq![]
    } else {
        let before = file_records(assets, files, count - 1);
        if files[count - 1].enabled && files[count - 1].used {
            before.push(FileRecord { assets, file: &files[count - 1] })
        } else {
            before
        }
    }
}

/// An extension of a project.
pub struct ExtensionRecord<'a> {
    pub assets: &'a Assets,
    pub extension: &'a Extension,
}

impl<'a> Record for ExtensionRecord<'a> {
    open spec fn record(self, wad: Wad) -> Wad {
        wad.text(""@).text(self.extension.name@).text(self.extension.class_name@).table(
            file_records(
                self.assets,
                self.extension.files@,
                self.extension.files@.len() as int,
            ),
        )
    }

    proof fn lemma_plain(self, wad: Wad) {
        broadcast use group_plain;

        lemma_plain_table(
            wad.text(""@).text(self.extension.name@).text(self.extension.class_name@),
            file_records(
                self.assets,
                self.extension.files@,
                self.extension.files@.len() as int,
            ),
        );
    }

    fn write(&self, writer: &mut WadWriter) {
        let extension = self.extension;
        writer.write_reference("");
        writer.write_reference(extension.name.as_str());
        writer.write_reference(extension.class_name.as_str());
        let mut files: Vec<FileRecord<'a>> = Vec::new();
        let mut index: usize = 0;
        assert(files@ =~= seq![]);
        while index < extension.files.len()
            invariant
                index <= extension.files@.len(),
                files@ == file_records(self.assets, extension.files@, index as int),
            decreases extension.files.len() - index,
        {
            let file = &extension.files[index];
            if file.enabled && file.used {
                files.push(FileRecord { assets: self.assets, file });
            }
            index += 1;
        }
        writer.write_offset_table(files.as_slice());
    }
}

/// The first extensions of a project that are enabled and used.
pub open spec fn extension_records<'a>(
    assets: &'a Assets,
    extensions: Seq<Extension>,
    count: int,
) -> Seq<ExtensionRecord<'a>>
    decreases count,
{
    if count <= 0 {
        seq![]
    } else {
        let before = extension_records(assets, extensions, count - 1);
        if extensions[count - 1].enabled && extensions[count - 1].used {
            before.push(ExtensionRecord { assets, extension: &extensions[count - 1] })
        } else {
            before
        }
    }
}

/// The bytes that the product numbers begin with.
pub open spec fn product_seed() -> Seq<u8> {
    seq![0, 129, 130, 131, 132, 133, 134, 135, 136, 137, 138, 139, 140, 141, 142, 143]
}

/// The exclusive or of two runs of bytes.
pub open spec fn mixed(first: Seq<u8>, second: Seq<u8>) -> Seq<u8> {
    Seq::new(16, |k: int| first[k] ^ second[k])
}

/// The file with the first product numbers, and what the next one is mixed
/// with.
pub struct Chain {
    pub wad: Wad,
    pub bytes: Seq<u8>,
}

/// The file with the first product numbers, each mixed with the one before it.
pub open spec fn with_products(wad: Wad, records: Seq<ExtensionRecord>, count: int) -> Chain
    decreases count,
{
    if count <= 0 {
        Chain { wad, bytes: product_seed() }
    } else {
        let before = with_products(wad, records, count - 1);
        match product_id(records[count - 1].extension.product_id@) {
            Some(product) => {
                let bytes = mixed(product, before.bytes);
                Chain { wad: before.wad.raw(bytes), bytes }
            },
            None => Chain { wad: before.wad.raw(product_seed()), bytes: before.bytes },
        }
    }
}

/// The file with the extensions.
pub open spec fn extension_chunk(wad: Wad, assets: Assets) -> Wad {
    let records = extension_records(
        &assets,
        assets.extensions@,
        assets.extensions@.len() as int,
    );
    with_products(
        wad.opened(seq![0x45, 0x58, 0x54, 0x4e]).table(records),
        records,
        records.len() as int,
    ).wad.closed(wad.bytes.len() as int)
}

fn mix(product: [u8; 16], chain: &[u8; 16]) -> (result: [u8; 16])
    ensures
        result@ == mixed(product@, chain@),
{
    let mut result = product;
    let mut index: usize = 0;
    while index < 16
        invariant
            index <= 16,
            forall|k: int| 0 <= k < index ==> result@[k] == product@[k] ^ chain@[k],
            forall|k: int| index <= k < 16 ==> result@[k] == product@[k],
        decreases 16 - index,
    {
        result[index] = product[index] ^ chain[index];
        index += 1;
    }
    assert(result@ =~= mixed(product@, chain@));
    result
}

/// Writes the extensions.
#[verifier::spinoff_prover]
pub fn write_extn(writer: &mut WadWriter, assets: &Assets)
    requires
        old(writer).wf(),
    ensures
        final(writer).wf(),
        final(writer)@ == extension_chunk(old(writer)@, *assets),
{
    let start = writer.open_chunk([0x45, 0x58, 0x54, 0x4e]);
    assert([0x45u8, 0x58u8, 0x54u8, 0x4eu8]@ =~= seq![0x45u8, 0x58u8, 0x54u8, 0x4eu8]);
    let mut records: Vec<ExtensionRecord> = Vec::new();
    let mut index: usize = 0;
    assert(records@ =~= seq![]);
    while index < assets.extensions.len()
        invariant
            index <= assets.extensions@.len(),
            records@ == extension_records(assets, assets.extensions@, index as int),
        decreases assets.extensions.len() - index,
    {
        let extension = &assets.extensions[index];
        if extension.enabled && extension.used {
            records.push(ExtensionRecord { assets, extension });
        }
        index += 1;
    }
    writer.write_offset_table(records.as_slice());
    let ghost listed = writer@;
    let seed: [u8; 16] = [
        0, 129, 130, 131, 132, 133, 134, 135, 136, 137, 138, 139, 140, 141, 142, 143,
    ];
    assert(seed@ =~= product_seed());
    let mut chain = seed;
    let mut position: usize = 0;
    while position < records.len()
        invariant
            position <= records@.len(),
            writer.wf(),
            seed@ == product_seed(),
            with_products(listed, records@, position as int) == (Chain {
                wad: writer@,
                bytes: chain@,
            }),
        decreases records.len() - position,
    {
        match decode_product_id(records[position].extension.product_id.as_str()) {
            Some(product) => {
                chain = mix(product, &chain);
                writer.write_all(&chain);
            },
            None => {
                writer.write_all(&seed);
            },
        }
        position += 1;
    }
    writer.close_chunk(start);
}

/// The file with the general information, the options, the languages and the
/// extensions.
pub open spec fn base_chunks(
    wad: Wad,
    project: ProjectManifest,
    assets: Assets,
    build: BuildOptions,
) -> Wad {
    extension_chunk(
        language_chunk(option_chunk(general_chunk(wad, project, assets, build), assets, build)),
        assets,
    )
}

/// Whether a result is a file, or what went wrong with it.
pub open spec fn is_file(result: Result<WadFile, WriteError>, wad: Wad) -> bool {
    match result {
        Ok(file) => wad.closed(0).fault is None && file.bytes@ == wad.closed(0).bytes
            && chunk_views(file.chunks@) == wad.closed(0).chunks,
        Err(error) => wad.closed(0).fault == Some(error@),
    }
}

/// Returns a data file with the general information, the options, the
/// languages and the extensions, and the texts that they refer to.
pub fn write_base_wad(project: &ProjectManifest, assets: &Assets, options: &BuildOptions) -> (result:
    Result<WadFile, WriteError>)
    ensures
        is_file(
            result,
            base_chunks(empty_wad(), *project, *assets, *options).with_texts(),
        ),
        result matches Ok(file) ==> ends_with_texts(file),
{
    let mut writer = WadWriter::new();
    write_gen8(&mut writer, project, assets, options);
    write_optn(&mut writer, assets, options);
    write_empty_lang(&mut writer);
    write_extn(&mut writer, assets);
    writer.write_strg();
    match writer.finish() {
        Ok(file) => {
            proof {
                lemma_plain_base(*project, *assets, *options);
                law_texts_are_the_last_chunk(
                    base_chunks(empty_wad(), *project, *assets, *options),
                    file,
                );
            }
            Ok(file)
        },
        Err(error) => Err(error),
    }
}

/// The message about generated files.
pub open spec fn artifact_fault_text(fault: ArtifactFault) -> Seq<char> {
    match fault {
        ArtifactFault::UnsafePath { path } => "unsafe generated file path "@ + path,
        ArtifactFault::ConflictingFiles { first, second } => "generated files "@ + first
            + " and "@ + second + " conflict"@,
    }
}

/// The files beside the data file: those of the project and of its sounds, each
/// once.
pub open spec fn build_files(
    project: ProjectManifest,
    assets: Assets,
    read: Seq<ReadFile>,
    audio: AudioData,
) -> Result<Seq<FileView>, WriteFault> {
    match project_files(
        assets,
        read,
        assets.options.config@,
        assets.target_mask,
        project.data_files@,
    ) {
        Err(fault) => Err(fault),
        Ok(files) => match audio.files(audio.groups@.len() as int) {
            Err(fault) => Err(fault),
            Ok(more) => match merged_files(files + more, (files + more).len() as int) {
                Ok(merged) => Ok(merged),
                Err(fault) => Err(invalid("build output: "@ + artifact_fault_text(fault))),
            },
        },
    }
}

fn collect_files(
    project: &ProjectManifest,
    assets: &Assets,
    read: &Vec<ReadFile>,
    audio: &AudioData,
) -> (result: Result<Vec<GeneratedFile>, WriteError>)
    ensures
        match result {
            Ok(files) => build_files(*project, *assets, read@, *audio) == Ok::<
                Seq<FileView>,
                WriteFault,
            >(file_views(files@)),
            Err(error) => build_files(*project, *assets, read@, *audio) == Err::<
                Seq<FileView>,
                WriteFault,
            >(error@),
        },
{
    let mut files = match collect_project_files(
        project,
        assets,
        read,
        assets.options.config.as_str(),
        assets.target_mask,
    ) {
        Ok(files) => files,
        Err(error) => {
            return Err(error);
        },
    };
    let mut more = match audio.external_files() {
        Ok(files) => files,
        Err(error) => {
            return Err(error);
        },
    };
    let ghost all = file_views(files@) + file_views(more@);
    files.append(&mut more);
    assert(file_views(files@) =~= all);
    match merge_generated_files(&files) {
        Ok(merged) => Ok(merged),
        Err(error) => {
            let mut message = "build output: ".to_owned();
            let text = error.text();
            message.append(text.as_str());
            Err(WriteError::InvalidVmData { message })
        },
    }
}

/// The classes of all functions that a build is told of or that its code uses.
pub open spec fn build_classes(
    options: BuildOptions,
    compiled: CompiledProject,
    builtins: Builtins,
) -> i64 {
    options.function_classifications | ((builtins.baseline as i64)
        | compiled.function_classifications | (code_classes(
        builtins.function_classes@,
        compiled.codes@,
        compiled.codes@.len() as int,
    ) as i64))
}

/// The data file of a project, with the waveforms of the first group, before the
/// texts that it refers to are added.
pub open spec fn textless_wad(
    project: ProjectManifest,
    assets: Assets,
    options: BuildOptions,
    compiled: CompiledProject,
    builtins: Builtins,
    textures: TextureData,
    shaders: Seq<ShaderData>,
    audio: AudioData,
    prepared: Prepared,
) -> Wad {
    let effective = BuildOptions {
        function_classifications: build_classes(options, compiled, builtins),
        ..options
    };
    let listed = with_all_names(empty_wad(), compiled.codes@, compiled.codes@.len() as int);
    let general = general_chunk(listed, project, assets, effective);
    let base = extension_chunk(
        language_chunk(option_chunk(general, assets, options)),
        assets,
    );
    let resources = resource_chunks(
        base,
        assets,
        &compiled.codes,
        shaders,
        audio.sounds@,
        prepared,
    );
    let code = vm_chunks(texture_chunks(resources, textures), builtins, compiled.codes@);
    audio_chunk(code, blob_bytes(audio.groups@[0]@))
}

/// The data file of a project: the chunk of the texts is the last one.
pub open spec fn project_wad(
    project: ProjectManifest,
    assets: Assets,
    options: BuildOptions,
    compiled: CompiledProject,
    builtins: Builtins,
    textures: TextureData,
    shaders: Seq<ShaderData>,
    audio: AudioData,
    prepared: Prepared,
) -> Wad {
    textless_wad(
        project,
        assets,
        options,
        compiled,
        builtins,
        textures,
        shaders,
        audio,
        prepared,
    ).with_texts()
}

/// A data file and the files beside it.
#[derive(Debug)]
pub struct BuildOutput {
    pub wad: WadFile,
    pub external_files: Vec<GeneratedFile>,
}

/// Whether a result is the data file and the files of a project, or what went
/// wrong.
pub open spec fn is_build(
    result: Result<BuildOutput, WriteError>,
    files: Result<Seq<FileView>, WriteFault>,
    prepared: Result<Prepared, WriteFault>,
    wad: spec_fn(Prepared) -> Wad,
) -> bool {
    match (files, prepared) {
        (Err(fault), _) => result matches Err(error) && error@ == fault,
        (_, Err(fault)) => result matches Err(error) && error@ == fault,
        (Ok(files), Ok(prepared)) => match result {
            Ok(output) => is_file(Ok(output.wad), wad(prepared)) && file_views(
                output.external_files@,
            ) == files,
            Err(error) => is_file(Err(error), wad(prepared)),
        },
    }
}

/// Returns the data file of a project and the files beside it.
#[verifier::spinoff_prover]
pub fn write_vm_wad_with_artifacts<F: Fn(ShapePoint) -> bool>(
    project: &ProjectManifest,
    assets: &Assets,
    options: &BuildOptions,
    compiled: &CompiledProject,
    builtins: &Builtins,
    textures: &TextureData,
    shaders: &Vec<ShaderData>,
    audio: &AudioData,
    read: &Vec<ReadFile>,
    within: &F,
) -> (result: Result<BuildOutput, WriteError>)
    requires
        audio.sounds@.len() == assets.sounds@.len(),
        are_numbered(assets.sounds@),
        audio.groups@.len() > 0,
        is_geometry(*within),
    ensures
        is_build(
            result,
            build_files(*project, *assets, read@, *audio),
            preparation(*assets, compiled.codes@, within_by(*within)),
            |prepared: Prepared|
                project_wad(
                    *project,
                    *assets,
                    *options,
                    *compiled,
                    *builtins,
                    *textures,
                    shaders@,
                    *audio,
                    prepared,
                ),
        ),
        result matches Ok(output) ==> ends_with_texts(output.wad),
{
    let external_files = match collect_files(project, assets, read, audio) {
        Ok(files) => files,
        Err(error) => {
            return Err(error);
        },
    };
    let effective = BuildOptions {
        debug: options.debug,
        timestamp: options.timestamp,
        major_version: options.major_version,
        minor_version: options.minor_version,
        release_version: options.release_version,
        build_version: options.build_version,
        license_crc: options.license_crc,
        license_md5: options.license_md5,
        function_classifications: options.function_classifications | function_classifications(
            compiled,
            builtins,
        ),
        steam_app_id: options.steam_app_id,
        debugger_port: options.debugger_port,
        steam_project: options.steam_project,
        ecma_script: options.ecma_script,
        used_constants: Vec::new(),
    };
    let mut writer = WadWriter::new();
    intern_vm_strings(&mut writer, compiled);
    write_gen8(&mut writer, project, assets, &effective);
    write_optn(&mut writer, assets, options);
    write_empty_lang(&mut writer);
    write_extn(&mut writer, assets);
    if let Err(error) = add_resource_chunks(
        &mut writer,
        assets,
        compiled,
        shaders,
        audio,
        within,
    ) {
        return Err(error);
    }
    add_texture_chunks(&mut writer, textures);
    add_vm_chunks(&mut writer, builtins, compiled);
    audio.add_chunk(&mut writer);
    writer.write_strg();
    match writer.finish() {
        Ok(wad) => {
            proof {
                let prepared = preparation(*assets, compiled.codes@, within_by(*within))->Ok_0;
                lemma_plain_project(
                    *project,
                    *assets,
                    *options,
                    *compiled,
                    *builtins,
                    *textures,
                    shaders@,
                    *audio,
                    prepared,
                );
                law_texts_are_the_last_chunk(
                    textless_wad(
                        *project,
                        *assets,
                        *options,
                        *compiled,
                        *builtins,
                        *textures,
                        shaders@,
                        *audio,
                        prepared,
                    ),
                    wad,
                );
            }
            Ok(BuildOutput { wad, external_files })
        },
        Err(error) => Err(error),
    }
}

/// Whether a result is the data file of a project, or what went wrong with it or
/// with the files beside it.
pub open spec fn is_data_file(
    result: Result<WadFile, WriteError>,
    files: Result<Seq<FileView>, WriteFault>,
    prepared: Result<Prepared, WriteFault>,
    wad: spec_fn(Prepared) -> Wad,
) -> bool {
    match (files, prepared) {
        (Err(fault), _) => result matches Err(error) && error@ == fault,
        (_, Err(fault)) => result matches Err(error) && error@ == fault,
        (Ok(_), Ok(prepared)) => is_file(result, wad(prepared)),
    }
}

/// Returns the data file of a project, without the files beside it.
pub fn write_vm_wad<F: Fn(ShapePoint) -> bool>(
    project: &ProjectManifest,
    assets: &Assets,
    options: &BuildOptions,
    compiled: &CompiledProject,
    builtins: &Builtins,
    textures: &TextureData,
    shaders: &Vec<ShaderData>,
    audio: &AudioData,
    read: &Vec<ReadFile>,
    within: &F,
) -> (result: Result<WadFile, WriteError>)
    requires
        audio.sounds@.len() == assets.sounds@.len(),
        are_numbered(assets.sounds@),
        audio.groups@.len() > 0,
        is_geometry(*within),
    ensures
        is_data_file(
            result,
            build_files(*project, *assets, read@, *audio),
            preparation(*assets, compiled.codes@, within_by(*within)),
            |prepared: Prepared|
                project_wad(
                    *project,
                    *assets,
                    *options,
                    *compiled,
                    *builtins,
                    *textures,
                    shaders@,
                    *audio,
                    prepared,
                ),
        ),
        result matches Ok(file) ==> ends_with_texts(file),
{
    match write_vm_wad_with_artifacts(
        project,
        assets,
        options,
        compiled,
        builtins,
        textures,
        shaders,
        audio,
        read,
        within,
    ) {
        Ok(output) => Ok(output.wad),
        Err(error) => Err(error),
    }
}

} // verus!
