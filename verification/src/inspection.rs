//! What a project consists of, and which of its files are missing.

use vstd::prelude::*;

use crate::assets::Assets;
use crate::project::{DataFile, ProjectManifest, ResourceRef};
use crate::resources::{
    Background, BinaryFile, Extension, ExtensionFile, Font, GameObject, ObjectEvent, Room, Sound,
    Sprite, SpriteFrame,
};
use crate::text::{decimal, digits, same_text, spelled};

verus! {

/// A number of things, as far as it can be shown.
pub open spec fn shown(total: nat) -> int {
    if total > u64::MAX {
        u64::MAX as int
    } else {
        total as int
    }
}

fn add_up(count: u64, more: usize) -> (sum: u64)
    ensures
        sum == shown(count as nat + more as nat),
{
    if u64::MAX - count < more as u64 {
        u64::MAX
    } else {
        count + more as u64
    }
}

/// The number of bytes in the first files.
pub open spec fn bytes_in(files: Seq<BinaryFile>, count: int) -> nat
    decreases count,
{
    if count <= 0 {
        0
    } else {
        bytes_in(files, count - 1) + files[count - 1].data@.len()
    }
}

/// The number of functions in the first files of an extension.
pub open spec fn functions_of(files: Seq<ExtensionFile>, start: nat, count: int) -> nat
    decreases count,
{
    if count <= 0 {
        start
    } else {
        functions_of(files, start, count - 1) + files[count - 1].functions@.len()
    }
}

/// The number of constants in the first files of an extension.
pub open spec fn constants_of(files: Seq<ExtensionFile>, start: nat, count: int) -> nat
    decreases count,
{
    if count <= 0 {
        start
    } else {
        constants_of(files, start, count - 1) + files[count - 1].constants@.len()
    }
}

/// What the first extensions consist of: files, functions and constants.
pub struct ExtensionTotals {
    pub files: nat,
    pub functions: nat,
    pub constants: nat,
}

/// What the first extensions consist of.
pub open spec fn extension_totals(extensions: Seq<Extension>, count: int) -> ExtensionTotals
    decreases count,
{
    if count <= 0 {
        ExtensionTotals { files: 0, functions: 0, constants: 0 }
    } else {
        let before = extension_totals(extensions, count - 1);
        let files = extensions[count - 1].files@;
        ExtensionTotals {
            files: before.files + files.len(),
            functions: functions_of(files, before.functions, files.len() as int),
            constants: constants_of(files, before.constants, files.len() as int),
        }
    }
}

/// The number of frames of the first sprites.
pub open spec fn frames_in(sprites: Seq<Sprite>, count: int) -> nat
    decreases count,
{
    if count <= 0 {
        0
    } else {
        frames_in(sprites, count - 1) + sprites[count - 1].frames@.len()
    }
}

/// The number of actions of the first events.
pub open spec fn actions_of(events: Seq<ObjectEvent>, start: nat, count: int) -> nat
    decreases count,
{
    if count <= 0 {
        start
    } else {
        actions_of(events, start, count - 1) + events[count - 1].actions@.len()
    }
}

/// The numbers of events and actions.
pub struct EventTotals {
    pub events: nat,
    pub actions: nat,
}

/// The numbers of events and actions of the first types of events.
pub open spec fn group_totals(
    groups: Seq<Vec<ObjectEvent>>,
    start: EventTotals,
    count: int,
) -> EventTotals
    decreases count,
{
    if count <= 0 {
        start
    } else {
        let before = group_totals(groups, start, count - 1);
        let events = groups[count - 1]@;
        EventTotals {
            events: before.events + events.len(),
            actions: actions_of(events, before.actions, events.len() as int),
        }
    }
}

/// The numbers of events and actions of the first objects.
pub open spec fn object_totals(objects: Seq<GameObject>, count: int) -> EventTotals
    decreases count,
{
    if count <= 0 {
        EventTotals { events: 0, actions: 0 }
    } else {
        let groups = objects[count - 1].events@;
        group_totals(groups, object_totals(objects, count - 1), groups.len() as int)
    }
}

/// The number of instances in the first rooms.
pub open spec fn instances_in(rooms: Seq<Room>, count: int) -> nat
    decreases count,
{
    if count <= 0 {
        0
    } else {
        instances_in(rooms, count - 1) + rooms[count - 1].instances@.len()
    }
}

/// The number of tiles in the first rooms.
pub open spec fn tiles_in(rooms: Seq<Room>, count: int) -> nat
    decreases count,
{
    if count <= 0 {
        0
    } else {
        tiles_in(rooms, count - 1) + rooms[count - 1].tiles@.len()
    }
}

/// How much the assets of a project hold.
#[derive(Debug, Clone, Copy, PartialEq, Eq, Structural)]
pub struct AssetCounts {
    pub binary_bytes: u64,
    pub extension_files: u64,
    pub extension_functions: u64,
    pub extension_constants: u64,
    pub sprite_frames: u64,
    pub object_events: u64,
    pub object_actions: u64,
    pub room_instances: u64,
    pub room_tiles: u64,
}

fn count_extensions(extensions: &Vec<Extension>) -> (counts: (u64, u64, u64))
    ensures
        ({
            let totals = extension_totals(extensions@, extensions@.len() as int);
            &&& counts.0 == shown(totals.files)
            &&& counts.1 == shown(totals.functions)
            &&& counts.2 == shown(totals.constants)
        }),
{
    let mut files: u64 = 0;
    let mut functions: u64 = 0;
    let mut constants: u64 = 0;
    let mut index: usize = 0;
    while index < extensions.len()
        invariant
            index <= extensions@.len(),
            files == shown(extension_totals(extensions@, index as int).files),
            functions == shown(extension_totals(extensions@, index as int).functions),
            constants == shown(extension_totals(extensions@, index as int).constants),
        decreases extensions.len() - index,
    {
        let list = &extensions[index].files;
        let ghost before = extension_totals(extensions@, index as int);
        files = add_up(files, list.len());
        let mut file: usize = 0;
        while file < list.len()
            invariant
                file <= list@.len(),
                functions == shown(functions_of(list@, before.functions, file as int)),
                constants == shown(constants_of(list@, before.constants, file as int)),
            decreases list.len() - file,
        {
            functions = add_up(functions, list[file].functions.len());
            constants = add_up(constants, list[file].constants.len());
            file += 1;
        }
        index += 1;
    }
    (files, functions, constants)
}

fn count_events(objects: &Vec<GameObject>) -> (counts: (u64, u64))
    ensures
        ({
            let totals = object_totals(objects@, objects@.len() as int);
            &&& counts.0 == shown(totals.events)
            &&& counts.1 == shown(totals.actions)
        }),
{
    let mut events: u64 = 0;
    let mut actions: u64 = 0;
    let mut index: usize = 0;
    while index < objects.len()
        invariant
            index <= objects@.len(),
            events == shown(object_totals(objects@, index as int).events),
            actions == shown(object_totals(objects@, index as int).actions),
        decreases objects.len() - index,
    {
        let groups = &objects[index].events;
        let ghost before = object_totals(objects@, index as int);
        let mut group: usize = 0;
        while group < groups.len()
            invariant
                group <= groups@.len(),
                events == shown(group_totals(groups@, before, group as int).events),
                actions == shown(group_totals(groups@, before, group as int).actions),
            decreases groups.len() - group,
        {
            let list = &groups[group];
            let ghost earlier = group_totals(groups@, before, group as int);
            events = add_up(events, list.len());
            let mut event: usize = 0;
            while event < list.len()
                invariant
                    event <= list@.len(),
                    actions == shown(actions_of(list@, earlier.actions, event as int)),
                decreases list.len() - event,
            {
                actions = add_up(actions, list[event].actions.len());
                event += 1;
            }
            group += 1;
        }
        index += 1;
    }
    (events, actions)
}

/// Returns how much the assets of a project hold.
pub fn count_assets(assets: &Assets) -> (counts: AssetCounts)
    ensures
        counts.binary_bytes == shown(
            bytes_in(assets.binary_files@, assets.binary_files@.len() as int),
        ),
        ({
            let totals = extension_totals(assets.extensions@, assets.extensions@.len() as int);
            &&& counts.extension_files == shown(totals.files)
            &&& counts.extension_functions == shown(totals.functions)
            &&& counts.extension_constants == shown(totals.constants)
        }),
        counts.sprite_frames == shown(frames_in(assets.sprites@, assets.sprites@.len() as int)),
        ({
            let totals = object_totals(assets.objects@, assets.objects@.len() as int);
            &&& counts.object_events == shown(totals.events)
            &&& counts.object_actions == shown(totals.actions)
        }),
        counts.room_instances == shown(instances_in(assets.rooms@, assets.rooms@.len() as int)),
        counts.room_tiles == shown(tiles_in(assets.rooms@, assets.rooms@.len() as int)),
{
    let mut binary_bytes: u64 = 0;
    let mut file: usize = 0;
    while file < assets.binary_files.len()
        invariant
            file <= assets.binary_files@.len(),
            binary_bytes == shown(bytes_in(assets.binary_files@, file as int)),
        decreases assets.binary_files.len() - file,
    {
        binary_bytes = add_up(binary_bytes, assets.binary_files[file].data.len());
        file += 1;
    }
    let mut sprite_frames: u64 = 0;
    let mut sprite: usize = 0;
    while sprite < assets.sprites.len()
        invariant
            sprite <= assets.sprites@.len(),
            sprite_frames == shown(frames_in(assets.sprites@, sprite as int)),
        decreases assets.sprites.len() - sprite,
    {
        sprite_frames = add_up(sprite_frames, assets.sprites[sprite].frames.len());
        sprite += 1;
    }
    let mut room_instances: u64 = 0;
    let mut room_tiles: u64 = 0;
    let mut room: usize = 0;
    while room < assets.rooms.len()
        invariant
            room <= assets.rooms@.len(),
            room_instances == shown(instances_in(assets.rooms@, room as int)),
            room_tiles == shown(tiles_in(assets.rooms@, room as int)),
        decreases assets.rooms.len() - room,
    {
        room_instances = add_up(room_instances, assets.rooms[room].instances.len());
        room_tiles = add_up(room_tiles, assets.rooms[room].tiles.len());
        room += 1;
    }
    let extensions = count_extensions(&assets.extensions);
    let events = count_events(&assets.objects);
    AssetCounts {
        binary_bytes,
        extension_files: extensions.0,
        extension_functions: extensions.1,
        extension_constants: extensions.2,
        sprite_frames,
        object_events: events.0,
        object_actions: events.1,
        room_instances,
        room_tiles,
    }
}

/// A file that is missing, with what it is for.
#[derive(Debug, Clone, PartialEq, Eq)]
pub struct MissingFile {
    pub label: String,
    pub path: String,
}

/// A [`MissingFile`] as sequences of characters.
pub struct MissingView {
    pub label: Seq<char>,
    pub path: Seq<char>,
}

impl View for MissingFile {
    type V = MissingView;

    open spec fn view(&self) -> MissingView {
        MissingView { label: self.label@, path: self.path@ }
    }
}

/// What a list of missing files stands for.
pub open spec fn missing_views(files: Seq<MissingFile>) -> Seq<MissingView> {
    files.map_values(|file: MissingFile| file@)
}

/// A list with a file if it is not among those that are there.
pub open spec fn with_missing(
    list: Seq<MissingView>,
    label: Seq<char>,
    path: Seq<char>,
    present: Seq<Seq<char>>,
) -> Seq<MissingView> {
    if present.contains(path) {
        list
    } else {
        list.push(MissingView { label, path })
    }
}

fn is_there(present: &Vec<String>, path: &str) -> (result: bool)
    ensures
        result == spelled(present@).contains(path@),
{
    let ghost texts = spelled(present@);
    let mut index: usize = 0;
    while index < present.len()
        invariant
            index <= present@.len(),
            texts == spelled(present@),
            forall|k: int| 0 <= k < index ==> (#[trigger] texts[k]) != path@,
        decreases present.len() - index,
    {
        assert(texts[index as int] == present@[index as int]@);
        if same_text(present[index].as_str(), path) {
            assert(texts.contains(path@));
            return true;
        }
        index += 1;
    }
    assert(!texts.contains(path@));
    false
}

fn check_file(list: &mut Vec<MissingFile>, label: String, path: &str, present: &Vec<String>)
    ensures
        missing_views(final(list)@) == with_missing(
            missing_views(old(list)@),
            label@,
            path@,
            spelled(present@),
        ),
{
    let ghost before = missing_views(list@);
    if !is_there(present, path) {
        let file = MissingFile { label, path: path.to_owned() };
        list.push(file);
        assert(missing_views(list@) =~= before.push(file@));
    }
}

/// The missing ones of the first resources.
pub open spec fn missing_resources(
    resources: Seq<ResourceRef>,
    present: Seq<Seq<char>>,
    count: int,
) -> Seq<MissingView>
    decreases count,
{
    if count <= 0 {
        seq![]
    } else {
        let resource = resources[count - 1];
        with_missing(
            missing_resources(resources, present, count - 1),
            resource.kind.label() + " "@ + resource.name@,
            resource.source@,
            present,
        )
    }
}

/// A list with the missing ones of the first included files.
pub open spec fn missing_data(
    list: Seq<MissingView>,
    files: Seq<DataFile>,
    present: Seq<Seq<char>>,
    count: int,
) -> Seq<MissingView>
    decreases count,
{
    if count <= 0 {
        list
    } else {
        let before = missing_data(list, files, present, count - 1);
        let file = files[count - 1];
        if file.exists {
            with_missing(before, "datafile "@ + file.name@, file.source@, present)
        } else {
            before
        }
    }
}

/// A list with the missing ones of the first files of an extension.
pub open spec fn missing_in_extension(
    list: Seq<MissingView>,
    name: Seq<char>,
    files: Seq<ExtensionFile>,
    present: Seq<Seq<char>>,
    count: int,
) -> Seq<MissingView>
    decreases count,
{
    if count <= 0 {
        list
    } else {
        let file = files[count - 1];
        with_missing(
            missing_in_extension(list, name, files, present, count - 1),
            "extension file "@ + name + "/"@ + file.filename@,
            file.source@,
            present,
        )
    }
}

/// A list with the missing files of the first extensions.
pub open spec fn missing_extensions(
    list: Seq<MissingView>,
    extensions: Seq<Extension>,
    present: Seq<Seq<char>>,
    count: int,
) -> Seq<MissingView>
    decreases count,
{
    if count <= 0 {
        list
    } else {
        let extension = extensions[count - 1];
        missing_in_extension(
            missing_extensions(list, extensions, present, count - 1),
            extension.name@,
            extension.files@,
            present,
            extension.files@.len() as int,
        )
    }
}

/// A list with the missing files of the first sounds.
pub open spec fn missing_sounds(
    list: Seq<MissingView>,
    sounds: Seq<Sound>,
    present: Seq<Seq<char>>,
    count: int,
) -> Seq<MissingView>
    decreases count,
{
    if count <= 0 {
        list
    } else {
        with_missing(
            missing_sounds(list, sounds, present, count - 1),
            "sound data "@ + sounds[count - 1].name@,
            sounds[count - 1].audio_source@,
            present,
        )
    }
}

/// A list with the missing ones of the first frames of a sprite.
pub open spec fn missing_frames(
    list: Seq<MissingView>,
    name: Seq<char>,
    frames: Seq<SpriteFrame>,
    present: Seq<Seq<char>>,
    count: int,
) -> Seq<MissingView>
    decreases count,
{
    if count <= 0 {
        list
    } else {
        with_missing(
            missing_frames(list, name, frames, present, count - 1),
            "sprite frame "@ + name + "["@ + digits(frames[count - 1].index as nat, 10) + "]"@,
            frames[count - 1].source@,
            present,
        )
    }
}

/// A list with a file that a sprite may have, if it is missing.
pub open spec fn with_optional_missing(
    list: Seq<MissingView>,
    label: Seq<char>,
    path: Option<String>,
    present: Seq<Seq<char>>,
) -> Seq<MissingView> {
    match path {
        Some(path) => with_missing(list, label, path@, present),
        None => list,
    }
}

/// A list with the missing files of the first sprites.
pub open spec fn missing_sprites(
    list: Seq<MissingView>,
    sprites: Seq<Sprite>,
    present: Seq<Seq<char>>,
    count: int,
) -> Seq<MissingView>
    decreases count,
{
    if count <= 0 {
        list
    } else {
        let sprite = sprites[count - 1];
        let framed = missing_frames(
            missing_sprites(list, sprites, present, count - 1),
            sprite.name@,
            sprite.frames@,
            present,
            sprite.frames@.len() as int,
        );
        with_optional_missing(
            with_optional_missing(
                framed,
                "sprite SWF "@ + sprite.name@,
                sprite.swf_source,
                present,
            ),
            "sprite Spine "@ + sprite.name@,
            sprite.spine_source,
            present,
        )
    }
}

/// A list with the missing images of the first backgrounds.
pub open spec fn missing_backgrounds(
    list: Seq<MissingView>,
    backgrounds: Seq<Background>,
    present: Seq<Seq<char>>,
    count: int,
) -> Seq<MissingView>
    decreases count,
{
    if count <= 0 {
        list
    } else {
        with_missing(
            missing_backgrounds(list, backgrounds, present, count - 1),
            "background data "@ + backgrounds[count - 1].name@,
            backgrounds[count - 1].image_source@,
            present,
        )
    }
}

/// A list with the missing images of the first fonts.
pub open spec fn missing_fonts(
    list: Seq<MissingView>,
    fonts: Seq<Font>,
    present: Seq<Seq<char>>,
    count: int,
) -> Seq<MissingView>
    decreases count,
{
    if count <= 0 {
        list
    } else {
        with_missing(
            missing_fonts(list, fonts, present, count - 1),
            "font bitmap "@ + fonts[count - 1].name@,
            fonts[count - 1].image_source@,
            present,
        )
    }
}

/// The files of a project that are not among those that are there.
pub open spec fn all_missing(
    project: ProjectManifest,
    assets: Assets,
    present: Seq<Seq<char>>,
) -> Seq<MissingView> {
    let resources = missing_resources(
        project.resources@,
        present,
        project.resources@.len() as int,
    );
    let data = missing_data(
        resources,
        project.data_files@,
        present,
        project.data_files@.len() as int,
    );
    let extensions = missing_extensions(
        data,
        assets.extensions@,
        present,
        assets.extensions@.len() as int,
    );
    let sounds = missing_sounds(
        extensions,
        assets.sounds@,
        present,
        assets.sounds@.len() as int,
    );
    let sprites = missing_sprites(
        sounds,
        assets.sprites@,
        present,
        assets.sprites@.len() as int,
    );
    let backgrounds = missing_backgrounds(
        sprites,
        assets.backgrounds@,
        present,
        assets.backgrounds@.len() as int,
    );
    missing_fonts(backgrounds, assets.fonts@, present, assets.fonts@.len() as int)
}

fn label(kind: &str, name: &str) -> (text: String)
    ensures
        text@ == kind@ + name@,
{
    let mut text = kind.to_owned();
    text.append(name);
    text
}

fn check_manifest(project: &ProjectManifest, present: &Vec<String>) -> (list: Vec<MissingFile>)
    ensures
        missing_views(list@) == missing_data(
            missing_resources(
                project.resources@,
                spelled(present@),
                project.resources@.len() as int,
            ),
            project.data_files@,
            spelled(present@),
            project.data_files@.len() as int,
        ),
{
    let ghost there = spelled(present@);
    let mut list: Vec<MissingFile> = Vec::new();
    assert(missing_views(list@) =~= seq![]);
    let mut index: usize = 0;
    while index < project.resources.len()
        invariant
            index <= project.resources@.len(),
            there == spelled(present@),
            missing_views(list@) == missing_resources(project.resources@, there, index as int),
        decreases project.resources.len() - index,
    {
        let resource = &project.resources[index];
        let mut text = resource.kind.text().to_owned();
        text.append(" ");
        text.append(resource.name.as_str());
        check_file(&mut list, text, resource.source.as_str(), present);
        index += 1;
    }
    let ghost resources = missing_views(list@);
    let mut data: usize = 0;
    while data < project.data_files.len()
        invariant
            data <= project.data_files@.len(),
            there == spelled(present@),
            missing_views(list@) == missing_data(
                resources,
                project.data_files@,
                there,
                data as int,
            ),
        decreases project.data_files.len() - data,
    {
        let file = &project.data_files[data];
        if file.exists {
            let text = label("datafile ", file.name.as_str());
            check_file(&mut list, text, file.source.as_str(), present);
        }
        data += 1;
    }
    list
}

fn check_extensions(list: &mut Vec<MissingFile>, extensions: &Vec<Extension>, present: &Vec<String>)
    ensures
        missing_views(final(list)@) == missing_extensions(
            missing_views(old(list)@),
            extensions@,
            spelled(present@),
            extensions@.len() as int,
        ),
{
    let ghost there = spelled(present@);
    let ghost start = missing_views(list@);
    let mut index: usize = 0;
    while index < extensions.len()
        invariant
            index <= extensions@.len(),
            there == spelled(present@),
            missing_views(list@) == missing_extensions(start, extensions@, there, index as int),
        decreases extensions.len() - index,
    {
        let extension = &extensions[index];
        let ghost before = missing_views(list@);
        let mut file: usize = 0;
        while file < extension.files.len()
            invariant
                file <= extension.files@.len(),
                there == spelled(present@),
                missing_views(list@) == missing_in_extension(
                    before,
                    extension.name@,
                    extension.files@,
                    there,
                    file as int,
                ),
            decreases extension.files.len() - file,
        {
            let one = &extension.files[file];
            let mut text = label("extension file ", extension.name.as_str());
            text.append("/");
            text.append(one.filename.as_str());
            check_file(list, text, one.source.as_str(), present);
            file += 1;
        }
        index += 1;
    }
}

fn check_sprites(list: &mut Vec<MissingFile>, sprites: &Vec<Sprite>, present: &Vec<String>)
    ensures
        missing_views(final(list)@) == missing_sprites(
            missing_views(old(list)@),
            sprites@,
            spelled(present@),
            sprites@.len() as int,
        ),
{
    let ghost there = spelled(present@);
    let ghost start = missing_views(list@);
    let mut index: usize = 0;
    while index < sprites.len()
        invariant
            index <= sprites@.len(),
            there == spelled(present@),
            missing_views(list@) == missing_sprites(start, sprites@, there, index as int),
        decreases sprites.len() - index,
    {
        let sprite = &sprites[index];
        let ghost before = missing_views(list@);
        let mut frame: usize = 0;
        while frame < sprite.frames.len()
            invariant
                frame <= sprite.frames@.len(),
                there == spelled(present@),
                missing_views(list@) == missing_frames(
                    before,
                    sprite.name@,
                    sprite.frames@,
                    there,
                    frame as int,
                ),
            decreases sprite.frames.len() - frame,
        {
            let mut text = label("sprite frame ", sprite.name.as_str());
            text.append("[");
            let number = decimal(sprite.frames[frame].index as u64);
            text.append(number.as_str());
            text.append("]");
            check_file(list, text, sprite.frames[frame].source.as_str(), present);
            frame += 1;
        }
        if let Some(source) = &sprite.swf_source {
            let text = label("sprite SWF ", sprite.name.as_str());
            check_file(list, text, source.as_str(), present);
        }
        if let Some(source) = &sprite.spine_source {
            let text = label("sprite Spine ", sprite.name.as_str());
            check_file(list, text, source.as_str(), present);
        }
        index += 1;
    }
}

/// Returns the files of a project that are not among those that are there.
pub fn missing_files(project: &ProjectManifest, assets: &Assets, present: &Vec<String>) -> (list: Vec<
    MissingFile,
>)
    ensures
        missing_views(list@) == all_missing(*project, *assets, spelled(present@)),
{
    let ghost there = spelled(present@);
    let mut list = check_manifest(project, present);
    check_extensions(&mut list, &assets.extensions, present);
    let ghost extensions = missing_views(list@);
    let mut sound: usize = 0;
    while sound < assets.sounds.len()
        invariant
            sound <= assets.sounds@.len(),
            there == spelled(present@),
            missing_views(list@) == missing_sounds(
                extensions,
                assets.sounds@,
                there,
                sound as int,
            ),
        decreases assets.sounds.len() - sound,
    {
        let one = &assets.sounds[sound];
        let text = label("sound data ", one.name.as_str());
        check_file(&mut list, text, one.audio_source.as_str(), present);
        sound += 1;
    }
    check_sprites(&mut list, &assets.sprites, present);
    let ghost sprites = missing_views(list@);
    let mut background: usize = 0;
    while background < assets.backgrounds.len()
        invariant
            background <= assets.backgrounds@.len(),
            there == spelled(present@),
            missing_views(list@) == missing_backgrounds(
                sprites,
                assets.backgrounds@,
                there,
                background as int,
            ),
        decreases assets.backgrounds.len() - background,
    {
        let one = &assets.backgrounds[background];
        let text = label("background data ", one.name.as_str());
        check_file(&mut list, text, one.image_source.as_str(), present);
        background += 1;
    }
    let ghost backgrounds = missing_views(list@);
    let mut font: usize = 0;
    while font < assets.fonts.len()
        invariant
            font <= assets.fonts@.len(),
            there == spelled(present@),
            missing_views(list@) == missing_fonts(
                backgrounds,
                assets.fonts@,
                there,
                font as int,
            ),
        decreases assets.fonts.len() - font,
    {
        let one = &assets.fonts[font];
        let text = label("font bitmap ", one.name.as_str());
        check_file(&mut list, text, one.image_source.as_str(), present);
        font += 1;
    }
    list
}

/// Returns the message about missing files, if there are any.
pub fn missing_message(count: usize) -> (message: Option<String>)
    ensures
        match message {
            Some(message) => count > 0 && message@ == "project references "@ + digits(
                count as nat,
                10,
            ) + " missing files"@,
            None => count == 0,
        },
{
    if count == 0 {
        return None;
    }
    let number = decimal(count as u64);
    let mut message = label("project references ", number.as_str());
    message.append(" missing files");
    Some(message)
}

} // verus!
