//! Loading the assets of a project from what its files hold, and finding them by
//! their names.

use vstd::prelude::*;

use crate::assets::{
    decode_text, file_text, part_views, parts_of, refers_to, script_parts, AssetError, AssetFault,
    Assets, PartView, ScriptPart, Shader, ShaderType,
};
use crate::config::{value_from, Config};
use crate::digest::{md5, md5_digest};
use crate::extensions::{
    all_places, are_marked, finalize_extensions, functions_before, id_after, is_finalized,
    mark_used_extensions, mentioned, used_places,
};
use crate::package::{read_from, read_source, ContentsView, FileContents, ReadFile};
use crate::path::{is_same_path, join_path, path_within, same_path};
use crate::project::{
    borrowed_views, mask_from, of_kind, read_truth, resource_views, truth_of, DataFile,
    ProjectManifest, ResourceKind, ResourceRef, ResourceView,
};
use crate::references::{
    are_resolved_objects, are_resolved_rooms, are_resolved_timelines, find_named, index_of,
    instances_before, is_index, is_shift, make_index, moved_by, named_from, references_fault,
    resolve_object_references, resolve_room_references, rooms_fault, tiles_before, NameIndex,
    Named,
};
use crate::resources::{
    Background, BinaryFile, Extension, ExtensionConstant, ExtensionFile, Font, GameObject,
    GamePath, Room, RoomInstance, Script, Sound, Sprite, SpriteFrame, Timeline,
    EXTENSION_FUNCTION_ID_START, ROOM_INSTANCE_ID_START, ROOM_TILE_ID_START,
};
use crate::settings::CompileSettings;
use crate::text::{same_text, spelled};

verus! {

impl Assets {
    /// Returns the sound with a name.
    pub fn sound(&self, name: &str) -> (found: Option<&Sound>)
        ensures
            refers_to(found, named_from(self.sounds@, name@, 0)),
    {
        find_named(&self.sounds, name)
    }

    /// Returns the extension with a name.
    pub fn extension(&self, name: &str) -> (found: Option<&Extension>)
        ensures
            refers_to(found, named_from(self.extensions@, name@, 0)),
    {
        find_named(&self.extensions, name)
    }

    /// Returns the sprite with a name.
    pub fn sprite(&self, name: &str) -> (found: Option<&Sprite>)
        ensures
            refers_to(found, named_from(self.sprites@, name@, 0)),
    {
        find_named(&self.sprites, name)
    }

    /// Returns the background with a name.
    pub fn background(&self, name: &str) -> (found: Option<&Background>)
        ensures
            refers_to(found, named_from(self.backgrounds@, name@, 0)),
    {
        find_named(&self.backgrounds, name)
    }

    /// Returns the path with a name.
    pub fn path(&self, name: &str) -> (found: Option<&GamePath>)
        ensures
            refers_to(found, named_from(self.paths@, name@, 0)),
    {
        find_named(&self.paths, name)
    }

    /// Returns the script with a name.
    pub fn script(&self, name: &str) -> (found: Option<&Script>)
        ensures
            refers_to(found, named_from(self.scripts@, name@, 0)),
    {
        find_named(&self.scripts, name)
    }

    /// Returns the shader with a name.
    pub fn shader(&self, name: &str) -> (found: Option<&Shader>)
        ensures
            refers_to(found, named_from(self.shaders@, name@, 0)),
    {
        find_named(&self.shaders, name)
    }

    /// Returns the font with a name.
    pub fn font(&self, name: &str) -> (found: Option<&Font>)
        ensures
            refers_to(found, named_from(self.fonts@, name@, 0)),
    {
        find_named(&self.fonts, name)
    }

    /// Returns the timeline with a name.
    pub fn timeline(&self, name: &str) -> (found: Option<&Timeline>)
        ensures
            refers_to(found, named_from(self.timelines@, name@, 0)),
    {
        find_named(&self.timelines, name)
    }

    /// Returns the object with a name.
    pub fn object(&self, name: &str) -> (found: Option<&GameObject>)
        ensures
            refers_to(found, named_from(self.objects@, name@, 0)),
    {
        find_named(&self.objects, name)
    }

    /// Returns the room with a name.
    pub fn room(&self, name: &str) -> (found: Option<&Room>)
        ensures
            refers_to(found, named_from(self.rooms@, name@, 0)),
    {
        find_named(&self.rooms, name)
    }

    /// Returns the first constant of an extension with a name.
    pub fn extension_constant(&self, name: &str) -> (found: Option<&ExtensionConstant>)
        ensures
            refers_to(found, extension_constant_from(self.extensions@, name@, 0)),
    {
        let mut index: usize = 0;
        while index < self.extensions.len()
            invariant
                index <= self.extensions@.len(),
                extension_constant_from(self.extensions@, name@, 0) == extension_constant_from(
                    self.extensions@,
                    name@,
                    index as int,
                ),
            decreases self.extensions.len() - index,
        {
            if let Some(constant) = find_file_constant(&self.extensions[index].files, name) {
                return Some(constant);
            }
            index += 1;
        }
        None
    }

    /// Returns the number of the first instance with a name.
    pub fn room_instance_id(&self, name: &str) -> (id: Option<i32>)
        ensures
            id == instance_id_from(self.rooms@, name@, 0),
    {
        find_instance_id(&self.rooms, name)
    }
}

/// The first constant with a name in a list, from an index on.
pub open spec fn constant_from(
    constants: Seq<ExtensionConstant>,
    name: Seq<char>,
    index: int,
) -> Option<ExtensionConstant>
    decreases constants.len() - index,
{
    if index < 0 || index >= constants.len() {
        None
    } else if constants[index].name@ == name {
        Some(constants[index])
    } else {
        constant_from(constants, name, index + 1)
    }
}

/// The first constant with a name in files, from an index on.
pub open spec fn file_constant_from(
    files: Seq<ExtensionFile>,
    name: Seq<char>,
    index: int,
) -> Option<ExtensionConstant>
    decreases files.len() - index,
{
    if index < 0 || index >= files.len() {
        None
    } else {
        match constant_from(files[index].constants@, name, 0) {
            Some(constant) => Some(constant),
            None => file_constant_from(files, name, index + 1),
        }
    }
}

/// The first constant with a name in extensions, from an index on.
pub open spec fn extension_constant_from(
    extensions: Seq<Extension>,
    name: Seq<char>,
    index: int,
) -> Option<ExtensionConstant>
    decreases extensions.len() - index,
{
    if index < 0 || index >= extensions.len() {
        None
    } else {
        match file_constant_from(extensions[index].files@, name, 0) {
            Some(constant) => Some(constant),
            None => extension_constant_from(extensions, name, index + 1),
        }
    }
}

fn find_constant<'a>(constants: &'a Vec<ExtensionConstant>, name: &str) -> (found: Option<
    &'a ExtensionConstant,
>)
    ensures
        refers_to(found, constant_from(constants@, name@, 0)),
{
    let mut index: usize = 0;
    while index < constants.len()
        invariant
            index <= constants@.len(),
            constant_from(constants@, name@, 0) == constant_from(constants@, name@, index as int),
        decreases constants.len() - index,
    {
        if same_text(constants[index].name.as_str(), name) {
            return Some(&constants[index]);
        }
        index += 1;
    }
    None
}

fn find_file_constant<'a>(files: &'a Vec<ExtensionFile>, name: &str) -> (found: Option<
    &'a ExtensionConstant,
>)
    ensures
        refers_to(found, file_constant_from(files@, name@, 0)),
{
    let mut index: usize = 0;
    while index < files.len()
        invariant
            index <= files@.len(),
            file_constant_from(files@, name@, 0) == file_constant_from(
                files@,
                name@,
                index as int,
            ),
        decreases files.len() - index,
    {
        if let Some(constant) = find_constant(&files[index].constants, name) {
            return Some(constant);
        }
        index += 1;
    }
    None
}

/// The number of the first instance with a name in a list, from an index on.
pub open spec fn id_in_room(instances: Seq<RoomInstance>, name: Seq<char>, index: int) -> Option<i32>
    decreases instances.len() - index,
{
    if index < 0 || index >= instances.len() {
        None
    } else if instances[index].name@ == name {
        Some(instances[index].id)
    } else {
        id_in_room(instances, name, index + 1)
    }
}

/// The number of the first instance with a name in rooms, from an index on.
pub open spec fn instance_id_from(rooms: Seq<Room>, name: Seq<char>, index: int) -> Option<i32>
    decreases rooms.len() - index,
{
    if index < 0 || index >= rooms.len() {
        None
    } else {
        match id_in_room(rooms[index].instances@, name, 0) {
            Some(id) => Some(id),
            None => instance_id_from(rooms, name, index + 1),
        }
    }
}

/// Returns the number of the first instance with a name in rooms.
pub fn find_instance_id(rooms: &Vec<Room>, name: &str) -> (id: Option<i32>)
    ensures
        id == instance_id_from(rooms@, name@, 0),
{
    let mut index: usize = 0;
    while index < rooms.len()
        invariant
            index <= rooms@.len(),
            instance_id_from(rooms@, name@, 0) == instance_id_from(rooms@, name@, index as int),
        decreases rooms.len() - index,
    {
        let instances = &rooms[index].instances;
        let mut instance: usize = 0;
        while instance < instances.len()
            invariant
                index < rooms@.len(),
                *instances == rooms@[index as int].instances,
                instance <= instances@.len(),
                instance_id_from(rooms@, name@, 0) == instance_id_from(
                    rooms@,
                    name@,
                    index as int,
                ),
                id_in_room(instances@, name@, 0) == id_in_room(
                    instances@,
                    name@,
                    instance as int,
                ),
            decreases instances.len() - instance,
        {
            if same_text(instances[instance].name.as_str(), name) {
                return Some(instances[instance].id);
            }
            instance += 1;
        }
        index += 1;
    }
    None
}

impl BinaryFile {
    /// Returns the digest of the contents.
    pub fn digest(&self) -> (digest: [u8; 16])
        ensures
            digest@ == md5_digest(self.data@),
    {
        md5(self.data.as_slice())
    }
}

/// The position of the resource with a source, from an index on.
pub open spec fn source_position(
    resources: Seq<ResourceView>,
    source: Seq<char>,
    index: int,
) -> Option<int>
    decreases resources.len() - index,
{
    if index < 0 || index >= resources.len() {
        None
    } else if resources[index].source == source {
        Some(index)
    } else {
        source_position(resources, source, index + 1)
    }
}

/// The resources of a project of a kind.
pub open spec fn listed(project: ProjectManifest, kind: ResourceKind) -> Seq<ResourceView> {
    of_kind(resource_views(project.resources@), kind, project.resources@.len() as int)
}

/// The position of a configuration among those of a project, which is the first
/// one if the project does not list it.
pub open spec fn config_position(project: ProjectManifest, config: Config) -> int {
    match source_position(listed(project, ResourceKind::Config), config@.source, 0) {
        Some(position) => position,
        None => 0,
    }
}

/// Returns the position of a configuration among those of a project, which is
/// the first one if the project does not list it.
pub fn config_index(project: &ProjectManifest, config: &Config) -> (position: usize)
    ensures
        position == config_position(*project, *config),
{
    let configs = project.resources_of(ResourceKind::Config);
    let ghost views = borrowed_views(configs@);
    let mut index: usize = 0;
    while index < configs.len()
        invariant
            index <= configs@.len(),
            views == borrowed_views(configs@),
            views == listed(*project, ResourceKind::Config),
            source_position(views, config@.source, 0) == source_position(
                views,
                config@.source,
                index as int,
            ),
        decreases configs.len() - index,
    {
        assert(views[index as int] == configs@[index as int]@);
        if same_text(configs[index].source.as_str(), config.source()) {
            return index;
        }
        index += 1;
    }
    0
}

/// Whether a configuration wants the new audio engine.
pub open spec fn new_audio(config: Config) -> Result<bool, AssetFault> {
    match value_from(config@.contents.options, "option_use_new_audio"@, 0) {
        None => Ok(true),
        Some(value) => match truth_of(value) {
            Some(truth) => Ok(truth),
            None => Err(
                AssetFault::InvalidConfigOption {
                    path: config@.source,
                    name: "option_use_new_audio"@,
                    value,
                },
            ),
        },
    }
}

/// Returns whether a configuration wants the new audio engine.
pub fn use_new_audio(config: &Config) -> (result: Result<bool, AssetError>)
    ensures
        match (result, new_audio(*config)) {
            (Ok(wanted), Ok(expected)) => wanted == expected,
            (Err(error), Err(fault)) => error@ == fault,
            _ => false,
        },
{
    match config.option("option_use_new_audio") {
        None => Ok(true),
        Some(value) => match read_truth(value) {
            Some(truth) => Ok(truth),
            None => Err(
                AssetError::InvalidConfigOption {
                    path: config.source().to_owned(),
                    name: "option_use_new_audio".to_owned(),
                    value: value.to_owned(),
                },
            ),
        },
    }
}

/// The text of a file of the project.
pub open spec fn text_of(read: Seq<ReadFile>, source: Seq<char>) -> Result<Seq<char>, AssetFault> {
    match read_from(read, source, 0) {
        ContentsView::Missing(message) => Err(AssetFault::Io { path: source, message }),
        ContentsView::Failed(message) => Err(AssetFault::Io { path: source, message }),
        ContentsView::Data(bytes) => file_text(source, bytes),
    }
}

/// Returns the text of a file of the project.
pub fn read_text(read: &Vec<ReadFile>, source: &str) -> (result: Result<String, AssetError>)
    ensures
        match (result, text_of(read@, source@)) {
            (Ok(text), Ok(expected)) => text@ == expected,
            (Err(error), Err(fault)) => error@ == fault,
            _ => false,
        },
{
    match read_source(read, source) {
        FileContents::Missing(message) => Err(AssetError::Io { path: source.to_owned(), message }),
        FileContents::Failed(message) => Err(AssetError::Io { path: source.to_owned(), message }),
        FileContents::Data(bytes) => decode_text(source, bytes.as_slice()),
    }
}

/// A script as sequences of characters.
pub struct ScriptView {
    pub index: int,
    pub manifest_index: usize,
    pub name: Seq<char>,
    pub source: Seq<char>,
    pub source_name: Seq<char>,
    pub code: Seq<char>,
}

impl View for Script {
    type V = ScriptView;

    open spec fn view(&self) -> ScriptView {
        ScriptView {
            index: self.index as int,
            manifest_index: self.manifest_index,
            name: self.name@,
            source: self.source@,
            source_name: self.source_name@,
            code: self.code@,
        }
    }
}

/// What a list of scripts stands for.
pub open spec fn script_views(scripts: Seq<Script>) -> Seq<ScriptView> {
    scripts.map_values(|script: Script| script@)
}

/// A part of a script file as a script. A part of a split file is named after
/// itself.
pub open spec fn part_script(resource: ResourceView, part: PartView, index: int) -> ScriptView {
    ScriptView {
        index,
        manifest_index: resource.index,
        name: part.name,
        source: resource.source,
        source_name: if part.split {
            part.name + ".gml"@
        } else {
            resource.source
        },
        code: part.code,
    }
}

/// Scripts with the first parts of a script file.
pub open spec fn with_parts(
    scripts: Seq<ScriptView>,
    resource: ResourceView,
    parts: Seq<PartView>,
    count: int,
) -> Seq<ScriptView>
    decreases count,
{
    if count <= 0 {
        scripts
    } else {
        let before = with_parts(scripts, resource, parts, count - 1);
        before.push(part_script(resource, parts[count - 1], before.len() as int))
    }
}

/// The scripts of the first script files.
pub open spec fn scripts_of(
    resources: Seq<ResourceView>,
    read: Seq<ReadFile>,
    count: int,
) -> Result<Seq<ScriptView>, AssetFault>
    decreases count,
{
    if count <= 0 {
        Ok(seq![])
    } else {
        match scripts_of(resources, read, count - 1) {
            Err(fault) => Err(fault),
            Ok(before) => {
                let resource = resources[count - 1];
                match text_of(read, resource.source) {
                    Err(fault) => Err(fault),
                    Ok(code) => {
                        let parts = parts_of(resource.name, code);
                        Ok(with_parts(before, resource, parts, parts.len() as int))
                    },
                }
            },
        }
    }
}

proof fn lemma_scripts_fault_stays(
    resources: Seq<ResourceView>,
    read: Seq<ReadFile>,
    count: int,
    end: int,
)
    requires
        0 <= count <= end,
        scripts_of(resources, read, count) is Err,
    ensures
        scripts_of(resources, read, end) == scripts_of(resources, read, count),
    decreases end - count,
{
    if count < end {
        lemma_scripts_fault_stays(resources, read, count, end - 1);
    }
}

fn add_parts(scripts: &mut Vec<Script>, resource: &ResourceRef, parts: Vec<ScriptPart>)
    ensures
        script_views(final(scripts)@) == with_parts(
            script_views(old(scripts)@),
            resource@,
            part_views(parts@),
            parts@.len() as int,
        ),
{
    let ghost given = script_views(scripts@);
    let ghost views = part_views(parts@);
    let mut index: usize = 0;
    while index < parts.len()
        invariant
            index <= parts@.len(),
            views == part_views(parts@),
            script_views(scripts@) == with_parts(given, resource@, views, index as int),
        decreases parts.len() - index,
    {
        let part = &parts[index];
        assert(views[index as int] == part@);
        let source_name = if part.split {
            let mut name = part.name.clone();
            name.append(".gml");
            name
        } else {
            resource.source.clone()
        };
        let ghost before = script_views(scripts@);
        let script = Script {
            index: scripts.len(),
            manifest_index: resource.index,
            name: part.name.clone(),
            source: resource.source.clone(),
            source_name,
            code: part.code.clone(),
        };
        scripts.push(script);
        assert(script_views(scripts@) =~= before.push(script@));
        index += 1;
    }
}

/// Returns the scripts of the script files of a project.
pub fn load_scripts(project: &ProjectManifest, read: &Vec<ReadFile>) -> (result: Result<
    Vec<Script>,
    AssetError,
>)
    ensures
        ({
            let resources = listed(*project, ResourceKind::Script);
            match (result, scripts_of(resources, read@, resources.len() as int)) {
                (Ok(scripts), Ok(expected)) => script_views(scripts@) == expected,
                (Err(error), Err(fault)) => error@ == fault,
                _ => false,
            }
        }),
{
    let resources = project.resources_of(ResourceKind::Script);
    let ghost views = borrowed_views(resources@);
    assert(views == listed(*project, ResourceKind::Script));
    let mut scripts: Vec<Script> = Vec::new();
    assert(script_views(scripts@) =~= seq![]);
    let mut index: usize = 0;
    while index < resources.len()
        invariant
            index <= resources@.len(),
            views == borrowed_views(resources@),
            views == listed(*project, ResourceKind::Script),
            scripts_of(views, read@, index as int) == Ok::<Seq<ScriptView>, AssetFault>(
                script_views(scripts@),
            ),
        decreases resources.len() - index,
    {
        let resource = resources[index];
        assert(views[index as int] == resource@);
        match read_text(read, resource.source.as_str()) {
            Err(error) => {
                proof {
                    lemma_scripts_fault_stays(
                        views,
                        read@,
                        index + 1,
                        views.len() as int,
                    );
                }
                return Err(error);
            },
            Ok(code) => {
                let parts = script_parts(resource.name.as_str(), code.as_str());
                assert(parts@.len() == part_views(parts@).len());
                add_parts(&mut scripts, resource, parts);
            },
        }
        index += 1;
    }
    Ok(scripts)
}

/// A shader as sequences of characters.
pub struct ShaderView {
    pub index: int,
    pub manifest_index: usize,
    pub name: Seq<char>,
    pub source: Seq<char>,
    pub shader_type: ShaderType,
    pub raw_source: Seq<char>,
}

impl View for Shader {
    type V = ShaderView;

    open spec fn view(&self) -> ShaderView {
        ShaderView {
            index: self.index as int,
            manifest_index: self.manifest_index,
            name: self.name@,
            source: self.source@,
            shader_type: self.shader_type,
            raw_source: self.raw_source@,
        }
    }
}

/// What a list of shaders stands for.
pub open spec fn shader_views(shaders: Seq<Shader>) -> Seq<ShaderView> {
    shaders.map_values(|shader: Shader| shader@)
}

/// The shaders of the first shader files.
pub open spec fn shaders_of(
    resources: Seq<ResourceView>,
    read: Seq<ReadFile>,
    count: int,
) -> Result<Seq<ShaderView>, AssetFault>
    decreases count,
{
    if count <= 0 {
        Ok(seq![])
    } else {
        match shaders_of(resources, read, count - 1) {
            Err(fault) => Err(fault),
            Ok(before) => {
                let resource = resources[count - 1];
                match text_of(read, resource.source) {
                    Err(fault) => Err(fault),
                    Ok(raw_source) => Ok(
                        before.push(
                            ShaderView {
                                index: count - 1,
                                manifest_index: resource.index,
                                name: resource.name,
                                source: resource.source,
                                shader_type: match resource.shader_type {
                                    Some(name) => ShaderType::named(name),
                                    None => ShaderType::named("GLSLES"@),
                                },
                                raw_source,
                            },
                        ),
                    ),
                }
            },
        }
    }
}

proof fn lemma_shaders_fault_stays(
    resources: Seq<ResourceView>,
    read: Seq<ReadFile>,
    count: int,
    end: int,
)
    requires
        0 <= count <= end,
        shaders_of(resources, read, count) is Err,
    ensures
        shaders_of(resources, read, end) == shaders_of(resources, read, count),
    decreases end - count,
{
    if count < end {
        lemma_shaders_fault_stays(resources, read, count, end - 1);
    }
}

/// Returns the shaders of the shader files of a project.
pub fn load_shaders(project: &ProjectManifest, read: &Vec<ReadFile>) -> (result: Result<
    Vec<Shader>,
    AssetError,
>)
    ensures
        ({
            let resources = listed(*project, ResourceKind::Shader);
            match (result, shaders_of(resources, read@, resources.len() as int)) {
                (Ok(shaders), Ok(expected)) => shader_views(shaders@) == expected,
                (Err(error), Err(fault)) => error@ == fault,
                _ => false,
            }
        }),
{
    let resources = project.resources_of(ResourceKind::Shader);
    let ghost views = borrowed_views(resources@);
    assert(views == listed(*project, ResourceKind::Shader));
    let mut shaders: Vec<Shader> = Vec::new();
    assert(shader_views(shaders@) =~= seq![]);
    let mut index: usize = 0;
    while index < resources.len()
        invariant
            index <= resources@.len(),
            views == borrowed_views(resources@),
            views == listed(*project, ResourceKind::Shader),
            shaders_of(views, read@, index as int) == Ok::<Seq<ShaderView>, AssetFault>(
                shader_views(shaders@),
            ),
        decreases resources.len() - index,
    {
        let resource = resources[index];
        assert(views[index as int] == resource@);
        match read_text(read, resource.source.as_str()) {
            Err(error) => {
                proof {
                    lemma_shaders_fault_stays(
                        views,
                        read@,
                        index + 1,
                        views.len() as int,
                    );
                }
                return Err(error);
            },
            Ok(raw_source) => {
                let shader_type = match &resource.shader_type {
                    Some(name) => ShaderType::from_manifest(name.as_str()),
                    None => ShaderType::from_manifest("GLSLES"),
                };
                let ghost before = shader_views(shaders@);
                let shader = Shader {
                    index,
                    manifest_index: resource.index,
                    name: resource.name.clone(),
                    source: resource.source.clone(),
                    shader_type,
                    raw_source,
                };
                shaders.push(shader);
                assert(shader_views(shaders@) =~= before.push(shader@));
            },
        }
        index += 1;
    }
    Ok(shaders)
}

/// Whether a path is among others, which may be written in another way.
pub open spec fn has_path(paths: Seq<Seq<char>>, path: Seq<char>) -> bool {
    exists|k: int| 0 <= k < paths.len() && same_path(#[trigger] paths[k], path)
}

/// Paths with another one, unless it is there already.
pub open spec fn with_path(paths: Seq<Seq<char>>, path: Seq<char>) -> Seq<Seq<char>> {
    if has_path(paths, path) {
        paths
    } else {
        paths.push(path)
    }
}

fn push_path(paths: &mut Vec<String>, path: &str)
    ensures
        spelled(final(paths)@) == with_path(spelled(old(paths)@), path@),
        spelled(old(paths)@).no_duplicates() ==> spelled(final(paths)@).no_duplicates(),
{
    let ghost before = spelled(paths@);
    let mut index: usize = 0;
    while index < paths.len()
        invariant
            index <= paths@.len(),
            paths@ == old(paths)@,
            before == spelled(paths@),
            forall|k: int| 0 <= k < index ==> !same_path(#[trigger] before[k], path@),
        decreases paths.len() - index,
    {
        assert(before[index as int] == paths@[index as int]@);
        if is_same_path(paths[index].as_str(), path) {
            assert(has_path(before, path@));
            return;
        }
        index += 1;
    }
    assert(!has_path(before, path@));
    assert(!before.contains(path@));
    paths.push(path.to_owned());
    assert(spelled(paths@) =~= before.push(path@));
}

/// Whether an included file is copied.
pub open spec fn is_copied(file: DataFile, config: Seq<char>, target_mask: i64) -> bool {
    file.exists && match mask_from(file@.configs, config, 0) {
        Some(mask) => (mask & target_mask) != 0,
        None => true,
    }
}

/// Paths with those of the first included files.
pub open spec fn data_paths(
    files: Seq<DataFile>,
    config: Seq<char>,
    target_mask: i64,
    paths: Seq<Seq<char>>,
    count: int,
) -> Seq<Seq<char>>
    decreases count,
{
    if count <= 0 {
        paths
    } else {
        let before = data_paths(files, config, target_mask, paths, count - 1);
        if is_copied(files[count - 1], config, target_mask) {
            with_path(before, files[count - 1].source@)
        } else {
            before
        }
    }
}

/// Paths with the first names in a folder.
pub open spec fn folder_paths(
    folder: Seq<char>,
    names: Seq<String>,
    paths: Seq<Seq<char>>,
    count: int,
) -> Seq<Seq<char>>
    decreases count,
{
    if count <= 0 {
        paths
    } else {
        with_path(
            folder_paths(folder, names, paths, count - 1),
            path_within(folder, names[count - 1]@),
        )
    }
}

/// Paths with those of the first files of an extension. Code is read from where
/// it is, and other files from the folder of the extension.
pub open spec fn file_paths(
    folder: Seq<char>,
    files: Seq<ExtensionFile>,
    paths: Seq<Seq<char>>,
    count: int,
) -> Seq<Seq<char>>
    decreases count,
{
    if count <= 0 {
        paths
    } else {
        let before = file_paths(folder, files, paths, count - 1);
        let file = files[count - 1];
        if !file.enabled {
            before
        } else if file.kind == 2 {
            with_path(before, file.source@)
        } else {
            folder_paths(
                folder,
                file.target_filenames@,
                before,
                file.target_filenames@.len() as int,
            )
        }
    }
}

/// Paths with those of the first extensions.
pub open spec fn extension_paths(
    extensions: Seq<Extension>,
    paths: Seq<Seq<char>>,
    count: int,
) -> Seq<Seq<char>>
    decreases count,
{
    if count <= 0 {
        paths
    } else {
        let before = extension_paths(extensions, paths, count - 1);
        let extension = extensions[count - 1];
        if extension.enabled && extension.used {
            file_paths(
                extension.folder@,
                extension.files@,
                before,
                extension.files@.len() as int,
            )
        } else {
            before
        }
    }
}

/// Paths with those of the first sounds.
pub open spec fn sound_paths(sounds: Seq<Sound>, paths: Seq<Seq<char>>, count: int) -> Seq<
    Seq<char>,
>
    decreases count,
{
    if count <= 0 {
        paths
    } else {
        with_path(sound_paths(sounds, paths, count - 1), sounds[count - 1].audio_source@)
    }
}

/// Paths with those of the first frames.
pub open spec fn frame_paths(frames: Seq<SpriteFrame>, paths: Seq<Seq<char>>, count: int) -> Seq<
    Seq<char>,
>
    decreases count,
{
    if count <= 0 {
        paths
    } else {
        with_path(frame_paths(frames, paths, count - 1), frames[count - 1].source@)
    }
}

/// Paths with another one, if there is one.
pub open spec fn with_optional(paths: Seq<Seq<char>>, path: Option<String>) -> Seq<Seq<char>> {
    match path {
        Some(path) => with_path(paths, path@),
        None => paths,
    }
}

/// Paths with those of the first sprites.
pub open spec fn sprite_paths(sprites: Seq<Sprite>, paths: Seq<Seq<char>>, count: int) -> Seq<
    Seq<char>,
>
    decreases count,
{
    if count <= 0 {
        paths
    } else {
        let sprite = sprites[count - 1];
        let framed = frame_paths(
            sprite.frames@,
            sprite_paths(sprites, paths, count - 1),
            sprite.frames@.len() as int,
        );
        with_optional(with_optional(framed, sprite.swf_source), sprite.spine_source)
    }
}

/// Paths with those of the images that are there of the first backgrounds.
pub open spec fn background_paths(
    backgrounds: Seq<Background>,
    read: Seq<ReadFile>,
    paths: Seq<Seq<char>>,
    count: int,
) -> Seq<Seq<char>>
    decreases count,
{
    if count <= 0 {
        paths
    } else {
        let before = background_paths(backgrounds, read, paths, count - 1);
        let source = backgrounds[count - 1].image_source@;
        if read_from(read, source, 0) is Missing {
            before
        } else {
            with_path(before, source)
        }
    }
}

/// Paths with those of the first fonts.
pub open spec fn font_paths(fonts: Seq<Font>, paths: Seq<Seq<char>>, count: int) -> Seq<Seq<char>>
    decreases count,
{
    if count <= 0 {
        paths
    } else {
        with_path(font_paths(fonts, paths, count - 1), fonts[count - 1].image_source@)
    }
}

/// The files that a project needs, each once.
pub open spec fn needed_paths(
    files: Seq<DataFile>,
    extensions: Seq<Extension>,
    sounds: Seq<Sound>,
    sprites: Seq<Sprite>,
    backgrounds: Seq<Background>,
    fonts: Seq<Font>,
    config: Seq<char>,
    target_mask: i64,
    read: Seq<ReadFile>,
) -> Seq<Seq<char>> {
    let copied = data_paths(files, config, target_mask, seq![], files.len() as int);
    let extended = extension_paths(extensions, copied, extensions.len() as int);
    let heard = sound_paths(sounds, extended, sounds.len() as int);
    let seen = sprite_paths(sprites, heard, sprites.len() as int);
    let behind = background_paths(backgrounds, read, seen, backgrounds.len() as int);
    font_paths(fonts, behind, fonts.len() as int)
}

fn add_extension_paths(extensions: &Vec<Extension>, paths: &mut Vec<String>)
    ensures
        spelled(final(paths)@) == extension_paths(
            extensions@,
            spelled(old(paths)@),
            extensions@.len() as int,
        ),
        spelled(old(paths)@).no_duplicates() ==> spelled(final(paths)@).no_duplicates(),
{
    let ghost given = spelled(paths@);
    let mut index: usize = 0;
    while index < extensions.len()
        invariant
            index <= extensions@.len(),
            spelled(paths@) == extension_paths(extensions@, given, index as int),
            given == spelled(old(paths)@),
            given.no_duplicates() ==> spelled(paths@).no_duplicates(),
        decreases extensions.len() - index,
    {
        let extension = &extensions[index];
        if extension.enabled && extension.used {
            add_file_paths(extension.folder.as_str(), &extension.files, paths);
        }
        index += 1;
    }
}

fn add_file_paths(folder: &str, files: &Vec<ExtensionFile>, paths: &mut Vec<String>)
    ensures
        spelled(final(paths)@) == file_paths(
            folder@,
            files@,
            spelled(old(paths)@),
            files@.len() as int,
        ),
        spelled(old(paths)@).no_duplicates() ==> spelled(final(paths)@).no_duplicates(),
{
    let ghost given = spelled(paths@);
    let mut index: usize = 0;
    while index < files.len()
        invariant
            index <= files@.len(),
            spelled(paths@) == file_paths(folder@, files@, given, index as int),
            given == spelled(old(paths)@),
            given.no_duplicates() ==> spelled(paths@).no_duplicates(),
        decreases files.len() - index,
    {
        let file = &files[index];
        if file.enabled {
            if file.kind == 2 {
                push_path(paths, file.source.as_str());
            } else {
                let ghost before = spelled(paths@);
                let mut name: usize = 0;
                while name < file.target_filenames.len()
                    invariant
                        name <= file.target_filenames@.len(),
                        spelled(paths@) == folder_paths(
                            folder@,
                            file.target_filenames@,
                            before,
                            name as int,
                        ),
                        given.no_duplicates() ==> spelled(paths@).no_duplicates(),
                    decreases file.target_filenames.len() - name,
                {
                    let path = join_path(folder, file.target_filenames[name].as_str());
                    push_path(paths, path.as_str());
                    name += 1;
                }
            }
        }
        index += 1;
    }
}

fn add_sprite_paths(sprites: &Vec<Sprite>, paths: &mut Vec<String>)
    ensures
        spelled(final(paths)@) == sprite_paths(
            sprites@,
            spelled(old(paths)@),
            sprites@.len() as int,
        ),
        spelled(old(paths)@).no_duplicates() ==> spelled(final(paths)@).no_duplicates(),
{
    let ghost given = spelled(paths@);
    let mut index: usize = 0;
    while index < sprites.len()
        invariant
            index <= sprites@.len(),
            spelled(paths@) == sprite_paths(sprites@, given, index as int),
            given == spelled(old(paths)@),
            given.no_duplicates() ==> spelled(paths@).no_duplicates(),
        decreases sprites.len() - index,
    {
        let sprite = &sprites[index];
        let ghost before = spelled(paths@);
        let mut frame: usize = 0;
        while frame < sprite.frames.len()
            invariant
                frame <= sprite.frames@.len(),
                spelled(paths@) == frame_paths(sprite.frames@, before, frame as int),
                given.no_duplicates() ==> spelled(paths@).no_duplicates(),
            decreases sprite.frames.len() - frame,
        {
            push_path(paths, sprite.frames[frame].source.as_str());
            frame += 1;
        }
        if let Some(source) = &sprite.swf_source {
            push_path(paths, source.as_str());
        }
        if let Some(source) = &sprite.spine_source {
            push_path(paths, source.as_str());
        }
        index += 1;
    }
}

/// Returns the files that a project needs, each once. A background without an
/// image needs none.
pub fn collect_binary_paths(
    project: &ProjectManifest,
    extensions: &Vec<Extension>,
    sounds: &Vec<Sound>,
    sprites: &Vec<Sprite>,
    backgrounds: &Vec<Background>,
    fonts: &Vec<Font>,
    config: &Config,
    target_mask: i64,
    read: &Vec<ReadFile>,
) -> (paths: Vec<String>)
    ensures
        spelled(paths@) == needed_paths(
            project.data_files@,
            extensions@,
            sounds@,
            sprites@,
            backgrounds@,
            fonts@,
            config@.name,
            target_mask,
            read@,
        ),
        spelled(paths@).no_duplicates(),
{
    let mut paths: Vec<String> = Vec::new();
    assert(spelled(paths@) =~= seq![]);
    let mut index: usize = 0;
    while index < project.data_files.len()
        invariant
            index <= project.data_files@.len(),
            spelled(paths@) == data_paths(
                project.data_files@,
                config@.name,
                target_mask,
                seq![],
                index as int,
            ),
            spelled(paths@).no_duplicates(),
        decreases project.data_files.len() - index,
    {
        let file = &project.data_files[index];
        if file.exists && file.enabled_for(config.name(), target_mask) {
            push_path(&mut paths, file.source.as_str());
        }
        index += 1;
    }
    add_extension_paths(extensions, &mut paths);
    let ghost extended = spelled(paths@);
    let mut sound: usize = 0;
    while sound < sounds.len()
        invariant
            sound <= sounds@.len(),
            spelled(paths@) == sound_paths(sounds@, extended, sound as int),
            spelled(paths@).no_duplicates(),
        decreases sounds.len() - sound,
    {
        push_path(&mut paths, sounds[sound].audio_source.as_str());
        sound += 1;
    }
    add_sprite_paths(sprites, &mut paths);
    let ghost seen = spelled(paths@);
    let mut background: usize = 0;
    while background < backgrounds.len()
        invariant
            background <= backgrounds@.len(),
            spelled(paths@) == background_paths(backgrounds@, read@, seen, background as int),
            spelled(paths@).no_duplicates(),
        decreases backgrounds.len() - background,
    {
        let source = backgrounds[background].image_source.as_str();
        let missing = match read_source(read, source) {
            FileContents::Missing(_) => true,
            _ => false,
        };
        if !missing {
            push_path(&mut paths, source);
        }
        background += 1;
    }
    let ghost behind = spelled(paths@);
    let mut font: usize = 0;
    while font < fonts.len()
        invariant
            font <= fonts@.len(),
            spelled(paths@) == font_paths(fonts@, behind, font as int),
            spelled(paths@).no_duplicates(),
        decreases fonts.len() - font,
    {
        push_path(&mut paths, fonts[font].image_source.as_str());
        font += 1;
    }
    paths
}

/// A file with its contents.
pub struct FileView {
    pub source: Seq<char>,
    pub data: Seq<u8>,
}

/// What a list of files stands for.
pub open spec fn file_views(files: Seq<BinaryFile>) -> Seq<FileView> {
    files.map_values(|file: BinaryFile| FileView { source: file.source@, data: file.data@ })
}

/// The first files with their contents.
pub open spec fn files_of(paths: Seq<Seq<char>>, read: Seq<ReadFile>, count: int) -> Result<
    Seq<FileView>,
    AssetFault,
>
    decreases count,
{
    if count <= 0 {
        Ok(seq![])
    } else {
        match files_of(paths, read, count - 1) {
            Err(fault) => Err(fault),
            Ok(before) => {
                let source = paths[count - 1];
                match read_from(read, source, 0) {
                    ContentsView::Missing(message) => Err(
                        AssetFault::Io { path: source, message },
                    ),
                    ContentsView::Failed(message) => Err(
                        AssetFault::Io { path: source, message },
                    ),
                    ContentsView::Data(data) => Ok(before.push(FileView { source, data })),
                }
            },
        }
    }
}

proof fn lemma_files_fault_stays(
    paths: Seq<Seq<char>>,
    read: Seq<ReadFile>,
    count: int,
    end: int,
)
    requires
        0 <= count <= end,
        files_of(paths, read, count) is Err,
    ensures
        files_of(paths, read, end) == files_of(paths, read, count),
    decreases end - count,
{
    if count < end {
        lemma_files_fault_stays(paths, read, count, end - 1);
    }
}

/// Returns files with their contents.
pub fn load_binary_files(paths: &Vec<String>, read: &Vec<ReadFile>) -> (result: Result<
    Vec<BinaryFile>,
    AssetError,
>)
    ensures
        match (result, files_of(spelled(paths@), read@, paths@.len() as int)) {
            (Ok(files), Ok(expected)) => file_views(files@) == expected,
            (Err(error), Err(fault)) => error@ == fault,
            _ => false,
        },
{
    let ghost views = spelled(paths@);
    let mut files: Vec<BinaryFile> = Vec::new();
    assert(file_views(files@) =~= seq![]);
    let mut index: usize = 0;
    while index < paths.len()
        invariant
            index <= paths@.len(),
            views == spelled(paths@),
            files_of(views, read@, index as int) == Ok::<Seq<FileView>, AssetFault>(
                file_views(files@),
            ),
        decreases paths.len() - index,
    {
        let source = paths[index].as_str();
        assert(views[index as int] == source@);
        let error = match read_source(read, source) {
            FileContents::Missing(message) => Some(
                AssetError::Io { path: source.to_owned(), message },
            ),
            FileContents::Failed(message) => Some(
                AssetError::Io { path: source.to_owned(), message },
            ),
            FileContents::Data(data) => {
                let ghost before = file_views(files@);
                let file = BinaryFile { source: source.to_owned(), data };
                files.push(file);
                assert(file_views(files@) =~= before.push(
                    FileView { source: source@, data: file.data@ },
                ));
                None
            },
        };
        if let Some(error) = error {
            proof {
                lemma_files_fault_stays(views, read@, index + 1, views.len() as int);
            }
            return Err(error);
        }
        index += 1;
    }
    Ok(files)
}

/// The resources that were made of the files of a project, or why there are none.
#[derive(Debug)]
pub struct Drafts {
    pub sounds: Result<Vec<Sound>, AssetError>,
    pub sprites: Result<Vec<Sprite>, AssetError>,
    pub backgrounds: Result<Vec<Background>, AssetError>,
    pub paths: Result<Vec<GamePath>, AssetError>,
    pub fonts: Result<Vec<Font>, AssetError>,
    pub timelines: Result<Vec<Timeline>, AssetError>,
    pub objects: Result<Vec<GameObject>, AssetError>,
    pub rooms: Result<Vec<Room>, AssetError>,
    pub extensions: Result<Vec<Extension>, AssetError>,
}

/// The fault of a draft.
pub open spec fn draft_fault<T>(draft: Result<Vec<T>, AssetError>) -> Option<AssetFault> {
    match draft {
        Ok(items) => None,
        Err(error) => Some(error@),
    }
}

/// The fault of a result.
pub open spec fn result_fault<T>(result: Result<T, AssetFault>) -> Option<AssetFault> {
    match result {
        Ok(value) => None,
        Err(fault) => Some(fault),
    }
}

/// The first of two faults.
pub open spec fn or_fault(first: Option<AssetFault>, second: Option<AssetFault>) -> Option<
    AssetFault,
> {
    match first {
        Some(fault) => Some(fault),
        None => second,
    }
}

/// The first fault of drafts.
pub open spec fn drafts_fault(drafts: Drafts) -> Option<AssetFault> {
    or_fault(
        draft_fault(drafts.sounds),
        or_fault(
            draft_fault(drafts.sprites),
            or_fault(
                draft_fault(drafts.backgrounds),
                or_fault(
                    draft_fault(drafts.paths),
                    or_fault(
                        draft_fault(drafts.fonts),
                        or_fault(
                            draft_fault(drafts.timelines),
                            or_fault(
                                draft_fault(drafts.objects),
                                or_fault(
                                    draft_fault(drafts.rooms),
                                    draft_fault(drafts.extensions),
                                ),
                            ),
                        ),
                    ),
                ),
            ),
        ),
    )
}

/// The fault of two resources of a kind with one name.
pub open spec fn name_fault<T: Named>(resources: Seq<T>, kind: Seq<char>) -> Option<AssetFault> {
    result_fault(index_of(resources, kind, resources.len() as int))
}

/// The positions of resources by their names.
pub open spec fn names_of<T: Named>(resources: Seq<T>, kind: Seq<char>) -> Map<Seq<char>, usize> {
    index_of(resources, kind, resources.len() as int)->Ok_0
}

/// The first fault of resources with one name.
pub open spec fn lists_fault(
    sounds: Seq<Sound>,
    sprites: Seq<Sprite>,
    backgrounds: Seq<Background>,
    paths: Seq<GamePath>,
    scripts: Seq<Script>,
    shaders: Seq<Shader>,
    fonts: Seq<Font>,
    timelines: Seq<Timeline>,
    objects: Seq<GameObject>,
    rooms: Seq<Room>,
    extensions: Seq<Extension>,
) -> Option<AssetFault> {
    or_fault(
        name_fault(sounds, "sound"@),
        or_fault(
            name_fault(sprites, "sprite"@),
            or_fault(
                name_fault(backgrounds, "background"@),
                or_fault(
                    name_fault(paths, "path"@),
                    or_fault(
                        name_fault(scripts, "script"@),
                        or_fault(
                            name_fault(shaders, "shader"@),
                            or_fault(
                                name_fault(fonts, "font"@),
                                or_fault(
                                    name_fault(timelines, "timeline"@),
                                    or_fault(
                                        name_fault(objects, "object"@),
                                        or_fault(
                                            name_fault(rooms, "room"@),
                                            name_fault(extensions, "extension"@),
                                        ),
                                    ),
                                ),
                            ),
                        ),
                    ),
                ),
            ),
        ),
    )
}

/// The first fault of resources of a project with one name.
pub open spec fn names_fault(drafts: Drafts, scripts: Seq<Script>, shaders: Seq<Shader>) -> Option<
    AssetFault,
> {
    lists_fault(
        drafts.sounds->Ok_0@,
        drafts.sprites->Ok_0@,
        drafts.backgrounds->Ok_0@,
        drafts.paths->Ok_0@,
        scripts,
        shaders,
        drafts.fonts->Ok_0@,
        drafts.timelines->Ok_0@,
        drafts.objects->Ok_0@,
        drafts.rooms->Ok_0@,
        drafts.extensions->Ok_0@,
    )
}

/// The indices of the resources that others refer to.
#[derive(Debug)]
struct Indices {
    sprites: NameIndex,
    backgrounds: NameIndex,
    objects: NameIndex,
}

#[verifier::spinoff_prover]
fn make_indices(
    sounds: &Vec<Sound>,
    sprites: &Vec<Sprite>,
    backgrounds: &Vec<Background>,
    paths: &Vec<GamePath>,
    scripts: &Vec<Script>,
    shaders: &Vec<Shader>,
    fonts: &Vec<Font>,
    timelines: &Vec<Timeline>,
    objects: &Vec<GameObject>,
    rooms: &Vec<Room>,
    extensions: &Vec<Extension>,
) -> (result: Result<Indices, AssetError>)
    ensures
        ({
            let fault = lists_fault(
                sounds@,
                sprites@,
                backgrounds@,
                paths@,
                scripts@,
                shaders@,
                fonts@,
                timelines@,
                objects@,
                rooms@,
                extensions@,
            );
            match (result, fault) {
                (Ok(indices), None) => {
                    &&& indices.sprites@ == names_of(sprites@, "sprite"@)
                    &&& is_index(indices.sprites@, sprites@.len())
                    &&& indices.backgrounds@ == names_of(backgrounds@, "background"@)
                    &&& indices.objects@ == names_of(objects@, "object"@)
                },
                (Err(error), Some(fault)) => error@ == fault,
                _ => false,
            }
        }),
{
    if let Err(error) = make_index(sounds, "sound") {
        return Err(error);
    }
    let sprite_index = match make_index(sprites, "sprite") {
        Ok(index) => index,
        Err(error) => {
            return Err(error);
        },
    };
    let background_index = match make_index(backgrounds, "background") {
        Ok(index) => index,
        Err(error) => {
            return Err(error);
        },
    };
    if let Err(error) = make_index(paths, "path") {
        return Err(error);
    }
    if let Err(error) = make_index(scripts, "script") {
        return Err(error);
    }
    if let Err(error) = make_index(shaders, "shader") {
        return Err(error);
    }
    if let Err(error) = make_index(fonts, "font") {
        return Err(error);
    }
    if let Err(error) = make_index(timelines, "timeline") {
        return Err(error);
    }
    let object_index = match make_index(objects, "object") {
        Ok(index) => index,
        Err(error) => {
            return Err(error);
        },
    };
    if let Err(error) = make_index(rooms, "room") {
        return Err(error);
    }
    if let Err(error) = make_index(extensions, "extension") {
        return Err(error);
    }
    Ok(Indices { sprites: sprite_index, backgrounds: background_index, objects: object_index })
}

/// What has been made of a project before its files are loaded: the scripts and
/// shaders, the resources with what their references stand for, and the
/// extensions with their numbers, without and with marks on what is used.
pub struct Prepared {
    pub scripts: Seq<Script>,
    pub shaders: Seq<Shader>,
    pub objects: Seq<GameObject>,
    pub timelines: Seq<Timeline>,
    pub rooms: Seq<Room>,
    pub numbered: Seq<Extension>,
    pub extensions: Seq<Extension>,
}

/// The scripts of a project, or what is wrong with its script files.
pub open spec fn project_scripts(project: ProjectManifest, read: Seq<ReadFile>) -> Result<
    Seq<ScriptView>,
    AssetFault,
> {
    let resources = listed(project, ResourceKind::Script);
    scripts_of(resources, read, resources.len() as int)
}

/// The shaders of a project, or what is wrong with its shader files.
pub open spec fn project_shaders(project: ProjectManifest, read: Seq<ReadFile>) -> Result<
    Seq<ShaderView>,
    AssetFault,
> {
    let resources = listed(project, ResourceKind::Shader);
    shaders_of(resources, read, resources.len() as int)
}

/// The fault of a project that is found before its resources are tied together.
pub open spec fn draft_stage_fault(
    project: ProjectManifest,
    config: Config,
    drafts: Drafts,
    read: Seq<ReadFile>,
) -> Option<AssetFault> {
    or_fault(
        result_fault(new_audio(config)),
        or_fault(
            drafts_fault(drafts),
            or_fault(
                result_fault(project_scripts(project, read)),
                result_fault(project_shaders(project, read)),
            ),
        ),
    )
}

/// The fault of names and references.
pub open spec fn reference_stage_fault(
    drafts: Drafts,
    scripts: Seq<Script>,
    shaders: Seq<Shader>,
) -> Option<AssetFault> {
    let sprites = names_of(drafts.sprites->Ok_0@, "sprite"@);
    let backgrounds = names_of(drafts.backgrounds->Ok_0@, "background"@);
    let objects = names_of(drafts.objects->Ok_0@, "object"@);
    or_fault(
        names_fault(drafts, scripts, shaders),
        or_fault(
            references_fault(
                drafts.objects->Ok_0@,
                drafts.timelines->Ok_0@,
                sprites,
                objects,
            ),
            rooms_fault(drafts.rooms->Ok_0@, backgrounds, objects),
        ),
    )
}

/// Whether extensions are others with their numbers.
pub open spec fn are_finalized(before: Seq<Extension>, after: Seq<Extension>) -> bool {
    &&& after.len() == before.len()
    &&& forall|k: int|
        0 <= k < before.len() ==> is_finalized(
            before[k],
            #[trigger] after[k],
            k,
            id_after(EXTENSION_FUNCTION_ID_START, functions_before(before, k)),
        )
}

/// Whether resources are what has been made of drafts.
pub open spec fn is_prepared(
    prepared: Prepared,
    project: ProjectManifest,
    drafts: Drafts,
    read: Seq<ReadFile>,
    shift: spec_fn(u32, i32) -> u32,
) -> bool {
    let sprites = names_of(drafts.sprites->Ok_0@, "sprite"@);
    let backgrounds = names_of(drafts.backgrounds->Ok_0@, "background"@);
    let objects = names_of(drafts.objects->Ok_0@, "object"@);
    &&& project_scripts(project, read) == Ok::<Seq<ScriptView>, AssetFault>(
        script_views(prepared.scripts),
    )
    &&& project_shaders(project, read) == Ok::<Seq<ShaderView>, AssetFault>(
        shader_views(prepared.shaders),
    )
    &&& are_resolved_objects(
        drafts.objects->Ok_0@,
        prepared.objects,
        drafts.sprites->Ok_0@,
        sprites,
        objects,
        shift,
    )
    &&& are_resolved_timelines(drafts.timelines->Ok_0@, prepared.timelines, objects)
    &&& are_resolved_rooms(drafts.rooms->Ok_0@, prepared.rooms, backgrounds, objects)
    &&& are_finalized(drafts.extensions->Ok_0@, prepared.numbered)
    &&& used_by(prepared, read) matches Ok(used) ==> are_marked(
        prepared.numbered,
        prepared.extensions,
        all_places(prepared.numbered, prepared.numbered.len() as int),
        used,
        all_places(prepared.numbered, prepared.numbered.len() as int).len() as int,
    )
}

/// Which files of extensions the resources use.
pub open spec fn used_by(prepared: Prepared, read: Seq<ReadFile>) -> Result<
    Seq<bool>,
    AssetFault,
> {
    let names = mentioned(
        prepared.numbered,
        prepared.scripts,
        prepared.timelines,
        prepared.objects,
        prepared.rooms,
    );
    match used_places(prepared.numbered, names, read) {
        Ok(marking) => Ok(marking.used),
        Err(fault) => Err(fault),
    }
}

/// The files that the resources need.
pub open spec fn files_needed(
    prepared: Prepared,
    project: ProjectManifest,
    config: Config,
    drafts: Drafts,
    read: Seq<ReadFile>,
    target_mask: i64,
) -> Result<Seq<FileView>, AssetFault> {
    let paths = needed_paths(
        project.data_files@,
        prepared.extensions,
        drafts.sounds->Ok_0@,
        drafts.sprites->Ok_0@,
        drafts.backgrounds->Ok_0@,
        drafts.fonts->Ok_0@,
        config@.name,
        target_mask,
        read,
    );
    files_of(paths, read, paths.len() as int)
}

/// Whether assets are those of a project.
pub open spec fn is_loaded(
    assets: Assets,
    prepared: Prepared,
    project: ProjectManifest,
    config: Config,
    drafts: Drafts,
    files: Seq<FileView>,
    settings: CompileSettings,
) -> bool {
    &&& assets.config_index == config_position(project, config)
    &&& assets.extensions@ == prepared.extensions
    &&& assets.sounds == drafts.sounds->Ok_0
    &&& assets.sprites == drafts.sprites->Ok_0
    &&& assets.backgrounds == drafts.backgrounds->Ok_0
    &&& assets.paths == drafts.paths->Ok_0
    &&& assets.scripts@ == prepared.scripts
    &&& assets.shaders@ == prepared.shaders
    &&& assets.fonts == drafts.fonts->Ok_0
    &&& assets.timelines@ == prepared.timelines
    &&& assets.objects@ == prepared.objects
    &&& assets.rooms@ == prepared.rooms
    &&& assets.next_room_instance_id == id_after(
        ROOM_INSTANCE_ID_START,
        instances_before(drafts.rooms->Ok_0@, drafts.rooms->Ok_0@.len() as int),
    )
    &&& assets.next_room_tile_id == id_after(
        ROOM_TILE_ID_START,
        tiles_before(drafts.rooms->Ok_0@, drafts.rooms->Ok_0@.len() as int),
    )
    &&& assets.next_extension_function_id == id_after(
        EXTENSION_FUNCTION_ID_START,
        functions_before(drafts.extensions->Ok_0@, drafts.extensions->Ok_0@.len() as int),
    )
    &&& assets.options == settings.options
    &&& assets.target_mask == settings.target_mask
    &&& assets.audio_groups == settings.audio_groups
    &&& assets.constants == settings.constants
    &&& file_views(assets.binary_files@) == files
}

/// Whether a result is the outcome of the last stage of loading.
pub open spec fn is_last_stage(
    result: Result<Assets, AssetError>,
    prepared: Prepared,
    project: ProjectManifest,
    config: Config,
    drafts: Drafts,
    settings: Result<CompileSettings, AssetError>,
    read: Seq<ReadFile>,
    target_mask: i64,
) -> bool {
    match used_by(prepared, read) {
        Err(fault) => result matches Err(error) && error@ == fault,
        Ok(used) => match files_needed(prepared, project, config, drafts, read, target_mask) {
            Err(fault) => result matches Err(error) && error@ == fault,
            Ok(files) => match settings {
                Err(given) => result matches Err(error) && error@ == given@,
                Ok(settings) => result matches Ok(assets) && is_loaded(
                    assets,
                    prepared,
                    project,
                    config,
                    drafts,
                    files,
                    settings,
                ),
            },
        },
    }
}

impl Assets {
    /// Loads the assets of a project. The files were read before, resources were
    /// made of them, and the settings were made of both. The shapes of objects
    /// are moved by a function.
    #[verifier::spinoff_prover]
    #[verifier::rlimit(60)]
    pub fn load<F: Fn(u32, i32) -> u32>(
        project: &ProjectManifest,
        config: &Config,
        drafts: Drafts,
        settings: Result<CompileSettings, AssetError>,
        read: &Vec<ReadFile>,
        target_mask: i64,
        shift: &F,
    ) -> (result: Result<Assets, AssetError>)
        requires
            is_shift(*shift),
            drafts.sprites matches Ok(sprites) ==> sprites@.len() <= i32::MAX,
        ensures
            match draft_stage_fault(*project, *config, drafts, read@) {
                Some(fault) => result matches Err(error) && error@ == fault,
                None => exists|scripts: Seq<Script>, shaders: Seq<Shader>|
                    {
                        &&& project_scripts(*project, read@) == Ok::<Seq<ScriptView>, AssetFault>(
                            script_views(scripts),
                        )
                        &&& project_shaders(*project, read@) == Ok::<Seq<ShaderView>, AssetFault>(
                            shader_views(shaders),
                        )
                        &&& match #[trigger] reference_stage_fault(drafts, scripts, shaders) {
                            Some(fault) => result matches Err(error) && error@ == fault,
                            None => exists|prepared: Prepared| #[trigger]
                                is_prepared(
                                    prepared,
                                    *project,
                                    drafts,
                                    read@,
                                    moved_by(*shift),
                                ) && prepared.scripts == scripts && prepared.shaders == shaders
                                    && is_last_stage(
                                    result,
                                    prepared,
                                    *project,
                                    *config,
                                    drafts,
                                    settings,
                                    read@,
                                    target_mask,
                                ),
                        }
                    },
            },
    {
        let config_index = config_index(project, config);
        if let Err(error) = use_new_audio(config) {
            return Err(error);
        }
        let sounds = match drafts.sounds {
            Ok(sounds) => sounds,
            Err(error) => {
                return Err(error);
            },
        };
        let sprites = match drafts.sprites {
            Ok(sprites) => sprites,
            Err(error) => {
                return Err(error);
            },
        };
        let backgrounds = match drafts.backgrounds {
            Ok(backgrounds) => backgrounds,
            Err(error) => {
                return Err(error);
            },
        };
        let paths = match drafts.paths {
            Ok(paths) => paths,
            Err(error) => {
                return Err(error);
            },
        };
        let fonts = match drafts.fonts {
            Ok(fonts) => fonts,
            Err(error) => {
                return Err(error);
            },
        };
        let timelines = match drafts.timelines {
            Ok(timelines) => timelines,
            Err(error) => {
                return Err(error);
            },
        };
        let objects = match drafts.objects {
            Ok(objects) => objects,
            Err(error) => {
                return Err(error);
            },
        };
        let rooms = match drafts.rooms {
            Ok(rooms) => rooms,
            Err(error) => {
                return Err(error);
            },
        };
        let extensions = match drafts.extensions {
            Ok(extensions) => extensions,
            Err(error) => {
                return Err(error);
            },
        };
        let scripts = match load_scripts(project, read) {
            Ok(scripts) => scripts,
            Err(error) => {
                return Err(error);
            },
        };
        let shaders = match load_shaders(project, read) {
            Ok(shaders) => shaders,
            Err(error) => {
                return Err(error);
            },
        };
        assert(draft_stage_fault(*project, *config, drafts, read@) is None);
        let ghost fault = reference_stage_fault(drafts, scripts@, shaders@);
        let indices = match make_indices(
            &sounds,
            &sprites,
            &backgrounds,
            &paths,
            &scripts,
            &shaders,
            &fonts,
            &timelines,
            &objects,
            &rooms,
            &extensions,
        ) {
            Ok(indices) => indices,
            Err(error) => {
                assert(fault == Some(error@));
                return Err(error);
            },
        };
        let (objects, timelines) = match resolve_object_references(
            objects,
            timelines,
            &sprites,
            &indices.sprites,
            &indices.objects,
            shift,
        ) {
            Ok(resolved) => resolved,
            Err(error) => {
                assert(fault == Some(error@));
                return Err(error);
            },
        };
        let resolved = match resolve_room_references(
            rooms,
            &indices.backgrounds,
            &indices.objects,
        ) {
            Ok(resolved) => resolved,
            Err(error) => {
                assert(fault == Some(error@));
                return Err(error);
            },
        };
        assert(fault is None);
        let mut extensions = extensions;
        let next_extension_function_id = finalize_extensions(&mut extensions);
        let ghost numbered = extensions@;
        let marked = mark_used_extensions(
            &mut extensions,
            &scripts,
            &timelines,
            &objects,
            &resolved.rooms,
            read,
        );
        let ghost prepared = Prepared {
            scripts: scripts@,
            shaders: shaders@,
            objects: objects@,
            timelines: timelines@,
            rooms: resolved.rooms@,
            numbered,
            extensions: extensions@,
        };
        assert(is_prepared(prepared, *project, drafts, read@, moved_by(*shift)));
        if let Err(error) = marked {
            return Err(error);
        }
        let paths_needed = collect_binary_paths(
            project,
            &extensions,
            &sounds,
            &sprites,
            &backgrounds,
            &fonts,
            config,
            target_mask,
            read,
        );
        assert(spelled(paths_needed@).len() == paths_needed@.len());
        let binary_files = match load_binary_files(&paths_needed, read) {
            Ok(files) => files,
            Err(error) => {
                return Err(error);
            },
        };
        let settings = match settings {
            Ok(settings) => settings,
            Err(error) => {
                return Err(error);
            },
        };
        Ok(
            Assets {
                config_index,
                extensions,
                sounds,
                sprites,
                backgrounds,
                paths,
                scripts,
                shaders,
                fonts,
                timelines,
                objects,
                rooms: resolved.rooms,
                next_room_instance_id: resolved.next_instance_id,
                next_room_tile_id: resolved.next_tile_id,
                next_extension_function_id,
                options: settings.options,
                target_mask: settings.target_mask,
                audio_groups: settings.audio_groups,
                constants: settings.constants,
                binary_files,
            },
        )
    }
}

} // verus!
