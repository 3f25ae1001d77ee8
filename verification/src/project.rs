//! The manifest of a project: its resources, included files, constants and
//! groups of sounds.

use vstd::prelude::*;

use crate::config::{ConfigError, EntryView};
use crate::gml::numbers::{integer_value, read_integer, read_unsigned, unsigned_value};
use crate::package::{ContentsView, FileContents};
use crate::path::{
    directory_of, file_name, file_stem, gmx_path, gmx_text, is_separator, join_path, last_dot,
    name_of_file, optional_view, parent, path_within, push_gmx_path, set_extension, with_extension,
    with_listed,
};
use crate::text::{
    characters, debug_quoted, debug_spelling, decimal, digits, same_text, spell, spelled, trim,
    trimmed,
};
use crate::xml::{
    attribute, attribute_of, document_steps, read_document, resolve_reference, resolved, step_views,
    EventView, StepView, XmlEvent, XmlStep,
};

verus! {

/// The kinds of resources.
#[derive(Debug, Clone, Copy, PartialEq, Eq, Hash, Structural)]
pub enum ResourceKind {
    Config,
    Extension,
    Sound,
    Sprite,
    Background,
    Path,
    Script,
    Shader,
    Font,
    Timeline,
    Object,
    Room,
}

impl ResourceKind {
    /// All kinds, in the order of their numbers.
    pub const ALL: [ResourceKind; 12] = [
        ResourceKind::Config,
        ResourceKind::Extension,
        ResourceKind::Sound,
        ResourceKind::Sprite,
        ResourceKind::Background,
        ResourceKind::Path,
        ResourceKind::Script,
        ResourceKind::Shader,
        ResourceKind::Font,
        ResourceKind::Timeline,
        ResourceKind::Object,
        ResourceKind::Room,
    ];

    /// The name of the kind.
    pub open spec fn label(self) -> Seq<char> {
        match self {
            ResourceKind::Config => "config"@,
            ResourceKind::Extension => "extension"@,
            ResourceKind::Sound => "sound"@,
            ResourceKind::Sprite => "sprite"@,
            ResourceKind::Background => "background"@,
            ResourceKind::Path => "path"@,
            ResourceKind::Script => "script"@,
            ResourceKind::Shader => "shader"@,
            ResourceKind::Font => "font"@,
            ResourceKind::Timeline => "timeline"@,
            ResourceKind::Object => "object"@,
            ResourceKind::Room => "room"@,
        }
    }

    /// Returns the name of the kind.
    pub fn text(self) -> (text: &'static str)
        ensures
            text@ == self.label(),
    {
        match self {
            ResourceKind::Config => "config",
            ResourceKind::Extension => "extension",
            ResourceKind::Sound => "sound",
            ResourceKind::Sprite => "sprite",
            ResourceKind::Background => "background",
            ResourceKind::Path => "path",
            ResourceKind::Script => "script",
            ResourceKind::Shader => "shader",
            ResourceKind::Font => "font",
            ResourceKind::Timeline => "timeline",
            ResourceKind::Object => "object",
            ResourceKind::Room => "room",
        }
    }
}

/// A resource that a manifest lists. Those of each kind are numbered.
#[derive(Debug, Clone, PartialEq, Eq)]
pub struct ResourceRef {
    pub kind: ResourceKind,
    pub index: usize,
    pub name: String,
    pub listed_path: String,
    pub relative_path: String,
    pub source: String,
    pub shader_type: Option<String>,
}

/// A [`ResourceRef`] as sequences of characters.
pub struct ResourceView {
    pub kind: ResourceKind,
    pub index: usize,
    pub name: Seq<char>,
    pub listed_path: Seq<char>,
    pub relative_path: Seq<char>,
    pub source: Seq<char>,
    pub shader_type: Option<Seq<char>>,
}

impl View for ResourceRef {
    type V = ResourceView;

    open spec fn view(&self) -> ResourceView {
        ResourceView {
            kind: self.kind,
            index: self.index,
            name: self.name@,
            listed_path: self.listed_path@,
            relative_path: self.relative_path@,
            source: self.source@,
            shader_type: optional_view(self.shader_type),
        }
    }
}

/// The targets that a configuration copies an included file to.
#[derive(Debug, Clone, PartialEq, Eq)]
pub struct DataFileConfig {
    pub name: String,
    pub copy_to_mask: i64,
}

/// A [`DataFileConfig`] as sequences of characters.
pub struct MaskView {
    pub name: Seq<char>,
    pub copy_to_mask: i64,
}

impl View for DataFileConfig {
    type V = MaskView;

    open spec fn view(&self) -> MaskView {
        MaskView { name: self.name@, copy_to_mask: self.copy_to_mask }
    }
}

/// What a list of configurations of an included file stands for.
pub open spec fn mask_views(configs: Seq<DataFileConfig>) -> Seq<MaskView> {
    configs.map_values(|config: DataFileConfig| config@)
}

/// An included file.
#[derive(Debug, Clone, PartialEq, Eq)]
pub struct DataFile {
    pub name: String,
    pub listed_filename: Option<String>,
    pub relative_path: String,
    pub source: String,
    pub exists: bool,
    pub size: u64,
    pub export_action: i32,
    pub export_dir: String,
    pub overwrite: bool,
    pub free_data: bool,
    pub remove_end: bool,
    pub store: bool,
    pub configs: Vec<DataFileConfig>,
}

/// A [`DataFile`] as sequences of characters.
pub struct DataFileView {
    pub name: Seq<char>,
    pub listed_filename: Option<Seq<char>>,
    pub relative_path: Seq<char>,
    pub source: Seq<char>,
    pub exists: bool,
    pub size: u64,
    pub export_action: i32,
    pub export_dir: Seq<char>,
    pub overwrite: bool,
    pub free_data: bool,
    pub remove_end: bool,
    pub store: bool,
    pub configs: Seq<MaskView>,
}

impl View for DataFile {
    type V = DataFileView;

    open spec fn view(&self) -> DataFileView {
        DataFileView {
            name: self.name@,
            listed_filename: optional_view(self.listed_filename),
            relative_path: self.relative_path@,
            source: self.source@,
            exists: self.exists,
            size: self.size,
            export_action: self.export_action,
            export_dir: self.export_dir@,
            overwrite: self.overwrite,
            free_data: self.free_data,
            remove_end: self.remove_end,
            store: self.store,
            configs: mask_views(self.configs@),
        }
    }
}

/// The mask of the first entry for a configuration, from an index on.
pub open spec fn mask_from(configs: Seq<MaskView>, config: Seq<char>, index: int) -> Option<i64>
    decreases configs.len() - index,
{
    if index < 0 || index >= configs.len() {
        None
    } else if configs[index].name == config {
        Some(configs[index].copy_to_mask)
    } else {
        mask_from(configs, config, index + 1)
    }
}

impl DataFile {
    /// Returns whether the file is copied to a target: a configuration copies
    /// it if it has no entry, or one that names the target.
    pub fn enabled_for(&self, config: &str, target_mask: i64) -> (result: bool)
        ensures
            result == match mask_from(self@.configs, config@, 0) {
                Some(mask) => (mask & target_mask) != 0,
                None => true,
            },
    {
        let ghost views = mask_views(self.configs@);
        let mut index: usize = 0;
        while index < self.configs.len()
            invariant
                index <= self.configs@.len(),
                views == mask_views(self.configs@),
                mask_from(views, config@, 0) == mask_from(views, config@, index as int),
            decreases self.configs.len() - index,
        {
            assert(views[index as int] == self.configs@[index as int]@);
            if same_text(self.configs[index].name.as_str(), config) {
                return (self.configs[index].copy_to_mask & target_mask) != 0;
            }
            index += 1;
        }
        true
    }
}

/// A constant of a project.
#[derive(Debug, Clone, PartialEq, Eq)]
pub struct ProjectConstant {
    pub name: String,
    pub value: String,
}

impl View for ProjectConstant {
    type V = EntryView;

    open spec fn view(&self) -> EntryView {
        EntryView { name: self.name@, value: self.value@ }
    }
}

/// A group of sounds that the project lists.
#[derive(Debug, Clone, PartialEq, Eq)]
pub struct AudioGroup {
    pub index: usize,
    pub name: String,
}

/// What a project consists of.
#[derive(Debug, Clone, PartialEq, Eq)]
pub struct ProjectManifest {
    pub name: String,
    pub project_file: String,
    pub root_dir: String,
    pub resources: Vec<ResourceRef>,
    pub data_files: Vec<DataFile>,
    pub constants: Vec<ProjectConstant>,
    pub audio_groups: Vec<AudioGroup>,
}

/// What lists of resources, included files, constants and groups stand for.
pub open spec fn resource_views(resources: Seq<ResourceRef>) -> Seq<ResourceView> {
    resources.map_values(|resource: ResourceRef| resource@)
}

pub open spec fn data_file_views(data_files: Seq<DataFile>) -> Seq<DataFileView> {
    data_files.map_values(|data_file: DataFile| data_file@)
}

pub open spec fn constant_views(constants: Seq<ProjectConstant>) -> Seq<EntryView> {
    constants.map_values(|constant: ProjectConstant| constant@)
}

/// Whether a list of groups has some names and is numbered in order.
pub open spec fn are_groups(groups: Seq<AudioGroup>, names: Seq<Seq<char>>) -> bool {
    &&& groups.len() == names.len()
    &&& forall|k: int|
        0 <= k < groups.len() ==> (#[trigger] groups[k]).index == k && groups[k].name@ == names[k]
}

/// The number of resources of a kind among the first.
pub open spec fn kind_count(
    resources: Seq<ResourceView>,
    kind: ResourceKind,
    count: int,
) -> nat
    decreases count,
{
    if count <= 0 {
        0
    } else {
        kind_count(resources, kind, count - 1) + (if resources[count - 1].kind == kind {
            1nat
        } else {
            0
        })
    }
}

/// The resources of a kind.
pub open spec fn of_kind(resources: Seq<ResourceView>, kind: ResourceKind, count: int) -> Seq<
    ResourceView,
>
    decreases count,
{
    if count <= 0 {
        seq![]
    } else {
        let before = of_kind(resources, kind, count - 1);
        if resources[count - 1].kind == kind {
            before.push(resources[count - 1])
        } else {
            before
        }
    }
}

fn count_kind(resources: &Vec<ResourceRef>, kind: ResourceKind) -> (count: usize)
    ensures
        count == kind_count(resource_views(resources@), kind, resources@.len() as int),
        count <= resources@.len(),
{
    let ghost views = resource_views(resources@);
    let mut count: usize = 0;
    let mut index: usize = 0;
    while index < resources.len()
        invariant
            index <= resources@.len(),
            count <= index,
            views == resource_views(resources@),
            count == kind_count(views, kind, index as int),
        decreases resources.len() - index,
    {
        assert(views[index as int] == resources@[index as int]@);
        if resources[index].kind == kind {
            count += 1;
        }
        index += 1;
    }
    count
}

/// What a list of borrowed resources stands for.
pub open spec fn borrowed_views(resources: Seq<&ResourceRef>) -> Seq<ResourceView> {
    resources.map_values(|resource: &ResourceRef| resource@)
}

impl ProjectManifest {
    /// Returns the resources of a kind in order.
    pub fn resources_of(&self, kind: ResourceKind) -> (resources: Vec<&ResourceRef>)
        ensures
            borrowed_views(resources@) == of_kind(
                resource_views(self.resources@),
                kind,
                self.resources@.len() as int,
            ),
    {
        let ghost views = resource_views(self.resources@);
        let mut found: Vec<&ResourceRef> = Vec::new();
        let mut index: usize = 0;
        assert(borrowed_views(found@) =~= seq![]);
        while index < self.resources.len()
            invariant
                index <= self.resources@.len(),
                views == resource_views(self.resources@),
                borrowed_views(found@) == of_kind(views, kind, index as int),
            decreases self.resources.len() - index,
        {
            let resource = &self.resources[index];
            let ghost before = borrowed_views(found@);
            assert(views[index as int] == resource@);
            if resource.kind == kind {
                found.push(resource);
                assert(borrowed_views(found@) =~= before.push(resource@));
            }
            index += 1;
        }
        found
    }

    /// Returns the number of resources of a kind.
    pub fn resource_count(&self, kind: ResourceKind) -> (count: usize)
        ensures
            count == kind_count(
                resource_views(self.resources@),
                kind,
                self.resources@.len() as int,
            ),
    {
        count_kind(&self.resources, kind)
    }

    /// Returns the first configuration with a name.
    pub fn find_config(&self, name: &str) -> (result: Result<&ResourceRef, ConfigError>)
        ensures
            match result {
                Ok(resource) => {
                    &&& resource.kind == ResourceKind::Config
                    &&& resource.name@ == name@
                    &&& exists|k: int|
                        0 <= k < self.resources@.len() && #[trigger] self.resources@[k] == *resource
                            && forall|j: int|
                            0 <= j < k ==> !is_config(#[trigger] self.resources@[j], name@)
                },
                Err(error) => {
                    &&& forall|j: int|
                        0 <= j < self.resources@.len() ==> !is_config(
                            #[trigger] self.resources@[j],
                            name@,
                        )
                    &&& error matches ConfigError::NotFound { project, name: missing } && project@
                        == self.project_file@ && missing@ == name@
                },
            },
    {
        let mut index: usize = 0;
        while index < self.resources.len()
            invariant
                index <= self.resources@.len(),
                forall|j: int| 0 <= j < index ==> !is_config(#[trigger] self.resources@[j], name@),
            decreases self.resources.len() - index,
        {
            let resource = &self.resources[index];
            if resource.kind == ResourceKind::Config && same_text(resource.name.as_str(), name) {
                return Ok(resource);
            }
            index += 1;
        }
        Err(
            ConfigError::NotFound {
                project: self.project_file.clone(),
                name: name.to_owned(),
            },
        )
    }
}

/// Whether a resource is the configuration with a name.
pub open spec fn is_config(resource: ResourceRef, name: Seq<char>) -> bool {
    resource.kind == ResourceKind::Config && resource.name@ == name
}

/// Why a manifest cannot be read.
#[derive(Debug, Clone, PartialEq, Eq)]
pub enum LoadError {
    Io { path: String, message: String },
    Xml { path: String, offset: u64, message: String },
    InvalidRoot { path: String, actual: String },
    MissingRoot { path: String },
    EmptyResourcePath { path: String, kind: ResourceKind },
    InvalidField { path: String, field: String, value: String },
    MissingDataFileName { path: String },
}

/// What is wrong with a manifest, without its path.
pub enum LoadFault {
    Xml { offset: u64, message: Seq<char> },
    InvalidRoot { actual: Seq<char> },
    MissingRoot,
    EmptyResourcePath { kind: ResourceKind },
    InvalidField { field: Seq<char>, value: Seq<char> },
    MissingDataFileName,
}

/// Whether an error says what is wrong with the manifest at a path.
pub open spec fn tells(error: LoadError, file: Seq<char>, fault: LoadFault) -> bool {
    match fault {
        LoadFault::Xml { offset, message } => error matches LoadError::Xml {
            path,
            offset: found_offset,
            message: found,
        } && path@ == file && found_offset == offset && found@ == message,
        LoadFault::InvalidRoot { actual } => error matches LoadError::InvalidRoot {
            path,
            actual: found,
        } && path@ == file && found@ == actual,
        LoadFault::MissingRoot => error matches LoadError::MissingRoot { path } && path@ == file,
        LoadFault::EmptyResourcePath { kind } => error matches LoadError::EmptyResourcePath {
            path,
            kind: found,
        } && path@ == file && found == kind,
        LoadFault::InvalidField { field, value } => error matches LoadError::InvalidField {
            path,
            field: found,
            value: found_value,
        } && path@ == file && found@ == field && found_value@ == value,
        LoadFault::MissingDataFileName => error matches LoadError::MissingDataFileName { path }
            && path@ == file,
    }
}

/// The message of an error.
pub open spec fn load_error_text(error: LoadError) -> Seq<char> {
    match error {
        LoadError::Io { path, message } => "cannot read "@ + path@ + ": "@ + message@,
        LoadError::Xml { path, offset, message } => "invalid XML in "@ + path@ + " near byte "@
            + digits(offset as nat, 10) + ": "@ + message@,
        LoadError::InvalidRoot { path, actual } => "invalid project root "@ + debug_spelling(
            actual@,
        ) + " in "@ + path@ + "; expected assets"@,
        LoadError::MissingRoot { path } => path@ + " does not contain an assets root"@,
        LoadError::EmptyResourcePath { path, kind } => "empty "@ + kind.label()
            + " path in project "@ + path@,
        LoadError::InvalidField { path, field, value } => "invalid "@ + field@ + " value "@
            + debug_spelling(value@) + " in project "@ + path@,
        LoadError::MissingDataFileName { path } => "datafile without a name in project "@ + path@,
    }
}

impl LoadError {
    /// Returns the message of the error.
    pub fn text(&self) -> (text: String)
        ensures
            text@ == load_error_text(*self),
    {
        match self {
            LoadError::Io { path, message } => {
                let mut text = "cannot read ".to_owned();
                text.append(path.as_str());
                text.append(": ");
                text.append(message.as_str());
                text
            },
            LoadError::Xml { path, offset, message } => {
                let mut text = "invalid XML in ".to_owned();
                text.append(path.as_str());
                text.append(" near byte ");
                let shown = decimal(*offset);
                text.append(shown.as_str());
                text.append(": ");
                text.append(message.as_str());
                text
            },
            LoadError::InvalidRoot { path, actual } => {
                let mut text = "invalid project root ".to_owned();
                let shown = debug_quoted(actual.as_str());
                text.append(shown.as_str());
                text.append(" in ");
                text.append(path.as_str());
                text.append("; expected assets");
                text
            },
            LoadError::MissingRoot { path } => {
                let mut text = path.clone();
                text.append(" does not contain an assets root");
                text
            },
            LoadError::EmptyResourcePath { path, kind } => {
                let mut text = "empty ".to_owned();
                text.append(kind.text());
                text.append(" path in project ");
                text.append(path.as_str());
                text
            },
            LoadError::InvalidField { path, field, value } => {
                let mut text = "invalid ".to_owned();
                text.append(field.as_str());
                text.append(" value ");
                let shown = debug_quoted(value.as_str());
                text.append(shown.as_str());
                text.append(" in project ");
                text.append(path.as_str());
                text
            },
            LoadError::MissingDataFileName { path } => {
                let mut text = "datafile without a name in project ".to_owned();
                text.append(path.as_str());
                text
            },
        }
    }
}

/// A field of an included file.
#[derive(Debug, Clone, Copy, PartialEq, Eq, Structural)]
pub enum DataField {
    Name,
    Exists,
    Size,
    ExportAction,
    ExportDir,
    Overwrite,
    FreeData,
    RemoveEnd,
    Store,
    Filename,
}

/// The field that an element holds.
pub open spec fn field_of(element: Seq<char>) -> Option<DataField> {
    if element == "name"@ {
        Some(DataField::Name)
    } else if element == "exists"@ {
        Some(DataField::Exists)
    } else if element == "size"@ {
        Some(DataField::Size)
    } else if element == "exportAction"@ {
        Some(DataField::ExportAction)
    } else if element == "exportDir"@ {
        Some(DataField::ExportDir)
    } else if element == "overwrite"@ {
        Some(DataField::Overwrite)
    } else if element == "freeData"@ {
        Some(DataField::FreeData)
    } else if element == "removeEnd"@ {
        Some(DataField::RemoveEnd)
    } else if element == "store"@ {
        Some(DataField::Store)
    } else if element == "filename"@ {
        Some(DataField::Filename)
    } else {
        None
    }
}

fn field_from_element(element: &str) -> (field: Option<DataField>)
    ensures
        field == field_of(element@),
{
    if same_text(element, "name") {
        Some(DataField::Name)
    } else if same_text(element, "exists") {
        Some(DataField::Exists)
    } else if same_text(element, "size") {
        Some(DataField::Size)
    } else if same_text(element, "exportAction") {
        Some(DataField::ExportAction)
    } else if same_text(element, "exportDir") {
        Some(DataField::ExportDir)
    } else if same_text(element, "overwrite") {
        Some(DataField::Overwrite)
    } else if same_text(element, "freeData") {
        Some(DataField::FreeData)
    } else if same_text(element, "removeEnd") {
        Some(DataField::RemoveEnd)
    } else if same_text(element, "store") {
        Some(DataField::Store)
    } else if same_text(element, "filename") {
        Some(DataField::Filename)
    } else {
        None
    }
}

/// The kind of resource that an element of a section lists.
pub open spec fn kind_of(section: Option<Seq<char>>, element: Seq<char>) -> Option<ResourceKind> {
    match section {
        None => None,
        Some(section) => if section == "Configs"@ && element == "Config"@ {
            Some(ResourceKind::Config)
        } else if section == "NewExtensions"@ && element == "extension"@ {
            Some(ResourceKind::Extension)
        } else if section == "sounds"@ && element == "sound"@ {
            Some(ResourceKind::Sound)
        } else if section == "sprites"@ && element == "sprite"@ {
            Some(ResourceKind::Sprite)
        } else if section == "backgrounds"@ && element == "background"@ {
            Some(ResourceKind::Background)
        } else if section == "paths"@ && element == "path"@ {
            Some(ResourceKind::Path)
        } else if section == "scripts"@ && element == "script"@ {
            Some(ResourceKind::Script)
        } else if section == "shaders"@ && element == "shader"@ {
            Some(ResourceKind::Shader)
        } else if section == "fonts"@ && element == "font"@ {
            Some(ResourceKind::Font)
        } else if section == "timelines"@ && element == "timeline"@ {
            Some(ResourceKind::Timeline)
        } else if section == "objects"@ && element == "object"@ {
            Some(ResourceKind::Object)
        } else if section == "rooms"@ && element == "room"@ {
            Some(ResourceKind::Room)
        } else {
            None
        },
    }
}

fn resource_kind(section: &str, element: &str) -> (kind: Option<ResourceKind>)
    ensures
        kind == kind_of(Some(section@), element@),
{
    if same_text(section, "Configs") && same_text(element, "Config") {
        Some(ResourceKind::Config)
    } else if same_text(section, "NewExtensions") && same_text(element, "extension") {
        Some(ResourceKind::Extension)
    } else if same_text(section, "sounds") && same_text(element, "sound") {
        Some(ResourceKind::Sound)
    } else if same_text(section, "sprites") && same_text(element, "sprite") {
        Some(ResourceKind::Sprite)
    } else if same_text(section, "backgrounds") && same_text(element, "background") {
        Some(ResourceKind::Background)
    } else if same_text(section, "paths") && same_text(element, "path") {
        Some(ResourceKind::Path)
    } else if same_text(section, "scripts") && same_text(element, "script") {
        Some(ResourceKind::Script)
    } else if same_text(section, "shaders") && same_text(element, "shader") {
        Some(ResourceKind::Shader)
    } else if same_text(section, "fonts") && same_text(element, "font") {
        Some(ResourceKind::Font)
    } else if same_text(section, "timelines") && same_text(element, "timeline") {
        Some(ResourceKind::Timeline)
    } else if same_text(section, "objects") && same_text(element, "object") {
        Some(ResourceKind::Object)
    } else if same_text(section, "rooms") && same_text(element, "room") {
        Some(ResourceKind::Room)
    } else {
        None
    }
}

/// The extension of the files of a kind.
pub open spec fn kind_extension(kind: ResourceKind) -> Seq<char> {
    match kind {
        ResourceKind::Config => "config.gmx"@,
        ResourceKind::Extension => "extension.gmx"@,
        ResourceKind::Sound => "sound.gmx"@,
        ResourceKind::Sprite => "sprite.gmx"@,
        ResourceKind::Background => "background.gmx"@,
        ResourceKind::Path => "path.gmx"@,
        ResourceKind::Script => "gml"@,
        ResourceKind::Shader => "shader"@,
        ResourceKind::Font => "font.gmx"@,
        ResourceKind::Timeline => "timeline.gmx"@,
        ResourceKind::Object => "object.gmx"@,
        ResourceKind::Room => "room.gmx"@,
    }
}

/// The path of a resource within the project. The name of an extension may
/// hold dots.
pub open spec fn resource_place(kind: ResourceKind, listed: Seq<char>) -> Seq<char> {
    if kind is Extension {
        gmx_text(listed + ".extension.gmx"@)
    } else {
        with_extension(gmx_text(listed), kind_extension(kind))
    }
}

/// Returns the path of a resource within the project.
pub fn resource_path(kind: ResourceKind, listed_path: &str) -> (path: String)
    ensures
        path@ == resource_place(kind, listed_path@),
{
    let extension = match kind {
        ResourceKind::Config => "config.gmx",
        ResourceKind::Extension => {
            let mut listed = listed_path.to_owned();
            listed.append(".extension.gmx");
            return gmx_path(listed.as_str());
        },
        ResourceKind::Sound => "sound.gmx",
        ResourceKind::Sprite => "sprite.gmx",
        ResourceKind::Background => "background.gmx",
        ResourceKind::Path => "path.gmx",
        ResourceKind::Script => "gml",
        ResourceKind::Shader => "shader",
        ResourceKind::Font => "font.gmx",
        ResourceKind::Timeline => "timeline.gmx",
        ResourceKind::Object => "object.gmx",
        ResourceKind::Room => "room.gmx",
    };
    let path = gmx_path(listed_path);
    set_extension(path.as_str(), extension)
}

/// The start of the last component of a listed path.
pub open spec fn listed_name_start(listed: Seq<char>, end: int) -> int
    decreases end,
{
    if 0 < end <= listed.len() && !is_separator(listed[end - 1]) {
        listed_name_start(listed, end - 1)
    } else {
        end
    }
}

/// The name of a resource: the last component of its listed path, for some
/// kinds without what follows its last dot.
pub open spec fn resource_label(kind: ResourceKind, listed: Seq<char>) -> Seq<char> {
    let name = listed.skip(listed_name_start(listed, listed.len() as int));
    let dot = last_dot(name, name.len() as int);
    if (kind is Config || kind is Extension || kind is Script || kind is Shader) && dot >= 0 {
        name.take(dot)
    } else {
        name
    }
}

/// Returns the name of a resource.
pub fn resource_name(kind: ResourceKind, listed_path: &str) -> (name: String)
    ensures
        name@ == resource_label(kind, listed_path@),
{
    let letters = characters(listed_path);
    let length = letters.len();
    let mut start: usize = length;
    while start > 0 && letters[start - 1] != '/' && letters[start - 1] != '\\'
        invariant
            start <= length,
            length == letters.len(),
            letters@ == listed_path@,
            listed_name_start(listed_path@, listed_path@.len() as int) == listed_name_start(
                listed_path@,
                start as int,
            ),
        decreases start,
    {
        start -= 1;
    }
    let name = vstd::slice::slice_subrange(letters.as_slice(), start, length);
    assert(name@ =~= listed_path@.skip(start as int));
    if matches!(
        kind,
        ResourceKind::Config
            | ResourceKind::Extension
            | ResourceKind::Script
            | ResourceKind::Shader
    ) {
        if let Some(dot) = crate::path::dot_of(name) {
            let stem = vstd::slice::slice_subrange(name, 0, dot);
            assert(stem@ =~= name@.take(dot as int));
            return spell(stem);
        }
    }
    spell(name)
}

/// Whether a text ends with another one.
pub open spec fn has_suffix(text: Seq<char>, suffix: Seq<char>) -> bool {
    text.len() >= suffix.len() && text.skip(text.len() - suffix.len()) == suffix
}

/// The name of the project at a path: that of its file, without the extension
/// of projects, or else without its extension.
pub open spec fn project_label(path: Seq<char>) -> Seq<char> {
    match name_of_file(path) {
        None => seq![],
        Some(name) => if has_suffix(name, ".project.gmx"@) {
            name.take(name.len() - ".project.gmx"@.len())
        } else {
            crate::path::stem_of_name(name)
        },
    }
}

/// Returns the name of the project at a path.
pub fn project_name(path: &str) -> (name: String)
    ensures
        name@ == project_label(path@),
{
    let name = match file_name(path) {
        Some(name) => name,
        None => {
            let empty = String::new();
            assert(empty@ =~= seq![]);
            return empty;
        },
    };
    let letters = characters(name.as_str());
    let suffix = characters(".project.gmx");
    let length = letters.len();
    let count = suffix.len();
    if length >= count {
        let end = vstd::slice::slice_subrange(letters.as_slice(), length - count, length);
        assert(end@ =~= name@.skip(length - count));
        if crate::text::spells(end, ".project.gmx") {
            let start = vstd::slice::slice_subrange(letters.as_slice(), 0, length - count);
            assert(start@ =~= name@.take(length - count));
            return spell(start);
        }
    }
    match file_stem(path) {
        Some(stem) => stem,
        None => name,
    }
}

/// A text with its capital ASCII letters made small.
pub open spec fn lowered(text: Seq<char>) -> Seq<char> {
    text.map_values(
        |character: char|
            if 'A' <= character <= 'Z' {
                (character as u8 + 32) as char
            } else {
                character
            },
    )
}

/// The truth value that a text stands for: a number other than zero, or a word.
pub open spec fn truth_of(value: Seq<char>) -> Option<bool> {
    match integer_value(value, 10) {
        Some(number) => Some(number != 0),
        None => if lowered(value) == "true"@ {
            Some(true)
        } else if lowered(value) == "false"@ {
            Some(false)
        } else {
            None
        },
    }
}

pub(crate) fn lower(letters: &[char]) -> (lowercase: Vec<char>)
    ensures
        lowercase@ == lowered(letters@),
{
    let mut lowercase: Vec<char> = Vec::new();
    let mut index: usize = 0;
    while index < letters.len()
        invariant
            index <= letters.len(),
            lowercase@.len() == index,
            forall|k: int| 0 <= k < index ==> lowercase@[k] == lowered(letters@)[k],
        decreases letters.len() - index,
    {
        lowercase.push(lower_character(letters[index]));
        index += 1;
    }
    assert(lowercase@ =~= lowered(letters@));
    lowercase
}

fn lower_character(character: char) -> (lowercase: char)
    ensures
        lowercase == (if 'A' <= character <= 'Z' {
            (character as u8 + 32) as char
        } else {
            character
        }),
{
    if 'A' <= character && character <= 'Z' {
        (character as u8 + 32) as char
    } else {
        character
    }
}

pub(crate) fn read_truth(value: &str) -> (truth: Option<bool>)
    ensures
        truth == truth_of(value@),
{
    let letters = characters(value);
    if let Some(number) = read_integer(letters.as_slice(), 10) {
        return Some(number != 0);
    }
    let lowercase = lower(letters.as_slice());
    if crate::text::spells(lowercase.as_slice(), "true") {
        Some(true)
    } else if crate::text::spells(lowercase.as_slice(), "false") {
        Some(false)
    } else {
        None
    }
}

/// An included file that is being read.
pub struct Draft {
    pub groups: Seq<Seq<char>>,
    pub name: Option<Seq<char>>,
    pub listed_filename: Option<Seq<char>>,
    pub exists: bool,
    pub size: u64,
    pub export_action: i32,
    pub export_dir: Seq<char>,
    pub overwrite: bool,
    pub free_data: bool,
    pub remove_end: bool,
    pub store: bool,
    pub configs: Seq<MaskView>,
    pub current_config: Option<Seq<char>>,
}

/// An included file of which only the groups are known.
pub open spec fn new_draft(groups: Seq<Seq<char>>) -> Draft {
    Draft {
        groups,
        name: None,
        listed_filename: None,
        exists: false,
        size: 0,
        export_action: 0,
        export_dir: seq![],
        overwrite: false,
        free_data: false,
        remove_end: false,
        store: false,
        configs: seq![],
        current_config: None,
    }
}

/// A field with a value that it cannot have.
pub open spec fn bad_field(field: Seq<char>, value: Seq<char>) -> LoadFault {
    LoadFault::InvalidField { field, value }
}

impl Draft {
    /// With the value of a field.
    pub open spec fn with_field(self, field: DataField, value: Seq<char>) -> Result<
        Draft,
        LoadFault,
    > {
        match field {
            DataField::Name => Ok(Draft { name: Some(value), ..self }),
            DataField::Exists => match truth_of(value) {
                Some(exists) => Ok(Draft { exists, ..self }),
                None => Err(bad_field("exists"@, value)),
            },
            DataField::Size => match unsigned_value(value, 10, u64::MAX as int) {
                Some(size) => Ok(Draft { size: size as u64, ..self }),
                None => Err(bad_field("size"@, value)),
            },
            DataField::ExportAction => match integer_value(value, 10) {
                Some(action) => if i32::MIN <= action <= i32::MAX {
                    Ok(Draft { export_action: action as i32, ..self })
                } else {
                    Err(bad_field("exportAction"@, value))
                },
                None => Err(bad_field("exportAction"@, value)),
            },
            DataField::ExportDir => Ok(Draft { export_dir: value, ..self }),
            DataField::Overwrite => match truth_of(value) {
                Some(overwrite) => Ok(Draft { overwrite, ..self }),
                None => Err(bad_field("overwrite"@, value)),
            },
            DataField::FreeData => match truth_of(value) {
                Some(free_data) => Ok(Draft { free_data, ..self }),
                None => Err(bad_field("freeData"@, value)),
            },
            DataField::RemoveEnd => match truth_of(value) {
                Some(remove_end) => Ok(Draft { remove_end, ..self }),
                None => Err(bad_field("removeEnd"@, value)),
            },
            DataField::Store => match truth_of(value) {
                Some(store) => Ok(Draft { store, ..self }),
                None => Err(bad_field("store"@, value)),
            },
            DataField::Filename => Ok(Draft { listed_filename: Some(value), ..self }),
        }
    }

    /// The included file, within a directory.
    pub open spec fn finished(self, root: Seq<char>) -> Result<DataFileView, LoadFault> {
        match self.name {
            None => Err(LoadFault::MissingDataFileName),
            Some(name) => if name.len() == 0 {
                Err(LoadFault::MissingDataFileName)
            } else {
                let relative_path = with_listed(
                    grouped_path(self.groups, self.groups.len() as int),
                    name,
                );
                Ok(
                    DataFileView {
                        name,
                        listed_filename: self.listed_filename,
                        relative_path,
                        source: path_within(root, relative_path),
                        exists: self.exists,
                        size: self.size,
                        export_action: self.export_action,
                        export_dir: self.export_dir,
                        overwrite: self.overwrite,
                        free_data: self.free_data,
                        remove_end: self.remove_end,
                        store: self.store,
                        configs: self.configs,
                    },
                )
            },
        }
    }
}

/// The path of the first groups of included files.
pub open spec fn grouped_path(groups: Seq<Seq<char>>, count: int) -> Seq<char>
    decreases count,
{
    if count <= 0 {
        seq![]
    } else {
        with_listed(grouped_path(groups, count - 1), groups[count - 1])
    }
}

/// What the text of an element is for.
pub enum CaptureGoal {
    Resource { kind: ResourceKind, shader_type: Option<Seq<char>> },
    Constant { name: Seq<char> },
    Field(DataField),
    CopyToMask { config: Seq<char> },
}

/// An element whose text is being read.
pub struct Capture {
    pub element: Seq<char>,
    pub goal: CaptureGoal,
    pub text: Seq<char>,
}

/// What is read of a manifest.
pub struct Manifest {
    pub root: Seq<char>,
    pub resources: Seq<ResourceView>,
    pub data_files: Seq<DataFileView>,
    pub constants: Seq<EntryView>,
    pub audio_groups: Seq<Seq<char>>,
    pub stack: Seq<Seq<char>>,
    pub groups: Seq<Seq<char>>,
    pub data_file: Option<Draft>,
    pub capture: Option<Capture>,
    pub root_seen: bool,
}

/// A fault of the document.
pub open spec fn xml_fault(offset: u64, message: Seq<char>) -> LoadFault {
    LoadFault::Xml { offset, message }
}

/// The value of an attribute, or a text in its place.
pub open spec fn attribute_or(
    attributes: Seq<char>,
    key: Seq<char>,
    other: Seq<char>,
    offset: u64,
) -> Result<Seq<char>, LoadFault> {
    match attribute_of(attributes, key) {
        Ok(Some(value)) => Ok(value),
        Ok(None) => Ok(other),
        Err(message) => Err(xml_fault(offset, message)),
    }
}

impl Manifest {
    /// The section that is being read.
    pub open spec fn section(self) -> Option<Seq<char>> {
        if self.stack.len() > 1 {
            Some(self.stack[1])
        } else {
            None
        }
    }

    /// The element around what is being read.
    pub open spec fn around(self) -> Option<Seq<char>> {
        if self.stack.len() > 0 {
            Some(self.stack.last())
        } else {
            None
        }
    }

    /// With an element whose text is read.
    pub open spec fn capturing(
        self,
        element: Seq<char>,
        goal: CaptureGoal,
        offset: u64,
    ) -> Result<Manifest, LoadFault> {
        if self.capture is Some {
            Err(xml_fault(offset, "nested text fields are not supported"@))
        } else {
            Ok(
                Manifest {
                    capture: Some(Capture { element, goal, text: seq![] }),
                    ..self
                },
            )
        }
    }

    /// With what the start of an element of an included file begins.
    pub open spec fn within_file(
        self,
        draft: Draft,
        name: Seq<char>,
        attributes: Seq<char>,
        offset: u64,
    ) -> Result<Manifest, LoadFault> {
        if self.around() == Some("datafile"@) {
            match field_of(name) {
                Some(field) => self.capturing(name, CaptureGoal::Field(field), offset),
                None => Ok(self),
            }
        } else if self.around() == Some("ConfigOptions"@) && name == "Config"@ {
            match attribute_or(attributes, "name"@, seq![], offset) {
                Ok(config) => Ok(
                    Manifest {
                        data_file: Some(Draft { current_config: Some(config), ..draft }),
                        ..self
                    },
                ),
                Err(fault) => Err(fault),
            }
        } else if self.around() == Some("Config"@) && name == "CopyToMask"@ {
            self.capturing(
                name,
                CaptureGoal::CopyToMask {
                    config: match draft.current_config {
                        Some(config) => config,
                        None => seq![],
                    },
                },
                offset,
            )
        } else {
            Ok(self)
        }
    }

    /// With what the start of an element begins.
    pub open spec fn begun(
        self,
        name: Seq<char>,
        attributes: Seq<char>,
        offset: u64,
    ) -> Result<Manifest, LoadFault> {
        let section = self.section();
        if name == "datafiles"@ && (section is None || section == Some("datafiles"@)) {
            match attribute_or(attributes, "name"@, seq![], offset) {
                Ok(group) => Ok(Manifest { groups: self.groups.push(group), ..self }),
                Err(fault) => Err(fault),
            }
        } else if name == "datafile"@ && section == Some("datafiles"@) {
            if self.data_file is Some {
                Err(xml_fault(offset, "nested datafile elements are not supported"@))
            } else {
                Ok(Manifest { data_file: Some(new_draft(self.groups)), ..self })
            }
        } else if kind_of(section, name) is Some {
            let kind = kind_of(section, name).unwrap();
            if kind is Shader {
                match attribute_or(attributes, "type"@, "GLSLES"@, offset) {
                    Ok(shader_type) => self.capturing(
                        name,
                        CaptureGoal::Resource { kind, shader_type: Some(shader_type) },
                        offset,
                    ),
                    Err(fault) => Err(fault),
                }
            } else {
                self.capturing(name, CaptureGoal::Resource { kind, shader_type: None }, offset)
            }
        } else if section == Some("constants"@) && name == "constant"@ {
            match attribute_or(attributes, "name"@, seq![], offset) {
                Ok(constant) => self.capturing(
                    name,
                    CaptureGoal::Constant { name: constant },
                    offset,
                ),
                Err(fault) => Err(fault),
            }
        } else if section == Some("audiogroups"@) && name == "audiogroup"@ {
            match attribute_or(attributes, "name"@, seq![], offset) {
                Ok(group) => Ok(
                    Manifest { audio_groups: self.audio_groups.push(group), ..self },
                ),
                Err(fault) => Err(fault),
            }
        } else {
            match self.data_file {
                Some(draft) => self.within_file(draft, name, attributes, offset),
                None => Ok(self),
            }
        }
    }

    /// With the start of an element.
    pub open spec fn started(
        self,
        name: Seq<char>,
        attributes: Seq<char>,
        offset: u64,
    ) -> Result<Manifest, LoadFault> {
        if self.stack.len() == 0 && (self.root_seen || name != "assets"@) {
            Err(LoadFault::InvalidRoot { actual: name })
        } else {
            let seen = Manifest { root_seen: self.root_seen || self.stack.len() == 0, ..self };
            match seen.begun(name, attributes, offset) {
                Ok(begun) => Ok(Manifest { stack: begun.stack.push(name), ..begun }),
                Err(fault) => Err(fault),
            }
        }
    }

    /// With a resource.
    pub open spec fn with_resource(
        self,
        kind: ResourceKind,
        shader_type: Option<Seq<char>>,
        listed: Seq<char>,
    ) -> Manifest {
        let relative_path = resource_place(kind, listed);
        Manifest {
            resources: self.resources.push(
                ResourceView {
                    kind,
                    index: kind_count(
                        self.resources,
                        kind,
                        self.resources.len() as int,
                    ) as usize,
                    name: resource_label(kind, listed),
                    listed_path: listed,
                    relative_path,
                    source: path_within(self.root, relative_path),
                    shader_type,
                },
            ),
            ..self
        }
    }

    /// With the text of an element.
    pub open spec fn captured(self, capture: Capture) -> Result<Manifest, LoadFault> {
        let value = trimmed(capture.text);
        match capture.goal {
            CaptureGoal::Resource { kind, shader_type } => if value.len() == 0 {
                Err(LoadFault::EmptyResourcePath { kind })
            } else {
                Ok(self.with_resource(kind, shader_type, value))
            },
            CaptureGoal::Constant { name } => Ok(
                Manifest { constants: self.constants.push(EntryView { name, value }), ..self },
            ),
            CaptureGoal::Field(field) => match self.data_file {
                Some(draft) => match draft.with_field(field, value) {
                    Ok(draft) => Ok(Manifest { data_file: Some(draft), ..self }),
                    Err(fault) => Err(fault),
                },
                None => Ok(self),
            },
            CaptureGoal::CopyToMask { config } => match integer_value(value, 10) {
                None => Err(bad_field("CopyToMask"@, value)),
                Some(mask) => match self.data_file {
                    Some(draft) => Ok(
                        Manifest {
                            data_file: Some(
                                Draft {
                                    configs: draft.configs.push(
                                        MaskView { name: config, copy_to_mask: mask as i64 },
                                    ),
                                    ..draft
                                },
                            ),
                            ..self
                        },
                    ),
                    None => Ok(self),
                },
            },
        }
    }

    /// With the text of an element that ends.
    pub open spec fn uncaptured(self, name: Seq<char>) -> Result<Manifest, LoadFault> {
        match self.capture {
            Some(capture) => if capture.element == name {
                Manifest { capture: None, ..self }.captured(capture)
            } else {
                Ok(self)
            },
            None => Ok(self),
        }
    }

    /// With what the end of an element completes.
    pub open spec fn completed(self, name: Seq<char>, offset: u64) -> Result<Manifest, LoadFault> {
        if name == "Config"@ {
            match self.data_file {
                Some(draft) => Ok(
                    Manifest {
                        data_file: Some(Draft { current_config: None, ..draft }),
                        ..self
                    },
                ),
                None => Ok(self),
            }
        } else if name == "datafile"@ {
            match self.data_file {
                Some(draft) => match draft.finished(self.root) {
                    Ok(data_file) => Ok(
                        Manifest {
                            data_file: None,
                            data_files: self.data_files.push(data_file),
                            ..self
                        },
                    ),
                    Err(fault) => Err(fault),
                },
                None => Err(xml_fault(offset, "closing datafile without an opening tag"@)),
            }
        } else if name == "datafiles"@ {
            if self.groups.len() == 0 {
                Err(xml_fault(offset, "unbalanced datafiles element"@))
            } else {
                Ok(Manifest { groups: self.groups.drop_last(), ..self })
            }
        } else {
            Ok(self)
        }
    }

    /// With an element closed.
    pub open spec fn closed(self, name: Seq<char>, offset: u64) -> Result<Manifest, LoadFault> {
        if self.stack.len() == 0 {
            Err(xml_fault(offset, "closing tag without an opening tag"@))
        } else if self.stack.last() != name {
            Err(
                xml_fault(
                    offset,
                    "closing tag "@ + name + " does not match "@ + self.stack.last(),
                ),
            )
        } else {
            Ok(Manifest { stack: self.stack.drop_last(), ..self })
        }
    }

    /// With the end of an element.
    pub open spec fn ended(self, name: Seq<char>, offset: u64) -> Result<Manifest, LoadFault> {
        match self.uncaptured(name) {
            Err(fault) => Err(fault),
            Ok(manifest) => match manifest.completed(name, offset) {
                Err(fault) => Err(fault),
                Ok(manifest) => manifest.closed(name, offset),
            },
        }
    }

    /// With more text.
    pub open spec fn with_text(self, text: Seq<char>) -> Manifest {
        match self.capture {
            Some(capture) => Manifest {
                capture: Some(Capture { text: capture.text + text, ..capture }),
                ..self
            },
            None => self,
        }
    }

    /// With an event.
    pub open spec fn stepped(self, step: StepView) -> Result<Manifest, LoadFault> {
        match step.event {
            EventView::Start { name, attributes } => self.started(name, attributes, step.offset),
            EventView::End { name } => self.ended(name, step.offset),
            EventView::Text(text) => Ok(self.with_text(text)),
            EventView::Reference(reference) => if self.capture is None {
                Ok(self)
            } else {
                match resolved(reference) {
                    Ok(character) => Ok(self.with_text(seq![character])),
                    Err(message) => Err(xml_fault(step.offset, message)),
                }
            },
            EventView::Other => Ok(self),
            EventView::Eof => Ok(self),
            EventView::Fault(message) => Err(xml_fault(step.offset, message)),
        }
    }
}

/// What is read before the first event.
pub open spec fn empty_manifest(root: Seq<char>) -> Manifest {
    Manifest {
        root,
        resources: seq![],
        data_files: seq![],
        constants: seq![],
        audio_groups: seq![],
        stack: seq![],
        groups: seq![],
        data_file: None,
        capture: None,
        root_seen: false,
    }
}

/// What is read with the first events.
pub open spec fn read_steps(root: Seq<char>, steps: Seq<StepView>, count: int) -> Result<
    Manifest,
    LoadFault,
>
    decreases count,
{
    if count <= 0 {
        Ok(empty_manifest(root))
    } else {
        match read_steps(root, steps, count - 1) {
            Ok(manifest) => manifest.stepped(steps[count - 1]),
            Err(fault) => Err(fault),
        }
    }
}

/// The manifest that the events of a document make.
pub open spec fn manifest_of(path: Seq<char>, steps: Seq<StepView>) -> Result<
    Manifest,
    LoadFault,
> {
    match read_steps(directory_of(path), steps, steps.len() as int) {
        Err(fault) => Err(fault),
        Ok(manifest) => if !manifest.root_seen {
            Err(LoadFault::MissingRoot)
        } else if manifest.stack.len() > 0 || manifest.capture is Some || manifest.data_file is Some {
            Err(xml_fault(0, "project XML ended with unclosed elements"@))
        } else {
            Ok(manifest)
        },
    }
}

/// Whether a project is what its manifest says.
pub open spec fn is_project(project: ProjectManifest, path: Seq<char>, manifest: Manifest) -> bool {
    &&& project.name@ == project_label(path)
    &&& project.project_file@ == path
    &&& project.root_dir@ == directory_of(path)
    &&& resource_views(project.resources@) == manifest.resources
    &&& data_file_views(project.data_files@) == manifest.data_files
    &&& constant_views(project.constants@) == manifest.constants
    &&& are_groups(project.audio_groups@, manifest.audio_groups)
}

struct DataFileBuilder {
    groups: Vec<String>,
    name: Option<String>,
    listed_filename: Option<String>,
    exists: bool,
    size: u64,
    export_action: i32,
    export_dir: String,
    overwrite: bool,
    free_data: bool,
    remove_end: bool,
    store: bool,
    configs: Vec<DataFileConfig>,
    current_config: Option<String>,
}

impl View for DataFileBuilder {
    type V = Draft;

    closed spec fn view(&self) -> Draft {
        Draft {
            groups: spelled(self.groups@),
            name: optional_view(self.name),
            listed_filename: optional_view(self.listed_filename),
            exists: self.exists,
            size: self.size,
            export_action: self.export_action,
            export_dir: self.export_dir@,
            overwrite: self.overwrite,
            free_data: self.free_data,
            remove_end: self.remove_end,
            store: self.store,
            configs: mask_views(self.configs@),
            current_config: optional_view(self.current_config),
        }
    }
}

enum CaptureTarget {
    Resource { kind: ResourceKind, shader_type: Option<String> },
    Constant { name: String },
    Field(DataField),
    CopyToMask { config: String },
}

impl View for CaptureTarget {
    type V = CaptureGoal;

    closed spec fn view(&self) -> CaptureGoal {
        match self {
            CaptureTarget::Resource { kind, shader_type } => CaptureGoal::Resource {
                kind: *kind,
                shader_type: optional_view(*shader_type),
            },
            CaptureTarget::Constant { name } => CaptureGoal::Constant { name: name@ },
            CaptureTarget::Field(field) => CaptureGoal::Field(*field),
            CaptureTarget::CopyToMask { config } => CaptureGoal::CopyToMask { config: config@ },
        }
    }
}

struct TextCapture {
    element: String,
    target: CaptureTarget,
    text: String,
}

impl View for TextCapture {
    type V = Capture;

    closed spec fn view(&self) -> Capture {
        Capture { element: self.element@, goal: self.target@, text: self.text@ }
    }
}

spec fn draft_view(draft: Option<DataFileBuilder>) -> Option<Draft> {
    match draft {
        Some(draft) => Some(draft@),
        None => None,
    }
}

spec fn capture_view(capture: Option<TextCapture>) -> Option<Capture> {
    match capture {
        Some(capture) => Some(capture@),
        None => None,
    }
}

spec fn group_names(groups: Seq<AudioGroup>) -> Seq<Seq<char>> {
    groups.map_values(|group: AudioGroup| group.name@)
}

struct ManifestParser {
    root_dir: String,
    resources: Vec<ResourceRef>,
    data_files: Vec<DataFile>,
    constants: Vec<ProjectConstant>,
    audio_groups: Vec<AudioGroup>,
    stack: Vec<String>,
    data_file_groups: Vec<String>,
    data_file: Option<DataFileBuilder>,
    capture: Option<TextCapture>,
    root_seen: bool,
}

impl View for ManifestParser {
    type V = Manifest;

    closed spec fn view(&self) -> Manifest {
        Manifest {
            root: self.root_dir@,
            resources: resource_views(self.resources@),
            data_files: data_file_views(self.data_files@),
            constants: constant_views(self.constants@),
            audio_groups: group_names(self.audio_groups@),
            stack: spelled(self.stack@),
            groups: spelled(self.data_file_groups@),
            data_file: draft_view(self.data_file),
            capture: capture_view(self.capture),
            root_seen: self.root_seen,
        }
    }
}

/// What a step of reading leads to.
spec fn leads_to(
    result: Result<(), LoadError>,
    now: Manifest,
    path: Seq<char>,
    expected: Result<Manifest, LoadFault>,
) -> bool {
    match result {
        Ok(()) => expected == Ok::<Manifest, LoadFault>(now),
        Err(error) => expected matches Err(fault) && tells(error, path, fault),
    }
}

fn xml_error(path: &str, offset: u64, message: &str) -> (error: LoadError)
    ensures
        tells(error, path@, xml_fault(offset, message@)),
{
    LoadError::Xml { path: path.to_owned(), offset, message: message.to_owned() }
}

fn field_error(path: &str, field: &str, value: &str) -> (error: LoadError)
    ensures
        tells(error, path@, bad_field(field@, value@)),
{
    LoadError::InvalidField {
        path: path.to_owned(),
        field: field.to_owned(),
        value: value.to_owned(),
    }
}

fn attribute_text(
    path: &str,
    attributes: &str,
    key: &str,
    other: &str,
    offset: u64,
) -> (result: Result<String, LoadError>)
    ensures
        match result {
            Ok(value) => attribute_or(attributes@, key@, other@, offset) == Ok::<
                Seq<char>,
                LoadFault,
            >(value@),
            Err(error) => attribute_or(attributes@, key@, other@, offset) matches Err(fault)
                && tells(error, path@, fault),
        },
{
    match attribute(attributes, key) {
        Ok(Some(value)) => Ok(value),
        Ok(None) => Ok(other.to_owned()),
        Err(message) => Err(xml_error(path, offset, message.as_str())),
    }
}

fn attribute_or_nothing(
    path: &str,
    attributes: &str,
    key: &str,
    offset: u64,
) -> (result: Result<String, LoadError>)
    ensures
        match result {
            Ok(value) => attribute_or(attributes@, key@, seq![], offset) == Ok::<
                Seq<char>,
                LoadFault,
            >(value@),
            Err(error) => attribute_or(attributes@, key@, seq![], offset) matches Err(fault)
                && tells(error, path@, fault),
        },
{
    proof {
        reveal_strlit("");
        assert(""@ =~= seq![]);
    }
    attribute_text(path, attributes, key, "", offset)
}

fn clone_texts(texts: &Vec<String>) -> (copy: Vec<String>)
    ensures
        spelled(copy@) == spelled(texts@),
{
    let mut copy: Vec<String> = Vec::new();
    let mut index: usize = 0;
    while index < texts.len()
        invariant
            index <= texts@.len(),
            copy@.len() == index,
            forall|k: int| 0 <= k < index ==> (#[trigger] copy@[k])@ == texts@[k]@,
        decreases texts.len() - index,
    {
        copy.push(texts[index].clone());
        index += 1;
    }
    assert(spelled(copy@) =~= spelled(texts@));
    copy
}

impl DataFileBuilder {
    fn new(groups: Vec<String>) -> (draft: Self)
        ensures
            draft@ == new_draft(spelled(groups@)),
    {
        let draft = DataFileBuilder {
            groups,
            name: None,
            listed_filename: None,
            exists: false,
            size: 0,
            export_action: 0,
            export_dir: String::new(),
            overwrite: false,
            free_data: false,
            remove_end: false,
            store: false,
            configs: Vec::new(),
            current_config: None,
        };
        proof {
            assert(draft.export_dir@ =~= seq![]);
            assert(mask_views(draft.configs@) =~= seq![]);
        }
        draft
    }

    #[verifier::spinoff_prover]
    fn with_value(self, field: DataField, value: &str, path: &str) -> (result: Result<
        DataFileBuilder,
        LoadError,
    >)
        ensures
            match result {
                Ok(draft) => self@.with_field(field, value@) == Ok::<Draft, LoadFault>(draft@),
                Err(error) => self@.with_field(field, value@) matches Err(fault) && tells(
                    error,
                    path@,
                    fault,
                ),
            },
    {
        let mut draft = self;
        match field {
            DataField::Name => {
                draft.name = Some(value.to_owned());
            },
            DataField::Exists => match read_truth(value) {
                Some(truth) => {
                    draft.exists = truth;
                },
                None => {
                    return Err(field_error(path, "exists", value));
                },
            },
            DataField::Size => {
                let letters = characters(value);
                match read_unsigned(letters.as_slice(), 10, u64::MAX) {
                    Some(size) => {
                        draft.size = size;
                    },
                    None => {
                        return Err(field_error(path, "size", value));
                    },
                }
            },
            DataField::ExportAction => {
                let letters = characters(value);
                match read_integer(letters.as_slice(), 10) {
                    Some(action) => {
                        if i32::MIN as i64 <= action && action <= i32::MAX as i64 {
                            draft.export_action = action as i32;
                        } else {
                            return Err(field_error(path, "exportAction", value));
                        }
                    },
                    None => {
                        return Err(field_error(path, "exportAction", value));
                    },
                }
            },
            DataField::ExportDir => {
                draft.export_dir = value.to_owned();
            },
            DataField::Overwrite => match read_truth(value) {
                Some(truth) => {
                    draft.overwrite = truth;
                },
                None => {
                    return Err(field_error(path, "overwrite", value));
                },
            },
            DataField::FreeData => match read_truth(value) {
                Some(truth) => {
                    draft.free_data = truth;
                },
                None => {
                    return Err(field_error(path, "freeData", value));
                },
            },
            DataField::RemoveEnd => match read_truth(value) {
                Some(truth) => {
                    draft.remove_end = truth;
                },
                None => {
                    return Err(field_error(path, "removeEnd", value));
                },
            },
            DataField::Store => match read_truth(value) {
                Some(truth) => {
                    draft.store = truth;
                },
                None => {
                    return Err(field_error(path, "store", value));
                },
            },
            DataField::Filename => {
                draft.listed_filename = Some(value.to_owned());
            },
        }
        Ok(draft)
    }

    #[verifier::spinoff_prover]
    fn finish(self, path: &str, root: &str) -> (result: Result<DataFile, LoadError>)
        ensures
            match result {
                Ok(data_file) => self@.finished(root@) == Ok::<DataFileView, LoadFault>(
                    data_file@,
                ),
                Err(error) => self@.finished(root@) matches Err(fault) && tells(
                    error,
                    path@,
                    fault,
                ),
            },
    {
        let name = match self.name {
            Some(name) => name,
            None => {
                return Err(LoadError::MissingDataFileName { path: path.to_owned() });
            },
        };
        if characters(name.as_str()).len() == 0 {
            return Err(LoadError::MissingDataFileName { path: path.to_owned() });
        }
        let ghost groups = spelled(self.groups@);
        let mut relative_path = String::new();
        assert(relative_path@ =~= seq![]);
        let mut index: usize = 0;
        while index < self.groups.len()
            invariant
                index <= self.groups@.len(),
                groups == spelled(self.groups@),
                relative_path@ == grouped_path(groups, index as int),
            decreases self.groups.len() - index,
        {
            assert(groups[index as int] == self.groups@[index as int]@);
            relative_path = push_gmx_path(relative_path.as_str(), self.groups[index].as_str());
            index += 1;
        }
        let relative_path = push_gmx_path(relative_path.as_str(), name.as_str());
        Ok(
            DataFile {
                name,
                listed_filename: self.listed_filename,
                source: join_path(root, relative_path.as_str()),
                relative_path,
                exists: self.exists,
                size: self.size,
                export_action: self.export_action,
                export_dir: self.export_dir,
                overwrite: self.overwrite,
                free_data: self.free_data,
                remove_end: self.remove_end,
                store: self.store,
                configs: self.configs,
            },
        )
    }
}

impl ManifestParser {
    /// Whether the groups of sounds are numbered in order.
    spec fn wf(&self) -> bool {
        are_groups(self.audio_groups@, group_names(self.audio_groups@))
    }

    fn begin_capture(
        &mut self,
        path: &str,
        element: &str,
        target: CaptureTarget,
        offset: u64,
    ) -> (result: Result<(), LoadError>)
        requires
            old(self).wf(),
        ensures
            final(self).wf(),
            leads_to(
                result,
                final(self)@,
                path@,
                old(self)@.capturing(element@, target@, offset),
            ),
    {
        if self.capture.is_some() {
            return Err(xml_error(path, offset, "nested text fields are not supported"));
        }
        let text = String::new();
        assert(text@ =~= seq![]);
        self.capture = Some(TextCapture { element: element.to_owned(), target, text });
        Ok(())
    }

    fn section_is(&self, name: &str) -> (result: bool)
        ensures
            result == (self@.section() == Some(name@)),
    {
        if self.stack.len() > 1 {
            assert(self@.stack[1] == self.stack@[1]@);
            same_text(self.stack[1].as_str(), name)
        } else {
            false
        }
    }

    fn around_is(&self, name: &str) -> (result: bool)
        ensures
            result == (self@.around() == Some(name@)),
    {
        let count = self.stack.len();
        if count > 0 {
            assert(self@.stack.last() == self.stack@[count - 1]@);
            same_text(self.stack[count - 1].as_str(), name)
        } else {
            false
        }
    }

    #[verifier::spinoff_prover]
    fn begin_within_file(
        &mut self,
        path: &str,
        name: &str,
        attributes: &str,
        offset: u64,
    ) -> (result: Result<(), LoadError>)
        requires
            old(self).wf(),
            old(self)@.data_file is Some,
        ensures
            final(self).wf(),
            leads_to(
                result,
                final(self)@,
                path@,
                old(self)@.within_file(
                    old(self)@.data_file.unwrap(),
                    name@,
                    attributes@,
                    offset,
                ),
            ),
    {
        if self.around_is("datafile") {
            match field_from_element(name) {
                Some(field) => self.begin_capture(path, name, CaptureTarget::Field(field), offset),
                None => Ok(()),
            }
        } else if self.around_is("ConfigOptions") && same_text(name, "Config") {
            match attribute_or_nothing(path, attributes, "name", offset) {
                Ok(config) => {
                    if let Some(mut draft) = self.data_file.take() {
                        draft.current_config = Some(config);
                        self.data_file = Some(draft);
                    }
                    Ok(())
                },
                Err(error) => Err(error),
            }
        } else if self.around_is("Config") && same_text(name, "CopyToMask") {
            let config = match &self.data_file {
                Some(draft) => match &draft.current_config {
                    Some(config) => config.clone(),
                    None => {
                        let empty = String::new();
                        assert(empty@ =~= seq![]);
                        empty
                    },
                },
                None => String::new(),
            };
            self.begin_capture(path, name, CaptureTarget::CopyToMask { config }, offset)
        } else {
            Ok(())
        }
    }

    fn push_group(&mut self, group: String)
        requires
            old(self).wf(),
        ensures
            final(self).wf(),
            final(self)@ == (Manifest {
                groups: old(self)@.groups.push(group@),
                ..old(self)@
            }),
    {
        let ghost before = self@.groups;
        let ghost added = group@;
        self.data_file_groups.push(group);
        assert(self@.groups =~= before.push(added));
    }

    fn push_audio_group(&mut self, name: String)
        requires
            old(self).wf(),
        ensures
            final(self).wf(),
            final(self)@ == (Manifest {
                audio_groups: old(self)@.audio_groups.push(name@),
                ..old(self)@
            }),
    {
        let ghost before = self@.audio_groups;
        let ghost added = name@;
        let ghost groups = self.audio_groups@;
        let index = self.audio_groups.len();
        self.audio_groups.push(AudioGroup { index, name });
        proof {
            assert(self@.audio_groups =~= before.push(added));
            let now = self.audio_groups@;
            assert forall|k: int| 0 <= k < now.len() implies (#[trigger] now[k]).index == k
                && now[k].name@ == group_names(now)[k] by {
                if k < groups.len() {
                    assert(now[k] == groups[k]);
                }
            }
        }
    }

    #[verifier::spinoff_prover]
    fn begin(
        &mut self,
        path: &str,
        name: &str,
        attributes: &str,
        offset: u64,
    ) -> (result: Result<(), LoadError>)
        requires
            old(self).wf(),
        ensures
            final(self).wf(),
            leads_to(
                result,
                final(self)@,
                path@,
                old(self)@.begun(name@, attributes@, offset),
            ),
    {
        let top = self.stack.len() <= 1;
        if same_text(name, "datafiles") && (top || self.section_is("datafiles")) {
            return match attribute_or_nothing(path, attributes, "name", offset) {
                Ok(group) => {
                    self.push_group(group);
                    Ok(())
                },
                Err(error) => Err(error),
            };
        }
        if same_text(name, "datafile") && self.section_is("datafiles") {
            if self.data_file.is_some() {
                return Err(
                    xml_error(path, offset, "nested datafile elements are not supported"),
                );
            }
            let groups = clone_texts(&self.data_file_groups);
            self.data_file = Some(DataFileBuilder::new(groups));
            return Ok(());
        }
        let kind = if top {
            None
        } else {
            assert(self@.stack[1] == self.stack@[1]@);
            resource_kind(self.stack[1].as_str(), name)
        };
        if let Some(kind) = kind {
            let shader_type = if matches!(kind, ResourceKind::Shader) {
                match attribute_text(path, attributes, "type", "GLSLES", offset) {
                    Ok(shader_type) => Some(shader_type),
                    Err(error) => {
                        return Err(error);
                    },
                }
            } else {
                None
            };
            return self.begin_capture(
                path,
                name,
                CaptureTarget::Resource { kind, shader_type },
                offset,
            );
        }
        if self.section_is("constants") && same_text(name, "constant") {
            return match attribute_or_nothing(path, attributes, "name", offset) {
                Ok(constant) => self.begin_capture(
                    path,
                    name,
                    CaptureTarget::Constant { name: constant },
                    offset,
                ),
                Err(error) => Err(error),
            };
        }
        if self.section_is("audiogroups") && same_text(name, "audiogroup") {
            return match attribute_or_nothing(path, attributes, "name", offset) {
                Ok(group) => {
                    self.push_audio_group(group);
                    Ok(())
                },
                Err(error) => Err(error),
            };
        }
        if self.data_file.is_some() {
            self.begin_within_file(path, name, attributes, offset)
        } else {
            Ok(())
        }
    }

    fn start(
        &mut self,
        path: &str,
        name: &str,
        attributes: &str,
        offset: u64,
    ) -> (result: Result<(), LoadError>)
        requires
            old(self).wf(),
        ensures
            final(self).wf(),
            leads_to(
                result,
                final(self)@,
                path@,
                old(self)@.started(name@, attributes@, offset),
            ),
    {
        if self.stack.len() == 0 {
            if self.root_seen || !same_text(name, "assets") {
                return Err(
                    LoadError::InvalidRoot { path: path.to_owned(), actual: name.to_owned() },
                );
            }
            self.root_seen = true;
        }
        match self.begin(path, name, attributes, offset) {
            Ok(()) => {
                let ghost before = self@.stack;
                self.stack.push(name.to_owned());
                assert(self@.stack =~= before.push(name@));
                Ok(())
            },
            Err(error) => Err(error),
        }
    }

    fn add_resource(&mut self, kind: ResourceKind, shader_type: Option<String>, listed: &str)
        requires
            old(self).wf(),
        ensures
            final(self).wf(),
            final(self)@ == old(self)@.with_resource(
                kind,
                optional_view(shader_type),
                listed@,
            ),
    {
        let ghost before = self@.resources;
        let relative_path = resource_path(kind, listed);
        let index = count_kind(&self.resources, kind);
        let resource = ResourceRef {
            kind,
            index,
            name: resource_name(kind, listed),
            listed_path: listed.to_owned(),
            source: join_path(self.root_dir.as_str(), relative_path.as_str()),
            relative_path,
            shader_type,
        };
        let ghost added = resource@;
        self.resources.push(resource);
        assert(self@.resources =~= before.push(added));
    }

    #[verifier::spinoff_prover]
    fn finish_capture(&mut self, path: &str, capture: TextCapture) -> (result: Result<
        (),
        LoadError,
    >)
        requires
            old(self).wf(),
        ensures
            final(self).wf(),
            leads_to(result, final(self)@, path@, old(self)@.captured(capture@)),
    {
        let value = trim(capture.text.as_str());
        match capture.target {
            CaptureTarget::Resource { kind, shader_type } => {
                if characters(value.as_str()).len() == 0 {
                    return Err(LoadError::EmptyResourcePath { path: path.to_owned(), kind });
                }
                self.add_resource(kind, shader_type, value.as_str());
                Ok(())
            },
            CaptureTarget::Constant { name } => {
                let ghost before = self@.constants;
                let constant = ProjectConstant { name, value };
                let ghost added = constant@;
                self.constants.push(constant);
                assert(self@.constants =~= before.push(added));
                Ok(())
            },
            CaptureTarget::Field(field) => match self.data_file.take() {
                Some(draft) => match draft.with_value(field, value.as_str(), path) {
                    Ok(draft) => {
                        self.data_file = Some(draft);
                        Ok(())
                    },
                    Err(error) => Err(error),
                },
                None => Ok(()),
            },
            CaptureTarget::CopyToMask { config } => {
                let letters = characters(value.as_str());
                match read_integer(letters.as_slice(), 10) {
                    None => Err(field_error(path, "CopyToMask", value.as_str())),
                    Some(copy_to_mask) => {
                        if let Some(mut draft) = self.data_file.take() {
                            let ghost before = mask_views(draft.configs@);
                            let entry = DataFileConfig { name: config, copy_to_mask };
                            let ghost added = entry@;
                            draft.configs.push(entry);
                            assert(mask_views(draft.configs@) =~= before.push(added));
                            self.data_file = Some(draft);
                        }
                        Ok(())
                    },
                }
            },
        }
    }

    #[verifier::spinoff_prover]
    fn complete(&mut self, path: &str, name: &str, offset: u64) -> (result: Result<(), LoadError>)
        requires
            old(self).wf(),
        ensures
            final(self).wf(),
            leads_to(result, final(self)@, path@, old(self)@.completed(name@, offset)),
    {
        if same_text(name, "Config") {
            if let Some(mut draft) = self.data_file.take() {
                draft.current_config = None;
                self.data_file = Some(draft);
            }
            Ok(())
        } else if same_text(name, "datafile") {
            match self.data_file.take() {
                Some(draft) => match draft.finish(path, self.root_dir.as_str()) {
                    Ok(data_file) => {
                        let ghost before = self@.data_files;
                        let ghost added = data_file@;
                        self.data_files.push(data_file);
                        assert(self@.data_files =~= before.push(added));
                        Ok(())
                    },
                    Err(error) => Err(error),
                },
                None => Err(xml_error(path, offset, "closing datafile without an opening tag")),
            }
        } else if same_text(name, "datafiles") {
            let ghost before = self@.groups;
            match self.data_file_groups.pop() {
                Some(_) => {
                    assert(self@.groups =~= before.drop_last());
                    Ok(())
                },
                None => Err(xml_error(path, offset, "unbalanced datafiles element")),
            }
        } else {
            Ok(())
        }
    }

    fn close(&mut self, path: &str, name: &str, offset: u64) -> (result: Result<(), LoadError>)
        requires
            old(self).wf(),
        ensures
            final(self).wf(),
            leads_to(result, final(self)@, path@, old(self)@.closed(name@, offset)),
    {
        let ghost before = self@.stack;
        match self.stack.pop() {
            Some(open) => {
                proof {
                    assert(before.last() == open@);
                    assert(self@.stack =~= before.drop_last());
                }
                if same_text(open.as_str(), name) {
                    Ok(())
                } else {
                    let mut message = "closing tag ".to_owned();
                    message.append(name);
                    message.append(" does not match ");
                    message.append(open.as_str());
                    Err(xml_error(path, offset, message.as_str()))
                }
            },
            None => Err(xml_error(path, offset, "closing tag without an opening tag")),
        }
    }

    fn release(&mut self, path: &str, name: &str) -> (result: Result<(), LoadError>)
        requires
            old(self).wf(),
        ensures
            final(self).wf(),
            leads_to(result, final(self)@, path@, old(self)@.uncaptured(name@)),
    {
        match self.capture.take() {
            Some(capture) => {
                if same_text(capture.element.as_str(), name) {
                    self.finish_capture(path, capture)
                } else {
                    self.capture = Some(capture);
                    Ok(())
                }
            },
            None => Ok(()),
        }
    }

    fn end(&mut self, path: &str, name: &str, offset: u64) -> (result: Result<(), LoadError>)
        requires
            old(self).wf(),
        ensures
            final(self).wf(),
            leads_to(result, final(self)@, path@, old(self)@.ended(name@, offset)),
    {
        match self.release(path, name) {
            Err(error) => Err(error),
            Ok(()) => match self.complete(path, name, offset) {
                Err(error) => Err(error),
                Ok(()) => self.close(path, name, offset),
            },
        }
    }

    fn append_text(&mut self, text: &str)
        requires
            old(self).wf(),
        ensures
            final(self).wf(),
            final(self)@ == old(self)@.with_text(text@),
    {
        if let Some(mut capture) = self.capture.take() {
            capture.text.append(text);
            self.capture = Some(capture);
        }
    }

    #[verifier::spinoff_prover]
    fn step(&mut self, path: &str, step: &XmlStep) -> (result: Result<(), LoadError>)
        requires
            old(self).wf(),
        ensures
            final(self).wf(),
            leads_to(result, final(self)@, path@, old(self)@.stepped(step@)),
    {
        match &step.event {
            XmlEvent::Start { name, attributes } => self.start(
                path,
                name.as_str(),
                attributes.as_str(),
                step.offset,
            ),
            XmlEvent::End { name } => self.end(path, name.as_str(), step.offset),
            XmlEvent::Text(text) => {
                self.append_text(text.as_str());
                Ok(())
            },
            XmlEvent::Reference(reference) => {
                if self.capture.is_none() {
                    return Ok(());
                }
                match resolve_reference(reference.as_str()) {
                    Ok(character) => {
                        let mut text = String::new();
                        text.push(character);
                        assert(text@ =~= seq![character]);
                        self.append_text(text.as_str());
                        Ok(())
                    },
                    Err(message) => Err(xml_error(path, step.offset, message.as_str())),
                }
            },
            XmlEvent::Other => Ok(()),
            XmlEvent::Eof => Ok(()),
            XmlEvent::Fault(message) => Err(xml_error(path, step.offset, message.as_str())),
        }
    }
}

proof fn lemma_fault_stays(root: Seq<char>, steps: Seq<StepView>, count: int, end: int)
    requires
        0 <= count <= end,
        read_steps(root, steps, count) is Err,
    ensures
        read_steps(root, steps, end) == read_steps(root, steps, count),
    decreases end - count,
{
    if count < end {
        lemma_fault_stays(root, steps, count, end - 1);
    }
}

/// Makes the manifest of a project of the events of its document.
#[verifier::spinoff_prover]
pub fn manifest_from_steps(path: &str, steps: &Vec<XmlStep>) -> (result: Result<
    ProjectManifest,
    LoadError,
>)
    ensures
        match result {
            Ok(project) => manifest_of(path@, step_views(steps@)) matches Ok(manifest)
                && is_project(project, path@, manifest),
            Err(error) => manifest_of(path@, step_views(steps@)) matches Err(fault) && tells(
                error,
                path@,
                fault,
            ),
        },
{
    let ghost views = step_views(steps@);
    let ghost root = directory_of(path@);
    let mut parser = ManifestParser {
        root_dir: parent(path),
        resources: Vec::new(),
        data_files: Vec::new(),
        constants: Vec::new(),
        audio_groups: Vec::new(),
        stack: Vec::new(),
        data_file_groups: Vec::new(),
        data_file: None,
        capture: None,
        root_seen: false,
    };
    proof {
        assert(parser@.resources =~= seq![]);
        assert(parser@.data_files =~= seq![]);
        assert(parser@.constants =~= seq![]);
        assert(parser@.audio_groups =~= seq![]);
        assert(parser@.stack =~= seq![]);
        assert(parser@.groups =~= seq![]);
    }
    let mut index: usize = 0;
    while index < steps.len()
        invariant
            index <= steps@.len(),
            views == step_views(steps@),
            root == directory_of(path@),
            parser.wf(),
            read_steps(root, views, index as int) == Ok::<Manifest, LoadFault>(parser@),
        decreases steps.len() - index,
    {
        assert(views[index as int] == steps@[index as int]@);
        if let Err(error) = parser.step(path, &steps[index]) {
            proof {
                assert(read_steps(root, views, index + 1) is Err);
                lemma_fault_stays(root, views, index + 1, views.len() as int);
            }
            return Err(error);
        }
        index += 1;
    }
    if !parser.root_seen {
        return Err(LoadError::MissingRoot { path: path.to_owned() });
    }
    if parser.stack.len() > 0 || parser.capture.is_some() || parser.data_file.is_some() {
        return Err(xml_error(path, 0, "project XML ended with unclosed elements"));
    }
    Ok(
        ProjectManifest {
            name: project_name(path),
            project_file: path.to_owned(),
            root_dir: parent(path),
            resources: parser.resources,
            data_files: parser.data_files,
            constants: parser.constants,
            audio_groups: parser.audio_groups,
        },
    )
}

/// Reads the manifest of a project from the bytes of its document.
pub fn parse(path: &str, source: &[u8]) -> (result: Result<ProjectManifest, LoadError>)
    ensures
        match result {
            Ok(project) => manifest_of(path@, document_steps(source@, true)) matches Ok(manifest)
                && is_project(project, path@, manifest),
            Err(error) => manifest_of(path@, document_steps(source@, true)) matches Err(fault)
                && tells(error, path@, fault),
        },
{
    let steps = read_document(source, true);
    manifest_from_steps(path, &steps)
}

/// Whether a result is the manifest of a file, given what reading it gave.
pub open spec fn is_project_file(
    result: Result<ProjectManifest, LoadError>,
    path: Seq<char>,
    contents: ContentsView,
) -> bool {
    match contents {
        ContentsView::Missing(text) => result matches Err(LoadError::Io { path: file, message })
            && file@ == path && message@ == text,
        ContentsView::Failed(text) => result matches Err(LoadError::Io { path: file, message })
            && file@ == path && message@ == text,
        ContentsView::Data(bytes) => match (result, manifest_of(path, document_steps(bytes, true))) {
            (Ok(project), Ok(manifest)) => is_project(project, path, manifest),
            (Err(error), Err(fault)) => tells(error, path, fault),
            _ => false,
        },
    }
}

impl ProjectManifest {
    /// Returns the manifest of a project, given what reading its file gave.
    pub fn load(path: &str, contents: &FileContents) -> (result: Result<Self, LoadError>)
        ensures
            is_project_file(result, path@, contents@),
    {
        match contents {
            FileContents::Missing(message) => Err(
                LoadError::Io { path: path.to_owned(), message: message.clone() },
            ),
            FileContents::Failed(message) => Err(
                LoadError::Io { path: path.to_owned(), message: message.clone() },
            ),
            FileContents::Data(bytes) => parse(path, bytes.as_slice()),
        }
    }
}

/// Whether each resource has the number of resources of its kind before it.
pub open spec fn is_numbered(resources: Seq<ResourceView>) -> bool {
    forall|k: int|
        0 <= k < resources.len() ==> (#[trigger] resources[k]).index == kind_count(
            resources,
            resources[k].kind,
            k,
        ) as usize
}

proof fn lemma_kind_count(
    resources: Seq<ResourceView>,
    resource: ResourceView,
    kind: ResourceKind,
    count: int,
)
    requires
        count <= resources.len(),
    ensures
        kind_count(resources.push(resource), kind, count) == kind_count(resources, kind, count),
    decreases count,
{
    if count > 0 {
        lemma_kind_count(resources, resource, kind, count - 1);
    }
}

proof fn lemma_resource_is_numbered(
    manifest: Manifest,
    kind: ResourceKind,
    shader_type: Option<Seq<char>>,
    listed: Seq<char>,
)
    requires
        is_numbered(manifest.resources),
    ensures
        is_numbered(manifest.with_resource(kind, shader_type, listed).resources),
{
    let before = manifest.resources;
    let now = manifest.with_resource(kind, shader_type, listed).resources;
    assert forall|k: int| 0 <= k < now.len() implies (#[trigger] now[k]).index == kind_count(
        now,
        now[k].kind,
        k,
    ) as usize by {
        lemma_kind_count(before, now.last(), now[k].kind, k);
        if k < before.len() {
            assert(now[k] == before[k]);
        }
    }
}

#[verifier::spinoff_prover]
proof fn lemma_step_is_numbered(manifest: Manifest, step: StepView)
    requires
        is_numbered(manifest.resources),
    ensures
        manifest.stepped(step) matches Ok(next) ==> is_numbered(next.resources),
{
    if let EventView::End { name } = step.event {
        if let Some(capture) = manifest.capture {
            if let CaptureGoal::Resource { kind, shader_type } = capture.goal {
                lemma_resource_is_numbered(
                    Manifest { capture: None, ..manifest },
                    kind,
                    shader_type,
                    trimmed(capture.text),
                );
            }
        }
    }
}

proof fn lemma_steps_are_numbered(root: Seq<char>, steps: Seq<StepView>, count: int)
    ensures
        read_steps(root, steps, count) matches Ok(manifest) ==> is_numbered(manifest.resources),
    decreases count,
{
    if count > 0 {
        lemma_steps_are_numbered(root, steps, count - 1);
        if let Ok(manifest) = read_steps(root, steps, count - 1) {
            lemma_step_is_numbered(manifest, steps[count - 1]);
        }
    }
}

/// The resources of each kind are numbered in the order of the manifest.
pub proof fn law_resources_are_numbered_by_kind(path: Seq<char>, steps: Seq<StepView>)
    ensures
        manifest_of(path, steps) matches Ok(manifest) ==> is_numbered(manifest.resources),
{
    lemma_steps_are_numbered(directory_of(path), steps, steps.len() as int);
}

} // verus!
