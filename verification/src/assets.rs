//! The assets of a project: the text of scripts and shaders, and the names
//! that tie resources together.

use vstd::prelude::*;

use crate::encoding::{decode_file, decoded_text};
use crate::path::{is_same_path, same_path};
use crate::resources::{
    AudioGroup, Background, BinaryFile, Extension, ExtensionFile, ExtensionFunction, Font,
    GameObject, GamePath, Room, Script, Sound, Sprite, Timeline,
};
use crate::settings::{CompileConstant, CompileOptions};
use crate::text::{
    characters, debug_quoted, debug_spelling, found_at, same_text, spell, spelled, stands_at,
    trim_characters, trimmed,
};

verus! {

/// What separates the vertex source of a shader from the fragment source.
pub const SHADER_MARKER: &'static str =
    "//######################_==_YOYO_SHADER_MARKER_==_######################@~";

/// Whether a character ends a line.
pub open spec fn ends_line(character: char) -> bool {
    character == '\r' || character == '\n'
}

/// The end of the first line of a text.
pub open spec fn line_end(text: Seq<char>, index: int) -> int
    decreases text.len() - index,
{
    if 0 <= index < text.len() && !ends_line(text[index]) {
        line_end(text, index + 1)
    } else {
        index
    }
}

/// The start of the line behind one that ends at an index.
pub open spec fn next_line(text: Seq<char>, end: int) -> int {
    if end + 1 < text.len() && text[end] == '\r' && text[end + 1] == '\n' {
        end + 2
    } else {
        end + 1
    }
}

pub proof fn lemma_line_end(text: Seq<char>, index: int)
    ensures
        index <= line_end(text, index),
        index <= text.len() ==> line_end(text, index) <= text.len(),
    decreases text.len() - index,
{
    if 0 <= index < text.len() && !ends_line(text[index]) {
        lemma_line_end(text, index + 1);
    }
}

/// The lines of a text from an index on. A line ends with a carriage return, a
/// line feed or both; an empty rest is no line.
pub open spec fn lines_from(text: Seq<char>, index: int) -> Seq<Seq<char>>
    decreases text.len() - index,
{
    if index < 0 || index >= text.len() {
        seq![]
    } else {
        proof {
            lemma_line_end(text, index);
        }
        let end = line_end(text, index);
        if end >= text.len() {
            seq![text.subrange(index, end)]
        } else {
            seq![text.subrange(index, end)] + lines_from(text, next_line(text, end))
        }
    }
}

/// Returns the lines of a text.
pub fn text_lines(text: &str) -> (lines: Vec<String>)
    ensures
        spelled(lines@) == lines_from(text@, 0),
{
    let source = characters(text);
    let mut lines: Vec<String> = Vec::new();
    let mut start: usize = 0;
    assert(spelled(lines@) + lines_from(text@, 0) =~= lines_from(text@, 0));
    while start < source.len()
        invariant
            start <= source.len(),
            source@ == text@,
            spelled(lines@) + lines_from(text@, start as int) == lines_from(text@, 0),
        decreases source.len() - start,
    {
        let mut end: usize = start;
        while end < source.len() && source[end] != '\r' && source[end] != '\n'
            invariant
                start <= end <= source.len(),
                source@ == text@,
                line_end(text@, start as int) == line_end(text@, end as int),
            decreases source.len() - end,
        {
            end += 1;
        }
        let line = spell(vstd::slice::slice_subrange(source.as_slice(), start, end));
        let ghost before = spelled(lines@);
        lines.push(line);
        assert(spelled(lines@) =~= before.push(line@));
        if end == source.len() {
            assert(before + seq![line@] =~= spelled(lines@) + lines_from(text@, end as int));
            start = end;
        } else {
            let next: usize = if source[end] == '\r' && source.len() - end > 1 && source[end + 1]
                == '\n' {
                end + 2
            } else {
                end + 1
            };
            assert(before + (seq![line@] + lines_from(text@, next as int)) =~= spelled(lines@)
                + lines_from(text@, next as int));
            start = next;
        }
    }
    assert(spelled(lines@) + seq![] =~= spelled(lines@));
    lines
}

/// A script of a script file.
#[derive(Debug, Clone, PartialEq, Eq)]
pub struct ScriptPart {
    pub name: String,
    pub code: String,
    pub split: bool,
}

/// A [`ScriptPart`] as sequences of characters.
pub struct PartView {
    pub name: Seq<char>,
    pub code: Seq<char>,
    pub split: bool,
}

impl View for ScriptPart {
    type V = PartView;

    open spec fn view(&self) -> PartView {
        PartView { name: self.name@, code: self.code@, split: self.split }
    }
}

/// What a list of script parts stands for.
pub open spec fn part_views(parts: Seq<ScriptPart>) -> Seq<PartView> {
    parts.map_values(|part: ScriptPart| part@)
}

/// The index of the first blank or tab.
pub open spec fn field_end(text: Seq<char>, index: int) -> int
    decreases text.len() - index,
{
    if 0 <= index < text.len() && text[index] != ' ' && text[index] != '\t' {
        field_end(text, index + 1)
    } else {
        index
    }
}

pub proof fn lemma_field_end(text: Seq<char>, index: int)
    ensures
        index <= field_end(text, index),
        index <= text.len() ==> field_end(text, index) <= text.len(),
    decreases text.len() - index,
{
    if 0 <= index < text.len() && text[index] != ' ' && text[index] != '\t' {
        lemma_field_end(text, index + 1);
    }
}

/// The second of the fields of a text that single blanks and tabs separate;
/// empty if there is none.
pub open spec fn second_field(text: Seq<char>) -> Seq<char> {
    let end = field_end(text, 0);
    if end >= text.len() {
        seq![]
    } else {
        text.subrange(end + 1, field_end(text, end + 1))
    }
}

/// Whether a line begins the definition of a script.
pub open spec fn defines(line: Seq<char>) -> bool {
    stands_at(line, 0, "#define"@)
}

/// What is split off so far: the finished scripts, the name of the current one
/// and its body.
pub struct Splitting {
    pub parts: Seq<PartView>,
    pub name: Seq<char>,
    pub body: Seq<char>,
}

/// A split-off script.
pub open spec fn split_part(name: Seq<char>, body: Seq<char>) -> PartView {
    PartView { name, code: seq!['\n'] + body, split: true }
}

/// The splitting after another line.
pub open spec fn split_line(state: Splitting, line: Seq<char>) -> Splitting {
    let trimmed_line = trimmed(line);
    if defines(trimmed_line) {
        Splitting {
            parts: if state.name.len() > 0 && state.body.len() > 0 {
                state.parts.push(split_part(state.name, state.body))
            } else {
                state.parts
            },
            name: second_field(trimmed_line),
            body: seq![],
        }
    } else {
        Splitting { body: state.body + line + seq!['\r', '\n'], ..state }
    }
}

/// The splitting after the first `count` lines.
pub open spec fn split_lines(lines: Seq<Seq<char>>, count: int) -> Splitting
    decreases count,
{
    if count <= 0 {
        Splitting { parts: seq![], name: seq![], body: seq![] }
    } else {
        split_line(split_lines(lines, count - 1), lines[count - 1])
    }
}

/// The scripts of a file of definitions. Text before the first definition that
/// is alone in the file is named `main`.
pub open spec fn definitions_in(lines: Seq<Seq<char>>) -> Seq<PartView> {
    let state = split_lines(lines, lines.len() as int);
    if state.name.len() > 0 {
        state.parts.push(split_part(state.name, state.body))
    } else if state.body.len() > 0 {
        state.parts.push(split_part("main"@, state.body))
    } else {
        state.parts
    }
}

/// The scripts of a script file: one of the given name, unless the file begins
/// with a definition.
pub open spec fn parts_of(default_name: Seq<char>, code: Seq<char>) -> Seq<PartView> {
    let lines = lines_from(code, 0);
    if lines.len() > 0 && defines(lines[0]) {
        definitions_in(lines)
    } else {
        seq![PartView { name: default_name, code, split: false }]
    }
}

/// Splits a script file into its scripts.
pub fn script_parts(default_name: &str, code: &str) -> (parts: Vec<ScriptPart>)
    ensures
        part_views(parts@) == parts_of(default_name@, code@),
{
    let lines = text_lines(code);
    assert(lines@.len() == spelled(lines@).len());
    if lines.len() > 0 {
        assert(spelled(lines@)[0] == lines@[0]@);
        if is_definition(lines[0].as_str()) {
            return split_definitions(lines.as_slice());
        }
    }
    let mut parts: Vec<ScriptPart> = Vec::new();
    parts.push(
        ScriptPart { name: default_name.to_owned(), code: code.to_owned(), split: false },
    );
    assert(part_views(parts@) =~= seq![
        PartView { name: default_name@, code: code@, split: false },
    ]);
    parts
}

fn is_definition(line: &str) -> (result: bool)
    ensures
        result == defines(line@),
{
    let line = characters(line);
    let word = characters("#define");
    found_at(line.as_slice(), 0, word.as_slice())
}

fn split(name: &str, body: &str) -> (part: ScriptPart)
    ensures
        part@ == split_part(name@, body@),
{
    let mut code = String::new();
    code.push('\n');
    code.append(body);
    assert(code@ =~= seq!['\n'] + body@);
    ScriptPart { name: name.to_owned(), code, split: true }
}

fn definition_name(line: &[char]) -> (name: String)
    ensures
        name@ == second_field(line@),
{
    let mut end: usize = 0;
    while end < line.len() && line[end] != ' ' && line[end] != '\t'
        invariant
            end <= line.len(),
            field_end(line@, 0) == field_end(line@, end as int),
        decreases line.len() - end,
    {
        end += 1;
    }
    if end >= line.len() {
        let name = String::new();
        assert(name@ =~= second_field(line@));
        return name;
    }
    let start: usize = end + 1;
    let mut close: usize = start;
    while close < line.len() && line[close] != ' ' && line[close] != '\t'
        invariant
            start <= close <= line.len(),
            field_end(line@, start as int) == field_end(line@, close as int),
        decreases line.len() - close,
    {
        close += 1;
    }
    spell(vstd::slice::slice_subrange(line, start, close))
}

fn split_definitions(lines: &[String]) -> (parts: Vec<ScriptPart>)
    ensures
        part_views(parts@) == definitions_in(spelled(lines@)),
{
    let ghost all = spelled(lines@);
    let mut parts: Vec<ScriptPart> = Vec::new();
    let mut name = String::new();
    let mut body = String::new();
    let mut index: usize = 0;
    assert(part_views(parts@) =~= seq![]);
    while index < lines.len()
        invariant
            index <= lines.len(),
            all == spelled(lines@),
            split_lines(all, index as int) == (Splitting {
                parts: part_views(parts@),
                name: name@,
                body: body@,
            }),
        decreases lines.len() - index,
    {
        let line = lines[index].as_str();
        assert(all[index as int] == line@);
        let line_characters = characters(line);
        let trimmed_line = trim_characters(line_characters.as_slice());
        let word = characters("#define");
        if found_at(trimmed_line, 0, word.as_slice()) {
            if !name.as_str().is_empty() && !body.as_str().is_empty() {
                let part = split(name.as_str(), body.as_str());
                let ghost before = parts@;
                parts.push(part);
                assert(part_views(parts@) =~= part_views(before).push(part@));
            }
            name = definition_name(trimmed_line);
            body = String::new();
        } else {
            let ghost before = body@;
            body.append(line);
            body.push('\r');
            body.push('\n');
            assert(body@ =~= before + line@ + seq!['\r', '\n']);
        }
        index += 1;
    }
    let ghost before = parts@;
    if !name.as_str().is_empty() {
        let part = split(name.as_str(), body.as_str());
        parts.push(part);
        assert(part_views(parts@) =~= part_views(before).push(part@));
    } else if !body.as_str().is_empty() {
        let part = split("main", body.as_str());
        parts.push(part);
        assert(part_views(parts@) =~= part_views(before).push(part@));
    }
    parts
}

/// A shader of the project.
#[derive(Debug, Clone, PartialEq, Eq)]
pub struct Shader {
    pub index: usize,
    pub manifest_index: usize,
    pub name: String,
    pub source: String,
    pub shader_type: ShaderType,
    pub raw_source: String,
}

/// The languages of shaders.
#[derive(Debug, Clone, Copy, PartialEq, Eq, Structural)]
pub enum ShaderType {
    GlslEs,
    Glsl,
    Hlsl9,
    Hlsl11,
    Pssl,
    Cg,
    CgPs3,
}

/// The assets of a project.
#[derive(Debug)]
pub struct Assets {
    pub config_index: usize,
    pub extensions: Vec<Extension>,
    pub sounds: Vec<Sound>,
    pub sprites: Vec<Sprite>,
    pub backgrounds: Vec<Background>,
    pub paths: Vec<GamePath>,
    pub scripts: Vec<Script>,
    pub shaders: Vec<Shader>,
    pub fonts: Vec<Font>,
    pub timelines: Vec<Timeline>,
    pub objects: Vec<GameObject>,
    pub rooms: Vec<Room>,
    pub next_room_instance_id: i32,
    pub next_room_tile_id: i32,
    pub next_extension_function_id: i32,
    pub options: CompileOptions,
    pub target_mask: i64,
    pub audio_groups: Vec<AudioGroup>,
    pub constants: Vec<CompileConstant>,
    pub binary_files: Vec<BinaryFile>,
}

/// The index of the first file whose source is a path.
pub open spec fn binary_at(files: Seq<BinaryFile>, source: Seq<char>, index: int) -> Option<int>
    decreases files.len() - index,
{
    if index < 0 || index >= files.len() {
        None
    } else if same_path(files[index].source@, source) {
        Some(index)
    } else {
        binary_at(files, source, index + 1)
    }
}

impl Assets {
    /// The contents of the file with a source.
    pub open spec fn contents(&self, source: Seq<char>) -> Option<Seq<u8>> {
        match binary_at(self.binary_files@, source, 0) {
            Some(index) => Some(self.binary_files@[index].data@),
            None => None,
        }
    }

    /// Returns the file with a source.
    pub fn binary_file(&self, source: &str) -> (file: Option<&BinaryFile>)
        ensures
            match file {
                Some(file) => binary_at(self.binary_files@, source@, 0) matches Some(index)
                    && 0 <= index < self.binary_files@.len() && *file == self.binary_files@[index],
                None => binary_at(self.binary_files@, source@, 0) is None,
            },
    {
        let mut index: usize = 0;
        while index < self.binary_files.len()
            invariant
                index <= self.binary_files.len(),
                binary_at(self.binary_files@, source@, 0) == binary_at(
                    self.binary_files@,
                    source@,
                    index as int,
                ),
            decreases self.binary_files.len() - index,
        {
            if is_same_path(self.binary_files[index].source.as_str(), source) {
                return Some(&self.binary_files[index]);
            }
            index += 1;
        }
        None
    }

    /// Returns the contents of the file with a source.
    pub fn binary(&self, source: &str) -> (data: Option<&[u8]>)
        ensures
            match data {
                Some(data) => self.contents(source@) == Some(data@),
                None => self.contents(source@) is None,
            },
    {
        match self.binary_file(source) {
            Some(file) => Some(file.data.as_slice()),
            None => None,
        }
    }
}

/// The first function with a name in a list, from an index on.
pub open spec fn function_from(
    functions: Seq<ExtensionFunction>,
    name: Seq<char>,
    index: int,
) -> Option<ExtensionFunction>
    decreases functions.len() - index,
{
    if index < 0 || index >= functions.len() {
        None
    } else if functions[index].name@ == name {
        Some(functions[index])
    } else {
        function_from(functions, name, index + 1)
    }
}

/// The first function with a name in files, from an index on.
pub open spec fn file_function_from(
    files: Seq<ExtensionFile>,
    name: Seq<char>,
    index: int,
) -> Option<ExtensionFunction>
    decreases files.len() - index,
{
    if index < 0 || index >= files.len() {
        None
    } else {
        match function_from(files[index].functions@, name, 0) {
            Some(function) => Some(function),
            None => file_function_from(files, name, index + 1),
        }
    }
}

/// The first function with a name in extensions, from an index on.
pub open spec fn extension_function_from(
    extensions: Seq<Extension>,
    name: Seq<char>,
    index: int,
) -> Option<ExtensionFunction>
    decreases extensions.len() - index,
{
    if index < 0 || index >= extensions.len() {
        None
    } else {
        match file_function_from(extensions[index].files@, name, 0) {
            Some(function) => Some(function),
            None => extension_function_from(extensions, name, index + 1),
        }
    }
}

/// Whether a reference is to what is there.
pub open spec fn refers_to<T>(found: Option<&T>, expected: Option<T>) -> bool {
    match found {
        Some(found) => expected == Some(*found),
        None => expected is None,
    }
}

fn find_function<'a>(functions: &'a Vec<ExtensionFunction>, name: &str) -> (found: Option<
    &'a ExtensionFunction,
>)
    ensures
        refers_to(found, function_from(functions@, name@, 0)),
{
    let mut index: usize = 0;
    while index < functions.len()
        invariant
            index <= functions@.len(),
            function_from(functions@, name@, 0) == function_from(functions@, name@, index as int),
        decreases functions.len() - index,
    {
        if same_text(functions[index].name.as_str(), name) {
            return Some(&functions[index]);
        }
        index += 1;
    }
    None
}

fn find_file_function<'a>(files: &'a Vec<ExtensionFile>, name: &str) -> (found: Option<
    &'a ExtensionFunction,
>)
    ensures
        refers_to(found, file_function_from(files@, name@, 0)),
{
    let mut index: usize = 0;
    while index < files.len()
        invariant
            index <= files@.len(),
            file_function_from(files@, name@, 0) == file_function_from(
                files@,
                name@,
                index as int,
            ),
        decreases files.len() - index,
    {
        if let Some(function) = find_function(&files[index].functions, name) {
            return Some(function);
        }
        index += 1;
    }
    None
}

impl Assets {
    /// Returns the first function of the extensions with a name.
    pub fn extension_function(&self, name: &str) -> (found: Option<&ExtensionFunction>)
        ensures
            refers_to(found, extension_function_from(self.extensions@, name@, 0)),
    {
        let mut index: usize = 0;
        while index < self.extensions.len()
            invariant
                index <= self.extensions@.len(),
                extension_function_from(self.extensions@, name@, 0) == extension_function_from(
                    self.extensions@,
                    name@,
                    index as int,
                ),
            decreases self.extensions.len() - index,
        {
            if let Some(function) = find_file_function(&self.extensions[index].files, name) {
                return Some(function);
            }
            index += 1;
        }
        None
    }
}

/// Why the assets of a project cannot be used.
#[derive(Debug, Clone, PartialEq, Eq)]
pub enum AssetError {
    Io { path: String, message: String },
    Encoding { path: String, message: String },
    Settings { message: String },
    Resource { message: String },
    InvalidConfigOption { path: String, name: String, value: String },
    UnknownReference { owner_kind: String, owner: String, field: String, target: String },
    DuplicateName { kind: String, name: String, first: String, second: String },
}

/// An [`AssetError`] as sequences of characters.
pub enum AssetFault {
    Io { path: Seq<char>, message: Seq<char> },
    Encoding { path: Seq<char>, message: Seq<char> },
    Settings { message: Seq<char> },
    Resource { message: Seq<char> },
    InvalidConfigOption { path: Seq<char>, name: Seq<char>, value: Seq<char> },
    UnknownReference {
        owner_kind: Seq<char>,
        owner: Seq<char>,
        field: Seq<char>,
        target: Seq<char>,
    },
    DuplicateName { kind: Seq<char>, name: Seq<char>, first: Seq<char>, second: Seq<char> },
}

impl View for AssetError {
    type V = AssetFault;

    open spec fn view(&self) -> AssetFault {
        match self {
            AssetError::Io { path, message } => AssetFault::Io { path: path@, message: message@ },
            AssetError::Encoding { path, message } => AssetFault::Encoding {
                path: path@,
                message: message@,
            },
            AssetError::Settings { message } => AssetFault::Settings { message: message@ },
            AssetError::Resource { message } => AssetFault::Resource { message: message@ },
            AssetError::InvalidConfigOption { path, name, value } => {
                AssetFault::InvalidConfigOption { path: path@, name: name@, value: value@ }
            },
            AssetError::UnknownReference { owner_kind, owner, field, target } => {
                AssetFault::UnknownReference {
                    owner_kind: owner_kind@,
                    owner: owner@,
                    field: field@,
                    target: target@,
                }
            },
            AssetError::DuplicateName { kind, name, first, second } => AssetFault::DuplicateName {
                kind: kind@,
                name: name@,
                first: first@,
                second: second@,
            },
        }
    }
}

/// The message about a fault.
pub open spec fn asset_fault_text(fault: AssetFault) -> Seq<char> {
    match fault {
        AssetFault::Io { path, message } => "cannot read asset "@ + path + ": "@ + message,
        AssetFault::Encoding { path, message } => "cannot decode asset "@ + path + ": "@ + message,
        AssetFault::Settings { message } => message,
        AssetFault::Resource { message } => message,
        AssetFault::InvalidConfigOption { path, name, value } => "invalid "@ + name + " value "@
            + debug_spelling(value) + " in config "@ + path,
        AssetFault::UnknownReference { owner_kind, owner, field, target } => owner_kind + " "@
            + debug_spelling(owner) + " references unknown "@ + field + " "@ + debug_spelling(
            target,
        ),
        AssetFault::DuplicateName { kind, name, first, second } => "duplicate "@ + kind
            + " name "@ + debug_spelling(name) + " in "@ + first + " and "@ + second,
    }
}

impl AssetError {
    /// Returns the message of the error.
    pub fn text(&self) -> (text: String)
        ensures
            text@ == asset_fault_text(self@),
    {
        match self {
            AssetError::Io { path, message } => {
                let mut text = "cannot read asset ".to_owned();
                text.append(path.as_str());
                text.append(": ");
                text.append(message.as_str());
                text
            },
            AssetError::Encoding { path, message } => {
                let mut text = "cannot decode asset ".to_owned();
                text.append(path.as_str());
                text.append(": ");
                text.append(message.as_str());
                text
            },
            AssetError::Settings { message } => message.clone(),
            AssetError::Resource { message } => message.clone(),
            AssetError::InvalidConfigOption { path, name, value } => {
                let mut text = "invalid ".to_owned();
                text.append(name.as_str());
                text.append(" value ");
                let shown = debug_quoted(value.as_str());
                text.append(shown.as_str());
                text.append(" in config ");
                text.append(path.as_str());
                text
            },
            AssetError::UnknownReference { owner_kind, owner, field, target } => {
                let mut text = owner_kind.clone();
                text.append(" ");
                let shown = debug_quoted(owner.as_str());
                text.append(shown.as_str());
                text.append(" references unknown ");
                text.append(field.as_str());
                text.append(" ");
                let other = debug_quoted(target.as_str());
                text.append(other.as_str());
                text
            },
            AssetError::DuplicateName { kind, name, first, second } => {
                let mut text = "duplicate ".to_owned();
                text.append(kind.as_str());
                text.append(" name ");
                let shown = debug_quoted(name.as_str());
                text.append(shown.as_str());
                text.append(" in ");
                text.append(first.as_str());
                text.append(" and ");
                text.append(second.as_str());
                text
            },
        }
    }
}

/// The text of a file, or what is wrong with it.
pub open spec fn file_text(path: Seq<char>, bytes: Seq<u8>) -> Result<Seq<char>, AssetFault> {
    match decoded_text(bytes) {
        Ok(text) => Ok(text),
        Err(message) => Err(AssetFault::Encoding { path, message }),
    }
}

/// Returns the text of a file.
pub fn decode_text(path: &str, bytes: &[u8]) -> (result: Result<String, AssetError>)
    ensures
        match result {
            Ok(text) => file_text(path@, bytes@) == Ok::<Seq<char>, AssetFault>(text@),
            Err(error) => file_text(path@, bytes@) == Err::<Seq<char>, AssetFault>(error@),
        },
{
    match decode_file(bytes) {
        Ok(text) => Ok(text),
        Err(message) => Err(AssetError::Encoding { path: path.to_owned(), message }),
    }
}

impl ShaderType {
    /// The language with a name in a manifest.
    pub open spec fn named(name: Seq<char>) -> ShaderType {
        if name == "GLSL"@ {
            ShaderType::Glsl
        } else if name == "HLSL9"@ {
            ShaderType::Hlsl9
        } else if name == "HLSL11"@ {
            ShaderType::Hlsl11
        } else if name == "PSSL"@ {
            ShaderType::Pssl
        } else if name == "CG"@ {
            ShaderType::Cg
        } else if name == "CG_PS3"@ {
            ShaderType::CgPs3
        } else {
            ShaderType::GlslEs
        }
    }

    /// The name of the language.
    pub open spec fn name(self) -> Seq<char> {
        match self {
            ShaderType::GlslEs => "GLSLES"@,
            ShaderType::Glsl => "GLSL"@,
            ShaderType::Hlsl9 => "HLSL9"@,
            ShaderType::Hlsl11 => "HLSL11"@,
            ShaderType::Pssl => "PSSL"@,
            ShaderType::Cg => "CG"@,
            ShaderType::CgPs3 => "CG_PS3"@,
        }
    }

    /// Returns the language with a name in a manifest.
    pub fn from_manifest(value: &str) -> (language: Self)
        ensures
            language == ShaderType::named(value@),
    {
        if same_text(value, "GLSL") {
            ShaderType::Glsl
        } else if same_text(value, "HLSL9") {
            ShaderType::Hlsl9
        } else if same_text(value, "HLSL11") {
            ShaderType::Hlsl11
        } else if same_text(value, "PSSL") {
            ShaderType::Pssl
        } else if same_text(value, "CG") {
            ShaderType::Cg
        } else if same_text(value, "CG_PS3") {
            ShaderType::CgPs3
        } else {
            ShaderType::GlslEs
        }
    }

    /// Returns the name of the language.
    pub fn text(self) -> (name: &'static str)
        ensures
            name@ == self.name(),
    {
        match self {
            ShaderType::GlslEs => "GLSLES",
            ShaderType::Glsl => "GLSL",
            ShaderType::Hlsl9 => "HLSL9",
            ShaderType::Hlsl11 => "HLSL11",
            ShaderType::Pssl => "PSSL",
            ShaderType::Cg => "CG",
            ShaderType::CgPs3 => "CG_PS3",
        }
    }
}

/// A language is the one that its name stands for.
pub proof fn law_shader_languages_are_named(language: ShaderType)
    ensures
        ShaderType::named(language.name()) == language,
{
    reveal_strlit("GLSLES");
    reveal_strlit("GLSL");
    reveal_strlit("HLSL9");
    reveal_strlit("HLSL11");
    reveal_strlit("PSSL");
    reveal_strlit("CG");
    reveal_strlit("CG_PS3");
    assert("GLSLES"@[0] == 'G' && "GLSLES"@.len() == 6);
    assert("GLSL"@[0] == 'G' && "GLSL"@.len() == 4);
    assert("HLSL9"@[0] == 'H' && "HLSL9"@.len() == 5);
    assert("HLSL11"@[0] == 'H' && "HLSL11"@.len() == 6);
    assert("PSSL"@[0] == 'P' && "PSSL"@.len() == 4);
    assert("CG"@[0] == 'C' && "CG"@.len() == 2);
    assert("CG_PS3"@[0] == 'C' && "CG_PS3"@.len() == 6);
}

/// The index of the first marker in a text from an index on; -1 if there is
/// none.
pub open spec fn marker_from(text: Seq<char>, marker: Seq<char>, index: int) -> int
    decreases text.len() - index,
{
    if index < 0 || index >= text.len() {
        -1
    } else if stands_at(text, index, marker) {
        index
    } else {
        marker_from(text, marker, index + 1)
    }
}

/// The vertex source of a shader: what stands before the marker, or everything.
pub open spec fn vertex_text(source: Seq<char>) -> Seq<char> {
    let marker = marker_from(source, SHADER_MARKER@, 0);
    if marker < 0 {
        source
    } else {
        source.take(marker)
    }
}

/// The fragment source of a shader: what stands behind the marker, or
/// everything.
pub open spec fn fragment_text(source: Seq<char>) -> Seq<char> {
    let marker = marker_from(source, SHADER_MARKER@, 0);
    if marker < 0 {
        source
    } else {
        source.skip(marker + SHADER_MARKER@.len())
    }
}

fn find_marker(letters: &[char], marker: &[char]) -> (found: Option<usize>)
    requires
        marker@.len() > 0,
    ensures
        match found {
            Some(index) => marker_from(letters@, marker@, 0) == index && index + marker@.len()
                <= letters@.len(),
            None => marker_from(letters@, marker@, 0) == -1,
        },
{
    let mut index: usize = 0;
    while index < letters.len()
        invariant
            index <= letters@.len(),
            marker_from(letters@, marker@, 0) == marker_from(letters@, marker@, index as int),
        decreases letters.len() - index,
    {
        if found_at(letters, index, marker) {
            return Some(index);
        }
        index += 1;
    }
    None
}

/// Returns the vertex source and the fragment source of a shader.
pub fn shader_parts(source: &str) -> (parts: (String, String))
    ensures
        parts.0@ == vertex_text(source@),
        parts.1@ == fragment_text(source@),
{
    let letters = characters(source);
    let marker = characters(SHADER_MARKER);
    if marker.len() == 0 {
        proof {
            reveal_strlit(
                "//######################_==_YOYO_SHADER_MARKER_==_######################@~",
            );
        }
        return (source.to_owned(), source.to_owned());
    }
    match find_marker(letters.as_slice(), marker.as_slice()) {
        None => (source.to_owned(), source.to_owned()),
        Some(index) => {
            let length = letters.len();
            let vertex = vstd::slice::slice_subrange(letters.as_slice(), 0, index);
            let fragment = vstd::slice::slice_subrange(
                letters.as_slice(),
                index + marker.len(),
                length,
            );
            assert(vertex@ =~= source@.take(index as int));
            assert(fragment@ =~= source@.skip(index + marker@.len()));
            (spell(vertex), spell(fragment))
        },
    }
}

impl Shader {
    /// Returns the whole source of the shader.
    pub fn raw_source(&self) -> (source: &str)
        ensures
            source@ == self.raw_source@,
    {
        self.raw_source.as_str()
    }

    /// Returns the vertex source of the shader.
    pub fn vertex_source(&self) -> (source: String)
        ensures
            source@ == vertex_text(self.raw_source@),
    {
        shader_parts(self.raw_source.as_str()).0
    }

    /// Returns the fragment source of the shader.
    pub fn fragment_source(&self) -> (source: String)
        ensures
            source@ == fragment_text(self.raw_source@),
    {
        shader_parts(self.raw_source.as_str()).1
    }
}

} // verus!
