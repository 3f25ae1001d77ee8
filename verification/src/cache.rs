//! The build cache: the files that a build depends on, the key of a build, and
//! the states of files that are kept between builds.

use vstd::prelude::*;
use vstd::utf8::*;

use crate::artifact::{validate_relative_path, validated};
use crate::assets::Assets;
use crate::audio::{
    lemma_order_chain, lemma_order_reversed, lemma_same_bytes, order_at, order_from, Level, Order,
};
use crate::bytes::{
    append, append_text, append_u32, append_u64, bytes_at, double_at, has_bytes,
    lemma_double_round_trip, lemma_word_round_trip, read_double_word, read_word,
};
use crate::config::Config;
use crate::digest::{hex, hex_text, md5, md5_digest};
use crate::encoding::from_utf8;
use crate::gml::vm::{le32, le64, word_at};
use crate::package::{read_from, read_source, ContentsView, FileContents, ReadFile};
use crate::path::{directory_of, is_rooted, join_path, parent, path_within, rooted};
use crate::project::{lower, lowered, ProjectManifest, ResourceKind, ResourceRef};
use crate::resources::{Background, BinaryFile};
use crate::runner::{name_place, replaces, would_replace};
use crate::text::{
    characters, debug_quoted, debug_spelling, decimal, digits, is_hex_digit,
    ascii_hex_digit, lemma_bytes_determine_text, replace, replaced, same_bytes, same_text, spelled,
    spells,
};

verus! {

/// What the keys of builds begin with.
pub const BUILD_CACHE_SCHEMA: &'static str = "gmx-rs-build-cache-v4\0";

/// What a file of dependencies begins with.
pub const DEPENDENCY_MAGIC: &'static str = "GMXRSDEPS2";

/// What the state of an output begins with.
pub const OUTPUT_MAGIC: &'static str = "GMXRSOUT1";

/// Why the cache cannot be used.
#[derive(Debug, Clone, PartialEq, Eq)]
pub enum CacheError {
    Io { path: String, message: String },
    InvalidDependencyFile(String),
    InvalidEntry(String),
    InvalidKey(String),
    PathTooLong(String),
    TooManyDependencies(usize),
}

/// A [`CacheError`] as sequences of characters.
pub enum CacheFault {
    Io { path: Seq<char>, message: Seq<char> },
    InvalidDependencyFile(Seq<char>),
    InvalidEntry(Seq<char>),
    InvalidKey(Seq<char>),
    PathTooLong(Seq<char>),
    TooManyDependencies(int),
}

impl View for CacheError {
    type V = CacheFault;

    open spec fn view(&self) -> CacheFault {
        match self {
            CacheError::Io { path, message } => CacheFault::Io { path: path@, message: message@ },
            CacheError::InvalidDependencyFile(path) => CacheFault::InvalidDependencyFile(path@),
            CacheError::InvalidEntry(path) => CacheFault::InvalidEntry(path@),
            CacheError::InvalidKey(key) => CacheFault::InvalidKey(key@),
            CacheError::PathTooLong(path) => CacheFault::PathTooLong(path@),
            CacheError::TooManyDependencies(count) => CacheFault::TooManyDependencies(
                *count as int,
            ),
        }
    }
}

/// The message about a fault.
pub open spec fn cache_fault_text(fault: CacheFault) -> Seq<char> {
    match fault {
        CacheFault::Io { path, message } => path + ": "@ + message,
        CacheFault::InvalidDependencyFile(path) => "invalid build-cache dependency file "@ + path,
        CacheFault::InvalidEntry(path) => "invalid build-cache entry "@ + path,
        CacheFault::InvalidKey(key) => "invalid build-cache key "@ + debug_spelling(key),
        CacheFault::PathTooLong(path) => "build-cache dependency path is too long: "@ + path,
        CacheFault::TooManyDependencies(count) => "build cache has too many dependencies: "@
            + digits(count as nat, 10),
    }
}

impl CacheError {
    /// Returns the message of the error.
    pub fn text(&self) -> (text: String)
        ensures
            text@ == cache_fault_text(self@),
    {
        match self {
            CacheError::Io { path, message } => {
                let mut text = path.clone();
                text.append(": ");
                text.append(message.as_str());
                text
            },
            CacheError::InvalidDependencyFile(path) => {
                let mut text = "invalid build-cache dependency file ".to_owned();
                text.append(path.as_str());
                text
            },
            CacheError::InvalidEntry(path) => {
                let mut text = "invalid build-cache entry ".to_owned();
                text.append(path.as_str());
                text
            },
            CacheError::InvalidKey(key) => {
                let mut text = "invalid build-cache key ".to_owned();
                let shown = debug_quoted(key.as_str());
                text.append(shown.as_str());
                text
            },
            CacheError::PathTooLong(path) => {
                let mut text = "build-cache dependency path is too long: ".to_owned();
                text.append(path.as_str());
                text
            },
            CacheError::TooManyDependencies(count) => {
                let mut text = "build cache has too many dependencies: ".to_owned();
                let shown = decimal(*count as u64);
                text.append(shown.as_str());
                text
            },
        }
    }
}

/// Whether a result is what is expected of it.
pub open spec fn is_result<T>(result: Result<T, CacheError>, expected: Result<T, CacheFault>) -> bool {
    match (result, expected) {
        (Ok(value), Ok(other)) => value == other,
        (Err(error), Err(fault)) => error@ == fault,
        _ => false,
    }
}

/// The key of a path: the path with slashes.
pub open spec fn key_of_path(path: Seq<char>) -> Seq<char> {
    replaced(path, "\\"@, "/"@)
}

/// Returns the key of a path: the path with slashes.
pub fn path_key(path: &str) -> (key: String)
    ensures
        key@ == key_of_path(path@),
{
    proof {
        reveal_strlit("\\");
    }
    replace(path, "\\", "/")
}

/// Whether a text is the key of a build: thirty-two hexadecimal digits.
pub open spec fn is_key(key: Seq<char>) -> bool {
    key.len() == 32 && forall|k: int| 0 <= k < key.len() ==> ascii_hex_digit(#[trigger] key[k])
}

/// Checks the key of a build.
pub fn validate_key(key: &str) -> (result: Result<(), CacheError>)
    ensures
        match result {
            Ok(()) => is_key(key@),
            Err(error) => !is_key(key@) && error@ == CacheFault::InvalidKey(key@),
        },
{
    let letters = characters(key);
    if letters.len() != 32 {
        return Err(CacheError::InvalidKey(key.to_owned()));
    }
    let mut index: usize = 0;
    while index < letters.len()
        invariant
            index <= letters@.len(),
            letters@ == key@,
            letters@.len() == 32,
            forall|k: int| 0 <= k < index ==> ascii_hex_digit(#[trigger] key@[k]),
        decreases letters.len() - index,
    {
        if !is_hex_digit(letters[index]) {
            assert(!ascii_hex_digit(key@[index as int]));
            return Err(CacheError::InvalidKey(key.to_owned()));
        }
        index += 1;
    }
    Ok(())
}

/// Whether the value of a variable switches something on.
pub open spec fn switches_on(value: Option<Seq<char>>) -> bool {
    match value {
        None => false,
        Some(value) => value.len() > 0 && value != "0"@ && lowered(value) != "false"@ && lowered(
            value,
        ) != "no"@,
    }
}

/// Returns whether the value of a variable switches something on.
pub fn env_flag(value: Option<&str>) -> (result: bool)
    ensures
        result == switches_on(crate::config::text_view(value)),
{
    match value {
        None => false,
        Some(value) => {
            let letters = characters(value);
            let small = lower(letters.as_slice());
            letters.len() > 0 && !same_text(value, "0") && !spells(small.as_slice(), "false")
                && !spells(small.as_slice(), "no")
        },
    }
}

/// Returns whether caching is on, given the variable that switches it off.
pub fn cache_enabled(disabled: Option<&str>) -> (result: bool)
    ensures
        result == !switches_on(crate::config::text_view(disabled)),
{
    !env_flag(disabled)
}

/// Returns whether builds are cached, given the variables that switch off all
/// caching and the caching of builds.
pub fn build_cache_enabled(disabled: Option<&str>, build_disabled: Option<&str>) -> (result: bool)
    ensures
        result == (!switches_on(crate::config::text_view(disabled)) && !switches_on(
            crate::config::text_view(build_disabled),
        )),
{
    cache_enabled(disabled) && !env_flag(build_disabled)
}

/// Where the cache of a project is kept by default.
pub open spec fn default_root(project: Seq<char>) -> Seq<char> {
    let directory = directory_of(project);
    let place = if directory.len() == 0 {
        "."@
    } else {
        directory
    };
    path_within(path_within(place, "build"@), ".gmx-cache"@)
}

/// Returns where the cache of a project is kept by default.
pub fn default_cache_root(project: &str) -> (root: String)
    ensures
        root@ == default_root(project@),
{
    let directory = parent(project);
    let build = if directory.as_str().is_empty() {
        join_path(".", "build")
    } else {
        join_path(directory.as_str(), "build")
    };
    join_path(build.as_str(), ".gmx-cache")
}

/// Whether a path leads to something within a directory.
pub open spec fn is_inside(path: Seq<char>, directory: Seq<char>) -> bool {
    &&& directory.len() < path.len()
    &&& path.take(directory.len() as int) == directory
    &&& path[directory.len() as int] == '/'
}

/// What a cache holds by default is within the directory that builds are written
/// to beside the project, so that it is removed with it.
pub proof fn law_default_caches_are_removed_with_builds(project: Seq<char>, name: Seq<char>)
    requires
        directory_of(project).len() > 0,
        !is_rooted(name),
    ensures
        is_inside(
            path_within(default_root(project), name),
            path_within(directory_of(project), "build"@),
        ),
{
    reveal_strlit("build");
    reveal_strlit(".gmx-cache");
    let build = path_within(directory_of(project), "build"@);
    let root = default_root(project);
    assert(build.last() == 'd');
    assert(root == build + seq!['/'] + ".gmx-cache"@);
    assert(root.take(build.len() as int) =~= build);
    let path = path_within(root, name);
    assert(root.last() == 'e');
    assert(path.take(build.len() as int) =~= build);
}

/// Returns where the cache of a project is kept, given the variable that says so.
pub fn cache_root(directory: Option<&str>, project: &str) -> (root: String)
    ensures
        root@ == match crate::config::text_view(directory) {
            Some(directory) => directory,
            None => default_root(project@),
        },
{
    match directory {
        Some(directory) => directory.to_owned(),
        None => default_cache_root(project),
    }
}

/// The cache of the builds of a project with a configuration.
#[derive(Debug, Clone)]
pub struct BuildCache {
    pub root: String,
    pub dependency_file: String,
}

/// What names the project and the configuration of a cache.
pub open spec fn cache_identity(project: Seq<char>, config: Seq<char>) -> Seq<u8> {
    encode_utf8(BUILD_CACHE_SCHEMA@) + encode_utf8(key_of_path(project)) + seq![0u8]
        + encode_utf8(config)
}

impl BuildCache {
    /// Returns the cache at a place of the builds of a project with a
    /// configuration.
    pub fn at(root: &str, project: &str, config: &str) -> (cache: Self)
        ensures
            cache.root@ == root@,
            cache.dependency_file@ == path_within(
                path_within(root@, "projects"@),
                hex_text(md5_digest(cache_identity(project@, config@))) + ".deps"@,
            ),
    {
        let mut identity: Vec<u8> = Vec::new();
        append_text(&mut identity, BUILD_CACHE_SCHEMA);
        let key = path_key(project);
        append_text(&mut identity, key.as_str());
        identity.push(0);
        append_text(&mut identity, config);
        assert(identity@ =~= cache_identity(project@, config@));
        let digest = md5(identity.as_slice());
        let mut name = hex(&digest);
        name.append(".deps");
        let projects = join_path(root, "projects");
        BuildCache {
            root: root.to_owned(),
            dependency_file: join_path(projects.as_str(), name.as_str()),
        }
    }

    /// Returns where the build with a key is kept.
    pub fn entry(&self, key: &str) -> (path: String)
        ensures
            path@ == path_within(path_within(self.root@, "artifacts"@), key@),
    {
        let artifacts = join_path(self.root.as_str(), "artifacts");
        join_path(artifacts.as_str(), key)
    }

    /// Returns where a file with some contents is kept.
    pub fn blob_path(&self, data: &[u8]) -> (path: String)
        ensures
            path@ == blob_place(self.root@, data@),
    {
        let digest = md5(data);
        proof {
            lemma_hex_length(digest@, 16);
        }
        let name = hex(&digest);
        let letters = characters(name.as_str());
        let head = crate::text::spell(
            vstd::slice::slice_subrange(letters.as_slice(), 0, 2),
        );
        assert(head@ =~= hex_text(md5_digest(data@)).take(2));
        let objects = join_path(self.root.as_str(), "objects");
        let directory = join_path(objects.as_str(), head.as_str());
        let mut file = name;
        file.append("-");
        let size = decimal(data.len() as u64);
        file.append(size.as_str());
        join_path(directory.as_str(), file.as_str())
    }

    /// Returns where the state of an output is kept.
    pub fn output_marker_path(&self, output: &str) -> (path: String)
        ensures
            path@ == path_within(
                path_within(self.root@, "outputs"@),
                hex_text(
                    md5_digest(
                        encode_utf8(BUILD_CACHE_SCHEMA@) + encode_utf8(key_of_path(output@)),
                    ),
                ) + ".state"@,
            ),
    {
        let mut identity: Vec<u8> = Vec::new();
        append_text(&mut identity, BUILD_CACHE_SCHEMA);
        let key = path_key(output);
        append_text(&mut identity, key.as_str());
        assert(identity@ =~= encode_utf8(BUILD_CACHE_SCHEMA@) + encode_utf8(
            key_of_path(output@),
        ));
        let digest = md5(identity.as_slice());
        let mut name = hex(&digest);
        name.append(".state");
        let outputs = join_path(self.root.as_str(), "outputs");
        join_path(outputs.as_str(), name.as_str())
    }
}

/// Where a file with some contents is kept.
pub open spec fn blob_place(root: Seq<char>, data: Seq<u8>) -> Seq<char> {
    let name = hex_text(md5_digest(data));
    path_within(
        path_within(path_within(root, "objects"@), name.take(2)),
        name + "-"@ + digits(data.len(), 10),
    )
}

proof fn lemma_hex_length(bytes: Seq<u8>, count: int)
    requires
        0 <= count,
    ensures
        crate::digest::hex_digits(bytes, count).len() == 2 * count,
    decreases count,
{
    if count > 0 {
        lemma_hex_length(bytes, count - 1);
    }
}

/// A build that was found in the cache.
#[derive(Debug, Clone, PartialEq, Eq)]
pub struct CacheHit {
    pub key: String,
    pub wad_bytes: u64,
    pub external_files: usize,
}

/// The state of a file: 0 if there is none, 1 if the time of its last change is
/// not known, and 2 otherwise, with its size and that time.
#[derive(Debug, Clone, Copy, PartialEq, Eq, Structural)]
pub struct DependencyStamp {
    pub kind: u8,
    pub size: u64,
    pub modified_seconds: u64,
    pub modified_nanos: u32,
}

impl DependencyStamp {
    /// Whether two equal states are states of one contents.
    pub open spec fn is_reliable(self) -> bool {
        self.kind != 1
    }

    /// Returns whether two equal states are states of one contents.
    pub fn reliable(self) -> (result: bool)
        ensures
            result == self.is_reliable(),
    {
        self.kind != 1
    }
}

/// What is known of a file without reading it.
#[derive(Debug, Clone, Copy, PartialEq, Eq, Structural)]
pub enum FileState {
    Absent,
    Undated { size: u64 },
    Dated { size: u64, seconds: u64, nanos: u32 },
}

/// The state of a file.
pub open spec fn stamp_of(state: FileState) -> DependencyStamp {
    match state {
        FileState::Absent => DependencyStamp {
            kind: 0,
            size: 0,
            modified_seconds: 0,
            modified_nanos: 0,
        },
        FileState::Undated { size } => DependencyStamp {
            kind: 1,
            size,
            modified_seconds: 0,
            modified_nanos: 0,
        },
        FileState::Dated { size, seconds, nanos } => DependencyStamp {
            kind: 2,
            size,
            modified_seconds: seconds,
            modified_nanos: nanos,
        },
    }
}

/// Returns the state of a file.
pub fn dependency_stamp(state: FileState) -> (stamp: DependencyStamp)
    ensures
        stamp == stamp_of(state),
{
    match state {
        FileState::Absent => DependencyStamp {
            kind: 0,
            size: 0,
            modified_seconds: 0,
            modified_nanos: 0,
        },
        FileState::Undated { size } => DependencyStamp {
            kind: 1,
            size,
            modified_seconds: 0,
            modified_nanos: 0,
        },
        FileState::Dated { size, seconds, nanos } => DependencyStamp {
            kind: 2,
            size,
            modified_seconds: seconds,
            modified_nanos: nanos,
        },
    }
}

/// The number of bytes of a state.
pub const STAMP_SIZE: usize = 21;

/// How a state is written.
pub open spec fn stamp_bytes(stamp: DependencyStamp) -> Seq<u8> {
    seq![stamp.kind] + le64(stamp.size as int) + le64(stamp.modified_seconds as int) + le32(
        stamp.modified_nanos as int,
    )
}

/// The state that stands at an offset.
pub open spec fn stamp_at(data: Seq<u8>, offset: int) -> DependencyStamp {
    DependencyStamp {
        kind: data[offset],
        size: double_at(data, offset + 1) as u64,
        modified_seconds: double_at(data, offset + 9) as u64,
        modified_nanos: word_at(data, offset + 17) as u32,
    }
}

/// What a state is written as is read as the state.
pub proof fn law_written_stamp_is_read(data: Seq<u8>, offset: int, stamp: DependencyStamp)
    requires
        bytes_at(data, offset, stamp_bytes(stamp)),
    ensures
        stamp_bytes(stamp).len() == STAMP_SIZE,
        stamp_at(data, offset) == stamp,
{
    let part = stamp_bytes(stamp);
    assert(part.len() == 21);
    assert(data[offset] == data.subrange(offset, offset + 21)[0]);
    assert(data.subrange(offset + 1, offset + 9) =~= data.subrange(offset, offset + 21).subrange(
        1,
        9,
    ));
    assert(part.subrange(1, 9) =~= le64(stamp.size as int));
    assert(data.subrange(offset + 9, offset + 17) =~= data.subrange(offset, offset + 21).subrange(
        9,
        17,
    ));
    assert(part.subrange(9, 17) =~= le64(stamp.modified_seconds as int));
    assert(data.subrange(offset + 17, offset + 21) =~= data.subrange(offset, offset + 21).subrange(
        17,
        21,
    ));
    assert(part.subrange(17, 21) =~= le32(stamp.modified_nanos as int));
    lemma_double_round_trip(data, offset + 1, stamp.size);
    lemma_double_round_trip(data, offset + 9, stamp.modified_seconds);
    lemma_word_round_trip(data, offset + 17, stamp.modified_nanos);
}

/// Writes a state.
pub fn write_stamp(output: &mut Vec<u8>, stamp: DependencyStamp)
    ensures
        final(output)@ == old(output)@ + stamp_bytes(stamp),
{
    let ghost before = output@;
    output.push(stamp.kind);
    append_u64(output, stamp.size);
    append_u64(output, stamp.modified_seconds);
    append_u32(output, stamp.modified_nanos);
    assert(output@ =~= before + stamp_bytes(stamp));
}

fn read_stamp(data: &[u8], offset: usize) -> (stamp: DependencyStamp)
    requires
        offset + STAMP_SIZE <= data@.len(),
    ensures
        stamp == stamp_at(data@, offset as int),
{
    let length = data.len();
    let size = read_double_word(data, offset + 1);
    let modified_seconds = read_double_word(data, offset + 9);
    let modified_nanos = read_word(data, offset + 17);
    DependencyStamp { kind: data[offset], size, modified_seconds, modified_nanos }
}

/// A file with its state.
#[derive(Debug, Clone, PartialEq, Eq)]
pub struct SavedDependency {
    pub path: String,
    pub stamp: DependencyStamp,
}

/// A [`SavedDependency`] as a sequence of characters.
pub struct SavedView {
    pub path: Seq<char>,
    pub stamp: DependencyStamp,
}

impl View for SavedDependency {
    type V = SavedView;

    open spec fn view(&self) -> SavedView {
        SavedView { path: self.path@, stamp: self.stamp }
    }
}

/// What a list of files with their states stands for.
pub open spec fn saved_views(saved: Seq<SavedDependency>) -> Seq<SavedView> {
    saved.map_values(|dependency: SavedDependency| dependency@)
}

/// How a file with its state is written.
pub open spec fn saved_bytes(saved: SavedView) -> Seq<u8> {
    le32(encode_utf8(saved.path).len() as int) + encode_utf8(saved.path) + stamp_bytes(saved.stamp)
}

/// How the first files with their states are written.
pub open spec fn all_bytes(saved: Seq<SavedView>, count: int) -> Seq<u8>
    decreases count,
{
    if count <= 0 {
        seq![]
    } else {
        all_bytes(saved, count - 1) + saved_bytes(saved[count - 1])
    }
}

/// The first of the first files whose path is too long.
pub open spec fn too_long(saved: Seq<SavedView>, count: int) -> Option<Seq<char>>
    decreases count,
{
    if count <= 0 {
        None
    } else {
        match too_long(saved, count - 1) {
            Some(path) => Some(path),
            None => if encode_utf8(saved[count - 1].path).len() > u32::MAX {
                Some(saved[count - 1].path)
            } else {
                None
            },
        }
    }
}

proof fn lemma_too_long_stays(saved: Seq<SavedView>, count: int, end: int)
    requires
        0 <= count <= end,
        too_long(saved, count) is Some,
    ensures
        too_long(saved, end) == too_long(saved, count),
    decreases end - count,
{
    if count < end {
        lemma_too_long_stays(saved, count, end - 1);
    }
}

/// How files with their states are written, with their number before them.
pub open spec fn listed_bytes(saved: Seq<SavedView>) -> Result<Seq<u8>, CacheFault> {
    if saved.len() > u32::MAX {
        Err(CacheFault::TooManyDependencies(saved.len() as int))
    } else {
        match too_long(saved, saved.len() as int) {
            Some(path) => Err(CacheFault::PathTooLong(path)),
            None => Ok(le32(saved.len() as int) + all_bytes(saved, saved.len() as int)),
        }
    }
}

fn write_saved(output: &mut Vec<u8>, saved: &Vec<SavedDependency>) -> (result: Result<
    (),
    CacheError,
>)
    ensures
        match (result, listed_bytes(saved_views(saved@))) {
            (Ok(()), Ok(bytes)) => final(output)@ == old(output)@ + bytes,
            (Err(error), Err(fault)) => error@ == fault,
            _ => false,
        },
{
    let ghost views = saved_views(saved@);
    let ghost start = output@;
    if saved.len() as u64 > u32::MAX as u64 {
        return Err(CacheError::TooManyDependencies(saved.len()));
    }
    append_u32(output, saved.len() as u32);
    let ghost head = le32(saved@.len() as int);
    let mut index: usize = 0;
    assert(output@ =~= start + head + all_bytes(views, 0));
    while index < saved.len()
        invariant
            index <= saved@.len() <= u32::MAX,
            views == saved_views(saved@),
            head == le32(saved@.len() as int),
            start == old(output)@,
            output@ == start + head + all_bytes(views, index as int),
            too_long(views, index as int) is None,
        decreases saved.len() - index,
    {
        assert(views[index as int] == saved@[index as int]@);
        let path = saved[index].path.as_str();
        let bytes = path.as_bytes();
        if bytes.len() as u64 > u32::MAX as u64 {
            proof {
                lemma_too_long_stays(views, index + 1, saved@.len() as int);
            }
            return Err(CacheError::PathTooLong(path.to_owned()));
        }
        let ghost before = output@;
        append_u32(output, bytes.len() as u32);
        append(output, bytes);
        write_stamp(output, saved[index].stamp);
        assert(output@ =~= before + saved_bytes(views[index as int]));
        assert(output@ =~= start + head + all_bytes(views, index + 1));
        index += 1;
    }
    assert(output@ =~= start + (head + all_bytes(views, saved@.len() as int)));
    Ok(())
}

/// How a file of dependencies is written.
pub open spec fn dependency_bytes(saved: Seq<SavedView>) -> Result<Seq<u8>, CacheFault> {
    match listed_bytes(saved) {
        Ok(bytes) => Ok(encode_utf8(DEPENDENCY_MAGIC@) + bytes),
        Err(fault) => Err(fault),
    }
}

/// Returns the bytes of a file of dependencies.
pub fn encode_dependencies(saved: &Vec<SavedDependency>) -> (result: Result<Vec<u8>, CacheError>)
    ensures
        match (result, dependency_bytes(saved_views(saved@))) {
            (Ok(bytes), Ok(expected)) => bytes@ == expected,
            (Err(error), Err(fault)) => error@ == fault,
            _ => false,
        },
{
    let mut output: Vec<u8> = Vec::new();
    append_text(&mut output, DEPENDENCY_MAGIC);
    assert(output@ =~= encode_utf8(DEPENDENCY_MAGIC@));
    match write_saved(&mut output, saved) {
        Ok(()) => Ok(output),
        Err(error) => Err(error),
    }
}

/// A file with its state, and where it ends in a file of dependencies.
pub struct EntryRead {
    pub saved: SavedView,
    pub end: int,
}

/// The file with its state that stands at an offset.
pub open spec fn entry_at(data: Seq<u8>, offset: int) -> Option<EntryRead> {
    let length = word_at(data, offset);
    let start = offset + 4;
    let end = start + length;
    if offset + 4 > data.len() || end > data.len() || !valid_utf8(data.subrange(start, end)) || end
        + STAMP_SIZE > data.len() || data[end] > 2 {
        None
    } else {
        Some(
            EntryRead {
                saved: SavedView {
                    path: decode_utf8(data.subrange(start, end)),
                    stamp: stamp_at(data, end),
                },
                end: end + STAMP_SIZE,
            },
        )
    }
}

/// The first files with their states, and where they end.
pub struct EntriesRead {
    pub saved: Seq<SavedView>,
    pub end: int,
}

/// The first files with their states, from an offset on.
pub open spec fn entries_at(data: Seq<u8>, offset: int, count: int) -> Option<EntriesRead>
    decreases count,
{
    if count <= 0 {
        Some(EntriesRead { saved: seq![], end: offset })
    } else {
        match entries_at(data, offset, count - 1) {
            None => None,
            Some(before) => match entry_at(data, before.end) {
                None => None,
                Some(entry) => Some(
                    EntriesRead { saved: before.saved.push(entry.saved), end: entry.end },
                ),
            },
        }
    }
}

proof fn lemma_entries_stop(data: Seq<u8>, offset: int, count: int, end: int)
    requires
        0 <= count <= end,
        entries_at(data, offset, count) is None,
    ensures
        entries_at(data, offset, end) is None,
    decreases end - count,
{
    if count < end {
        lemma_entries_stop(data, offset, count, end - 1);
    }
}

/// What a file of dependencies holds, if it is one.
pub open spec fn dependencies_in(data: Seq<u8>) -> Option<Seq<SavedView>> {
    let magic = encode_utf8(DEPENDENCY_MAGIC@);
    let start = magic.len() + 4;
    if !bytes_at(data, 0, magic) || data.len() < start {
        None
    } else {
        match entries_at(data, start as int, word_at(data, magic.len() as int)) {
            Some(read) => if read.end == data.len() {
                Some(read.saved)
            } else {
                None
            },
            None => None,
        }
    }
}

fn read_entry(data: &[u8], offset: usize) -> (entry: Option<(SavedDependency, usize)>)
    requires
        offset <= data@.len(),
    ensures
        match (entry, entry_at(data@, offset as int)) {
            (Some(entry), Some(expected)) => entry.0@ == expected.saved && entry.1 == expected.end
                && entry.1 <= data@.len(),
            (None, None) => true,
            _ => false,
        },
{
    let total = data.len();
    if total - offset < 4 {
        return None;
    }
    let length = read_word(data, offset) as usize;
    let start = offset + 4;
    if total - start < length {
        return None;
    }
    let end = start + length;
    let bytes = vstd::slice::slice_subrange(data, start, end);
    let path = match from_utf8(bytes) {
        Ok(path) => path,
        Err(_) => {
            return None;
        },
    };
    if total - end < STAMP_SIZE || data[end] > 2 {
        return None;
    }
    let stamp = read_stamp(data, end);
    Some((SavedDependency { path, stamp }, end + STAMP_SIZE))
}

/// Returns what a file of dependencies holds.
pub fn read_saved_dependencies(path: &str, data: &[u8]) -> (result: Result<
    Vec<SavedDependency>,
    CacheError,
>)
    ensures
        match (result, dependencies_in(data@)) {
            (Ok(saved), Some(expected)) => saved_views(saved@) == expected,
            (Err(error), None) => error@ == CacheFault::InvalidDependencyFile(path@),
            _ => false,
        },
{
    let magic = DEPENDENCY_MAGIC.as_bytes();
    let total = data.len();
    if !has_bytes(data, 0, magic) || total - magic.len() < 4 {
        return Err(CacheError::InvalidDependencyFile(path.to_owned()));
    }
    let ghost begin = magic@.len() + 4;
    let count = read_word(data, magic.len()) as usize;
    let mut offset = magic.len() + 4;
    let mut saved: Vec<SavedDependency> = Vec::new();
    assert(saved_views(saved@) =~= seq![]);
    let mut index: usize = 0;
    while index < count
        invariant
            index <= count,
            offset <= data@.len(),
            entries_at(data@, begin as int, index as int) == Some(
                EntriesRead { saved: saved_views(saved@), end: offset as int },
            ),
            dependencies_in(data@) == (match entries_at(data@, begin as int, count as int) {
                Some(read) => if read.end == data@.len() {
                    Some(read.saved)
                } else {
                    None
                },
                None => None,
            }),
        decreases count - index,
    {
        match read_entry(data, offset) {
            None => {
                proof {
                    lemma_entries_stop(data@, begin as int, index + 1, count as int);
                }
                return Err(CacheError::InvalidDependencyFile(path.to_owned()));
            },
            Some((entry, end)) => {
                let ghost before = saved_views(saved@);
                saved.push(entry);
                assert(saved_views(saved@) =~= before.push(entry@));
                offset = end;
            },
        }
        index += 1;
    }
    if offset != total {
        return Err(CacheError::InvalidDependencyFile(path.to_owned()));
    }
    Ok(saved)
}

proof fn lemma_all_bytes_begin(saved: Seq<SavedView>, count: int, end: int)
    requires
        0 <= count <= end,
    ensures
        all_bytes(saved, count).len() <= all_bytes(saved, end).len(),
        all_bytes(saved, end).take(all_bytes(saved, count).len() as int) == all_bytes(
            saved,
            count,
        ),
    decreases end - count,
{
    if count < end {
        lemma_all_bytes_begin(saved, count, end - 1);
        let shorter = all_bytes(saved, end - 1);
        assert(all_bytes(saved, end).take(all_bytes(saved, count).len() as int) =~= shorter.take(
            all_bytes(saved, count).len() as int,
        ));
    } else {
        assert(all_bytes(saved, end).take(all_bytes(saved, count).len() as int) =~= all_bytes(
            saved,
            count,
        ));
    }
}

proof fn lemma_short_enough(saved: Seq<SavedView>, count: int, index: int)
    requires
        0 <= index < count,
        too_long(saved, count) is None,
    ensures
        encode_utf8(saved[index].path).len() <= u32::MAX,
    decreases count,
{
    if index < count - 1 {
        lemma_short_enough(saved, count - 1, index);
    }
}

proof fn lemma_bytes_within(
    data: Seq<u8>,
    offset: int,
    before: Seq<u8>,
    part: Seq<u8>,
    behind: Seq<u8>,
)
    requires
        bytes_at(data, offset, before + part + behind),
    ensures
        bytes_at(data, offset + before.len(), part),
{
    let all = before + part + behind;
    let at = offset + before.len();
    assert forall|k: int| 0 <= k < part.len() implies data.subrange(at, at + part.len())[k]
        == part[k] by {
        assert(data.subrange(offset, offset + all.len())[before.len() + k] == all[before.len()
            + k]);
    }
    assert(data.subrange(at, at + part.len()) =~= part);
}

#[verifier::spinoff_prover]
proof fn lemma_entry_is_read(data: Seq<u8>, offset: int, saved: SavedView)
    requires
        bytes_at(data, offset, saved_bytes(saved)),
        encode_utf8(saved.path).len() <= u32::MAX,
        saved.stamp.kind <= 2,
    ensures
        entry_at(data, offset) == Some(
            EntryRead { saved, end: offset + saved_bytes(saved).len() },
        ),
{
    let path = encode_utf8(saved.path);
    let head = le32(path.len() as int);
    let stamp = stamp_bytes(saved.stamp);
    let none: Seq<u8> = seq![];
    let end = offset + 4 + path.len();
    assert(saved_bytes(saved) =~= none + head + (path + stamp));
    lemma_bytes_within(data, offset, none, head, path + stamp);
    assert(saved_bytes(saved) =~= head + path + stamp);
    lemma_bytes_within(data, offset, head, path, stamp);
    assert(saved_bytes(saved) =~= (head + path) + stamp + none);
    lemma_bytes_within(data, offset, head + path, stamp, none);
    lemma_word_round_trip(data, offset, path.len() as u32);
    encode_utf8_valid_utf8(saved.path);
    encode_utf8_decode_utf8(saved.path);
    law_written_stamp_is_read(data, end, saved.stamp);
    assert(data[end] == stamp_at(data, end).kind);
}

proof fn lemma_part_stands(
    data: Seq<u8>,
    offset: int,
    all: Seq<u8>,
    before: Seq<u8>,
    part: Seq<u8>,
)
    requires
        0 <= offset <= data.len(),
        data.skip(offset) == all,
        before.len() + part.len() <= all.len(),
        all.take((before + part).len() as int) == before + part,
    ensures
        bytes_at(data, offset + before.len(), part),
{
    let at = offset + before.len();
    assert(data.skip(offset).len() == data.len() - offset);
    assert forall|k: int| 0 <= k < part.len() implies data.subrange(at, at + part.len())[k]
        == part[k] by {
        let place = before.len() + k;
        assert(data.skip(offset)[place] == data[offset + place]);
        assert(all.take((before + part).len() as int)[place] == (before + part)[place]);
        assert(all.take((before + part).len() as int)[place] == all[place]);
        assert((before + part)[place] == part[k]);
    }
    assert(data.subrange(at, at + part.len()) =~= part);
}

#[verifier::spinoff_prover]
proof fn lemma_entries_are_read(
    data: Seq<u8>,
    offset: int,
    saved: Seq<SavedView>,
    count: int,
)
    requires
        0 <= count <= saved.len(),
        0 <= offset,
        data.len() == offset + all_bytes(saved, saved.len() as int).len(),
        data.skip(offset) == all_bytes(saved, saved.len() as int),
        too_long(saved, saved.len() as int) is None,
        forall|k: int| 0 <= k < saved.len() ==> (#[trigger] saved[k]).stamp.kind <= 2,
    ensures
        entries_at(data, offset, count) == Some(
            EntriesRead {
                saved: saved.take(count),
                end: offset + all_bytes(saved, count).len(),
            },
        ),
    decreases count,
{
    if count > 0 {
        lemma_entries_are_read(data, offset, saved, count - 1);
        lemma_all_bytes_begin(saved, count, saved.len() as int);
        lemma_part_stands(
            data,
            offset,
            all_bytes(saved, saved.len() as int),
            all_bytes(saved, count - 1),
            saved_bytes(saved[count - 1]),
        );
        lemma_short_enough(saved, saved.len() as int, count - 1);
        lemma_entry_is_read(
            data,
            offset + all_bytes(saved, count - 1).len(),
            saved[count - 1],
        );
        assert(saved.take(count - 1).push(saved[count - 1]) =~= saved.take(count));
    } else {
        assert(saved.take(0) =~= seq![]);
    }
}

/// What is written to a file of dependencies is read from it.
pub proof fn law_written_dependencies_are_read(saved: Seq<SavedView>)
    requires
        dependency_bytes(saved) is Ok,
        forall|k: int| 0 <= k < saved.len() ==> (#[trigger] saved[k]).stamp.kind <= 2,
    ensures
        dependencies_in(dependency_bytes(saved)->Ok_0) == Some(saved),
{
    let magic = encode_utf8(DEPENDENCY_MAGIC@);
    let data = dependency_bytes(saved)->Ok_0;
    let all = all_bytes(saved, saved.len() as int);
    let head = le32(saved.len() as int);
    assert(data == magic + (head + all));
    assert(data.subrange(0, magic.len() as int) =~= magic);
    assert(data.subrange(magic.len() as int, magic.len() as int + 4) =~= head);
    lemma_word_round_trip(data, magic.len() as int, saved.len() as u32);
    let start = magic.len() + 4;
    assert(data.skip(start as int) =~= all);
    lemma_entries_are_read(data, start as int, saved, saved.len() as int);
    assert(saved.take(saved.len() as int) =~= saved);
}

/// What looking for a file gave.
#[derive(Debug, Clone, PartialEq, Eq)]
pub enum Lookup {
    Found(String),
    Missing,
    Failed(String),
}

/// Where a file is that a build depends on: where it was found, or where it
/// would be.
pub open spec fn dependency_place(
    dependency: Seq<char>,
    lookup: Lookup,
    directory: Result<Seq<char>, Seq<char>>,
) -> Result<Seq<char>, CacheFault> {
    match lookup {
        Lookup::Found(path) => Ok(path@),
        Lookup::Failed(message) => Err(CacheFault::Io { path: dependency, message: message@ }),
        Lookup::Missing => if is_rooted(dependency) {
            Ok(dependency)
        } else {
            match directory {
                Ok(directory) => Ok(path_within(directory, dependency)),
                Err(message) => Err(CacheFault::Io { path: dependency, message }),
            }
        },
    }
}

/// What a result with texts stands for.
pub open spec fn directory_view(directory: Result<String, String>) -> Result<
    Seq<char>,
    Seq<char>,
> {
    match directory {
        Ok(directory) => Ok(directory@),
        Err(message) => Err(message@),
    }
}

/// Returns where a file is that a build depends on, given what looking for it
/// gave and the current directory.
pub fn dependency_path(
    dependency: &str,
    lookup: &Lookup,
    directory: &Result<String, String>,
) -> (result: Result<String, CacheError>)
    ensures
        match (result, dependency_place(dependency@, *lookup, directory_view(*directory))) {
            (Ok(path), Ok(expected)) => path@ == expected,
            (Err(error), Err(fault)) => error@ == fault,
            _ => false,
        },
{
    match lookup {
        Lookup::Found(path) => Ok(path.clone()),
        Lookup::Failed(message) => Err(
            CacheError::Io { path: dependency.to_owned(), message: message.clone() },
        ),
        Lookup::Missing => if rooted(dependency) {
            Ok(dependency.to_owned())
        } else {
            match directory {
                Ok(directory) => Ok(join_path(directory.as_str(), dependency)),
                Err(message) => Err(
                    CacheError::Io { path: dependency.to_owned(), message: message.clone() },
                ),
            }
        },
    }
}

/// A file that a build depends on, with the key of its path.
#[derive(Debug, Clone, PartialEq, Eq)]
pub struct Dependency {
    pub key: String,
    pub path: String,
}

/// A [`Dependency`] as sequences of characters.
pub struct DependencyView {
    pub key: Seq<char>,
    pub path: Seq<char>,
}

impl View for Dependency {
    type V = DependencyView;

    open spec fn view(&self) -> DependencyView {
        DependencyView { key: self.key@, path: self.path@ }
    }
}

/// What a list of files stands for.
pub open spec fn dependency_views(dependencies: Seq<Dependency>) -> Seq<DependencyView> {
    dependencies.map_values(|dependency: Dependency| dependency@)
}

/// The keys of files.
pub open spec fn keys_of(dependencies: Seq<DependencyView>) -> Seq<Seq<char>> {
    dependencies.map_values(|dependency: DependencyView| dependency.key)
}

/// Files with another one in its place, unless one with its key is there.
pub open spec fn with_dependency(list: Seq<DependencyView>, path: Seq<char>) -> Seq<
    DependencyView,
> {
    let key = key_of_path(path);
    let keys = keys_of(list);
    if keys.contains(key) {
        list
    } else {
        list.insert(
            name_place(keys, key, keys.len() as int),
            DependencyView { key, path },
        )
    }
}

/// The first files in the order of their keys. Of files with one key, the first
/// is taken.
pub open spec fn normalized(paths: Seq<Seq<char>>, count: int) -> Seq<DependencyView>
    decreases count,
{
    if count <= 0 {
        seq![]
    } else {
        with_dependency(normalized(paths, count - 1), paths[count - 1])
    }
}

fn insert_dependency(list: &mut Vec<Dependency>, path: &str)
    ensures
        dependency_views(final(list)@) == with_dependency(dependency_views(old(list)@), path@),
{
    let key = path_key(path);
    let ghost views = dependency_views(list@);
    let ghost keys = keys_of(views);
    let mut index: usize = 0;
    while index < list.len()
        invariant
            index <= list@.len(),
            list@ == old(list)@,
            views == dependency_views(list@),
            keys == keys_of(views),
            key@ == key_of_path(path@),
            forall|k: int| 0 <= k < index ==> (#[trigger] keys[k]) != key@,
        decreases list.len() - index,
    {
        assert(keys[index as int] == list@[index as int].key@);
        if same_text(list[index].key.as_str(), key.as_str()) {
            assert(keys.contains(key@));
            return;
        }
        index += 1;
    }
    assert(!keys.contains(key@));
    let mut place: usize = list.len();
    while place > 0
        invariant_except_break
            place <= list@.len(),
            keys.len() == list@.len(),
            views == dependency_views(list@),
            keys == keys_of(views),
            list@ == old(list)@,
            name_place(keys, key@, keys.len() as int) == name_place(keys, key@, place as int),
        ensures
            place <= list@.len(),
            list@ == old(list)@,
            name_place(keys, key@, keys.len() as int) == place,
        decreases place,
    {
        let order = order_at(
            Level::Bytes,
            list[place - 1].key.as_str().as_bytes(),
            key.as_str().as_bytes(),
        );
        assert(keys[place - 1] == list@[place - 1].key@);
        if !matches!(order, Order::After) {
            break;
        }
        place -= 1;
    }
    let dependency = Dependency { key, path: path.to_owned() };
    list.insert(place, dependency);
    assert(dependency_views(list@) =~= views.insert(place as int, dependency@));
}

/// Returns files in the order of their keys. Of files with one key, the first is
/// taken.
pub fn normalized_dependencies(paths: &Vec<String>) -> (list: Vec<Dependency>)
    ensures
        dependency_views(list@) == normalized(spelled(paths@), paths@.len() as int),
{
    let ghost texts = spelled(paths@);
    let mut list: Vec<Dependency> = Vec::new();
    assert(dependency_views(list@) =~= seq![]);
    let mut index: usize = 0;
    while index < paths.len()
        invariant
            index <= paths@.len(),
            texts == spelled(paths@),
            dependency_views(list@) == normalized(texts, index as int),
        decreases paths.len() - index,
    {
        assert(texts[index as int] == paths@[index as int]@);
        insert_dependency(&mut list, paths[index].as_str());
        index += 1;
    }
    list
}

/// The keys of files in order.
pub open spec fn dependency_names(paths: Seq<Seq<char>>) -> Seq<Seq<char>> {
    keys_of(normalized(paths, paths.len() as int))
}

/// Whether one text comes before another one by their bytes.
pub open spec fn comes_before(first: Seq<char>, second: Seq<char>) -> bool {
    order_from(Level::Bytes, encode_utf8(first), encode_utf8(second), 0) == Order::Before
}

/// Whether texts are in the order of their bytes, without repetitions.
pub open spec fn are_in_order(keys: Seq<Seq<char>>) -> bool {
    forall|i: int, j: int|
        0 <= i < j < keys.len() ==> comes_before(#[trigger] keys[i], #[trigger] keys[j])
}

proof fn lemma_name_place(keys: Seq<Seq<char>>, key: Seq<char>, end: int)
    requires
        0 <= end <= keys.len(),
    ensures
        ({
            let place = name_place(keys, key, end);
            &&& 0 <= place <= end
            &&& forall|k: int|
                place <= k < end ==> order_from(
                    Level::Bytes,
                    encode_utf8(#[trigger] keys[k]),
                    encode_utf8(key),
                    0,
                ) == Order::After
            &&& place > 0 ==> order_from(
                Level::Bytes,
                encode_utf8(keys[place - 1]),
                encode_utf8(key),
                0,
            ) != Order::After
        }),
    decreases end,
{
    if end > 0 {
        lemma_name_place(keys, key, end - 1);
    }
}

proof fn lemma_key_inserted_in_order(keys: Seq<Seq<char>>, key: Seq<char>)
    requires
        are_in_order(keys),
        !keys.contains(key),
    ensures
        are_in_order(keys.insert(name_place(keys, key, keys.len() as int), key)),
        0 <= name_place(keys, key, keys.len() as int) <= keys.len(),
{
    let place = name_place(keys, key, keys.len() as int);
    lemma_name_place(keys, key, keys.len() as int);
    let next = keys.insert(place, key);
    assert forall|i: int, j: int| 0 <= i < j < next.len() implies comes_before(
        #[trigger] next[i],
        #[trigger] next[j],
    ) by {
        if i == place {
            assert(next[j] == keys[j - 1]);
            lemma_order_reversed(
                Level::Bytes,
                encode_utf8(keys[j - 1]),
                encode_utf8(key),
                0,
            );
        } else if j == place {
            assert(next[i] == keys[i]);
            let last = encode_utf8(keys[place - 1]);
            let bytes = encode_utf8(key);
            assert(keys[place - 1] != key);
            assert(last.take(0) =~= bytes.take(0));
            lemma_same_bytes(last, bytes, 0);
            if last == bytes {
                lemma_bytes_determine_text(keys[place - 1], key);
            }
            if i < place - 1 {
                assert(comes_before(keys[i], keys[place - 1]));
                lemma_order_chain(Level::Bytes, encode_utf8(keys[i]), last, bytes, 0);
            }
        } else {
            let first = if i < place {
                i
            } else {
                i - 1
            };
            let second = if j < place {
                j
            } else {
                j - 1
            };
            assert(next[i] == keys[first]);
            assert(next[j] == keys[second]);
            assert(comes_before(keys[first], keys[second]));
        }
    }
}

/// The files that a build depends on are in the order of their keys, without
/// repetitions, and no file is lost.
pub proof fn law_dependencies_are_in_order(paths: Seq<Seq<char>>, count: int)
    requires
        0 <= count <= paths.len(),
    ensures
        are_in_order(keys_of(normalized(paths, count))),
        forall|k: int|
            0 <= k < count ==> keys_of(normalized(paths, count)).contains(
                key_of_path(#[trigger] paths[k]),
            ),
    decreases count,
{
    if count > 0 {
        law_dependencies_are_in_order(paths, count - 1);
        let before = normalized(paths, count - 1);
        let after = normalized(paths, count);
        let key = key_of_path(paths[count - 1]);
        let keys = keys_of(before);
        if !keys.contains(key) {
            let place = name_place(keys, key, keys.len() as int);
            lemma_key_inserted_in_order(keys, key);
            assert(keys_of(after) =~= keys.insert(place, key));
            assert(keys_of(after)[place] == key);
            assert forall|k: int| 0 <= k < count implies keys_of(after).contains(
                key_of_path(#[trigger] paths[k]),
            ) by {
                if k < count - 1 {
                    let other = key_of_path(paths[k]);
                    let at = choose|at: int| 0 <= at < keys.len() && keys[at] == other;
                    if at < place {
                        assert(keys_of(after)[at] == other);
                    } else {
                        assert(keys_of(after)[at + 1] == other);
                    }
                }
            }
        }
    }
}

/// Returns the keys of files in order.
pub fn dependency_keys(paths: &Vec<String>) -> (keys: Vec<String>)
    ensures
        spelled(keys@) == dependency_names(spelled(paths@)),
{
    let list = normalized_dependencies(paths);
    let ghost expected = keys_of(dependency_views(list@));
    assert(spelled(paths@).len() == paths@.len());
    let mut keys: Vec<String> = Vec::new();
    let mut index: usize = 0;
    while index < list.len()
        invariant
            index <= list@.len(),
            expected == keys_of(dependency_views(list@)),
            spelled(keys@) == expected.take(index as int),
        decreases list.len() - index,
    {
        let ghost before = spelled(keys@);
        assert(expected[index as int] == list@[index as int].key@);
        keys.push(list[index].key.clone());
        assert(spelled(keys@) =~= before.push(expected[index as int]));
        assert(expected.take(index as int).push(expected[index as int]) =~= expected.take(
            index + 1,
        ));
        index += 1;
    }
    assert(expected.take(list@.len() as int) =~= expected);
    keys
}

/// A build whose dependencies are known.
#[derive(Debug, Clone)]
pub struct KnownBuild {
    pub key: String,
    pub dependency_keys: Vec<String>,
}

impl KnownBuild {
    /// Returns whether the build depends on just some files.
    pub fn matches_dependencies(&self, dependencies: &Vec<String>) -> (result: bool)
        ensures
            result == (spelled(self.dependency_keys@) == dependency_names(
                spelled(dependencies@),
            )),
    {
        let keys = dependency_keys(dependencies);
        let ghost mine = spelled(self.dependency_keys@);
        let ghost other = spelled(keys@);
        assert(mine.len() == self.dependency_keys@.len());
        assert(other.len() == keys@.len());
        if self.dependency_keys.len() != keys.len() {
            return false;
        }
        let mut index: usize = 0;
        while index < keys.len()
            invariant
                index <= keys@.len(),
                keys@.len() == self.dependency_keys@.len(),
                mine == spelled(self.dependency_keys@),
                other == spelled(keys@),
                other == dependency_names(spelled(dependencies@)),
                forall|k: int| 0 <= k < index ==> (#[trigger] mine[k]) == other[k],
            decreases keys.len() - index,
        {
            assert(mine[index as int] == self.dependency_keys@[index as int]@);
            assert(other[index as int] == keys@[index as int]@);
            if !same_text(self.dependency_keys[index].as_str(), keys[index].as_str()) {
                return false;
            }
            index += 1;
        }
        assert(mine =~= other);
        true
    }

    /// Returns whether the build depends on a file.
    pub fn contains_dependency(&self, dependency: &str) -> (result: bool)
        ensures
            result == spelled(self.dependency_keys@).contains(key_of_path(dependency@)),
    {
        let key = path_key(dependency);
        let ghost mine = spelled(self.dependency_keys@);
        let mut index: usize = 0;
        while index < self.dependency_keys.len()
            invariant
                index <= self.dependency_keys@.len(),
                mine == spelled(self.dependency_keys@),
                key@ == key_of_path(dependency@),
                forall|k: int| 0 <= k < index ==> (#[trigger] mine[k]) != key@,
            decreases self.dependency_keys.len() - index,
        {
            assert(mine[index as int] == self.dependency_keys@[index as int]@);
            if same_text(self.dependency_keys[index].as_str(), key.as_str()) {
                assert(mine.contains(key@));
                return true;
            }
            index += 1;
        }
        assert(!mine.contains(key@));
        false
    }
}

/// A file with the size and the digest of its contents, if it is there.
#[derive(Debug, Clone, PartialEq, Eq)]
pub struct FileDigest {
    pub key: String,
    pub present: bool,
    pub size: u64,
    pub digest: [u8; 16],
}

/// A [`FileDigest`] as sequences.
pub struct DigestView {
    pub key: Seq<char>,
    pub present: bool,
    pub size: u64,
    pub digest: Seq<u8>,
}

impl View for FileDigest {
    type V = DigestView;

    open spec fn view(&self) -> DigestView {
        DigestView {
            key: self.key@,
            present: self.present,
            size: self.size,
            digest: self.digest@,
        }
    }
}

/// What a list of digests stands for.
pub open spec fn digest_views(digests: Seq<FileDigest>) -> Seq<DigestView> {
    digests.map_values(|digest: FileDigest| digest@)
}

/// The digest of a file that is not there.
pub open spec fn absent(key: Seq<char>) -> DigestView {
    DigestView { key, present: false, size: 0, digest: Seq::new(16, |k: int| 0u8) }
}

/// The digest of contents.
pub open spec fn digest_of(key: Seq<char>, data: Seq<u8>) -> DigestView {
    DigestView { key, present: true, size: data.len() as u64, digest: md5_digest(data) }
}

fn absent_digest(key: &str) -> (digest: FileDigest)
    ensures
        digest@ == absent(key@),
{
    let digest: [u8; 16] = [0, 0, 0, 0, 0, 0, 0, 0, 0, 0, 0, 0, 0, 0, 0, 0];
    assert(digest@ =~= Seq::new(16, |k: int| 0u8));
    FileDigest { key: key.to_owned(), present: false, size: 0, digest }
}

fn contents_digest(key: &str, data: &[u8]) -> (digest: FileDigest)
    ensures
        digest@ == digest_of(key@, data@),
{
    FileDigest { key: key.to_owned(), present: true, size: data.len() as u64, digest: md5(data) }
}

/// The digest of a file that was read.
pub open spec fn file_digest(key: Seq<char>, path: Seq<char>, read: Seq<ReadFile>) -> Result<
    DigestView,
    CacheFault,
> {
    match read_from(read, path, 0) {
        ContentsView::Data(data) => Ok(digest_of(key, data)),
        ContentsView::Missing(message) => Ok(absent(key)),
        ContentsView::Failed(message) => Err(CacheFault::Io { path, message }),
    }
}

/// Returns the digest of a file that was read.
pub fn hash_file(key: &str, path: &str, read: &Vec<ReadFile>) -> (result: Result<
    FileDigest,
    CacheError,
>)
    ensures
        match (result, file_digest(key@, path@, read@)) {
            (Ok(digest), Ok(expected)) => digest@ == expected,
            (Err(error), Err(fault)) => error@ == fault,
            _ => false,
        },
{
    match read_source(read, path) {
        FileContents::Data(data) => Ok(contents_digest(key, data.as_slice())),
        FileContents::Missing(_) => Ok(absent_digest(key)),
        FileContents::Failed(message) => Err(CacheError::Io { path: path.to_owned(), message }),
    }
}

/// The last digest with a key among the first digests.
pub open spec fn digest_with(digests: Seq<DigestView>, key: Seq<char>, count: int) -> Option<
    DigestView,
>
    decreases count,
{
    if count <= 0 {
        None
    } else if digests[count - 1].key == key {
        Some(digests[count - 1])
    } else {
        digest_with(digests, key, count - 1)
    }
}

fn find_digest(digests: &Vec<FileDigest>, key: &str) -> (found: Option<FileDigest>)
    ensures
        match (found, digest_with(digest_views(digests@), key@, digests@.len() as int)) {
            (Some(found), Some(expected)) => found@ == expected,
            (None, None) => true,
            _ => false,
        },
{
    let ghost views = digest_views(digests@);
    let mut count: usize = digests.len();
    while count > 0
        invariant
            count <= digests@.len(),
            views == digest_views(digests@),
            digest_with(views, key@, digests@.len() as int) == digest_with(
                views,
                key@,
                count as int,
            ),
        decreases count,
    {
        let digest = &digests[count - 1];
        assert(views[count - 1] == digest@);
        if same_text(digest.key.as_str(), key) {
            return Some(
                FileDigest {
                    key: digest.key.clone(),
                    present: digest.present,
                    size: digest.size,
                    digest: digest.digest,
                },
            );
        }
        count -= 1;
    }
    None
}

/// The digests of the first loaded files, by their paths and by where they were
/// found.
pub open spec fn loaded_from(
    files: Seq<BinaryFile>,
    places: Seq<Option<Seq<char>>>,
    count: int,
) -> Seq<DigestView>
    decreases count,
{
    if count <= 0 {
        seq![]
    } else {
        let file = files[count - 1];
        let before = loaded_from(files, places, count - 1).push(
            digest_of(key_of_path(file.source@), file.data@),
        );
        match places[count - 1] {
            Some(place) => before.push(digest_of(key_of_path(place), file.data@)),
            None => before,
        }
    }
}

/// What a list of optional texts stands for.
pub open spec fn place_views(places: Seq<Option<String>>) -> Seq<Option<Seq<char>>> {
    places.map_values(|place: Option<String>| crate::path::optional_view(place))
}

/// Returns the digests of loaded files, by their paths and by where they were
/// found.
pub fn loaded_digests(files: &Vec<BinaryFile>, places: &Vec<Option<String>>) -> (digests: Vec<
    FileDigest,
>)
    requires
        places@.len() == files@.len(),
    ensures
        digest_views(digests@) == loaded_from(
            files@,
            place_views(places@),
            files@.len() as int,
        ),
{
    let ghost views = place_views(places@);
    let mut digests: Vec<FileDigest> = Vec::new();
    assert(digest_views(digests@) =~= seq![]);
    let mut index: usize = 0;
    while index < files.len()
        invariant
            index <= files@.len(),
            places@.len() == files@.len(),
            views == place_views(places@),
            digest_views(digests@) == loaded_from(files@, views, index as int),
        decreases files.len() - index,
    {
        let file = &files[index];
        assert(views[index as int] == crate::path::optional_view(places@[index as int]));
        let key = path_key(file.source.as_str());
        let ghost before = digest_views(digests@);
        let digest = contents_digest(key.as_str(), file.data.as_slice());
        digests.push(digest);
        assert(digest_views(digests@) =~= before.push(digest@));
        if let Some(place) = &places[index] {
            let found = path_key(place.as_str());
            let ghost between = digest_views(digests@);
            let other = contents_digest(found.as_str(), file.data.as_slice());
            digests.push(other);
            assert(digest_views(digests@) =~= between.push(other@));
        }
        index += 1;
    }
    digests
}

/// The digests of the first files: those that are known, or else those of what
/// was read.
pub open spec fn digests_of(
    dependencies: Seq<DependencyView>,
    loaded: Seq<DigestView>,
    read: Seq<ReadFile>,
    count: int,
) -> Result<Seq<DigestView>, CacheFault>
    decreases count,
{
    if count <= 0 {
        Ok(seq![])
    } else {
        match digests_of(dependencies, loaded, read, count - 1) {
            Err(fault) => Err(fault),
            Ok(before) => {
                let dependency = dependencies[count - 1];
                match digest_with(loaded, dependency.key, loaded.len() as int) {
                    Some(digest) => Ok(before.push(digest)),
                    None => match file_digest(dependency.key, dependency.path, read) {
                        Err(fault) => Err(fault),
                        Ok(digest) => Ok(before.push(digest)),
                    },
                }
            },
        }
    }
}

proof fn lemma_digests_fault_stays(
    dependencies: Seq<DependencyView>,
    loaded: Seq<DigestView>,
    read: Seq<ReadFile>,
    count: int,
    end: int,
)
    requires
        0 <= count <= end,
        digests_of(dependencies, loaded, read, count) is Err,
    ensures
        digests_of(dependencies, loaded, read, end) == digests_of(
            dependencies,
            loaded,
            read,
            count,
        ),
    decreases end - count,
{
    if count < end {
        lemma_digests_fault_stays(dependencies, loaded, read, count, end - 1);
    }
}

/// A program that takes part in a build, with what is known of its file.
#[derive(Debug, Clone, PartialEq, Eq)]
pub struct ProgramMark {
    pub path: String,
    pub size: Option<u64>,
    pub modified_seconds: u64,
    pub modified_nanos: u32,
    pub dated: bool,
}

/// How a program is written into the key of a build.
pub open spec fn mark_bytes(mark: ProgramMark) -> Seq<u8> {
    let path = encode_utf8(key_of_path(mark.path@));
    let sized = match mark.size {
        Some(size) => path + le64(size as int) + (if mark.dated {
            le64(mark.modified_seconds as int) + le32(mark.modified_nanos as int)
        } else {
            seq![]
        }),
        None => path,
    };
    sized.push(0u8)
}

/// Writes a program into the key of a build.
pub fn add_metadata_fingerprint(bytes: &mut Vec<u8>, mark: &ProgramMark)
    ensures
        final(bytes)@ == old(bytes)@ + mark_bytes(*mark),
{
    let ghost before = bytes@;
    let key = path_key(mark.path.as_str());
    append_text(bytes, key.as_str());
    if let Some(size) = mark.size {
        append_u64(bytes, size);
        if mark.dated {
            append_u64(bytes, mark.modified_seconds);
            append_u32(bytes, mark.modified_nanos);
        }
    }
    bytes.push(0);
    assert(bytes@ =~= before + mark_bytes(*mark));
}

/// What builds on a machine have in common: the version of the compiler, the
/// system, and the programs that take part.
#[derive(Debug, Clone, PartialEq, Eq)]
pub struct Machine {
    pub version: String,
    pub system: String,
    pub architecture: String,
    pub programs: Vec<ProgramMark>,
}

/// How the first programs are written into the key of a build.
pub open spec fn programs_bytes(programs: Seq<ProgramMark>, count: int) -> Seq<u8>
    decreases count,
{
    if count <= 0 {
        seq![]
    } else {
        programs_bytes(programs, count - 1) + mark_bytes(programs[count - 1])
    }
}

/// How a machine is written into the key of a build.
pub open spec fn machine_bytes(machine: Machine) -> Seq<u8> {
    encode_utf8(BUILD_CACHE_SCHEMA@) + encode_utf8(machine.version@) + encode_utf8(
        machine.system@,
    ) + encode_utf8(machine.architecture@) + programs_bytes(
        machine.programs@,
        machine.programs@.len() as int,
    )
}

/// How a file is written into the key of a build.
pub open spec fn digest_bytes(digest: DigestView) -> Seq<u8> {
    le64(encode_utf8(digest.key).len() as int) + encode_utf8(digest.key) + seq![
        if digest.present {
            1u8
        } else {
            0u8
        },
    ] + le64(digest.size as int) + digest.digest
}

/// How the first files are written into the key of a build.
pub open spec fn digests_bytes(digests: Seq<DigestView>, count: int) -> Seq<u8>
    decreases count,
{
    if count <= 0 {
        seq![]
    } else {
        digests_bytes(digests, count - 1) + digest_bytes(digests[count - 1])
    }
}

/// The key of a build.
pub open spec fn build_key(machine: Machine, digests: Seq<DigestView>) -> Seq<char> {
    hex_text(md5_digest(machine_bytes(machine) + digests_bytes(digests, digests.len() as int)))
}

/// Returns the key of a build on a machine with some files.
pub fn finish_fingerprint(machine: &Machine, digests: &Vec<FileDigest>) -> (key: String)
    ensures
        key@ == build_key(*machine, digest_views(digests@)),
{
    let mut bytes: Vec<u8> = Vec::new();
    append_text(&mut bytes, BUILD_CACHE_SCHEMA);
    append_text(&mut bytes, machine.version.as_str());
    append_text(&mut bytes, machine.system.as_str());
    append_text(&mut bytes, machine.architecture.as_str());
    let ghost head = bytes@;
    let mut program: usize = 0;
    assert(bytes@ =~= head + programs_bytes(machine.programs@, 0));
    while program < machine.programs.len()
        invariant
            program <= machine.programs@.len(),
            bytes@ == head + programs_bytes(machine.programs@, program as int),
        decreases machine.programs.len() - program,
    {
        add_metadata_fingerprint(&mut bytes, &machine.programs[program]);
        assert(bytes@ =~= head + programs_bytes(machine.programs@, program + 1));
        program += 1;
    }
    assert(bytes@ =~= machine_bytes(*machine));
    let ghost start = bytes@;
    let ghost views = digest_views(digests@);
    let mut index: usize = 0;
    assert(bytes@ =~= start + digests_bytes(views, 0));
    while index < digests.len()
        invariant
            index <= digests@.len(),
            views == digest_views(digests@),
            bytes@ == start + digests_bytes(views, index as int),
        decreases digests.len() - index,
    {
        let digest = &digests[index];
        assert(views[index as int] == digest@);
        let ghost before = bytes@;
        let key = digest.key.as_str().as_bytes();
        append_u64(&mut bytes, key.len() as u64);
        append(&mut bytes, key);
        bytes.push(
            if digest.present {
                1
            } else {
                0
            },
        );
        append_u64(&mut bytes, digest.size);
        append(&mut bytes, &digest.digest);
        assert(bytes@ =~= before + digest_bytes(views[index as int]));
        assert(bytes@ =~= start + digests_bytes(views, index + 1));
        index += 1;
    }
    assert(views.len() == digests@.len());
    let digest = md5(bytes.as_slice());
    hex(&digest)
}

/// The key of a build that depends on files.
pub open spec fn fingerprint_of(
    machine: Machine,
    paths: Seq<Seq<char>>,
    loaded: Seq<DigestView>,
    read: Seq<ReadFile>,
) -> Result<Seq<char>, CacheFault> {
    let dependencies = normalized(paths, paths.len() as int);
    match digests_of(dependencies, loaded, read, dependencies.len() as int) {
        Ok(digests) => Ok(build_key(machine, digests)),
        Err(fault) => Err(fault),
    }
}

/// Returns the key of a build that depends on files. The digests of some may be
/// known, and the others were read.
pub fn fingerprint(
    machine: &Machine,
    paths: &Vec<String>,
    loaded: &Vec<FileDigest>,
    read: &Vec<ReadFile>,
) -> (result: Result<String, CacheError>)
    ensures
        match (
            result,
            fingerprint_of(*machine, spelled(paths@), digest_views(loaded@), read@),
        ) {
            (Ok(key), Ok(expected)) => key@ == expected,
            (Err(error), Err(fault)) => error@ == fault,
            _ => false,
        },
{
    assert(spelled(paths@).len() == paths@.len());
    let list = normalized_dependencies(paths);
    let ghost dependencies = dependency_views(list@);
    let ghost known = digest_views(loaded@);
    assert(known.len() == loaded@.len());
    let mut digests: Vec<FileDigest> = Vec::new();
    assert(digest_views(digests@) =~= seq![]);
    let mut index: usize = 0;
    while index < list.len()
        invariant
            index <= list@.len(),
            dependencies == dependency_views(list@),
            known == digest_views(loaded@),
            known.len() == loaded@.len(),
            dependencies == normalized(spelled(paths@), spelled(paths@).len() as int),
            digests_of(dependencies, known, read@, index as int) == Ok::<
                Seq<DigestView>,
                CacheFault,
            >(digest_views(digests@)),
        decreases list.len() - index,
    {
        let dependency = &list[index];
        assert(dependencies[index as int] == dependency@);
        let digest = match find_digest(loaded, dependency.key.as_str()) {
            Some(digest) => digest,
            None => match hash_file(dependency.key.as_str(), dependency.path.as_str(), read) {
                Ok(digest) => digest,
                Err(error) => {
                    proof {
                        lemma_digests_fault_stays(
                            dependencies,
                            known,
                            read@,
                            index + 1,
                            dependencies.len() as int,
                        );
                    }
                    return Err(error);
                },
            },
        };
        let ghost before = digest_views(digests@);
        digests.push(digest);
        assert(digest_views(digests@) =~= before.push(digest@));
        index += 1;
    }
    Ok(finish_fingerprint(machine, &digests))
}

/// Whether files with no state are taken as absent, whatever was read: the
/// digests of the first saved files.
pub open spec fn saved_digests(saved: Seq<SavedView>, read: Seq<ReadFile>, count: int) -> Result<
    Seq<DigestView>,
    CacheFault,
>
    decreases count,
{
    if count <= 0 {
        Ok(seq![])
    } else {
        match saved_digests(saved, read, count - 1) {
            Err(fault) => Err(fault),
            Ok(before) => {
                let path = saved[count - 1].path;
                let key = key_of_path(path);
                if saved[count - 1].stamp.kind == 0 {
                    Ok(before.push(absent(key)))
                } else {
                    match read_from(read, path, 0) {
                        ContentsView::Data(data) => Ok(before.push(digest_of(key, data))),
                        ContentsView::Missing(message) => Err(CacheFault::Io { path, message }),
                        ContentsView::Failed(message) => Err(CacheFault::Io { path, message }),
                    }
                }
            },
        }
    }
}

proof fn lemma_saved_fault_stays(
    saved: Seq<SavedView>,
    read: Seq<ReadFile>,
    count: int,
    end: int,
)
    requires
        0 <= count <= end,
        saved_digests(saved, read, count) is Err,
    ensures
        saved_digests(saved, read, end) == saved_digests(saved, read, count),
    decreases end - count,
{
    if count < end {
        lemma_saved_fault_stays(saved, read, count, end - 1);
    }
}

/// Returns the key of a build that depends on files whose states have not
/// changed. One that was not there is not looked for.
pub fn fingerprint_saved(
    machine: &Machine,
    saved: &Vec<SavedDependency>,
    read: &Vec<ReadFile>,
) -> (result: Result<String, CacheError>)
    ensures
        match (result, saved_digests(saved_views(saved@), read@, saved@.len() as int)) {
            (Ok(key), Ok(digests)) => key@ == build_key(*machine, digests),
            (Err(error), Err(fault)) => error@ == fault,
            _ => false,
        },
{
    let ghost views = saved_views(saved@);
    let mut digests: Vec<FileDigest> = Vec::new();
    assert(digest_views(digests@) =~= seq![]);
    let mut index: usize = 0;
    while index < saved.len()
        invariant
            index <= saved@.len(),
            views == saved_views(saved@),
            saved_digests(views, read@, index as int) == Ok::<Seq<DigestView>, CacheFault>(
                digest_views(digests@),
            ),
        decreases saved.len() - index,
    {
        let path = saved[index].path.as_str();
        assert(views[index as int] == saved@[index as int]@);
        let key = path_key(path);
        let outcome = if saved[index].stamp.kind == 0 {
            Ok(absent_digest(key.as_str()))
        } else {
            match read_source(read, path) {
                FileContents::Data(data) => Ok(contents_digest(key.as_str(), data.as_slice())),
                FileContents::Missing(message) => Err(
                    CacheError::Io { path: path.to_owned(), message },
                ),
                FileContents::Failed(message) => Err(
                    CacheError::Io { path: path.to_owned(), message },
                ),
            }
        };
        match outcome {
            Err(error) => {
                proof {
                    lemma_saved_fault_stays(views, read@, index + 1, saved@.len() as int);
                }
                return Err(error);
            },
            Ok(digest) => {
                let ghost before = digest_views(digests@);
                digests.push(digest);
                assert(digest_views(digests@) =~= before.push(digest@));
            },
        }
        index += 1;
    }
    Ok(finish_fingerprint(machine, &digests))
}

/// Whether all of some files are in a reliable state that has not changed.
pub open spec fn all_unchanged(saved: Seq<SavedView>, current: Seq<DependencyStamp>) -> bool {
    forall|k: int|
        0 <= k < saved.len() ==> (#[trigger] current[k]).is_reliable() && current[k]
            == saved[k].stamp
}

/// Returns whether all of some files are in a reliable state that has not
/// changed.
pub fn unchanged(saved: &Vec<SavedDependency>, current: &Vec<DependencyStamp>) -> (result: bool)
    requires
        current@.len() == saved@.len(),
    ensures
        result == all_unchanged(saved_views(saved@), current@),
{
    let ghost views = saved_views(saved@);
    let mut index: usize = 0;
    while index < saved.len()
        invariant
            index <= saved@.len(),
            current@.len() == saved@.len(),
            views == saved_views(saved@),
            forall|k: int|
                0 <= k < index ==> (#[trigger] current@[k]).is_reliable() && current@[k]
                    == views[k].stamp,
        decreases saved.len() - index,
    {
        assert(views[index as int] == saved@[index as int]@);
        let now = current[index];
        if !now.reliable() || now != saved[index].stamp {
            return false;
        }
        index += 1;
    }
    true
}

/// The paths of saved files.
pub open spec fn saved_paths(saved: Seq<SavedView>) -> Seq<Seq<char>> {
    saved.map_values(|dependency: SavedView| dependency.path)
}

/// Returns the build whose dependencies were saved, with its key as the files
/// are now.
pub fn known_build(machine: &Machine, saved: &Vec<SavedDependency>, read: &Vec<ReadFile>) -> (result:
    Result<KnownBuild, CacheError>)
    ensures
        ({
            let paths = saved_paths(saved_views(saved@));
            match (result, fingerprint_of(*machine, paths, seq![], read@)) {
                (Ok(build), Ok(key)) => build.key@ == key && spelled(build.dependency_keys@)
                    == dependency_names(paths),
                (Err(error), Err(fault)) => error@ == fault,
                _ => false,
            }
        }),
{
    let ghost expected = saved_paths(saved_views(saved@));
    let mut paths: Vec<String> = Vec::new();
    let mut index: usize = 0;
    while index < saved.len()
        invariant
            index <= saved@.len(),
            expected == saved_paths(saved_views(saved@)),
            spelled(paths@) == expected.take(index as int),
        decreases saved.len() - index,
    {
        let ghost before = spelled(paths@);
        assert(expected[index as int] == saved@[index as int].path@);
        paths.push(saved[index].path.clone());
        assert(spelled(paths@) =~= before.push(expected[index as int]));
        assert(expected.take(index as int).push(expected[index as int]) =~= expected.take(
            index + 1,
        ));
        index += 1;
    }
    assert(expected.take(saved@.len() as int) =~= expected);
    let keys = dependency_keys(&paths);
    let none: Vec<FileDigest> = Vec::new();
    assert(digest_views(none@) =~= seq![]);
    match fingerprint(machine, &paths, &none, read) {
        Ok(key) => Ok(KnownBuild { key, dependency_keys: keys }),
        Err(error) => Err(error),
    }
}

/// Where a file goes among others by the keys of their paths: behind those with
/// the same key.
pub open spec fn by_key(saved: Seq<SavedView>, count: int) -> Seq<SavedView>
    decreases count,
{
    if count <= 0 {
        seq![]
    } else {
        let list = by_key(saved, count - 1);
        list.insert(
            name_place(path_keys(list), key_of_path(saved[count - 1].path), list.len() as int),
            saved[count - 1],
        )
    }
}

/// The keys of the paths of files.
pub open spec fn path_keys(saved: Seq<SavedView>) -> Seq<Seq<char>> {
    saved.map_values(|dependency: SavedView| key_of_path(dependency.path))
}

fn insert_saved(list: &mut Vec<SavedDependency>, saved: &SavedDependency)
    ensures
        saved_views(final(list)@) == saved_views(old(list)@).insert(
            name_place(
                path_keys(saved_views(old(list)@)),
                key_of_path(saved.path@),
                old(list)@.len() as int,
            ),
            saved@,
        ),
{
    let key = path_key(saved.path.as_str());
    let ghost views = saved_views(list@);
    let ghost keys = path_keys(views);
    let mut place: usize = list.len();
    while place > 0
        invariant_except_break
            place <= list@.len(),
            keys.len() == list@.len(),
            views == saved_views(list@),
            keys == path_keys(views),
            list@ == old(list)@,
            name_place(keys, key@, keys.len() as int) == name_place(keys, key@, place as int),
        ensures
            place <= list@.len(),
            list@ == old(list)@,
            name_place(keys, key@, keys.len() as int) == place,
        decreases place,
    {
        let other = path_key(list[place - 1].path.as_str());
        let order = order_at(Level::Bytes, other.as_str().as_bytes(), key.as_str().as_bytes());
        assert(keys[place - 1] == other@);
        if !matches!(order, Order::After) {
            break;
        }
        place -= 1;
    }
    let copy = SavedDependency { path: saved.path.clone(), stamp: saved.stamp };
    list.insert(place, copy);
    assert(saved_views(list@) =~= views.insert(place as int, saved@));
}

fn sort_saved(saved: &Vec<SavedDependency>) -> (list: Vec<SavedDependency>)
    ensures
        saved_views(list@) == by_key(saved_views(saved@), saved@.len() as int),
{
    let ghost views = saved_views(saved@);
    let mut list: Vec<SavedDependency> = Vec::new();
    assert(saved_views(list@) =~= seq![]);
    let mut index: usize = 0;
    while index < saved.len()
        invariant
            index <= saved@.len(),
            views == saved_views(saved@),
            saved_views(list@) == by_key(views, index as int),
        decreases saved.len() - index,
    {
        assert(views[index as int] == saved@[index as int]@);
        assert(saved_views(list@).len() == list@.len());
        insert_saved(&mut list, &saved[index]);
        index += 1;
    }
    list
}

/// How the state of an output is written: the key of the build, the state of the
/// data file, and those of the other files in the order of their keys.
pub open spec fn marker_bytes(
    key: Seq<char>,
    wad: DependencyStamp,
    files: Seq<SavedView>,
) -> Result<Seq<u8>, CacheFault> {
    match listed_bytes(by_key(files, files.len() as int)) {
        Ok(bytes) => Ok(
            encode_utf8(OUTPUT_MAGIC@) + encode_utf8(key) + stamp_bytes(wad) + bytes,
        ),
        Err(fault) => Err(fault),
    }
}

/// Returns the bytes of the state of an output.
pub fn encode_output_marker(key: &str, wad: DependencyStamp, files: &Vec<SavedDependency>) -> (result:
    Result<Vec<u8>, CacheError>)
    ensures
        match (result, marker_bytes(key@, wad, saved_views(files@))) {
            (Ok(bytes), Ok(expected)) => bytes@ == expected,
            (Err(error), Err(fault)) => error@ == fault,
            _ => false,
        },
{
    assert(saved_views(files@).len() == files@.len());
    let mut output: Vec<u8> = Vec::new();
    append_text(&mut output, OUTPUT_MAGIC);
    append_text(&mut output, key);
    write_stamp(&mut output, wad);
    assert(output@ =~= encode_utf8(OUTPUT_MAGIC@) + encode_utf8(key@) + stamp_bytes(wad));
    let sorted = sort_saved(files);
    match write_saved(&mut output, &sorted) {
        Ok(()) => Ok(output),
        Err(error) => Err(error),
    }
}

/// What is wrong with the first files of an output: each has a path within the
/// output and a state with a time.
pub open spec fn output_fault(files: Seq<SavedView>, count: int) -> Option<CacheFault>
    decreases count,
{
    if count <= 0 {
        None
    } else {
        match output_fault(files, count - 1) {
            Some(fault) => Some(fault),
            None => match validated(files[count - 1].path) {
                None => Some(CacheFault::InvalidEntry(files[count - 1].path)),
                Some(path) => if files[count - 1].stamp.kind == 2 {
                    None
                } else {
                    Some(CacheFault::InvalidEntry(path))
                },
            },
        }
    }
}

proof fn lemma_output_fault_stays(files: Seq<SavedView>, count: int, end: int)
    requires
        0 <= count <= end,
        output_fault(files, count) is Some,
    ensures
        output_fault(files, end) == output_fault(files, count),
    decreases end - count,
{
    if count < end {
        lemma_output_fault_stays(files, count, end - 1);
    }
}

/// The files of an output with their paths as they are kept.
pub open spec fn kept_files(files: Seq<SavedView>) -> Seq<SavedView> {
    files.map_values(
        |file: SavedView|
            SavedView { path: validated(file.path)->0, stamp: file.stamp },
    )
}

/// The state of an output that is to be written: none if the time of the last
/// change of the data file is not known.
pub open spec fn output_state(key: Seq<char>, wad: DependencyStamp, files: Seq<SavedView>) -> Result<
    Option<Seq<u8>>,
    CacheFault,
> {
    if wad.kind != 2 {
        Ok(None)
    } else {
        match output_fault(files, files.len() as int) {
            Some(fault) => Err(fault),
            None => match marker_bytes(key, wad, kept_files(files)) {
                Ok(bytes) => Ok(Some(bytes)),
                Err(fault) => Err(fault),
            },
        }
    }
}

/// Returns the state of an output that is to be written, given the states of its
/// files: none if the time of the last change of the data file is not known.
pub fn output_marker(key: &str, wad: DependencyStamp, files: &Vec<SavedDependency>) -> (result: Result<
    Option<Vec<u8>>,
    CacheError,
>)
    ensures
        match (result, output_state(key@, wad, saved_views(files@))) {
            (Ok(Some(bytes)), Ok(Some(expected))) => bytes@ == expected,
            (Ok(None), Ok(None)) => true,
            (Err(error), Err(fault)) => error@ == fault,
            _ => false,
        },
{
    if wad.kind != 2 {
        return Ok(None);
    }
    let ghost views = saved_views(files@);
    let mut kept: Vec<SavedDependency> = Vec::new();
    let mut index: usize = 0;
    assert(saved_views(kept@) =~= kept_files(views).take(0));
    while index < files.len()
        invariant
            wad.kind == 2,
            index <= files@.len(),
            views == saved_views(files@),
            output_fault(views, index as int) is None,
            saved_views(kept@) == kept_files(views).take(index as int),
        decreases files.len() - index,
    {
        let file = &files[index];
        assert(views[index as int] == file@);
        match validate_relative_path(file.path.as_str()) {
            Err(_) => {
                proof {
                    lemma_output_fault_stays(views, index + 1, views.len() as int);
                }
                return Err(CacheError::InvalidEntry(file.path.clone()));
            },
            Ok(path) => {
                if file.stamp.kind != 2 {
                    proof {
                        lemma_output_fault_stays(views, index + 1, views.len() as int);
                    }
                    return Err(CacheError::InvalidEntry(path));
                }
                let ghost before = saved_views(kept@);
                let one = SavedDependency { path, stamp: file.stamp };
                kept.push(one);
                assert(saved_views(kept@) =~= before.push(one@));
                assert(kept_files(views).take(index as int).push(
                    kept_files(views)[index as int],
                ) =~= kept_files(views).take(index + 1));
            },
        }
        index += 1;
    }
    assert(kept_files(views).take(files@.len() as int) =~= kept_files(views));
    match encode_output_marker(key, wad, &kept) {
        Ok(bytes) => Ok(Some(bytes)),
        Err(error) => Err(error),
    }
}

/// Whether the state of an output is that of a build with some files as they are
/// now.
pub open spec fn is_marker(
    data: Seq<u8>,
    key: Seq<char>,
    wad: DependencyStamp,
    files: Seq<SavedView>,
) -> bool {
    &&& encode_utf8(key).len() == 32
    &&& wad.kind == 2
    &&& forall|k: int| 0 <= k < files.len() ==> (#[trigger] files[k]).stamp.kind == 2
    &&& marker_bytes(key, wad, files) == Ok::<Seq<u8>, CacheFault>(data)
}

/// Returns whether the state of an output is that of a build with some files as
/// they are now.
pub fn output_marker_matches(
    data: &[u8],
    key: &str,
    wad: DependencyStamp,
    files: &Vec<SavedDependency>,
) -> (result: bool)
    ensures
        result == is_marker(data@, key@, wad, saved_views(files@)),
{
    let ghost views = saved_views(files@);
    if key.as_bytes().len() != 32 || wad.kind != 2 {
        return false;
    }
    let mut index: usize = 0;
    while index < files.len()
        invariant
            index <= files@.len(),
            views == saved_views(files@),
            forall|k: int| 0 <= k < index ==> (#[trigger] views[k]).stamp.kind == 2,
        decreases files.len() - index,
    {
        assert(views[index as int] == files@[index as int]@);
        if files[index].stamp.kind != 2 {
            return false;
        }
        index += 1;
    }
    match encode_output_marker(key, wad, files) {
        Ok(bytes) => same_bytes(bytes.as_slice(), data),
        Err(_) => false,
    }
}

/// An output whose state was written, and whose files are as they were then, is
/// found as it was.
pub proof fn law_recorded_output_is_found(
    key: Seq<char>,
    wad: DependencyStamp,
    files: Seq<SavedView>,
)
    requires
        is_key(key),
        output_state(key, wad, files) matches Ok(Some(_)),
    ensures
        is_marker(output_state(key, wad, files)->Ok_0->0, key, wad, kept_files(files)),
{
    assert(encode_utf8(key).len() == 32) by {
        lemma_key_bytes(key);
    }
    assert forall|k: int| 0 <= k < files.len() implies (#[trigger] kept_files(files)[k]).stamp.kind
        == 2 by {
        lemma_states_have_times(files, files.len() as int, k);
    }
}

proof fn lemma_key_bytes(text: Seq<char>)
    requires
        forall|k: int| 0 <= k < text.len() ==> ascii_hex_digit(#[trigger] text[k]),
    ensures
        encode_utf8(text).len() == text.len(),
    decreases text.len(),
{
    if text.len() > 0 {
        let rest = text.drop_last();
        lemma_key_bytes(rest);
        crate::text::lemma_encode_push(rest, text.last());
        assert(rest.push(text.last()) =~= text);
    }
}

proof fn lemma_states_have_times(files: Seq<SavedView>, count: int, index: int)
    requires
        0 <= index < count,
        output_fault(files, count) is None,
    ensures
        files[index].stamp.kind == 2,
    decreases count,
{
    if index < count - 1 {
        lemma_states_have_times(files, count - 1, index);
    }
}

/// What is wrong with the first files of a build in the cache: each has a path
/// within the output that is not that of the data file.
pub open spec fn entry_fault(
    names: Seq<Seq<char>>,
    root: Seq<char>,
    output_name: Seq<char>,
    count: int,
) -> Option<CacheFault>
    decreases count,
{
    if count <= 0 {
        None
    } else {
        match entry_fault(names, root, output_name, count - 1) {
            Some(fault) => Some(fault),
            None => match validated(names[count - 1]) {
                None => Some(CacheFault::InvalidEntry(path_within(root, names[count - 1]))),
                Some(path) => if replaces(path, output_name) {
                    Some(CacheFault::InvalidEntry(path_within(root, names[count - 1])))
                } else {
                    None
                },
            },
        }
    }
}

proof fn lemma_entry_fault_stays(
    names: Seq<Seq<char>>,
    root: Seq<char>,
    output_name: Seq<char>,
    count: int,
    end: int,
)
    requires
        0 <= count <= end,
        entry_fault(names, root, output_name, count) is Some,
    ensures
        entry_fault(names, root, output_name, end) == entry_fault(
            names,
            root,
            output_name,
            count,
        ),
    decreases end - count,
{
    if count < end {
        lemma_entry_fault_stays(names, root, output_name, count, end - 1);
    }
}

/// Returns the paths of the files of a build in the cache, given their names in
/// its directory and the name of the data file.
pub fn restored_files(names: &Vec<String>, root: &str, output_name: &str) -> (result: Result<
    Vec<String>,
    CacheError,
>)
    ensures
        match (
            result,
            entry_fault(spelled(names@), root@, output_name@, names@.len() as int),
        ) {
            (Ok(paths), None) => spelled(paths@) == spelled(names@).map_values(
                |name: Seq<char>| validated(name)->0,
            ),
            (Err(error), Some(fault)) => error@ == fault,
            _ => false,
        },
{
    let ghost texts = spelled(names@);
    let ghost expected = texts.map_values(|name: Seq<char>| validated(name)->0);
    let mut paths: Vec<String> = Vec::new();
    let mut index: usize = 0;
    assert(spelled(paths@) =~= expected.take(0));
    while index < names.len()
        invariant
            index <= names@.len(),
            texts == spelled(names@),
            expected == texts.map_values(|name: Seq<char>| validated(name)->0),
            entry_fault(texts, root@, output_name@, index as int) is None,
            spelled(paths@) == expected.take(index as int),
        decreases names.len() - index,
    {
        let name = names[index].as_str();
        assert(texts[index as int] == name@);
        let valid = match validate_relative_path(name) {
            Ok(path) => if would_replace(path.as_str(), output_name) {
                None
            } else {
                Some(path)
            },
            Err(_) => None,
        };
        match valid {
            None => {
                proof {
                    lemma_entry_fault_stays(
                        texts,
                        root@,
                        output_name@,
                        index + 1,
                        names@.len() as int,
                    );
                }
                return Err(CacheError::InvalidEntry(join_path(root, name)));
            },
            Some(path) => {
                let ghost before = spelled(paths@);
                paths.push(path);
                assert(spelled(paths@) =~= before.push(path@));
                assert(expected.take(index as int).push(expected[index as int])
                    =~= expected.take(index + 1));
            },
        }
        index += 1;
    }
    assert(expected.take(names@.len() as int) =~= expected);
    Ok(paths)
}

/// Whether a resource is part of a build with a configuration: other
/// configurations are not.
pub open spec fn is_needed(resource: ResourceRef, config: Seq<char>) -> bool {
    resource.kind != ResourceKind::Config || resource.source@ == config
}

/// Paths with those of the first resources.
pub open spec fn resource_paths(
    resources: Seq<ResourceRef>,
    config: Seq<char>,
    paths: Seq<Seq<char>>,
    count: int,
) -> Seq<Seq<char>>
    decreases count,
{
    if count <= 0 {
        paths
    } else {
        let before = resource_paths(resources, config, paths, count - 1);
        if is_needed(resources[count - 1], config) {
            before.push(resources[count - 1].source@)
        } else {
            before
        }
    }
}

/// Paths with those of the images of the first backgrounds.
pub open spec fn image_paths(
    backgrounds: Seq<Background>,
    paths: Seq<Seq<char>>,
    count: int,
) -> Seq<Seq<char>>
    decreases count,
{
    if count <= 0 {
        paths
    } else {
        let before = image_paths(backgrounds, paths, count - 1);
        if backgrounds[count - 1].image_source@.len() > 0 {
            before.push(backgrounds[count - 1].image_source@)
        } else {
            before
        }
    }
}

/// The sources of loaded files.
pub open spec fn loaded_sources(files: Seq<BinaryFile>) -> Seq<Seq<char>> {
    files.map_values(|file: BinaryFile| file.source@)
}

/// The files that a build depends on.
pub open spec fn dependencies_of(project: ProjectManifest, config: Config, assets: Assets) -> Seq<
    Seq<char>,
> {
    let first = seq![project.project_file@, config@.source];
    let listed = resource_paths(
        project.resources@,
        config@.source,
        first,
        project.resources@.len() as int,
    );
    image_paths(
        assets.backgrounds@,
        listed + loaded_sources(assets.binary_files@),
        assets.backgrounds@.len() as int,
    )
}

/// Returns the files that a build depends on: the project, its configuration and
/// its resources, the files that were loaded, and the images of backgrounds.
pub fn build_dependencies(project: &ProjectManifest, config: &Config, assets: &Assets) -> (paths: Vec<
    String,
>)
    ensures
        spelled(paths@) == dependencies_of(*project, *config, *assets),
{
    let mut paths: Vec<String> = Vec::new();
    paths.push(project.project_file.clone());
    paths.push(config.source().to_owned());
    let ghost first = seq![project.project_file@, config@.source];
    assert(spelled(paths@) =~= first);
    let mut index: usize = 0;
    while index < project.resources.len()
        invariant
            index <= project.resources@.len(),
            spelled(paths@) == resource_paths(
                project.resources@,
                config@.source,
                first,
                index as int,
            ),
        decreases project.resources.len() - index,
    {
        let resource = &project.resources[index];
        let other = match resource.kind {
            ResourceKind::Config => !same_text(resource.source.as_str(), config.source()),
            _ => false,
        };
        if !other {
            let ghost before = spelled(paths@);
            paths.push(resource.source.clone());
            assert(spelled(paths@) =~= before.push(resource.source@));
        }
        index += 1;
    }
    let ghost listed = spelled(paths@);
    let ghost sources = loaded_sources(assets.binary_files@);
    let mut file: usize = 0;
    assert(listed + sources.take(0) =~= listed);
    while file < assets.binary_files.len()
        invariant
            file <= assets.binary_files@.len(),
            sources == loaded_sources(assets.binary_files@),
            spelled(paths@) == listed + sources.take(file as int),
        decreases assets.binary_files.len() - file,
    {
        let source = &assets.binary_files[file].source;
        let ghost before = spelled(paths@);
        assert(sources[file as int] == source@);
        paths.push(source.clone());
        assert(spelled(paths@) =~= before.push(source@));
        assert(listed + sources.take(file + 1) =~= (listed + sources.take(file as int)).push(
            sources[file as int],
        ));
        file += 1;
    }
    assert(sources.take(assets.binary_files@.len() as int) =~= sources);
    let ghost loaded = spelled(paths@);
    let mut background: usize = 0;
    while background < assets.backgrounds.len()
        invariant
            background <= assets.backgrounds@.len(),
            spelled(paths@) == image_paths(assets.backgrounds@, loaded, background as int),
        decreases assets.backgrounds.len() - background,
    {
        let source = &assets.backgrounds[background].image_source;
        if !source.as_str().is_empty() {
            let ghost before = spelled(paths@);
            paths.push(source.clone());
            assert(spelled(paths@) =~= before.push(source@));
        }
        background += 1;
    }
    paths
}

/// What a file of dependencies holds, given what reading it gave: none if there
/// is no file.
pub open spec fn saved_in(file: Seq<char>, contents: ContentsView) -> Result<
    Option<Seq<SavedView>>,
    CacheFault,
> {
    match contents {
        ContentsView::Missing(message) => Ok(None),
        ContentsView::Failed(message) => Err(CacheFault::Io { path: file, message }),
        ContentsView::Data(data) => match dependencies_in(data) {
            Some(saved) => Ok(Some(saved)),
            None => Err(CacheFault::InvalidDependencyFile(file)),
        },
    }
}

/// Whether a build is one with some dependencies and a key.
pub open spec fn is_known(build: KnownBuild, keys: Seq<Seq<char>>, key: Seq<char>) -> bool {
    build.key@ == key && spelled(build.dependency_keys@) == keys
}

/// The files with their states in order, or what is wrong with them.
pub open spec fn stamped(dependencies: Seq<DependencyView>, stamps: Seq<DependencyStamp>) -> Seq<
    SavedView,
> {
    Seq::new(
        dependencies.len(),
        |k: int| SavedView { path: dependencies[k].path, stamp: stamps[k] },
    )
}

impl BuildCache {
    /// Returns the key of a build that depends on files, given what was read.
    pub fn key(&self, machine: &Machine, dependencies: &Vec<String>, read: &Vec<ReadFile>) -> (result:
        Result<String, CacheError>)
        ensures
            match (result, fingerprint_of(*machine, spelled(dependencies@), seq![], read@)) {
                (Ok(key), Ok(expected)) => key@ == expected,
                (Err(error), Err(fault)) => error@ == fault,
                _ => false,
            },
    {
        let none: Vec<FileDigest> = Vec::new();
        assert(digest_views(none@) =~= seq![]);
        fingerprint(machine, dependencies, &none, read)
    }

    /// Returns the key of a build that depends on files, some of which were
    /// loaded with the assets and found at some places.
    pub fn key_with_assets(
        &self,
        machine: &Machine,
        dependencies: &Vec<String>,
        assets: &Assets,
        places: &Vec<Option<String>>,
        read: &Vec<ReadFile>,
    ) -> (result: Result<String, CacheError>)
        requires
            places@.len() == assets.binary_files@.len(),
        ensures
            ({
                let loaded = loaded_from(
                    assets.binary_files@,
                    place_views(places@),
                    assets.binary_files@.len() as int,
                );
                match (result, fingerprint_of(*machine, spelled(dependencies@), loaded, read@)) {
                    (Ok(key), Ok(expected)) => key@ == expected,
                    (Err(error), Err(fault)) => error@ == fault,
                    _ => false,
                }
            }),
    {
        let loaded = loaded_digests(&assets.binary_files, places);
        fingerprint(machine, dependencies, &loaded, read)
    }

    /// Returns the files that the last build depended on with their states, given
    /// what reading the file of dependencies gave.
    pub fn saved_dependencies(&self, contents: &FileContents) -> (result: Result<
        Option<Vec<SavedDependency>>,
        CacheError,
    >)
        ensures
            match (result, saved_in(self.dependency_file@, contents@)) {
                (Ok(Some(saved)), Ok(Some(expected))) => saved_views(saved@) == expected,
                (Ok(None), Ok(None)) => true,
                (Err(error), Err(fault)) => error@ == fault,
                _ => false,
            },
    {
        match contents {
            FileContents::Missing(_) => Ok(None),
            FileContents::Failed(message) => Err(
                CacheError::Io { path: self.dependency_file.clone(), message: message.clone() },
            ),
            FileContents::Data(data) => match read_saved_dependencies(
                self.dependency_file.as_str(),
                data.as_slice(),
            ) {
                Ok(saved) => Ok(Some(saved)),
                Err(error) => Err(error),
            },
        }
    }

    /// Returns the last build with its key as the files are now, given what
    /// reading the file of dependencies and those files gave.
    pub fn known_build(
        &self,
        machine: &Machine,
        contents: &FileContents,
        read: &Vec<ReadFile>,
    ) -> (result: Result<Option<KnownBuild>, CacheError>)
        ensures
            match saved_in(self.dependency_file@, contents@) {
                Err(fault) => result matches Err(error) && error@ == fault,
                Ok(None) => result matches Ok(None),
                Ok(Some(saved)) => match fingerprint_of(
                    *machine,
                    saved_paths(saved),
                    seq![],
                    read@,
                ) {
                    Ok(key) => result matches Ok(Some(build)) && is_known(
                        build,
                        dependency_names(saved_paths(saved)),
                        key,
                    ),
                    Err(fault) => result matches Err(error) && error@ == fault,
                },
            },
    {
        match self.saved_dependencies(contents) {
            Err(error) => Err(error),
            Ok(None) => Ok(None),
            Ok(Some(saved)) => match known_build(machine, &saved, read) {
                Ok(build) => Ok(Some(build)),
                Err(error) => Err(error),
            },
        }
    }

    /// Returns the key of the last build as the files are now.
    pub fn known_key(
        &self,
        machine: &Machine,
        contents: &FileContents,
        read: &Vec<ReadFile>,
    ) -> (result: Result<Option<String>, CacheError>)
        ensures
            match saved_in(self.dependency_file@, contents@) {
                Err(fault) => result matches Err(error) && error@ == fault,
                Ok(None) => result matches Ok(None),
                Ok(Some(saved)) => match fingerprint_of(
                    *machine,
                    saved_paths(saved),
                    seq![],
                    read@,
                ) {
                    Ok(key) => result matches Ok(Some(text)) && text@ == key,
                    Err(fault) => result matches Err(error) && error@ == fault,
                },
            },
    {
        match self.known_build(machine, contents, read) {
            Err(error) => Err(error),
            Ok(None) => Ok(None),
            Ok(Some(build)) => Ok(Some(build.key)),
        }
    }

    /// Returns the last build if its files are in reliable states that have not
    /// changed, given the files with their states as they were and as they are.
    pub fn known_build_if_unchanged(
        &self,
        machine: &Machine,
        saved: &Vec<SavedDependency>,
        current: &Vec<DependencyStamp>,
        read: &Vec<ReadFile>,
    ) -> (result: Result<Option<KnownBuild>, CacheError>)
        requires
            current@.len() == saved@.len(),
        ensures
            if !all_unchanged(saved_views(saved@), current@) {
                result matches Ok(None)
            } else {
                match saved_digests(saved_views(saved@), read@, saved@.len() as int) {
                    Ok(digests) => result matches Ok(Some(build)) && is_known(
                        build,
                        path_keys(saved_views(saved@)),
                        build_key(*machine, digests),
                    ),
                    Err(fault) => result matches Err(error) && error@ == fault,
                }
            },
    {
        if !unchanged(saved, current) {
            return Ok(None);
        }
        let ghost expected = path_keys(saved_views(saved@));
        let mut keys: Vec<String> = Vec::new();
        let mut index: usize = 0;
        assert(spelled(keys@) =~= expected.take(0));
        while index < saved.len()
            invariant
                index <= saved@.len(),
                expected == path_keys(saved_views(saved@)),
                spelled(keys@) == expected.take(index as int),
            decreases saved.len() - index,
        {
            let key = path_key(saved[index].path.as_str());
            assert(expected[index as int] == key@);
            let ghost before = spelled(keys@);
            keys.push(key);
            assert(spelled(keys@) =~= before.push(key@));
            assert(expected.take(index as int).push(expected[index as int]) =~= expected.take(
                index + 1,
            ));
            index += 1;
        }
        assert(expected.take(saved@.len() as int) =~= expected);
        match fingerprint_saved(machine, saved, read) {
            Ok(key) => Ok(Some(KnownBuild { key, dependency_keys: keys })),
            Err(error) => Err(error),
        }
    }

    /// Returns the bytes of the file of dependencies, given the files in order
    /// and their states.
    pub fn save_dependencies(
        &self,
        dependencies: &Vec<Dependency>,
        stamps: &Vec<DependencyStamp>,
    ) -> (result: Result<Vec<u8>, CacheError>)
        requires
            stamps@.len() == dependencies@.len(),
        ensures
            match (
                result,
                dependency_bytes(stamped(dependency_views(dependencies@), stamps@)),
            ) {
                (Ok(bytes), Ok(expected)) => bytes@ == expected,
                (Err(error), Err(fault)) => error@ == fault,
                _ => false,
            },
    {
        let ghost expected = stamped(dependency_views(dependencies@), stamps@);
        let mut saved: Vec<SavedDependency> = Vec::new();
        let mut index: usize = 0;
        assert(saved_views(saved@) =~= expected.take(0));
        while index < dependencies.len()
            invariant
                index <= dependencies@.len(),
                stamps@.len() == dependencies@.len(),
                expected == stamped(dependency_views(dependencies@), stamps@),
                saved_views(saved@) == expected.take(index as int),
            decreases dependencies.len() - index,
        {
            let ghost before = saved_views(saved@);
            let one = SavedDependency {
                path: dependencies[index].path.clone(),
                stamp: stamps[index],
            };
            saved.push(one);
            assert(saved_views(saved@) =~= before.push(one@));
            assert(expected[index as int] == one@);
            assert(expected.take(index as int).push(expected[index as int]) =~= expected.take(
                index + 1,
            ));
            index += 1;
        }
        assert(expected.take(dependencies@.len() as int) =~= expected);
        encode_dependencies(&saved)
    }

    /// Returns the state of an output that is to be written for a build, given
    /// the states of its files.
    pub fn record_output(
        &self,
        key: &str,
        wad: DependencyStamp,
        files: &Vec<SavedDependency>,
    ) -> (result: Result<Option<Vec<u8>>, CacheError>)
        ensures
            if !is_key(key@) {
                result matches Err(error) && error@ == CacheFault::InvalidKey(key@)
            } else {
                match (result, output_state(key@, wad, saved_views(files@))) {
                    (Ok(Some(bytes)), Ok(Some(expected))) => bytes@ == expected,
                    (Ok(None), Ok(None)) => true,
                    (Err(error), Err(fault)) => error@ == fault,
                    _ => false,
                }
            },
    {
        match validate_key(key) {
            Err(error) => Err(error),
            Ok(()) => output_marker(key, wad, files),
        }
    }
}

} // verus!
