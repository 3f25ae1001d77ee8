//! The files that a build writes, and the paths that they may have.

use vstd::prelude::*;

use crate::bytes::copy_bytes;
use crate::package::{read_from, read_source, ContentsView, FileContents, ReadFile};
use crate::path::{is_separator, join_path, path_within};
use crate::text::{characters, join, joined, same_bytes, same_text, spell, spelled};

verus! {

/// The text that `str::to_lowercase` of the standard library makes of a text.
pub uninterp spec fn lowercase_of(text: Seq<char>) -> Seq<char>;

/// `str::to_lowercase` of the standard library: the text in small letters.
#[verifier::external_body]
fn lowercase(text: &str) -> (result: String)
    ensures
        result@ == lowercase_of(text@),
{
    text.to_lowercase()
}

/// A file that a build writes.
#[derive(Debug, Clone, PartialEq, Eq)]
pub struct GeneratedFile {
    pub path: String,
    pub data: Vec<u8>,
}

/// A [`GeneratedFile`] as sequences.
pub struct FileView {
    pub path: Seq<char>,
    pub data: Seq<u8>,
}

impl View for GeneratedFile {
    type V = FileView;

    open spec fn view(&self) -> FileView {
        FileView { path: self.path@, data: self.data@ }
    }
}

impl GeneratedFile {
    /// Makes a file with a path and contents.
    pub fn new(path: String, data: Vec<u8>) -> (file: Self)
        ensures
            file@ == (FileView { path: path@, data: data@ }),
    {
        GeneratedFile { path, data }
    }
}

/// What a list of files stands for.
pub open spec fn file_views(files: Seq<GeneratedFile>) -> Seq<FileView> {
    files.map_values(|file: GeneratedFile| file@)
}

/// Why files cannot be written.
#[derive(Debug, Clone, PartialEq, Eq)]
pub enum ArtifactError {
    UnsafePath { path: String },
    ConflictingFiles { first: String, second: String },
    Io { path: String, message: String },
}

/// What is wrong with files that are to be written.
pub enum ArtifactFault {
    UnsafePath { path: Seq<char> },
    ConflictingFiles { first: Seq<char>, second: Seq<char> },
}

/// Whether an error says what is wrong with files.
pub open spec fn tells(error: ArtifactError, fault: ArtifactFault) -> bool {
    match fault {
        ArtifactFault::UnsafePath { path } => error matches ArtifactError::UnsafePath {
            path: found,
        } && found@ == path,
        ArtifactFault::ConflictingFiles { first, second } => {
            error matches ArtifactError::ConflictingFiles { first: found, second: other }
                && found@ == first && other@ == second
        },
    }
}

/// The message of an error.
pub open spec fn artifact_error_text(error: ArtifactError) -> Seq<char> {
    match error {
        ArtifactError::UnsafePath { path } => "unsafe generated file path "@ + path@,
        ArtifactError::ConflictingFiles { first, second } => "generated files "@ + first@
            + " and "@ + second@ + " conflict"@,
        ArtifactError::Io { path, message } => path@ + ": "@ + message@,
    }
}

impl ArtifactError {
    /// Returns the message of the error.
    pub fn text(&self) -> (text: String)
        ensures
            text@ == artifact_error_text(*self),
    {
        match self {
            ArtifactError::UnsafePath { path } => {
                let mut text = "unsafe generated file path ".to_owned();
                text.append(path.as_str());
                text
            },
            ArtifactError::ConflictingFiles { first, second } => {
                let mut text = "generated files ".to_owned();
                text.append(first.as_str());
                text.append(" and ");
                text.append(second.as_str());
                text.append(" conflict");
                text
            },
            ArtifactError::Io { path, message } => {
                let mut text = path.clone();
                text.append(": ");
                text.append(message.as_str());
                text
            },
        }
    }
}

/// The components of a part of a path: those that are complete, and the
/// characters of the last one.
pub struct Split {
    pub done: Seq<Seq<char>>,
    pub current: Seq<char>,
}

/// The components of the first characters of a path, without the empty ones.
pub open spec fn split(path: Seq<char>, count: int) -> Split
    decreases count,
{
    if count <= 0 {
        Split { done: seq![], current: seq![] }
    } else {
        let before = split(path, count - 1);
        let character = path[count - 1];
        if !is_separator(character) {
            Split { current: before.current.push(character), ..before }
        } else if before.current.len() > 0 {
            Split { done: before.done.push(before.current), current: seq![] }
        } else {
            before
        }
    }
}

/// The components of a path, which slashes and backslashes separate.
pub open spec fn components(path: Seq<char>) -> Seq<Seq<char>> {
    let end = split(path, path.len() as int);
    if end.current.len() > 0 {
        end.done.push(end.current)
    } else {
        end.done
    }
}

/// Returns the components of a path.
pub fn path_components(path: &str) -> (parts: Vec<String>)
    ensures
        spelled(parts@) == components(path@),
{
    let letters = characters(path);
    let mut parts: Vec<String> = Vec::new();
    let mut current: Vec<char> = Vec::new();
    let mut index: usize = 0;
    assert(spelled(parts@) =~= seq![]);
    while index < letters.len()
        invariant
            index <= letters.len(),
            letters@ == path@,
            spelled(parts@) == split(path@, index as int).done,
            current@ == split(path@, index as int).current,
        decreases letters.len() - index,
    {
        let character = letters[index];
        let ghost before = spelled(parts@);
        if character != '/' && character != '\\' {
            current.push(character);
        } else if current.len() > 0 {
            let part = spell(current.as_slice());
            let ghost added = part@;
            parts.push(part);
            current = Vec::new();
            assert(spelled(parts@) =~= before.push(added));
        }
        index += 1;
    }
    if current.len() > 0 {
        let ghost before = spelled(parts@);
        let part = spell(current.as_slice());
        let ghost added = part@;
        parts.push(part);
        assert(spelled(parts@) =~= before.push(added));
    }
    parts
}

/// Whether a component leads out of a directory or names a device.
pub open spec fn is_unsafe(part: Seq<char>) -> bool {
    part == ".."@ || part.contains('\0') || part.contains(':')
}

/// The first components that are not a dot.
pub open spec fn without_dots(parts: Seq<Seq<char>>, count: int) -> Seq<Seq<char>>
    decreases count,
{
    if count <= 0 {
        seq![]
    } else if parts[count - 1] == "."@ {
        without_dots(parts, count - 1)
    } else {
        without_dots(parts, count - 1).push(parts[count - 1])
    }
}

/// Whether a path is absolute.
pub open spec fn is_absolute(path: Seq<char>) -> bool {
    path.len() > 0 && is_separator(path[0])
}

/// A relative path with slashes only, without components that are dots, if it
/// stays in its directory and is not empty.
pub open spec fn validated(path: Seq<char>) -> Option<Seq<char>> {
    let parts = components(path);
    let kept = without_dots(parts, parts.len() as int);
    if is_absolute(path) || (exists|k: int| 0 <= k < parts.len() && is_unsafe(#[trigger] parts[k]))
        || kept.len() == 0 {
        None
    } else {
        Some(joined(kept, seq!['/']))
    }
}

fn unsafe_part(part: &str) -> (result: bool)
    ensures
        result == is_unsafe(part@),
{
    if same_text(part, "..") {
        return true;
    }
    let letters = characters(part);
    let mut index: usize = 0;
    while index < letters.len()
        invariant
            index <= letters.len(),
            letters@ == part@,
            forall|k: int| 0 <= k < index ==> part@[k] != '\0' && part@[k] != ':',
        decreases letters.len() - index,
    {
        if letters[index] == '\0' || letters[index] == ':' {
            assert(part@.contains(letters@[index as int]));
            return true;
        }
        index += 1;
    }
    false
}

/// Returns a relative path that stays in its directory.
pub fn validate_relative_path(path: &str) -> (result: Result<String, ArtifactError>)
    ensures
        match result {
            Ok(valid) => validated(path@) == Some(valid@),
            Err(error) => validated(path@) is None && tells(
                error,
                ArtifactFault::UnsafePath { path: path@ },
            ),
        },
{
    let letters = characters(path);
    if letters.len() > 0 && (letters[0] == '/' || letters[0] == '\\') {
        return Err(ArtifactError::UnsafePath { path: path.to_owned() });
    }
    let parts = path_components(path);
    let ghost texts = components(path@);
    let mut kept: Vec<String> = Vec::new();
    let mut index: usize = 0;
    assert(spelled(kept@) =~= seq![]);
    while index < parts.len()
        invariant
            index <= parts@.len(),
            texts == components(path@),
            texts == spelled(parts@),
            forall|k: int| 0 <= k < index ==> !is_unsafe(#[trigger] texts[k]),
            spelled(kept@) == without_dots(texts, index as int),
        decreases parts.len() - index,
    {
        let part = &parts[index];
        let ghost before = spelled(kept@);
        assert(texts[index as int] == part@);
        if unsafe_part(part.as_str()) {
            return Err(ArtifactError::UnsafePath { path: path.to_owned() });
        }
        if !same_text(part.as_str(), ".") {
            kept.push(part.clone());
            assert(spelled(kept@) =~= before.push(part@));
        }
        index += 1;
    }
    assert(spelled(kept@).len() == kept@.len());
    if kept.len() == 0 {
        return Err(ArtifactError::UnsafePath { path: path.to_owned() });
    }
    proof {
        reveal_strlit("/");
        assert("/"@ =~= seq!['/']);
    }
    Ok(join(kept.as_slice(), "/"))
}

/// What two paths that lead to the same file have in common where case does not
/// matter.
pub open spec fn key_of(path: Seq<char>) -> Seq<char> {
    joined(
        components(path).map_values(|part: Seq<char>| lowercase_of(part)),
        seq!['/'],
    )
}

fn path_key(path: &str) -> (key: String)
    ensures
        key@ == key_of(path@),
{
    let parts = path_components(path);
    let ghost texts = components(path@).map_values(|part: Seq<char>| lowercase_of(part));
    let mut lowered: Vec<String> = Vec::new();
    let mut index: usize = 0;
    while index < parts.len()
        invariant
            index <= parts@.len(),
            spelled(parts@) == components(path@),
            lowered@.len() == index,
            forall|k: int|
                0 <= k < index ==> (#[trigger] lowered@[k])@ == lowercase_of(parts@[k]@),
        decreases parts.len() - index,
    {
        lowered.push(lowercase(parts[index].as_str()));
        index += 1;
    }
    proof {
        assert forall|k: int| 0 <= k < texts.len() implies spelled(lowered@)[k]
            == #[trigger] texts[k] by {
            assert(components(path@)[k] == parts@[k]@);
            assert(lowered@[k]@ == lowercase_of(parts@[k]@));
        }
        assert(spelled(lowered@) =~= texts);
        reveal_strlit("/");
        assert("/"@ =~= seq!['/']);
    }
    join(lowered.as_slice(), "/")
}

/// Whether a text begins with another one and a slash.
pub open spec fn is_below(text: Seq<char>, directory: Seq<char>) -> bool {
    text.len() > directory.len() && text.take(directory.len() as int) == directory
        && text[directory.len() as int] == '/'
}

fn below(text: &str, directory: &str) -> (result: bool)
    ensures
        result == is_below(text@, directory@),
{
    let letters = characters(text);
    let start = characters(directory);
    let count = start.len();
    if letters.len() <= count {
        return false;
    }
    let head = vstd::slice::slice_subrange(letters.as_slice(), 0, count);
    assert(head@ =~= text@.take(count as int));
    crate::text::spells(head, directory) && letters[count] == '/'
}

/// The first file with a key, from an index on.
pub open spec fn same_from(files: Seq<FileView>, key: Seq<char>, index: int) -> Option<int>
    decreases files.len() - index,
{
    if index < 0 || index >= files.len() {
        None
    } else if key_of(files[index].path) == key {
        Some(index)
    } else {
        same_from(files, key, index + 1)
    }
}

/// Whether one of two keys lies below the other.
pub open spec fn overlap(first: Seq<char>, second: Seq<char>) -> bool {
    is_below(first, second) || is_below(second, first)
}

/// The first file whose key overlaps with another one, from an index on.
pub open spec fn overlap_from(files: Seq<FileView>, key: Seq<char>, index: int) -> Option<int>
    decreases files.len() - index,
{
    if index < 0 || index >= files.len() {
        None
    } else if overlap(key_of(files[index].path), key) {
        Some(index)
    } else {
        overlap_from(files, key, index + 1)
    }
}

/// Files with another one. The same file twice is one file.
pub open spec fn with_file(merged: Seq<FileView>, file: FileView) -> Result<
    Seq<FileView>,
    ArtifactFault,
> {
    match validated(file.path) {
        None => Err(ArtifactFault::UnsafePath { path: file.path }),
        Some(path) => match same_from(merged, key_of(path), 0) {
            Some(index) => if merged[index].data == file.data {
                Ok(merged)
            } else {
                Err(
                    ArtifactFault::ConflictingFiles {
                        first: merged[index].path,
                        second: path,
                    },
                )
            },
            None => match overlap_from(merged, key_of(path), 0) {
                Some(index) => Err(
                    ArtifactFault::ConflictingFiles {
                        first: merged[index].path,
                        second: path,
                    },
                ),
                None => Ok(merged.push(FileView { path, data: file.data })),
            },
        },
    }
}

/// The first files without repetitions.
pub open spec fn merged_files(files: Seq<FileView>, count: int) -> Result<
    Seq<FileView>,
    ArtifactFault,
>
    decreases count,
{
    if count <= 0 {
        Ok(seq![])
    } else {
        match merged_files(files, count - 1) {
            Ok(merged) => with_file(merged, files[count - 1]),
            Err(fault) => Err(fault),
        }
    }
}

proof fn lemma_fault_stays(files: Seq<FileView>, count: int, end: int)
    requires
        0 <= count <= end,
        merged_files(files, count) is Err,
    ensures
        merged_files(files, end) == merged_files(files, count),
    decreases end - count,
{
    if count < end {
        lemma_fault_stays(files, count, end - 1);
    }
}

fn find_same(files: &Vec<GeneratedFile>, key: &str) -> (position: Option<usize>)
    ensures
        match position {
            Some(position) => position < files@.len() && same_from(file_views(files@), key@, 0)
                == Some(position as int),
            None => same_from(file_views(files@), key@, 0) is None,
        },
{
    let ghost views = file_views(files@);
    let mut index: usize = 0;
    while index < files.len()
        invariant
            index <= files@.len(),
            views == file_views(files@),
            same_from(views, key@, 0) == same_from(views, key@, index as int),
        decreases files.len() - index,
    {
        assert(views[index as int] == files@[index as int]@);
        let other = path_key(files[index].path.as_str());
        if same_text(other.as_str(), key) {
            return Some(index);
        }
        index += 1;
    }
    None
}

fn find_overlap(files: &Vec<GeneratedFile>, key: &str) -> (position: Option<usize>)
    ensures
        match position {
            Some(position) => position < files@.len() && overlap_from(file_views(files@), key@, 0)
                == Some(position as int),
            None => overlap_from(file_views(files@), key@, 0) is None,
        },
{
    let ghost views = file_views(files@);
    let mut index: usize = 0;
    while index < files.len()
        invariant
            index <= files@.len(),
            views == file_views(files@),
            overlap_from(views, key@, 0) == overlap_from(views, key@, index as int),
        decreases files.len() - index,
    {
        assert(views[index as int] == files@[index as int]@);
        let other = path_key(files[index].path.as_str());
        if below(other.as_str(), key) || below(key, other.as_str()) {
            return Some(index);
        }
        index += 1;
    }
    None
}

/// Returns the files with valid paths and without repetitions, unless two
/// different files have the same path, or one lies below another.
pub fn merge_generated_files(files: &Vec<GeneratedFile>) -> (result: Result<
    Vec<GeneratedFile>,
    ArtifactError,
>)
    ensures
        match result {
            Ok(merged) => merged_files(file_views(files@), files@.len() as int) == Ok::<
                Seq<FileView>,
                ArtifactFault,
            >(file_views(merged@)),
            Err(error) => merged_files(file_views(files@), files@.len() as int) matches Err(fault)
                && tells(error, fault),
        },
{
    let ghost views = file_views(files@);
    let mut merged: Vec<GeneratedFile> = Vec::new();
    let mut index: usize = 0;
    assert(file_views(merged@) =~= seq![]);
    while index < files.len()
        invariant
            index <= files@.len(),
            views == file_views(files@),
            merged_files(views, index as int) == Ok::<Seq<FileView>, ArtifactFault>(
                file_views(merged@),
            ),
        decreases files.len() - index,
    {
        let file = &files[index];
        let ghost before = file_views(merged@);
        proof {
            assert(views[index as int] == file@);
            if with_file(before, file@) is Err {
                lemma_fault_stays(views, index + 1, views.len() as int);
            }
        }
        let path = match validate_relative_path(file.path.as_str()) {
            Ok(path) => path,
            Err(error) => {
                return Err(error);
            },
        };
        let key = path_key(path.as_str());
        match find_same(&merged, key.as_str()) {
            Some(position) => {
                assert(before[position as int] == merged@[position as int]@);
                if !same_bytes(merged[position].data.as_slice(), file.data.as_slice()) {
                    return Err(
                        ArtifactError::ConflictingFiles {
                            first: merged[position].path.clone(),
                            second: path,
                        },
                    );
                }
            },
            None => match find_overlap(&merged, key.as_str()) {
                Some(position) => {
                    assert(before[position as int] == merged@[position as int]@);
                    return Err(
                        ArtifactError::ConflictingFiles {
                            first: merged[position].path.clone(),
                            second: path,
                        },
                    );
                },
                None => {
                    let added = GeneratedFile { path, data: copy_bytes(&file.data) };
                    let ghost view = added@;
                    merged.push(added);
                    assert(file_views(merged@) =~= before.push(view));
                },
            },
        }
        index += 1;
    }
    Ok(merged)
}

/// Whether no two files have the same key or overlap.
pub open spec fn is_apart(files: Seq<FileView>) -> bool {
    forall|j: int, k: int|
        #![trigger files[j], files[k]]
        0 <= j < k < files.len() ==> key_of(files[j].path) != key_of(files[k].path) && !overlap(
            key_of(files[j].path),
            key_of(files[k].path),
        )
}

proof fn lemma_none_same(files: Seq<FileView>, key: Seq<char>, start: int, index: int)
    requires
        0 <= start <= index < files.len(),
        same_from(files, key, start) is None,
    ensures
        key_of(files[index].path) != key,
    decreases index - start,
{
    if start < index {
        lemma_none_same(files, key, start + 1, index);
    }
}

proof fn lemma_none_overlaps(files: Seq<FileView>, key: Seq<char>, start: int, index: int)
    requires
        0 <= start <= index < files.len(),
        overlap_from(files, key, start) is None,
    ensures
        !overlap(key_of(files[index].path), key),
    decreases index - start,
{
    if start < index {
        lemma_none_overlaps(files, key, start + 1, index);
    }
}

/// Merged files have different paths, even where case does not matter, and none
/// of them lies below another.
pub proof fn law_merged_files_are_apart(files: Seq<FileView>, count: int)
    ensures
        merged_files(files, count) matches Ok(merged) ==> is_apart(merged),
    decreases count,
{
    if count > 0 {
        law_merged_files_are_apart(files, count - 1);
        if let Ok(before) = merged_files(files, count - 1) {
            if let Ok(merged) = with_file(before, files[count - 1]) {
                let path = validated(files[count - 1].path).unwrap();
                if same_from(before, key_of(path), 0) is None {
                    assert forall|j: int, k: int|
                        #![trigger merged[j], merged[k]]
                        0 <= j < k < merged.len() implies key_of(merged[j].path) != key_of(
                        merged[k].path,
                    ) && !overlap(key_of(merged[j].path), key_of(merged[k].path)) by {
                        assert(merged[j] == before[j]);
                        if k < before.len() {
                            assert(merged[k] == before[k]);
                        } else {
                            lemma_none_same(before, key_of(path), 0, j);
                            lemma_none_overlaps(before, key_of(path), 0, j);
                        }
                    }
                }
            }
        }
    }
}

/// Whether a text can be a component of a path.
pub open spec fn is_component(part: Seq<char>) -> bool {
    part.len() > 0 && forall|k: int| 0 <= k < part.len() ==> !is_separator(#[trigger] part[k])
}

proof fn lemma_split_prefix(text: Seq<char>, more: Seq<char>, count: int)
    requires
        count <= text.len(),
    ensures
        split(text + more, count) == split(text, count),
    decreases count,
{
    if count > 0 {
        lemma_split_prefix(text, more, count - 1);
    }
}

proof fn lemma_split_part(text: Seq<char>, part: Seq<char>, count: int)
    requires
        is_component(part),
        0 <= count <= part.len(),
    ensures
        ({
            let before = split(text, text.len() as int);
            split(text + part, text.len() + count) == (Split {
                current: before.current + part.take(count),
                ..before
            })
        }),
    decreases count,
{
    let before = split(text, text.len() as int);
    if count == 0 {
        lemma_split_prefix(text, part, text.len() as int);
        assert(before.current + part.take(0) =~= before.current);
    } else {
        lemma_split_part(text, part, count - 1);
        assert((text + part)[text.len() + count - 1] == part[count - 1]);
        assert(before.current + part.take(count) =~= (before.current + part.take(count - 1)).push(
            part[count - 1],
        ));
    }
}

proof fn lemma_components_of_joined(parts: Seq<Seq<char>>)
    requires
        parts.len() > 0,
        forall|k: int| 0 <= k < parts.len() ==> is_component(#[trigger] parts[k]),
    ensures
        ({
            let text = joined(parts, seq!['/']);
            let end = split(text, text.len() as int);
            &&& end.done == parts.drop_last()
            &&& end.current == parts.last()
        }),
    decreases parts.len(),
{
    let text = joined(parts, seq!['/']);
    let last = parts.last();
    if parts.len() == 1 {
        assert(text == last);
        assert(seq![] + last =~= last);
        lemma_split_part(seq![], last, last.len() as int);
        assert(last.take(last.len() as int) =~= last);
        assert(parts.drop_last() =~= seq![]);
    } else {
        let rest = parts.drop_last();
        assert forall|k: int| 0 <= k < rest.len() implies is_component(#[trigger] rest[k]) by {
            assert(rest[k] == parts[k]);
        }
        lemma_components_of_joined(rest);
        let head = joined(rest, seq!['/']);
        let slashed = head + seq!['/'];
        lemma_split_prefix(head, seq!['/'], head.len() as int);
        assert(slashed[head.len() as int] == '/');
        assert(text =~= slashed + last);
        assert(split(slashed, slashed.len() as int) == (Split {
            done: rest.drop_last().push(rest.last()),
            current: seq![],
        }));
        assert(rest.drop_last().push(rest.last()) =~= rest);
        lemma_split_part(slashed, last, last.len() as int);
        assert(seq![] + last.take(last.len() as int) =~= last);
    }
}

proof fn lemma_split_components(path: Seq<char>, count: int)
    requires
        count <= path.len(),
    ensures
        forall|k: int|
            0 <= k < split(path, count).done.len() ==> is_component(
                #[trigger] split(path, count).done[k],
            ),
        forall|k: int|
            0 <= k < split(path, count).current.len() ==> !is_separator(
                #[trigger] split(path, count).current[k],
            ),
    decreases count,
{
    if count > 0 {
        lemma_split_components(path, count - 1);
        let before = split(path, count - 1);
        let now = split(path, count);
        assert forall|k: int| 0 <= k < now.done.len() implies is_component(
            #[trigger] now.done[k],
        ) by {
            if k < before.done.len() {
                assert(now.done[k] == before.done[k]);
            } else {
                assert(now.done[k] == before.current);
            }
        }
        assert forall|k: int| 0 <= k < now.current.len() implies !is_separator(
            #[trigger] now.current[k],
        ) by {
            if k < before.current.len() {
                assert(now.current[k] == before.current[k]);
            }
        }
    }
}

proof fn lemma_without_dots(parts: Seq<Seq<char>>, count: int)
    requires
        0 <= count <= parts.len(),
    ensures
        forall|k: int|
            0 <= k < without_dots(parts, count).len() ==> parts.contains(
                #[trigger] without_dots(parts, count)[k],
            ) && without_dots(parts, count)[k] != "."@,
    decreases count,
{
    if count > 0 {
        lemma_without_dots(parts, count - 1);
        let before = without_dots(parts, count - 1);
        let now = without_dots(parts, count);
        assert forall|k: int| 0 <= k < now.len() implies parts.contains(#[trigger] now[k]) && now[k]
            != "."@ by {
            if k < before.len() {
                assert(now[k] == before[k]);
            } else {
                assert(parts[count - 1] == now[k]);
            }
        }
    }
}

/// A valid path is relative, and none of its components is a dot, leads to the
/// parent directory or names a device.
pub proof fn law_valid_paths_stay_inside(path: Seq<char>)
    ensures
        validated(path) matches Some(valid) ==> {
            &&& valid.len() > 0
            &&& !is_absolute(valid)
            &&& components(valid) == without_dots(components(path), components(path).len() as int)
            &&& forall|k: int|
                0 <= k < components(valid).len() ==> !is_unsafe(#[trigger] components(valid)[k])
                    && components(valid)[k] != "."@
        },
{
    if let Some(valid) = validated(path) {
        let parts = components(path);
        let kept = without_dots(parts, parts.len() as int);
        lemma_split_components(path, path.len() as int);
        lemma_without_dots(parts, parts.len() as int);
        assert forall|k: int| 0 <= k < kept.len() implies is_component(#[trigger] kept[k])
            && !is_unsafe(kept[k]) by {
            let at = choose|at: int| 0 <= at < parts.len() && parts[at] == kept[k];
            assert(parts[at] == kept[k]);
        }
        lemma_components_of_joined(kept);
        assert(kept.drop_last().push(kept.last()) =~= kept);
        assert(components(valid) == kept);
        lemma_first_of_joined(kept);
    }
}

proof fn lemma_nothing_to_leave_out(parts: Seq<Seq<char>>, count: int)
    requires
        0 <= count <= parts.len(),
        forall|k: int| 0 <= k < parts.len() ==> #[trigger] parts[k] != "."@,
    ensures
        without_dots(parts, count) == parts.take(count),
    decreases count,
{
    if count > 0 {
        lemma_nothing_to_leave_out(parts, count - 1);
        assert(parts.take(count) =~= parts.take(count - 1).push(parts[count - 1]));
    } else {
        assert(parts.take(0) =~= seq![]);
    }
}

/// A valid path stays as it is when it is validated again.
pub proof fn law_valid_paths_are_kept(path: Seq<char>)
    ensures
        validated(path) matches Some(valid) ==> validated(valid) == Some(valid),
{
    if let Some(valid) = validated(path) {
        law_valid_paths_stay_inside(path);
        let parts = components(valid);
        lemma_nothing_to_leave_out(parts, parts.len() as int);
        assert(parts.take(parts.len() as int) =~= parts);
    }
}

proof fn lemma_first_of_joined(parts: Seq<Seq<char>>)
    requires
        parts.len() > 0,
        forall|k: int| 0 <= k < parts.len() ==> is_component(#[trigger] parts[k]),
    ensures
        joined(parts, seq!['/']).len() > 0,
        !is_separator(joined(parts, seq!['/'])[0]),
    decreases parts.len(),
{
    if parts.len() > 1 {
        let rest = parts.drop_last();
        assert forall|k: int| 0 <= k < rest.len() implies is_component(#[trigger] rest[k]) by {
            assert(rest[k] == parts[k]);
        }
        lemma_first_of_joined(rest);
    } else {
        assert(is_component(parts[0]));
    }
}

/// A file that is to be beside the data file, and whether it has to be written.
#[derive(Debug, Clone, PartialEq, Eq)]
pub struct PlannedFile {
    pub destination: String,
    pub needed: bool,
}

/// Whether a file is there with some contents.
pub open spec fn has_contents(contents: ContentsView, data: Seq<u8>) -> bool {
    contents == ContentsView::Data(data)
}

/// Returns whether a file is there with some contents, given what reading it
/// gave.
pub fn file_matches_data(contents: &FileContents, data: &[u8]) -> (result: bool)
    ensures
        result == has_contents(contents@, data@),
{
    match contents {
        FileContents::Data(found) => {
            let same = same_bytes(found.as_slice(), data);
            assert(same == (found@ =~= data@));
            same
        },
        _ => false,
    }
}

/// The first of the first files whose path leads out of the directory.
pub open spec fn unsafe_file(files: Seq<GeneratedFile>, count: int) -> Option<Seq<char>>
    decreases count,
{
    if count <= 0 {
        None
    } else {
        match unsafe_file(files, count - 1) {
            Some(path) => Some(path),
            None => match validated(files[count - 1].path@) {
                Some(path) => None,
                None => Some(files[count - 1].path@),
            },
        }
    }
}

proof fn lemma_unsafe_file_stays(files: Seq<GeneratedFile>, count: int, end: int)
    requires
        0 <= count <= end,
        unsafe_file(files, count) is Some,
    ensures
        unsafe_file(files, end) == unsafe_file(files, count),
    decreases end - count,
{
    if count < end {
        lemma_unsafe_file_stays(files, count, end - 1);
    }
}

/// Whether a file goes to its place in a directory, and has to be written unless
/// it is there already.
pub open spec fn is_planned(
    plan: PlannedFile,
    directory: Seq<char>,
    file: GeneratedFile,
    read: Seq<ReadFile>,
) -> bool {
    &&& validated(file.path@) matches Some(path) && plan.destination@ == path_within(
        directory,
        path,
    )
    &&& plan.needed == !has_contents(read_from(read, plan.destination@, 0), file.data@)
}

/// Returns where generated files go in a directory, and which of them have to be
/// written, given what is there.
pub fn write_generated_files(
    output_dir: &str,
    files: &Vec<GeneratedFile>,
    read: &Vec<ReadFile>,
) -> (result: Result<Vec<PlannedFile>, ArtifactError>)
    ensures
        match (result, unsafe_file(files@, files@.len() as int)) {
            (Ok(plans), None) => plans@.len() == files@.len() && forall|k: int|
                0 <= k < files@.len() ==> is_planned(
                    #[trigger] plans@[k],
                    output_dir@,
                    files@[k],
                    read@,
                ),
            (Err(error), Some(path)) => tells(error, ArtifactFault::UnsafePath { path }),
            _ => false,
        },
{
    let mut plans: Vec<PlannedFile> = Vec::new();
    let mut index: usize = 0;
    while index < files.len()
        invariant
            index <= files@.len(),
            plans@.len() == index,
            unsafe_file(files@, index as int) is None,
            forall|k: int|
                0 <= k < index ==> is_planned(
                    #[trigger] plans@[k],
                    output_dir@,
                    files@[k],
                    read@,
                ),
        decreases files.len() - index,
    {
        let file = &files[index];
        match validate_relative_path(file.path.as_str()) {
            Err(error) => {
                proof {
                    lemma_unsafe_file_stays(files@, index + 1, files@.len() as int);
                }
                return Err(error);
            },
            Ok(path) => {
                let destination = join_path(output_dir, path.as_str());
                let contents = read_source(read, destination.as_str());
                let needed = !file_matches_data(&contents, file.data.as_slice());
                plans.push(PlannedFile { destination, needed });
            },
        }
        index += 1;
    }
    Ok(plans)
}

} // verus!
