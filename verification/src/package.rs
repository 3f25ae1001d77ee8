//! The files of a project that are copied beside its data file: included files,
//! and the files and archives of extensions.

use std::io::{Cursor, Read};

use zip::ZipArchive;

use vstd::prelude::*;

use crate::artifact::{file_views, validate_relative_path, validated, FileView, GeneratedFile};
use crate::assets::Assets;
use crate::bytes::copy_bytes;
use crate::path::{
    assemble, assembled, dot_of, extension_of_name, file_name, gmx_path, gmx_text, is_separator,
    join_path, name_of_file, path_parts, path_within, split_path,
};
use crate::project::{lowered, mask_from, DataFile, ProjectManifest};
use crate::resources::{Extension, ExtensionFile};
use crate::text::{characters, debug_quoted, debug_spelling, decimal, digits, same_text, spelled};
use crate::wad::{invalid, overflow, WriteError, WriteFault};

verus! {

/// The number of entries that the `zip` crate finds in an archive.
pub uninterp spec fn archive_length(data: Seq<u8>) -> Result<usize, Seq<char>>;

/// The name of an entry of an archive, whether it is a directory, and the
/// length of its contents, as the `zip` crate finds them.
pub uninterp spec fn archive_entry(data: Seq<u8>, index: usize) -> Result<
    (Seq<char>, bool, u64),
    Seq<char>,
>;

/// The contents of an entry of an archive that the `zip` crate decompresses.
pub uninterp spec fn archive_contents(data: Seq<u8>, index: usize) -> Result<Seq<u8>, Seq<char>>;

/// `ZipArchive::len` of the `zip` crate: the number of entries of an archive.
#[verifier::external_body]
fn entry_count(data: &[u8]) -> (result: Result<usize, String>)
    ensures
        match result {
            Ok(count) => archive_length(data@) == Ok::<usize, Seq<char>>(count),
            Err(message) => archive_length(data@) == Err::<usize, Seq<char>>(message@),
        },
{
    match ZipArchive::new(Cursor::new(data)) {
        Ok(archive) => Ok(archive.len()),
        Err(error) => Err(error.to_string()),
    }
}

/// `ZipArchive::by_index` of the `zip` crate, with the name, the kind and the
/// length of the entry.
#[verifier::external_body]
fn entry_at(data: &[u8], index: usize) -> (result: Result<(String, bool, u64), String>)
    ensures
        match result {
            Ok(entry) => archive_entry(data@, index) == Ok::<(Seq<char>, bool, u64), Seq<char>>(
                (entry.0@, entry.1, entry.2),
            ),
            Err(message) => archive_entry(data@, index) == Err::<
                (Seq<char>, bool, u64),
                Seq<char>,
            >(message@),
        },
{
    let mut archive = ZipArchive::new(Cursor::new(data)).map_err(|error| error.to_string())?;
    let entry = archive.by_index(index).map_err(|error| error.to_string())?;
    let name = entry.name().map_err(|error| error.to_string())?.into_owned();
    Ok((name, entry.is_dir(), entry.size()))
}

/// `ZipFile::read_to_end` of the `zip` crate: the contents of an entry.
#[verifier::external_body]
fn entry_contents(data: &[u8], index: usize) -> (result: Result<Vec<u8>, String>)
    ensures
        match result {
            Ok(contents) => archive_contents(data@, index) == Ok::<Seq<u8>, Seq<char>>(contents@),
            Err(message) => archive_contents(data@, index) == Err::<Seq<u8>, Seq<char>>(message@),
        },
{
    let mut archive = ZipArchive::new(Cursor::new(data)).map_err(|error| error.to_string())?;
    let mut entry = archive.by_index(index).map_err(|error| error.to_string())?;
    let mut contents = Vec::new();
    entry.read_to_end(&mut contents).map_err(|error| error.to_string())?;
    Ok(contents)
}

/// What reading a file gave: its contents, that it is missing, or that it
/// cannot be read.
#[derive(Debug, Clone, PartialEq, Eq)]
pub enum FileContents {
    Data(Vec<u8>),
    Missing(String),
    Failed(String),
}

/// A file with what reading it gave.
#[derive(Debug, Clone, PartialEq, Eq)]
pub struct ReadFile {
    pub source: String,
    pub contents: FileContents,
}

/// [`FileContents`] as sequences.
pub enum ContentsView {
    Data(Seq<u8>),
    Missing(Seq<char>),
    Failed(Seq<char>),
}

impl View for FileContents {
    type V = ContentsView;

    open spec fn view(&self) -> ContentsView {
        match self {
            FileContents::Data(data) => ContentsView::Data(data@),
            FileContents::Missing(message) => ContentsView::Missing(message@),
            FileContents::Failed(message) => ContentsView::Failed(message@),
        }
    }
}

/// What reading a file gave, from an index on.
pub open spec fn read_from(files: Seq<ReadFile>, source: Seq<char>, index: int) -> ContentsView
    decreases files.len() - index,
{
    if index < 0 || index >= files.len() {
        ContentsView::Missing("file was not read"@)
    } else if files[index].source@ == source {
        files[index].contents@
    } else {
        read_from(files, source, index + 1)
    }
}

/// The contents of a file: those that were loaded with the project, or else
/// what reading the file gave.
pub open spec fn contents_of(assets: Assets, read: Seq<ReadFile>, source: Seq<char>) -> ContentsView {
    match assets.contents(source) {
        Some(data) => ContentsView::Data(data),
        None => read_from(read, source, 0),
    }
}

fn copy_contents(contents: &FileContents) -> (copy: FileContents)
    ensures
        copy@ == contents@,
{
    match contents {
        FileContents::Data(data) => FileContents::Data(copy_bytes(data.as_slice())),
        FileContents::Missing(message) => FileContents::Missing(message.clone()),
        FileContents::Failed(message) => FileContents::Failed(message.clone()),
    }
}

/// Returns what reading a file gave.
pub fn read_source(read: &Vec<ReadFile>, source: &str) -> (contents: FileContents)
    ensures
        contents@ == read_from(read@, source@, 0),
{
    let mut index: usize = 0;
    while index < read.len()
        invariant
            index <= read@.len(),
            read_from(read@, source@, 0) == read_from(read@, source@, index as int),
        decreases read.len() - index,
    {
        if same_text(read[index].source.as_str(), source) {
            return copy_contents(&read[index].contents);
        }
        index += 1;
    }
    FileContents::Missing("file was not read".to_owned())
}

fn read_project_file(assets: &Assets, read: &Vec<ReadFile>, source: &str) -> (contents:
    FileContents)
    ensures
        contents@ == contents_of(*assets, read@, source@),
{
    match assets.binary(source) {
        Some(data) => FileContents::Data(copy_bytes(data)),
        None => read_source(read, source),
    }
}

/// What is wrong with the files of a project.
pub open spec fn package_fault(message: Seq<char>) -> WriteFault {
    invalid("external files: "@ + message)
}

fn package_error(message: &str) -> (error: WriteError)
    ensures
        error@ == package_fault(message@),
{
    let mut text = "external files: ".to_owned();
    text.append(message);
    WriteError::InvalidVmData { message: text }
}

/// The message about a path that leads out of its directory.
pub open spec fn unsafe_path(path: Seq<char>) -> WriteFault {
    package_fault("unsafe generated file path "@ + path)
}

/// The path of an included file beside the data file: its path in the project
/// without the directory of included files.
pub open spec fn included_place(relative: Seq<char>) -> Seq<char> {
    let parts = path_parts(relative);
    let kept = if parts.len() > 0 && parts[0] == "datafiles"@ {
        parts.skip(1)
    } else {
        parts
    };
    assembled(kept, kept.len() as int)
}

/// Returns the path of an included file beside the data file.
pub fn included_path(file: &DataFile) -> (result: Result<String, WriteError>)
    ensures
        ({
            let place = included_place(file.relative_path@);
            match result {
                Ok(path) => validated(place) == Some(path@),
                Err(error) => validated(place) is None && error@ == unsafe_path(place),
            }
        }),
{
    let parts = split_path(file.relative_path.as_str());
    let ghost texts = spelled(parts@);
    let first: usize = if parts.len() > 0 && same_text(parts[0].as_str(), "datafiles") {
        assert(texts[0] == parts@[0]@);
        1
    } else {
        if parts.len() > 0 {
            assert(texts[0] == parts@[0]@);
        }
        0
    };
    let kept = vstd::slice::slice_subrange(parts.as_slice(), first, parts.len());
    proof {
        if first == 1 {
            assert(spelled(kept@) =~= texts.skip(1));
        } else {
            assert(spelled(kept@) =~= texts);
        }
    }
    let place = assemble(kept);
    match validate_relative_path(place.as_str()) {
        Ok(path) => Ok(path),
        Err(error) => {
            let message = error.text();
            Err(package_error(message.as_str()))
        },
    }
}

/// Returns the path of an entry of an archive, or what is wrong with it.
pub fn portable_relative_path(value: &str) -> (result: Result<String, String>)
    ensures
        match result {
            Ok(path) => portable_path(value@) == Ok::<Seq<char>, Seq<char>>(path@),
            Err(message) => portable_path(value@) == Err::<Seq<char>, Seq<char>>(message@),
        },
{
    let letters = characters(value);
    if letters.len() > 0 && (letters[0] == '/' || letters[0] == '\\') {
        let mut message = "unsafe absolute entry path ".to_owned();
        let shown = debug_quoted(value);
        message.append(shown.as_str());
        return Err(message);
    }
    let path = gmx_path(value);
    match validate_relative_path(path.as_str()) {
        Ok(path) => Ok(path),
        Err(_) => {
            let mut message = "unsafe entry path ".to_owned();
            let shown = debug_quoted(value);
            message.append(shown.as_str());
            Err(message)
        },
    }
}

/// The path of an entry of an archive, or what is wrong with it.
pub open spec fn portable_path(value: Seq<char>) -> Result<Seq<char>, Seq<char>> {
    if value.len() > 0 && is_separator(value[0]) {
        Err("unsafe absolute entry path "@ + debug_spelling(value))
    } else {
        match validated(gmx_text(value)) {
            Some(path) => Ok(path),
            None => Err("unsafe entry path "@ + debug_spelling(value)),
        }
    }
}

/// The beginning of a message about the archive of an extension.
pub open spec fn archive_text(extension: Seq<char>, source: Seq<char>) -> Seq<char> {
    "extension "@ + extension + " archive "@ + source
}

/// The file that an entry of an archive holds; none for a directory.
pub open spec fn entry_file(
    extension: Seq<char>,
    source: Seq<char>,
    data: Seq<u8>,
    index: usize,
) -> Result<Option<FileView>, WriteFault> {
    match archive_entry(data, index) {
        Err(message) => Err(
            package_fault(
                "cannot read entry "@ + digits(index as nat, 10) + " from "@ + archive_text(
                    extension,
                    source,
                ) + ": "@ + message,
            ),
        ),
        Ok((name, directory, size)) => if directory {
            Ok(None)
        } else {
            match portable_path(name) {
                Err(message) => Err(
                    package_fault(archive_text(extension, source) + " has "@ + message),
                ),
                Ok(path) => if size > usize::MAX {
                    Err(overflow("extension archive entry"@, size as int))
                } else {
                    match archive_contents(data, index) {
                        Err(message) => Err(
                            package_fault(
                                "cannot decompress "@ + path + " from extension "@ + extension
                                    + ": "@ + message,
                            ),
                        ),
                        Ok(contents) => Ok(Some(FileView { path, data: contents })),
                    }
                },
            }
        },
    }
}

/// Files with those of the first entries of an archive.
pub open spec fn with_entries(
    files: Seq<FileView>,
    extension: Seq<char>,
    source: Seq<char>,
    data: Seq<u8>,
    count: int,
) -> Result<Seq<FileView>, WriteFault>
    decreases count,
{
    if count <= 0 {
        Ok(files)
    } else {
        match with_entries(files, extension, source, data, count - 1) {
            Err(fault) => Err(fault),
            Ok(files) => match entry_file(extension, source, data, (count - 1) as usize) {
                Err(fault) => Err(fault),
                Ok(Some(file)) => Ok(files.push(file)),
                Ok(None) => Ok(files),
            },
        }
    }
}

/// Files with those of an archive of an extension.
pub open spec fn with_archive(
    files: Seq<FileView>,
    extension: Seq<char>,
    source: Seq<char>,
    data: Seq<u8>,
) -> Result<Seq<FileView>, WriteFault> {
    match archive_length(data) {
        Err(message) => Err(
            package_fault(archive_text(extension, source) + " is invalid: "@ + message),
        ),
        Ok(count) => with_entries(files, extension, source, data, count as int),
    }
}

fn archive_message(extension: &str, source: &str, middle: &str, message: &str) -> (text: String)
    ensures
        text@ == archive_text(extension@, source@) + middle@ + message@,
{
    let mut text = "extension ".to_owned();
    text.append(extension);
    text.append(" archive ");
    text.append(source);
    text.append(middle);
    text.append(message);
    text
}

fn extract_entry(
    extension: &str,
    source: &str,
    data: &[u8],
    index: usize,
) -> (result: Result<Option<GeneratedFile>, WriteError>)
    ensures
        match result {
            Ok(Some(file)) => entry_file(extension@, source@, data@, index) == Ok::<
                Option<FileView>,
                WriteFault,
            >(Some(file@)),
            Ok(None) => entry_file(extension@, source@, data@, index) == Ok::<
                Option<FileView>,
                WriteFault,
            >(None),
            Err(error) => entry_file(extension@, source@, data@, index) == Err::<
                Option<FileView>,
                WriteFault,
            >(error@),
        },
{
    let (name, directory, size) = match entry_at(data, index) {
        Ok(entry) => entry,
        Err(message) => {
            let mut text = "cannot read entry ".to_owned();
            let shown = decimal(index as u64);
            text.append(shown.as_str());
            text.append(" from ");
            let rest = archive_message(extension, source, ": ", message.as_str());
            text.append(rest.as_str());
            assert(text@ =~= "cannot read entry "@ + digits(index as nat, 10) + " from "@
                + archive_text(extension@, source@) + ": "@ + message@);
            return Err(package_error(text.as_str()));
        },
    };
    if directory {
        return Ok(None);
    }
    let path = match portable_relative_path(name.as_str()) {
        Ok(path) => path,
        Err(message) => {
            let text = archive_message(extension, source, " has ", message.as_str());
            return Err(package_error(text.as_str()));
        },
    };
    if size as u128 > usize::MAX as u128 {
        return Err(
            WriteError::SizeOverflow { field: "extension archive entry".to_owned(), size },
        );
    }
    match entry_contents(data, index) {
        Ok(contents) => Ok(Some(GeneratedFile { path, data: contents })),
        Err(message) => {
            let mut text = "cannot decompress ".to_owned();
            text.append(path.as_str());
            text.append(" from extension ");
            text.append(extension);
            text.append(": ");
            text.append(message.as_str());
            Err(package_error(text.as_str()))
        },
    }
}

proof fn lemma_entry_fault_stays(
    files: Seq<FileView>,
    extension: Seq<char>,
    source: Seq<char>,
    data: Seq<u8>,
    count: int,
    end: int,
)
    requires
        0 <= count <= end,
        with_entries(files, extension, source, data, count) is Err,
    ensures
        with_entries(files, extension, source, data, end) == with_entries(
            files,
            extension,
            source,
            data,
            count,
        ),
    decreases end - count,
{
    if count < end {
        lemma_entry_fault_stays(files, extension, source, data, count, end - 1);
    }
}

/// Whether a result is that of adding files.
pub open spec fn adds(
    result: Result<(), WriteError>,
    files: Seq<GeneratedFile>,
    expected: Result<Seq<FileView>, WriteFault>,
) -> bool {
    match result {
        Ok(()) => expected == Ok::<Seq<FileView>, WriteFault>(file_views(files)),
        Err(error) => expected == Err::<Seq<FileView>, WriteFault>(error@),
    }
}

/// Adds the files of an archive of an extension.
pub fn extract_extension_archive(
    extension: &str,
    source: &str,
    data: &[u8],
    output: &mut Vec<GeneratedFile>,
) -> (result: Result<(), WriteError>)
    ensures
        adds(
            result,
            final(output)@,
            with_archive(file_views(old(output)@), extension@, source@, data@),
        ),
{
    let ghost start = file_views(output@);
    let count = match entry_count(data) {
        Ok(count) => count,
        Err(message) => {
            let text = archive_message(extension, source, " is invalid: ", message.as_str());
            return Err(package_error(text.as_str()));
        },
    };
    let mut index: usize = 0;
    while index < count
        invariant
            index <= count,
            archive_length(data@) == Ok::<usize, Seq<char>>(count),
            with_entries(start, extension@, source@, data@, index as int) == Ok::<
                Seq<FileView>,
                WriteFault,
            >(file_views(output@)),
            start == file_views(old(output)@),
        decreases count - index,
    {
        let ghost before = file_views(output@);
        match extract_entry(extension, source, data, index) {
            Ok(Some(file)) => {
                let ghost added = file@;
                output.push(file);
                assert(file_views(output@) =~= before.push(added));
            },
            Ok(None) => {},
            Err(error) => {
                proof {
                    lemma_entry_fault_stays(
                        start,
                        extension@,
                        source@,
                        data@,
                        index + 1,
                        count as int,
                    );
                }
                return Err(error);
            },
        }
        index += 1;
    }
    Ok(())
}

/// Files with an included file, if a configuration copies it to a target. A
/// missing file is left out.
pub open spec fn with_included(
    files: Seq<FileView>,
    assets: Assets,
    read: Seq<ReadFile>,
    config: Seq<char>,
    target_mask: i64,
    file: DataFile,
) -> Result<Seq<FileView>, WriteFault> {
    let enabled = match mask_from(file@.configs, config, 0) {
        Some(mask) => (mask & target_mask) != 0,
        None => true,
    };
    if !enabled {
        Ok(files)
    } else {
        match contents_of(assets, read, file.source@) {
            ContentsView::Missing(_) => Ok(files),
            ContentsView::Failed(message) => Err(
                package_fault(file.source@ + ": "@ + message),
            ),
            ContentsView::Data(data) => match validated(included_place(file.relative_path@)) {
                Some(path) => Ok(files.push(FileView { path, data })),
                None => Err(unsafe_path(included_place(file.relative_path@))),
            },
        }
    }
}

/// Files with the first included files.
pub open spec fn with_all_included(
    assets: Assets,
    read: Seq<ReadFile>,
    config: Seq<char>,
    target_mask: i64,
    data_files: Seq<DataFile>,
    count: int,
) -> Result<Seq<FileView>, WriteFault>
    decreases count,
{
    if count <= 0 {
        Ok(seq![])
    } else {
        match with_all_included(assets, read, config, target_mask, data_files, count - 1) {
            Err(fault) => Err(fault),
            Ok(files) => with_included(
                files,
                assets,
                read,
                config,
                target_mask,
                data_files[count - 1],
            ),
        }
    }
}

proof fn lemma_included_fault_stays(
    assets: Assets,
    read: Seq<ReadFile>,
    config: Seq<char>,
    target_mask: i64,
    data_files: Seq<DataFile>,
    count: int,
    end: int,
)
    requires
        0 <= count <= end,
        with_all_included(assets, read, config, target_mask, data_files, count) is Err,
    ensures
        with_all_included(assets, read, config, target_mask, data_files, end)
            == with_all_included(assets, read, config, target_mask, data_files, count),
    decreases end - count,
{
    if count < end {
        lemma_included_fault_stays(
            assets,
            read,
            config,
            target_mask,
            data_files,
            count,
            end - 1,
        );
    }
}

fn source_error(source: &str, message: &str) -> (error: WriteError)
    ensures
        error@ == package_fault(source@ + ": "@ + message@),
{
    let mut text = source.to_owned();
    text.append(": ");
    text.append(message);
    package_error(text.as_str())
}

/// Returns the included files of a project that a configuration copies to a
/// target.
pub fn collect_included_files(
    project: &ProjectManifest,
    assets: &Assets,
    read: &Vec<ReadFile>,
    config: &str,
    target_mask: i64,
) -> (result: Result<Vec<GeneratedFile>, WriteError>)
    ensures
        ({
            let expected = with_all_included(
                *assets,
                read@,
                config@,
                target_mask,
                project.data_files@,
                project.data_files@.len() as int,
            );
            match result {
                Ok(files) => expected == Ok::<Seq<FileView>, WriteFault>(file_views(files@)),
                Err(error) => expected == Err::<Seq<FileView>, WriteFault>(error@),
            }
        }),
{
    let data_files = &project.data_files;
    let mut output: Vec<GeneratedFile> = Vec::new();
    let mut index: usize = 0;
    assert(file_views(output@) =~= seq![]);
    while index < data_files.len()
        invariant
            index <= data_files@.len(),
            data_files == project.data_files,
            with_all_included(
                *assets,
                read@,
                config@,
                target_mask,
                data_files@,
                index as int,
            ) == Ok::<Seq<FileView>, WriteFault>(file_views(output@)),
        decreases data_files.len() - index,
    {
        let file = &data_files[index];
        let ghost before = file_views(output@);
        proof {
            if with_included(before, *assets, read@, config@, target_mask, *file) is Err {
                lemma_included_fault_stays(
                    *assets,
                    read@,
                    config@,
                    target_mask,
                    data_files@,
                    index + 1,
                    data_files@.len() as int,
                );
            }
        }
        if file.enabled_for(config, target_mask) {
            match read_project_file(assets, read, file.source.as_str()) {
                FileContents::Missing(_) => {},
                FileContents::Failed(message) => {
                    return Err(source_error(file.source.as_str(), message.as_str()));
                },
                FileContents::Data(data) => match included_path(file) {
                    Ok(path) => {
                        let added = GeneratedFile { path, data };
                        let ghost view = added@;
                        output.push(added);
                        assert(file_views(output@) =~= before.push(view));
                    },
                    Err(error) => {
                        return Err(error);
                    },
                },
            }
        }
        index += 1;
    }
    Ok(output)
}

/// The extension of a file name in small letters; empty if there is none.
pub open spec fn small_extension(path: Seq<char>) -> Seq<char> {
    match name_of_file(path) {
        None => seq![],
        Some(name) => match extension_of_name(name) {
            None => seq![],
            Some(extension) => lowered(extension),
        },
    }
}

fn has_extension(path: &str, extension: &str) -> (result: bool)
    requires
        extension@.len() > 0,
    ensures
        result == (small_extension(path@) == extension@),
{
    match file_name(path) {
        None => false,
        Some(name) => {
            let letters = characters(name.as_str());
            match dot_of(letters.as_slice()) {
                Some(dot) if dot > 0 => {
                    let end = vstd::slice::slice_subrange(
                        letters.as_slice(),
                        dot + 1,
                        letters.len(),
                    );
                    assert(end@ =~= name@.skip(dot + 1));
                    let lowercase = crate::project::lower(end);
                    crate::text::spells(lowercase.as_slice(), extension)
                },
                _ => false,
            }
        },
    }
}

/// Files with one of the files of an extension. Code is compiled, so it is left
/// out, and an archive is unpacked.
pub open spec fn with_extension_file(
    files: Seq<FileView>,
    assets: Assets,
    read: Seq<ReadFile>,
    extension: Extension,
    file: ExtensionFile,
    filename: Seq<char>,
) -> Result<Seq<FileView>, WriteFault> {
    let source = path_within(extension.folder@, filename);
    if small_extension(filename) == "gml"@ {
        Ok(files)
    } else {
        match contents_of(assets, read, source) {
            ContentsView::Missing(message) => Err(package_fault(source + ": "@ + message)),
            ContentsView::Failed(message) => Err(package_fault(source + ": "@ + message)),
            ContentsView::Data(data) => if file.uncompress {
                with_archive(files, extension.name@, source, data)
            } else {
                match validated(filename) {
                    Some(path) => Ok(files.push(FileView { path, data })),
                    None => Err(unsafe_path(filename)),
                }
            },
        }
    }
}

/// Files with the first files of an extension file for a target.
pub open spec fn with_filenames(
    files: Seq<FileView>,
    assets: Assets,
    read: Seq<ReadFile>,
    extension: Extension,
    file: ExtensionFile,
    count: int,
) -> Result<Seq<FileView>, WriteFault>
    decreases count,
{
    if count <= 0 {
        Ok(files)
    } else {
        match with_filenames(files, assets, read, extension, file, count - 1) {
            Err(fault) => Err(fault),
            Ok(files) => with_extension_file(
                files,
                assets,
                read,
                extension,
                file,
                file.target_filenames@[count - 1]@,
            ),
        }
    }
}

/// Files with those of the first files of an extension that are enabled.
pub open spec fn with_extension_files(
    files: Seq<FileView>,
    assets: Assets,
    read: Seq<ReadFile>,
    extension: Extension,
    count: int,
) -> Result<Seq<FileView>, WriteFault>
    decreases count,
{
    if count <= 0 {
        Ok(files)
    } else {
        match with_extension_files(files, assets, read, extension, count - 1) {
            Err(fault) => Err(fault),
            Ok(files) => {
                let file = extension.files@[count - 1];
                if file.enabled {
                    with_filenames(
                        files,
                        assets,
                        read,
                        extension,
                        file,
                        file.target_filenames@.len() as int,
                    )
                } else {
                    Ok(files)
                }
            },
        }
    }
}

/// Files with those of the first extensions that are used.
pub open spec fn with_extensions(
    files: Seq<FileView>,
    assets: Assets,
    read: Seq<ReadFile>,
    count: int,
) -> Result<Seq<FileView>, WriteFault>
    decreases count,
{
    if count <= 0 {
        Ok(files)
    } else {
        match with_extensions(files, assets, read, count - 1) {
            Err(fault) => Err(fault),
            Ok(files) => {
                let extension = assets.extensions@[count - 1];
                if extension.enabled && extension.used {
                    with_extension_files(
                        files,
                        assets,
                        read,
                        extension,
                        extension.files@.len() as int,
                    )
                } else {
                    Ok(files)
                }
            },
        }
    }
}

fn add_extension_file(
    output: &mut Vec<GeneratedFile>,
    assets: &Assets,
    read: &Vec<ReadFile>,
    extension: &Extension,
    file: &ExtensionFile,
    filename: &str,
) -> (result: Result<(), WriteError>)
    ensures
        adds(
            result,
            final(output)@,
            with_extension_file(
                file_views(old(output)@),
                *assets,
                read@,
                *extension,
                *file,
                filename@,
            ),
        ),
{
    proof {
        reveal_strlit("gml");
    }
    if has_extension(filename, "gml") {
        return Ok(());
    }
    let source = join_path(extension.folder.as_str(), filename);
    match read_project_file(assets, read, source.as_str()) {
        FileContents::Missing(message) => Err(source_error(source.as_str(), message.as_str())),
        FileContents::Failed(message) => Err(source_error(source.as_str(), message.as_str())),
        FileContents::Data(data) => {
            if file.uncompress {
                return extract_extension_archive(
                    extension.name.as_str(),
                    source.as_str(),
                    data.as_slice(),
                    output,
                );
            }
            match validate_relative_path(filename) {
                Ok(path) => {
                    let ghost before = file_views(output@);
                    let added = GeneratedFile { path, data };
                    let ghost view = added@;
                    output.push(added);
                    assert(file_views(output@) =~= before.push(view));
                    Ok(())
                },
                Err(error) => {
                    let message = error.text();
                    Err(package_error(message.as_str()))
                },
            }
        },
    }
}

fn add_filenames(
    output: &mut Vec<GeneratedFile>,
    assets: &Assets,
    read: &Vec<ReadFile>,
    extension: &Extension,
    file: &ExtensionFile,
) -> (result: Result<(), WriteError>)
    ensures
        adds(
            result,
            final(output)@,
            with_filenames(
                file_views(old(output)@),
                *assets,
                read@,
                *extension,
                *file,
                file.target_filenames@.len() as int,
            ),
        ),
{
    let ghost start = file_views(output@);
    let mut index: usize = 0;
    while index < file.target_filenames.len()
        invariant
            index <= file.target_filenames@.len(),
            start == file_views(old(output)@),
            with_filenames(start, *assets, read@, *extension, *file, index as int) == Ok::<
                Seq<FileView>,
                WriteFault,
            >(file_views(output@)),
        decreases file.target_filenames.len() - index,
    {
        let filename = file.target_filenames[index].as_str();
        if let Err(error) = add_extension_file(output, assets, read, extension, file, filename) {
            proof {
                lemma_filename_fault_stays(
                    start,
                    *assets,
                    read@,
                    *extension,
                    *file,
                    index + 1,
                    file.target_filenames@.len() as int,
                );
            }
            return Err(error);
        }
        index += 1;
    }
    Ok(())
}

proof fn lemma_filename_fault_stays(
    files: Seq<FileView>,
    assets: Assets,
    read: Seq<ReadFile>,
    extension: Extension,
    file: ExtensionFile,
    count: int,
    end: int,
)
    requires
        0 <= count <= end,
        with_filenames(files, assets, read, extension, file, count) is Err,
    ensures
        with_filenames(files, assets, read, extension, file, end) == with_filenames(
            files,
            assets,
            read,
            extension,
            file,
            count,
        ),
    decreases end - count,
{
    if count < end {
        lemma_filename_fault_stays(files, assets, read, extension, file, count, end - 1);
    }
}

proof fn lemma_file_fault_stays(
    files: Seq<FileView>,
    assets: Assets,
    read: Seq<ReadFile>,
    extension: Extension,
    count: int,
    end: int,
)
    requires
        0 <= count <= end,
        with_extension_files(files, assets, read, extension, count) is Err,
    ensures
        with_extension_files(files, assets, read, extension, end) == with_extension_files(
            files,
            assets,
            read,
            extension,
            count,
        ),
    decreases end - count,
{
    if count < end {
        lemma_file_fault_stays(files, assets, read, extension, count, end - 1);
    }
}

proof fn lemma_extension_fault_stays(
    files: Seq<FileView>,
    assets: Assets,
    read: Seq<ReadFile>,
    count: int,
    end: int,
)
    requires
        0 <= count <= end,
        with_extensions(files, assets, read, count) is Err,
    ensures
        with_extensions(files, assets, read, end) == with_extensions(files, assets, read, count),
    decreases end - count,
{
    if count < end {
        lemma_extension_fault_stays(files, assets, read, count, end - 1);
    }
}

fn add_files(
    output: &mut Vec<GeneratedFile>,
    assets: &Assets,
    read: &Vec<ReadFile>,
    extension: &Extension,
) -> (result: Result<(), WriteError>)
    ensures
        adds(
            result,
            final(output)@,
            with_extension_files(
                file_views(old(output)@),
                *assets,
                read@,
                *extension,
                extension.files@.len() as int,
            ),
        ),
{
    let ghost start = file_views(output@);
    let mut index: usize = 0;
    while index < extension.files.len()
        invariant
            index <= extension.files@.len(),
            start == file_views(old(output)@),
            with_extension_files(start, *assets, read@, *extension, index as int) == Ok::<
                Seq<FileView>,
                WriteFault,
            >(file_views(output@)),
        decreases extension.files.len() - index,
    {
        let file = &extension.files[index];
        if file.enabled {
            if let Err(error) = add_filenames(output, assets, read, extension, file) {
                proof {
                    lemma_file_fault_stays(
                        start,
                        *assets,
                        read@,
                        *extension,
                        index + 1,
                        extension.files@.len() as int,
                    );
                }
                return Err(error);
            }
        }
        index += 1;
    }
    Ok(())
}

/// Adds the files of the extensions that are used.
pub fn collect_extension_files(
    assets: &Assets,
    read: &Vec<ReadFile>,
    output: &mut Vec<GeneratedFile>,
) -> (result: Result<(), WriteError>)
    ensures
        adds(
            result,
            final(output)@,
            with_extensions(
                file_views(old(output)@),
                *assets,
                read@,
                assets.extensions@.len() as int,
            ),
        ),
{
    let ghost start = file_views(output@);
    let mut index: usize = 0;
    while index < assets.extensions.len()
        invariant
            index <= assets.extensions@.len(),
            start == file_views(old(output)@),
            with_extensions(start, *assets, read@, index as int) == Ok::<
                Seq<FileView>,
                WriteFault,
            >(file_views(output@)),
        decreases assets.extensions.len() - index,
    {
        let extension = &assets.extensions[index];
        if extension.enabled && extension.used {
            if let Err(error) = add_files(output, assets, read, extension) {
                proof {
                    lemma_extension_fault_stays(
                        start,
                        *assets,
                        read@,
                        index + 1,
                        assets.extensions@.len() as int,
                    );
                }
                return Err(error);
            }
        }
        index += 1;
    }
    Ok(())
}

/// The files of a project that are copied beside its data file.
pub open spec fn project_files(
    assets: Assets,
    read: Seq<ReadFile>,
    config: Seq<char>,
    target_mask: i64,
    data_files: Seq<DataFile>,
) -> Result<Seq<FileView>, WriteFault> {
    match with_all_included(
        assets,
        read,
        config,
        target_mask,
        data_files,
        data_files.len() as int,
    ) {
        Err(fault) => Err(fault),
        Ok(files) => with_extensions(files, assets, read, assets.extensions@.len() as int),
    }
}

/// Returns the files of a project that are copied beside its data file.
pub fn collect_project_files(
    project: &ProjectManifest,
    assets: &Assets,
    read: &Vec<ReadFile>,
    config: &str,
    target_mask: i64,
) -> (result: Result<Vec<GeneratedFile>, WriteError>)
    ensures
        ({
            let expected = project_files(
                *assets,
                read@,
                config@,
                target_mask,
                project.data_files@,
            );
            match result {
                Ok(files) => expected == Ok::<Seq<FileView>, WriteFault>(file_views(files@)),
                Err(error) => expected == Err::<Seq<FileView>, WriteFault>(error@),
            }
        }),
{
    match collect_included_files(project, assets, read, config, target_mask) {
        Err(error) => Err(error),
        Ok(files) => {
            let mut output = files;
            match collect_extension_files(assets, read, &mut output) {
                Err(error) => Err(error),
                Ok(()) => Ok(output),
            }
        },
    }
}

} // verus!
