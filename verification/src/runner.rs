//! What the build command decides: which project it builds, which runner it
//! copies, and what it says.

use vstd::prelude::*;
use vstd::utf8::*;

use crate::artifact::GeneratedFile;
use crate::audio::{order_at, order_from, Level, Order};
use crate::bytes::{bytes_at, has_bytes};
use crate::path::{
    find_parent, is_same_path, join_path, parent_of, path_parts, path_within, same_path,
    split_path,
};
use crate::project::{lower, lowered};
use crate::text::{characters, decimal, digits, join, joined, spelled, spells};

verus! {

/// The name of the executable of a project.
pub open spec fn executable_name(project_name: Seq<char>) -> Seq<char> {
    project_name + ".exe"@
}

/// Returns the path of the executable of a project that is built in a directory.
pub fn runner_executable_path(build_directory: &str, project_name: &str) -> (path: String)
    ensures
        path@ == path_within(build_directory@, executable_name(project_name@)),
{
    let mut name = project_name.to_owned();
    name.append(".exe");
    join_path(build_directory, name.as_str())
}

/// Returns the path of the runner that stands beside an executable.
pub fn runner_path_next_to(executable: &str) -> (result: Result<String, String>)
    ensures
        match (result, parent_of(executable@)) {
            (Ok(path), Some(directory)) => path@ == path_within(directory, "Runner.exe"@),
            (Err(message), None) => message@ == "cannot determine the directory containing gmx: "@
                + executable@,
            _ => false,
        },
{
    match find_parent(executable) {
        Some(directory) => Ok(join_path(directory.as_str(), "Runner.exe")),
        None => {
            let mut message = "cannot determine the directory containing gmx: ".to_owned();
            message.append(executable);
            Err(message)
        },
    }
}

/// Returns the runner as a file beside the data file, under the name of the
/// project.
pub fn external_runner_file(source: &str, data: Vec<u8>, project_name: &str) -> (result: Result<
    GeneratedFile,
    String,
>)
    ensures
        match result {
            Ok(file) => bytes_at(data@, 0, encode_utf8("MZ"@)) && file.path@ == executable_name(
                project_name@,
            ) && file.data == data,
            Err(message) => !bytes_at(data@, 0, encode_utf8("MZ"@)) && message@
                == "Runner executable is not a Windows PE file: "@ + source@,
        },
{
    if !has_bytes(data.as_slice(), 0, "MZ".as_bytes()) {
        let mut message = "Runner executable is not a Windows PE file: ".to_owned();
        message.append(source);
        return Err(message);
    }
    let mut path = project_name.to_owned();
    path.append(".exe");
    Ok(GeneratedFile { path, data })
}

/// Messages behind each other, each on its own line.
pub open spec fn on_lines(messages: Seq<Seq<char>>, count: int) -> Seq<char>
    decreases count,
{
    if count <= 0 {
        seq![]
    } else {
        on_lines(messages, count - 1) + seq!['\n'] + messages[count - 1]
    }
}

/// A heading with the number of messages, and the first fifty messages.
pub open spec fn diagnostics_text(heading: Seq<char>, messages: Seq<Seq<char>>) -> Seq<char> {
    let start = heading + " with "@ + digits(messages.len(), 10) + " diagnostic(s)"@;
    if messages.len() <= 50 {
        start + on_lines(messages, messages.len() as int)
    } else {
        start + on_lines(messages, 50) + "\n... "@ + digits((messages.len() - 50) as nat, 10)
            + " more"@
    }
}

/// Returns a heading with the number of messages, and the first fifty messages.
pub fn format_diagnostics(heading: &str, messages: &Vec<String>) -> (text: String)
    ensures
        text@ == diagnostics_text(heading@, spelled(messages@)),
{
    let ghost all = spelled(messages@);
    let mut text = heading.to_owned();
    text.append(" with ");
    let number = decimal(messages.len() as u64);
    text.append(number.as_str());
    text.append(" diagnostic(s)");
    let ghost start = text@;
    let limit: usize = if messages.len() < 50 {
        messages.len()
    } else {
        50
    };
    let mut index: usize = 0;
    assert(text@ =~= start + on_lines(all, 0));
    while index < limit
        invariant
            index <= limit,
            limit <= messages@.len(),
            all == spelled(messages@),
            text@ == start + on_lines(all, index as int),
        decreases limit - index,
    {
        text.push('\n');
        text.append(messages[index].as_str());
        assert(all[index as int] == messages@[index as int]@);
        assert(text@ =~= start + on_lines(all, index + 1));
        index += 1;
    }
    if messages.len() > 50 {
        text.append("\n... ");
        let rest = decimal((messages.len() - 50) as u64);
        text.append(rest.as_str());
        text.append(" more");
    }
    text
}

/// Whether a name ends, whatever the case of its letters, as those of project
/// files do.
pub open spec fn is_project_name(name: Seq<char>) -> bool {
    let ending = ".project.gmx"@;
    let small = lowered(name);
    small.len() >= ending.len() && small.skip(small.len() - ending.len()) == ending
}

fn names_project(name: &str) -> (result: bool)
    ensures
        result == is_project_name(name@),
{
    let letters = characters(name);
    let small = lower(letters.as_slice());
    let ending = characters(".project.gmx");
    if small.len() < ending.len() {
        return false;
    }
    let rest = vstd::slice::slice_subrange(
        small.as_slice(),
        small.len() - ending.len(),
        small.len(),
    );
    assert(rest@ =~= small@.skip(small@.len() - ending@.len()));
    spells(rest, ".project.gmx")
}

/// Where a name belongs in the part of a sorted list before an index.
pub open spec fn name_place(list: Seq<Seq<char>>, name: Seq<char>, end: int) -> int
    decreases end,
{
    if end <= 0 {
        0
    } else if order_from(
        Level::Bytes,
        encode_utf8(list[end - 1]),
        encode_utf8(name),
        0,
    ) == Order::After {
        name_place(list, name, end - 1)
    } else {
        end
    }
}

/// The project files among the first names, sorted by their bytes.
pub open spec fn project_names(names: Seq<Seq<char>>, count: int) -> Seq<Seq<char>>
    decreases count,
{
    if count <= 0 {
        seq![]
    } else {
        let list = project_names(names, count - 1);
        let name = names[count - 1];
        if is_project_name(name) {
            list.insert(name_place(list, name, list.len() as int), name)
        } else {
            list
        }
    }
}

/// The project file of a directory, or what is wrong: there is to be one.
pub open spec fn project_choice(directory: Seq<char>, names: Seq<Seq<char>>) -> Result<
    Seq<char>,
    Seq<char>,
> {
    let projects = project_names(names, names.len() as int);
    if projects.len() == 1 {
        Ok(path_within(directory, projects[0]))
    } else if projects.len() == 0 {
        Err("no *.project.gmx file found in current directory "@ + directory)
    } else {
        Err(
            "multiple *.project.gmx files found in current directory "@ + directory + ": "@
                + joined(projects, ", "@),
        )
    }
}

fn insert_name(list: &mut Vec<String>, name: &str)
    ensures
        spelled(final(list)@) == spelled(old(list)@).insert(
            name_place(spelled(old(list)@), name@, old(list)@.len() as int),
            name@,
        ),
{
    let ghost texts = spelled(list@);
    let mut place: usize = list.len();
    while place > 0
        invariant_except_break
            place <= list@.len(),
            texts == spelled(list@),
            list@ == old(list)@,
            name_place(texts, name@, list@.len() as int) == name_place(texts, name@, place as int),
        ensures
            place <= list@.len(),
            list@ == old(list)@,
            name_place(texts, name@, list@.len() as int) == place,
        decreases place,
    {
        let order = order_at(Level::Bytes, list[place - 1].as_str().as_bytes(), name.as_bytes());
        assert(texts[place - 1] == list@[place - 1]@);
        if !matches!(order, Order::After) {
            break;
        }
        place -= 1;
    }
    list.insert(place, name.to_owned());
    assert(spelled(list@) =~= texts.insert(place as int, name@));
}

/// Returns the project file of a directory, given the names of the files in it.
pub fn choose_project(directory: &str, names: &Vec<String>) -> (result: Result<String, String>)
    ensures
        match result {
            Ok(path) => project_choice(directory@, spelled(names@)) == Ok::<Seq<char>, Seq<char>>(
                path@,
            ),
            Err(message) => project_choice(directory@, spelled(names@)) == Err::<
                Seq<char>,
                Seq<char>,
            >(message@),
        },
{
    let ghost all = spelled(names@);
    let mut projects: Vec<String> = Vec::new();
    let mut index: usize = 0;
    assert(spelled(projects@) =~= seq![]);
    while index < names.len()
        invariant
            index <= names@.len(),
            all == spelled(names@),
            spelled(projects@) == project_names(all, index as int),
        decreases names.len() - index,
    {
        assert(all[index as int] == names@[index as int]@);
        if names_project(names[index].as_str()) {
            assert(projects@.len() == spelled(projects@).len());
            insert_name(&mut projects, names[index].as_str());
        }
        index += 1;
    }
    assert(projects@.len() == spelled(projects@).len());
    if projects.len() == 1 {
        assert(spelled(projects@)[0] == projects@[0]@);
        return Ok(join_path(directory, projects[0].as_str()));
    }
    if projects.len() == 0 {
        let mut message = "no *.project.gmx file found in current directory ".to_owned();
        message.append(directory);
        return Err(message);
    }
    let mut message = "multiple *.project.gmx files found in current directory ".to_owned();
    message.append(directory);
    message.append(": ");
    let list = join(projects.as_slice(), ", ");
    message.append(list.as_str());
    Err(message)
}

/// Whether a generated file would replace the data file.
pub open spec fn replaces(path: Seq<char>, output_name: Seq<char>) -> bool {
    path_parts(path).len() == 1 && lowered(path) == lowered(output_name)
}

/// Returns whether a generated file would replace the data file.
pub fn would_replace(path: &str, output_name: &str) -> (result: bool)
    ensures
        result == replaces(path@, output_name@),
{
    let parts = split_path(path);
    assert(parts@.len() == spelled(parts@).len());
    if parts.len() != 1 {
        return false;
    }
    let first = characters(path);
    let second = characters(output_name);
    let small = lower(first.as_slice());
    let other = lower(second.as_slice());
    let other_text = crate::text::spell(other.as_slice());
    spells(small.as_slice(), other_text.as_str())
}

/// Returns the message about the first generated file that would replace the
/// data file.
pub fn overwritten_output(files: &Vec<GeneratedFile>, output_name: &str) -> (message: Option<String>)
    ensures
        match message {
            Some(message) => exists|k: int|
                0 <= k < files@.len() && replaces((#[trigger] files@[k]).path@, output_name@)
                    && (forall|j: int| 0 <= j < k ==> !replaces(files@[j].path@, output_name@))
                    && message@ == "generated file would overwrite WAD output: "@
                    + files@[k].path@,
            None => forall|k: int|
                0 <= k < files@.len() ==> !replaces((#[trigger] files@[k]).path@, output_name@),
        },
{
    let mut index: usize = 0;
    while index < files.len()
        invariant
            index <= files@.len(),
            forall|k: int|
                0 <= k < index ==> !replaces((#[trigger] files@[k]).path@, output_name@),
        decreases files.len() - index,
    {
        if would_replace(files[index].path.as_str(), output_name) {
            let mut message = "generated file would overwrite WAD output: ".to_owned();
            message.append(files[index].path.as_str());
            return Some(message);
        }
        index += 1;
    }
    None
}

/// What stands where the output of a build goes. Of a directory, the place where
/// it really is and that of the project are known.
#[derive(Debug, Clone, PartialEq, Eq)]
pub enum BuildPlace {
    Missing,
    Linked,
    Other,
    Directory { resolved: String, project: String },
}

/// Whether the output of a build is to be removed, or why it must not be.
pub open spec fn clean_choice(build: Seq<char>, place: BuildPlace) -> Result<bool, Seq<char>> {
    match place {
        BuildPlace::Missing => Ok(false),
        BuildPlace::Linked => Err("refusing to clean linked build directory "@ + build),
        BuildPlace::Other => Err("refusing to clean non-directory build path "@ + build),
        BuildPlace::Directory { resolved, project } => if parent_of(
            resolved@,
        ) matches Some(directory) && same_path(directory, project@) {
            Ok(true)
        } else {
            Err("refusing to clean build directory outside project root: "@ + resolved@)
        },
    }
}

/// Returns whether the output of a build is to be removed, or why it must not be.
pub fn clean_project_build(build: &str, place: &BuildPlace) -> (result: Result<bool, String>)
    ensures
        match (result, clean_choice(build@, *place)) {
            (Ok(remove), Ok(expected)) => remove == expected,
            (Err(message), Err(expected)) => message@ == expected,
            _ => false,
        },
{
    match place {
        BuildPlace::Missing => Ok(false),
        BuildPlace::Linked => {
            let mut message = "refusing to clean linked build directory ".to_owned();
            message.append(build);
            Err(message)
        },
        BuildPlace::Other => {
            let mut message = "refusing to clean non-directory build path ".to_owned();
            message.append(build);
            Err(message)
        },
        BuildPlace::Directory { resolved, project } => {
            let inside = match find_parent(resolved.as_str()) {
                Some(directory) => is_same_path(directory.as_str(), project.as_str()),
                None => false,
            };
            if inside {
                Ok(true)
            } else {
                let mut message =
                    "refusing to clean build directory outside project root: ".to_owned();
                message.append(resolved.as_str());
                Err(message)
            }
        },
    }
}

/// What is said where games cannot be run.
pub open spec fn run_fault() -> Seq<char> {
    "gmx run requires Windows because the GMS 1.4 Runner is a Windows executable"@
}

/// Checks that games can be run, which needs Windows.
pub fn run_allowed(windows: bool) -> (result: Result<(), String>)
    ensures
        match result {
            Ok(()) => windows,
            Err(message) => !windows && message@ == run_fault(),
        },
{
    if windows {
        Ok(())
    } else {
        Err(
            "gmx run requires Windows because the GMS 1.4 Runner is a Windows executable".to_owned(),
        )
    }
}

/// Only a directory within the project is ever removed.
pub proof fn law_only_the_directory_of_the_project_is_removed(build: Seq<char>, place: BuildPlace)
    requires
        clean_choice(build, place) == Ok::<bool, Seq<char>>(true),
    ensures
        place matches BuildPlace::Directory { resolved, project } && parent_of(
            resolved@,
        ) matches Some(directory) && same_path(directory, project@),
{
}

} // verus!
