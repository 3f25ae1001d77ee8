//! Paths as texts. Slashes separate the components of a path, and a path that
//! begins with one stands for itself; all other characters are parts of names.
//! The paths of a system with other separators are turned into such texts before
//! they come here. Listed paths, as they stand in the files of a project, may be
//! written with backslashes on every system.

use vstd::prelude::*;

use crate::text::{characters, same_text, spell, spelled};

verus! {

/// Whether a character separates the components of a listed path.
pub open spec fn is_separator(character: char) -> bool {
    character == '/' || character == '\\'
}

/// Whether a path stands for itself wherever it is looked for.
pub open spec fn is_rooted(path: Seq<char>) -> bool {
    path.len() > 0 && path[0] == '/'
}

/// Returns whether a path stands for itself wherever it is looked for.
pub fn rooted(path: &str) -> (result: bool)
    ensures
        result == is_rooted(path@),
{
    let letters = characters(path);
    letters.len() > 0 && letters[0] == '/'
}

/// The start of the component that ends at an index.
pub open spec fn component_start(path: Seq<char>, end: int) -> int
    decreases end,
{
    if 0 < end <= path.len() && path[end - 1] != '/' {
        component_start(path, end - 1)
    } else {
        end
    }
}

pub proof fn lemma_component_start(path: Seq<char>, end: int)
    ensures
        component_start(path, end) <= end,
        0 <= end ==> 0 <= component_start(path, end),
        0 < component_start(path, end) <= path.len() ==> path[component_start(path, end) - 1]
            == '/',
        forall|k: int|
            component_start(path, end) <= k < end && end <= path.len() ==> #[trigger] path[k] != '/',
    decreases end,
{
    if 0 < end <= path.len() && path[end - 1] != '/' {
        lemma_component_start(path, end - 1);
    }
}

/// The last component of the part of a path before an index that is neither
/// empty nor a dot.
pub open spec fn last_component(path: Seq<char>, end: int) -> Option<Seq<char>>
    decreases end,
{
    if end < 0 || end > path.len() {
        None
    } else {
        proof {
            lemma_component_start(path, end);
        }
        let start = component_start(path, end);
        let component = path.subrange(start, end);
        if component.len() > 0 && component != seq!['.'] {
            Some(component)
        } else if start == 0 {
            None
        } else {
            last_component(path, start - 1)
        }
    }
}

/// The name of the file that a path leads to. A path that ends with a parent
/// directory has none.
pub open spec fn name_of_file(path: Seq<char>) -> Option<Seq<char>> {
    match last_component(path, path.len() as int) {
        Some(name) => if name == seq!['.', '.'] {
            None
        } else {
            Some(name)
        },
        None => None,
    }
}

/// The index of the last dot before an index; -1 if there is none.
pub open spec fn last_dot(name: Seq<char>, end: int) -> int
    decreases end,
{
    if end <= 0 {
        -1
    } else if name[end - 1] == '.' {
        end - 1
    } else {
        last_dot(name, end - 1)
    }
}

pub proof fn lemma_last_dot(name: Seq<char>, end: int)
    ensures
        -1 <= last_dot(name, end),
        0 <= end ==> last_dot(name, end) < end,
    decreases end,
{
    if end > 0 && name[end - 1] != '.' {
        lemma_last_dot(name, end - 1);
    }
}

/// A file name up to its last dot, unless it begins with that dot.
pub open spec fn stem_of_name(name: Seq<char>) -> Seq<char> {
    let dot = last_dot(name, name.len() as int);
    if dot <= 0 {
        name
    } else {
        name.take(dot)
    }
}

/// What stands behind the last dot of a file name, unless it begins with that
/// dot.
pub open spec fn extension_of_name(name: Seq<char>) -> Option<Seq<char>> {
    let dot = last_dot(name, name.len() as int);
    if dot <= 0 {
        None
    } else {
        Some(name.skip(dot + 1))
    }
}

/// The stem of the file that a path leads to.
pub open spec fn stem_of_file(path: Seq<char>) -> Option<Seq<char>> {
    match name_of_file(path) {
        Some(name) => Some(stem_of_name(name)),
        None => None,
    }
}

/// The extension of the file that a path leads to.
pub open spec fn extension_of_file(path: Seq<char>) -> Option<Seq<char>> {
    match name_of_file(path) {
        Some(name) => extension_of_name(name),
        None => None,
    }
}

/// What an optional text stands for.
pub open spec fn optional_view(text: Option<String>) -> Option<Seq<char>> {
    match text {
        Some(text) => Some(text@),
        None => None,
    }
}

/// Returns the name of the file that a path leads to.
pub fn file_name(path: &str) -> (name: Option<String>)
    ensures
        optional_view(name) == name_of_file(path@),
{
    let letters = characters(path);
    let mut end: usize = letters.len();
    loop
        invariant
            end <= letters.len(),
            letters@ == path@,
            last_component(path@, path@.len() as int) == last_component(path@, end as int),
        decreases end,
    {
        let mut start: usize = end;
        while start > 0 && letters[start - 1] != '/'
            invariant
                start <= end <= letters.len(),
                letters@ == path@,
                component_start(path@, end as int) == component_start(path@, start as int),
            decreases start,
        {
            start -= 1;
        }
        let component = vstd::slice::slice_subrange(letters.as_slice(), start, end);
        if component.len() > 0 && !(component.len() == 1 && component[0] == '.') {
            assert(component@ != seq!['.']) by {
                assert(seq!['.'].len() == 1 && seq!['.'][0] == '.');
            }
            if component.len() == 2 && component[0] == '.' && component[1] == '.' {
                assert(component@ =~= seq!['.', '.']);
                return None;
            }
            assert(component@ != seq!['.', '.']) by {
                let dots = seq!['.', '.'];
                assert(dots.len() == 2 && dots[0] == '.' && dots[1] == '.');
            }
            return Some(spell(component));
        }
        assert(component@.len() == 0 || component@ =~= seq!['.']);
        if start == 0 {
            return None;
        }
        end = start - 1;
    }
}

pub(crate) fn dot_of(name: &[char]) -> (dot: Option<usize>)
    ensures
        match dot {
            Some(dot) => last_dot(name@, name@.len() as int) == dot && dot < name.len(),
            None => last_dot(name@, name@.len() as int) == -1,
        },
{
    let mut end: usize = name.len();
    while end > 0
        invariant
            end <= name.len(),
            last_dot(name@, name@.len() as int) == last_dot(name@, end as int),
        decreases end,
    {
        if name[end - 1] == '.' {
            return Some(end - 1);
        }
        end -= 1;
    }
    None
}

/// Returns the extension of the file that a path leads to.
pub fn file_extension(path: &str) -> (extension: Option<String>)
    ensures
        optional_view(extension) == extension_of_file(path@),
{
    match file_name(path) {
        None => None,
        Some(name) => {
            let letters = characters(name.as_str());
            match dot_of(letters.as_slice()) {
                Some(dot) if dot > 0 => {
                    let end = vstd::slice::slice_subrange(
                        letters.as_slice(),
                        dot + 1,
                        letters.len(),
                    );
                    assert(end@ =~= name@.skip(dot + 1));
                    Some(spell(end))
                },
                _ => None,
            }
        },
    }
}

/// Returns the stem of the file that a path leads to.
pub fn file_stem(path: &str) -> (stem: Option<String>)
    ensures
        optional_view(stem) == stem_of_file(path@),
{
    match file_name(path) {
        None => None,
        Some(name) => {
            let characters = characters(name.as_str());
            match dot_of(characters.as_slice()) {
                Some(dot) if dot > 0 => Some(
                    spell(vstd::slice::slice_subrange(characters.as_slice(), 0, dot)),
                ),
                _ => Some(name),
            }
        },
    }
}

/// The path that the first `count` characters of a listed path stand for: its
/// components, without the empty ones, with a slash between each two.
pub open spec fn listed_path(value: Seq<char>, count: int) -> Seq<char>
    decreases count,
{
    if count <= 0 {
        seq![]
    } else {
        let before = listed_path(value, count - 1);
        let character = value[count - 1];
        if is_separator(character) {
            before
        } else if before.len() > 0 && is_separator(value[count - 2]) {
            before + seq!['/', character]
        } else {
            before.push(character)
        }
    }
}

/// The path that a listed path stands for.
pub open spec fn gmx_text(value: Seq<char>) -> Seq<char> {
    listed_path(value, value.len() as int)
}

/// Returns the path that a listed path stands for.
pub fn gmx_path(value: &str) -> (path: String)
    ensures
        path@ == gmx_text(value@),
{
    let letters = characters(value);
    let mut path: Vec<char> = Vec::new();
    let mut index: usize = 0;
    while index < letters.len()
        invariant
            index <= letters.len(),
            letters@ == value@,
            path@ == listed_path(value@, index as int),
        decreases letters.len() - index,
    {
        let character = letters[index];
        let ghost before = path@;
        if character != '/' && character != '\\' {
            if path.len() > 0 {
                proof {
                    lemma_listed_start(value@, index as int);
                }
                if letters[index - 1] == '/' || letters[index - 1] == '\\' {
                    path.push('/');
                }
            }
            path.push(character);
            assert(path@ =~= listed_path(value@, index + 1));
        }
        index += 1;
    }
    spell(path.as_slice())
}

proof fn lemma_listed_start(value: Seq<char>, count: int)
    ensures
        count <= 0 ==> listed_path(value, count).len() == 0,
{
}

/// A path with what a listed path stands for behind it.
pub open spec fn with_listed(path: Seq<char>, value: Seq<char>) -> Seq<char> {
    let more = gmx_text(value);
    if more.len() == 0 {
        path
    } else {
        path_within(path, more)
    }
}

/// A path within a directory; one that stands for itself stays as it is.
pub open spec fn path_within(directory: Seq<char>, path: Seq<char>) -> Seq<char> {
    if directory.len() == 0 || is_rooted(path) {
        path
    } else if directory.last() == '/' {
        directory + path
    } else {
        directory + seq!['/'] + path
    }
}

/// Returns a path within a directory.
pub fn join_path(directory: &str, path: &str) -> (result: String)
    ensures
        result@ == path_within(directory@, path@),
{
    let letters = characters(directory);
    if letters.len() == 0 || rooted(path) {
        return path.to_owned();
    }
    let mut result = directory.to_owned();
    if letters[letters.len() - 1] != '/' {
        result.push('/');
        assert(result@ =~= directory@ + seq!['/']);
    }
    result.append(path);
    result
}

/// Returns a path with what a listed path stands for behind it.
pub fn push_gmx_path(path: &str, value: &str) -> (result: String)
    ensures
        result@ == with_listed(path@, value@),
{
    let more = gmx_path(value);
    if characters(more.as_str()).len() == 0 {
        path.to_owned()
    } else {
        join_path(path, more.as_str())
    }
}

/// Where the part of a path before an index ends without slashes and dots at its
/// end; a slash or a dot that it begins with stays.
pub open spec fn trimmed_end(path: Seq<char>, end: int) -> int
    decreases end,
{
    if end <= 0 || end > path.len() {
        0
    } else if path[end - 1] == '/' {
        if end == 1 {
            1
        } else {
            trimmed_end(path, end - 1)
        }
    } else {
        proof {
            lemma_component_start(path, end);
        }
        let start = component_start(path, end);
        if start > 0 && start + 1 == end && path[start] == '.' {
            trimmed_end(path, start)
        } else {
            end
        }
    }
}

/// The directory that the last component of a path is in. A path without a
/// component has none.
pub open spec fn parent_of(path: Seq<char>) -> Option<Seq<char>> {
    let end = trimmed_end(path, path.len() as int);
    let start = component_start(path, end);
    if start == end {
        None
    } else {
        Some(path.take(trimmed_end(path, start)))
    }
}

/// The directory that the last component of a path is in; nothing where there is
/// none.
pub open spec fn directory_of(path: Seq<char>) -> Seq<char> {
    match parent_of(path) {
        Some(directory) => directory,
        None => seq![],
    }
}

fn trim_end(letters: &[char], from: usize) -> (end: usize)
    requires
        from <= letters@.len(),
    ensures
        end == trimmed_end(letters@, from as int),
        end <= from,
{
    let mut end: usize = from;
    while end > 0
        invariant
            end <= from,
            from <= letters@.len(),
            trimmed_end(letters@, from as int) == trimmed_end(letters@, end as int),
        decreases end,
    {
        if letters[end - 1] == '/' {
            if end == 1 {
                return 1;
            }
            end -= 1;
        } else {
            let start = find_start(letters, end);
            if start > 0 && start + 1 == end && letters[start] == '.' {
                end = start;
            } else {
                return end;
            }
        }
    }
    0
}

fn find_start(letters: &[char], end: usize) -> (start: usize)
    requires
        end <= letters@.len(),
    ensures
        start == component_start(letters@, end as int),
        start <= end,
        0 < end && letters@[end - 1] != '/' ==> start < end,
{
    let mut start: usize = end;
    while start > 0 && letters[start - 1] != '/'
        invariant
            start <= end <= letters@.len(),
            component_start(letters@, end as int) == component_start(letters@, start as int),
            start < end || start == end,
            start == end || 0 < end,
        decreases start,
    {
        start -= 1;
    }
    start
}

/// Returns the directory that the last component of a path is in.
pub fn find_parent(path: &str) -> (directory: Option<String>)
    ensures
        optional_view(directory) == parent_of(path@),
{
    let letters = characters(path);
    let end = trim_end(letters.as_slice(), letters.len());
    let start = find_start(letters.as_slice(), end);
    if start == end {
        return None;
    }
    let length = trim_end(letters.as_slice(), start);
    let directory = vstd::slice::slice_subrange(letters.as_slice(), 0, length);
    assert(directory@ =~= path@.take(length as int));
    Some(spell(directory))
}

/// Returns the directory that the last component of a path is in; nothing where
/// there is none.
pub fn parent(path: &str) -> (directory: String)
    ensures
        directory@ == directory_of(path@),
{
    match find_parent(path) {
        Some(directory) => directory,
        None => {
            let directory = String::new();
            assert(directory@ =~= seq![]);
            directory
        },
    }
}

/// A path whose file has an extension in place of its own. A path without a file
/// stays as it is.
pub open spec fn with_extension(path: Seq<char>, extension: Seq<char>) -> Seq<char> {
    let end = trimmed_end(path, path.len() as int);
    let start = component_start(path, end);
    let name = path.subrange(start, end);
    if name.len() == 0 || name == seq!['.'] || name == seq!['.', '.'] {
        path
    } else {
        path.take(start) + stem_of_name(name) + seq!['.'] + extension
    }
}

/// Returns a path whose file has an extension in place of its own.
pub fn set_extension(path: &str, extension: &str) -> (result: String)
    ensures
        result@ == with_extension(path@, extension@),
{
    let letters = characters(path);
    let length = trim_end(letters.as_slice(), letters.len());
    let start = find_start(letters.as_slice(), length);
    let name = vstd::slice::slice_subrange(letters.as_slice(), start, length);
    assert(name@ =~= path@.subrange(start as int, length as int));
    let count = name.len();
    proof {
        let one = seq!['.'];
        let two = seq!['.', '.'];
        assert(one.len() == 1 && one[0] == '.');
        assert(two.len() == 2 && two[0] == '.' && two[1] == '.');
        if count == 1 && name@[0] == '.' {
            assert(name@ =~= one);
        }
        if count == 2 && name@[0] == '.' && name@[1] == '.' {
            assert(name@ =~= two);
        }
    }
    if count == 0 || count == 1 && name[0] == '.' || count == 2 && name[0] == '.' && name[1] == '.'
    {
        return path.to_owned();
    }
    let end = match dot_of(name) {
        Some(dot) if dot > 0 => start + dot,
        _ => length,
    };
    let kept = vstd::slice::slice_subrange(letters.as_slice(), 0, end);
    let mut result = spell(kept);
    assert(kept@ =~= path@.take(start as int) + stem_of_name(name@));
    result.push('.');
    result.append(extension);
    assert(result@ =~= with_extension(path@, extension@));
    result
}

/// What stands between the slashes of the first characters of a path.
pub open spec fn pieces(path: Seq<char>, count: int) -> Seq<Seq<char>>
    decreases count,
{
    if count <= 0 {
        seq![seq![]]
    } else {
        let before = pieces(path, count - 1);
        if path[count - 1] == '/' {
            before.push(seq![])
        } else {
            before.drop_last().push(before.last().push(path[count - 1]))
        }
    }
}

/// The first pieces that are components: those that are not empty, and no dots but
/// one that the path begins with.
pub open spec fn kept_pieces(pieces: Seq<Seq<char>>, count: int) -> Seq<Seq<char>>
    decreases count,
{
    if count <= 0 {
        seq![]
    } else {
        let before = kept_pieces(pieces, count - 1);
        let piece = pieces[count - 1];
        if piece.len() == 0 || count > 1 && piece == seq!['.'] {
            before
        } else {
            before.push(piece)
        }
    }
}

/// The components of a path. The first one of a path that stands for itself is a
/// slash.
pub open spec fn path_parts(path: Seq<char>) -> Seq<Seq<char>> {
    let all = pieces(path, path.len() as int);
    let kept = kept_pieces(all, all.len() as int);
    if is_rooted(path) {
        seq![seq!['/']] + kept
    } else {
        kept
    }
}

/// Whether two paths have the same components.
pub open spec fn same_path(first: Seq<char>, second: Seq<char>) -> bool {
    path_parts(first) == path_parts(second)
}

fn keep_piece(parts: &mut Vec<String>, piece: &Vec<char>, first: bool)
    ensures
        spelled(final(parts)@) == if piece@.len() == 0 || !first && piece@ == seq!['.'] {
            spelled(old(parts)@)
        } else {
            spelled(old(parts)@).push(piece@)
        },
{
    let ghost before = spelled(parts@);
    proof {
        assert(seq!['.'].len() == 1 && seq!['.'][0] == '.');
        if piece@.len() == 1 && piece@[0] == '.' {
            assert(piece@ =~= seq!['.']);
        }
    }
    if piece.len() == 0 || !first && piece.len() == 1 && piece[0] == '.' {
        return;
    }
    let part = spell(piece.as_slice());
    parts.push(part);
    assert(spelled(parts@) =~= before.push(piece@));
}

/// Returns the components of a path.
pub fn split_path(path: &str) -> (parts: Vec<String>)
    ensures
        spelled(parts@) == path_parts(path@),
{
    let letters = characters(path);
    let mut parts: Vec<String> = Vec::new();
    let ghost root: Seq<Seq<char>> = if is_rooted(path@) {
        seq![seq!['/']]
    } else {
        seq![]
    };
    if letters.len() > 0 && letters[0] == '/' {
        let slash = "/".to_owned();
        proof {
            reveal_strlit("/");
            assert(slash@ =~= seq!['/']);
        }
        parts.push(slash);
    }
    assert(spelled(parts@) =~= root);
    let mut current: Vec<char> = Vec::new();
    let mut first = true;
    let mut index: usize = 0;
    proof {
        assert(pieces(path@, 0).drop_last() =~= seq![]);
        assert(current@ =~= pieces(path@, 0).last());
        assert(spelled(parts@) =~= root + kept_pieces(seq![], 0));
    }
    while index < letters.len()
        invariant
            index <= letters@.len(),
            letters@ == path@,
            pieces(path@, index as int).len() > 0,
            current@ == pieces(path@, index as int).last(),
            first == (pieces(path@, index as int).len() == 1),
            spelled(parts@) == root + kept_pieces(
                pieces(path@, index as int).drop_last(),
                pieces(path@, index as int).len() - 1,
            ),
        decreases letters.len() - index,
    {
        let ghost all = pieces(path@, index as int);
        let ghost now = pieces(path@, index + 1);
        let ghost before = spelled(parts@);
        let letter = letters[index];
        if letter == '/' {
            keep_piece(&mut parts, &current, first);
            proof {
                assert(now.drop_last() =~= all);
                lemma_kept_pieces(all, all.drop_last(), all.len() - 1);
                let kept = kept_pieces(all.drop_last(), all.len() - 1);
                assert(spelled(parts@) =~= root + kept_pieces(all, all.len() as int));
            }
            current = Vec::new();
            assert(current@ =~= now.last());
            first = false;
        } else {
            current.push(letter);
            assert(now.drop_last() =~= all.drop_last());
        }
        index += 1;
    }
    keep_piece(&mut parts, &current, first);
    proof {
        let all = pieces(path@, path@.len() as int);
        lemma_kept_pieces(all, all.drop_last(), all.len() - 1);
        assert(spelled(parts@) =~= root + kept_pieces(all, all.len() as int));
        assert(spelled(parts@) =~= path_parts(path@));
    }
    parts
}

proof fn lemma_kept_pieces(all: Seq<Seq<char>>, some: Seq<Seq<char>>, count: int)
    requires
        count <= all.len(),
        count <= some.len(),
        forall|k: int| 0 <= k < count ==> all[k] == some[k],
    ensures
        kept_pieces(all, count) == kept_pieces(some, count),
    decreases count,
{
    if count > 0 {
        lemma_kept_pieces(all, some, count - 1);
    }
}

/// Returns whether two paths have the same components.
pub fn is_same_path(first: &str, second: &str) -> (result: bool)
    ensures
        result == same_path(first@, second@),
{
    let one = split_path(first);
    let two = split_path(second);
    let ghost left = spelled(one@);
    let ghost right = spelled(two@);
    assert(left.len() == one@.len() && right.len() == two@.len());
    if one.len() != two.len() {
        return false;
    }
    let mut index: usize = 0;
    while index < one.len()
        invariant
            index <= one@.len(),
            one@.len() == two@.len(),
            left == spelled(one@),
            right == spelled(two@),
            left == path_parts(first@),
            right == path_parts(second@),
            forall|k: int| 0 <= k < index ==> left[k] == right[k],
        decreases one.len() - index,
    {
        assert(left[index as int] == one@[index as int]@);
        assert(right[index as int] == two@[index as int]@);
        if !same_text(one[index].as_str(), two[index].as_str()) {
            return false;
        }
        index += 1;
    }
    assert(left =~= right);
    true
}

/// The path that the first of some components make together.
pub open spec fn assembled(parts: Seq<Seq<char>>, count: int) -> Seq<char>
    decreases count,
{
    if count <= 0 {
        seq![]
    } else {
        path_within(assembled(parts, count - 1), parts[count - 1])
    }
}

/// Returns the path that some components make together.
pub fn assemble(parts: &[String]) -> (path: String)
    ensures
        path@ == assembled(spelled(parts@), parts@.len() as int),
{
    let ghost texts = spelled(parts@);
    let mut path = String::new();
    let mut index: usize = 0;
    assert(path@ =~= seq![]);
    while index < parts.len()
        invariant
            index <= parts@.len(),
            texts == spelled(parts@),
            path@ == assembled(texts, index as int),
        decreases parts.len() - index,
    {
        assert(texts[index as int] == parts@[index as int]@);
        path = join_path(path.as_str(), parts[index].as_str());
        index += 1;
    }
    path
}

} // verus!
