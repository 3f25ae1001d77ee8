//! The names that code mentions, found without parsing it.

use vstd::prelude::*;

use crate::names::NameSet;
use crate::resources::{Action, ActionArgument};
use crate::text::{characters, spell};

verus! {

/// The index of the next line feed, or the end.
pub open spec fn comment_end(text: Seq<char>, index: int) -> int
    decreases text.len() - index,
{
    if 0 <= index < text.len() && text[index] != '\n' {
        comment_end(text, index + 1)
    } else {
        index
    }
}

/// The index behind the next end of a comment, or the end.
pub open spec fn block_end(text: Seq<char>, index: int) -> int
    decreases text.len() - index,
{
    if 0 <= index && index + 1 < text.len() && !(text[index] == '*' && text[index + 1] == '/') {
        block_end(text, index + 1)
    } else if index + 2 < text.len() {
        index + 2
    } else {
        text.len() as int
    }
}

/// The index behind the next quotation mark that no backslash stands before, or
/// the end.
pub open spec fn quote_end(text: Seq<char>, quote: char, index: int) -> int
    decreases text.len() - index,
{
    if index < 0 || index >= text.len() {
        text.len() as int
    } else if text[index] == '\\' {
        if index + 2 < text.len() {
            quote_end(text, quote, index + 2)
        } else {
            text.len() as int
        }
    } else if text[index] == quote {
        index + 1
    } else {
        quote_end(text, quote, index + 1)
    }
}

/// Whether a character can begin a name.
pub open spec fn begins_name(character: char) -> bool {
    'a' <= character <= 'z' || 'A' <= character <= 'Z' || character == '_'
}

/// Whether a character can go on a name.
pub open spec fn continues_name(character: char) -> bool {
    begins_name(character) || '0' <= character <= '9'
}

/// The index behind the characters of a name.
pub open spec fn name_end(text: Seq<char>, index: int) -> int
    decreases text.len() - index,
{
    if 0 <= index < text.len() && continues_name(text[index]) {
        name_end(text, index + 1)
    } else {
        index
    }
}

pub proof fn lemma_comment_end(text: Seq<char>, index: int)
    requires
        0 <= index <= text.len(),
    ensures
        index <= comment_end(text, index) <= text.len(),
    decreases text.len() - index,
{
    if index < text.len() && text[index] != '\n' {
        lemma_comment_end(text, index + 1);
    }
}

pub proof fn lemma_block_end(text: Seq<char>, index: int)
    requires
        0 <= index <= text.len(),
    ensures
        index <= block_end(text, index) <= text.len(),
    decreases text.len() - index,
{
    if index + 1 < text.len() && !(text[index] == '*' && text[index + 1] == '/') {
        lemma_block_end(text, index + 1);
    }
}

pub proof fn lemma_quote_end(text: Seq<char>, quote: char, index: int)
    requires
        0 <= index,
    ensures
        index <= text.len() ==> index <= quote_end(text, quote, index),
        quote_end(text, quote, index) <= text.len(),
    decreases text.len() - index,
{
    if index < text.len() {
        if text[index] == '\\' {
            if index + 2 < text.len() {
                lemma_quote_end(text, quote, index + 2);
            }
        } else if text[index] != quote {
            lemma_quote_end(text, quote, index + 1);
        }
    }
}

pub proof fn lemma_name_end(text: Seq<char>, index: int)
    requires
        0 <= index <= text.len(),
    ensures
        index <= name_end(text, index) <= text.len(),
    decreases text.len() - index,
{
    if index < text.len() && continues_name(text[index]) {
        lemma_name_end(text, index + 1);
    }
}

/// Whether two characters stand at an index.
pub open spec fn pair_at(text: Seq<char>, index: int, first: char, second: char) -> bool {
    0 <= index && index + 1 < text.len() && text[index] == first && text[index + 1] == second
}

/// Names with those in a text from an index on. Comments and texts in quotation
/// marks are passed over.
pub open spec fn names_from(text: Seq<char>, index: int, names: Set<Seq<char>>) -> Set<Seq<char>>
    decreases text.len() - index,
{
    if index < 0 || index >= text.len() {
        names
    } else if pair_at(text, index, '/', '/') {
        proof {
            lemma_comment_end(text, index + 2);
        }
        names_from(text, comment_end(text, index + 2), names)
    } else if pair_at(text, index, '/', '*') {
        proof {
            lemma_block_end(text, index + 2);
        }
        names_from(text, block_end(text, index + 2), names)
    } else if text[index] == '\'' || text[index] == '"' {
        proof {
            lemma_quote_end(text, text[index], index + 1);
        }
        names_from(text, quote_end(text, text[index], index + 1), names)
    } else if begins_name(text[index]) {
        proof {
            lemma_name_end(text, index + 1);
        }
        let end = name_end(text, index + 1);
        names_from(text, end, names.insert(text.subrange(index, end)))
    } else {
        names_from(text, index + 1, names)
    }
}

fn starts_name(character: char) -> (result: bool)
    ensures
        result == begins_name(character),
{
    'a' <= character && character <= 'z' || 'A' <= character && character <= 'Z' || character
        == '_'
}

fn find_comment_end(text: &[char], start: usize) -> (end: usize)
    requires
        start <= text@.len(),
    ensures
        end == comment_end(text@, start as int),
        start <= end <= text@.len(),
{
    let mut index: usize = start;
    while index < text.len() && text[index] != '\n'
        invariant
            start <= index <= text@.len(),
            comment_end(text@, start as int) == comment_end(text@, index as int),
        decreases text.len() - index,
    {
        index += 1;
    }
    index
}

fn find_block_end(text: &[char], start: usize) -> (end: usize)
    requires
        start <= text@.len(),
    ensures
        end == block_end(text@, start as int),
        start <= end <= text@.len(),
{
    let length = text.len();
    let mut index: usize = start;
    while index < length && length - index > 1 && !(text[index] == '*' && text[index + 1] == '/')
        invariant
            start <= index <= length,
            length == text@.len(),
            block_end(text@, start as int) == block_end(text@, index as int),
        decreases length - index,
    {
        index += 1;
    }
    if length - index > 2 {
        index + 2
    } else {
        length
    }
}

fn find_quote_end(text: &[char], quote: char, start: usize) -> (end: usize)
    requires
        start <= text@.len(),
    ensures
        end == quote_end(text@, quote, start as int),
        start <= end <= text@.len(),
{
    let length = text.len();
    let mut index: usize = start;
    while index < length
        invariant
            start <= index <= length,
            length == text@.len(),
            quote_end(text@, quote, start as int) == quote_end(text@, quote, index as int),
        decreases length - index,
    {
        if text[index] == '\\' {
            index = if length - index > 2 {
                index + 2
            } else {
                length
            };
        } else if text[index] == quote {
            return index + 1;
        } else {
            index += 1;
        }
    }
    length
}

fn find_name_end(text: &[char], start: usize) -> (end: usize)
    requires
        start <= text@.len(),
    ensures
        end == name_end(text@, start as int),
        start <= end <= text@.len(),
{
    let mut index: usize = start;
    while index < text.len() && (starts_name(text[index]) || '0' <= text[index] && text[index]
        <= '9')
        invariant
            start <= index <= text@.len(),
            name_end(text@, start as int) == name_end(text@, index as int),
        decreases text.len() - index,
    {
        index += 1;
    }
    index
}

/// Adds the names in a text.
pub fn collect_gml_identifiers(source: &str, identifiers: &mut NameSet)
    requires
        old(identifiers).valid(),
    ensures
        final(identifiers).valid(),
        final(identifiers)@ == names_from(source@, 0, old(identifiers)@),
{
    let letters = characters(source);
    let text = letters.as_slice();
    let length = text.len();
    let ghost all = names_from(source@, 0, identifiers@);
    let mut index: usize = 0;
    while index < length
        invariant
            index <= length,
            length == text@.len(),
            text@ == source@,
            identifiers.valid(),
            all == names_from(source@, index as int, identifiers@),
        decreases length - index,
    {
        let letter = text[index];
        let next = if length - index > 1 {
            text[index + 1]
        } else {
            ' '
        };
        if letter == '/' && next == '/' {
            index = find_comment_end(text, index + 2);
        } else if letter == '/' && next == '*' {
            index = find_block_end(text, index + 2);
        } else if letter == '\'' || letter == '"' {
            index = find_quote_end(text, letter, index + 1);
        } else if starts_name(letter) {
            let end = find_name_end(text, index + 1);
            let name = spell(vstd::slice::slice_subrange(text, index, end));
            identifiers.insert(name.as_str());
            index = end;
        } else {
            index += 1;
        }
    }
}

/// Names with those in the first arguments of an action.
pub open spec fn argument_names(
    arguments: Seq<ActionArgument>,
    names: Set<Seq<char>>,
    count: int,
) -> Set<Seq<char>>
    decreases count,
{
    if count <= 0 {
        names
    } else {
        names_from(arguments[count - 1].value@, 0, argument_names(arguments, names, count - 1))
    }
}

/// Names with those in an action: its function, its code and its arguments.
pub open spec fn action_names(action: Action, names: Set<Seq<char>>) -> Set<Seq<char>> {
    let called = if action.function_name@.len() == 0 {
        names
    } else {
        names.insert(action.function_name@)
    };
    argument_names(
        action.arguments@,
        names_from(action.code@, 0, called),
        action.arguments@.len() as int,
    )
}

/// Adds the names in an action.
pub fn collect_action_identifiers(action: &Action, identifiers: &mut NameSet)
    requires
        old(identifiers).valid(),
    ensures
        final(identifiers).valid(),
        final(identifiers)@ == action_names(*action, old(identifiers)@),
{
    if !action.function_name.as_str().is_empty() {
        identifiers.insert(action.function_name.as_str());
    }
    collect_gml_identifiers(action.code.as_str(), identifiers);
    let ghost coded = identifiers@;
    let mut index: usize = 0;
    while index < action.arguments.len()
        invariant
            index <= action.arguments@.len(),
            identifiers.valid(),
            identifiers@ == argument_names(action.arguments@, coded, index as int),
        decreases action.arguments.len() - index,
    {
        collect_gml_identifiers(action.arguments[index].value.as_str(), identifiers);
        index += 1;
    }
}

/// Names with those in the first actions.
pub open spec fn actions_names(actions: Seq<Action>, names: Set<Seq<char>>, count: int) -> Set<
    Seq<char>,
>
    decreases count,
{
    if count <= 0 {
        names
    } else {
        action_names(actions[count - 1], actions_names(actions, names, count - 1))
    }
}

/// Adds the names in actions.
pub fn collect_actions(actions: &Vec<Action>, identifiers: &mut NameSet)
    requires
        old(identifiers).valid(),
    ensures
        final(identifiers).valid(),
        final(identifiers)@ == actions_names(
            actions@,
            old(identifiers)@,
            actions@.len() as int,
        ),
{
    let ghost start = identifiers@;
    let mut index: usize = 0;
    while index < actions.len()
        invariant
            index <= actions@.len(),
            identifiers.valid(),
            identifiers@ == actions_names(actions@, start, index as int),
        decreases actions.len() - index,
    {
        collect_action_identifiers(&actions[index], identifiers);
        index += 1;
    }
}

} // verus!
