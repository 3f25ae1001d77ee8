//! Token macros: the constants of a project replace identifiers of its source.

use vstd::prelude::*;
use vstd::utf8::encode_utf8;

use crate::gml::ast::Span;
use crate::gml::lexer::{
    errors_from, law_tokens_cover_the_source_in_order, law_tokens_end_with_eof, lex,
    tokens_from, Token, TokenKind,
};
use crate::gml::spans::{covers, in_source, lemma_covers, source_text, span_text};
use crate::gml::{reports, Diagnostic, Report};
use crate::settings::CompileConstant;
use crate::text::{
    is_blank, join, joined, lemma_offset_bounds, lemma_offset_order, offset_at, same_text, spelled,
    unicode_whitespace,
};

verus! {

/// A name and what stands for it.
pub struct Definition {
    pub name: Seq<char>,
    pub value: Seq<char>,
}

/// The definitions of a list of constants.
pub open spec fn definitions(constants: Seq<CompileConstant>) -> Seq<Definition> {
    constants.map_values(
        |constant: CompileConstant| Definition { name: constant.name@, value: constant.value@ },
    )
}

/// The number of the definition of a name: the last of that name.
pub open spec fn definition_of(table: Seq<Definition>, name: Seq<char>) -> Option<int>
    decreases table.len(),
{
    if table.len() == 0 {
        None
    } else if table.last().name == name {
        Some(table.len() - 1)
    } else {
        definition_of(table.drop_last(), name)
    }
}

/// What a macro expands to: its text, the number of its tokens, and the kinds
/// of the first and the last of them.
pub struct Expansion {
    pub text: Seq<char>,
    pub token_count: nat,
    pub first_kind: Option<TokenKind>,
    pub last_kind: Option<TokenKind>,
}

/// Whether an expansion is an identifier alone.
pub open spec fn is_identifier(expansion: Expansion) -> bool {
    expansion.token_count == 1 && expansion.first_kind == Some(TokenKind::Identifier)
}

/// The sum of two counts, at most the largest that is counted.
pub open spec fn counted(first: nat, second: nat) -> nat {
    if first + second <= usize::MAX {
        first + second
    } else {
        usize::MAX as nat
    }
}

/// One expansion behind another, with a blank between their texts.
pub open spec fn followed(before: Expansion, next: Expansion) -> Expansion {
    Expansion {
        text: if next.text.len() == 0 {
            before.text
        } else if before.text.len() == 0 {
            next.text
        } else {
            before.text + seq![' '] + next.text
        },
        token_count: counted(before.token_count, next.token_count),
        first_kind: if before.first_kind is None {
            next.first_kind
        } else {
            before.first_kind
        },
        last_kind: if next.last_kind is Some {
            next.last_kind
        } else {
            before.last_kind
        },
    }
}

/// The names of a chain of macros.
pub open spec fn chain_names(table: Seq<Definition>, chain: Seq<int>) -> Seq<Seq<char>> {
    chain.map_values(|at: int| table[at].name)
}

/// The message about a macro that occurs in its own expansion.
pub open spec fn recursion_message(table: Seq<Definition>, chain: Seq<int>, at: int) -> Seq<char> {
    let names = joined(chain_names(table, chain), " -> "@);
    "recursive macro expansion is not supported ("@ + names + (if names.len() == 0 {
        seq![]
    } else {
        " -> "@
    }) + table[at].name + ")"@
}

/// The message about a macro behind a dot.
pub open spec fn member_message(name: Seq<char>) -> Seq<char> {
    "\""@ + name + "\" is a macro and cannot be used as an instance variable"@
}

/// Whether a chain of macros is made of different definitions of the table.
pub open spec fn is_chain(table: Seq<Definition>, chain: Seq<int>) -> bool {
    &&& chain.no_duplicates()
    &&& forall|k: int| 0 <= k < chain.len() ==> 0 <= #[trigger] chain[k] < table.len()
}

/// A chain is no longer than the table.
pub proof fn lemma_chain_len(table: Seq<Definition>, chain: Seq<int>)
    requires
        is_chain(table, chain),
    ensures
        chain.len() <= table.len(),
{
    chain.unique_seq_to_set();
    let all = vstd::set_lib::set_int_range(0, table.len() as int);
    vstd::set_lib::lemma_int_range(0, table.len() as int);
    assert(chain.to_set().subset_of(all)) by {
        assert forall|at: int| chain.to_set().contains(at) implies all.contains(at) by {
            let k = choose|k: int| 0 <= k < chain.len() && chain[k] == at;
            assert(0 <= chain[k] < table.len());
        }
    }
    vstd::set_lib::lemma_len_subset(chain.to_set(), all);
}

pub proof fn lemma_chain_push(table: Seq<Definition>, chain: Seq<int>, at: int)
    requires
        is_chain(table, chain),
        0 <= at < table.len(),
        !chain.contains(at),
    ensures
        is_chain(table, chain.push(at)),
        chain.len() < table.len(),
{
    let longer = chain.push(at);
    assert(longer.no_duplicates()) by {
        assert forall|i: int, j: int| 0 <= i < longer.len() && 0 <= j < longer.len() && i
            != j implies longer[i] != longer[j] by {
            if i == chain.len() {
                assert(chain.contains(chain[j]));
            }
            if j == chain.len() {
                assert(chain.contains(chain[i]));
            }
        }
    }
    lemma_chain_len(table, longer);
}

pub proof fn lemma_definition_of(table: Seq<Definition>, name: Seq<char>)
    ensures
        definition_of(table, name) matches Some(at) ==> 0 <= at < table.len() && table[at].name
            == name,
    decreases table.len(),
{
    if table.len() > 0 && table.last().name != name {
        lemma_definition_of(table.drop_last(), name);
    }
}

/// What a macro expands to inside of a chain of other macros, or why it cannot
/// be expanded.
pub open spec fn expanded(table: Seq<Definition>, at: int, chain: Seq<int>) -> Result<
    Expansion,
    Seq<char>,
>
    decreases table.len() - chain.len(), 0nat, 0nat,
    when is_chain(table, chain) && 0 <= at < table.len()
{
    let value = table[at].value;
    if chain.contains(at) {
        Err(recursion_message(table, chain, at))
    } else if forall|k: int| 0 <= k < value.len() ==> unicode_whitespace(#[trigger] value[k]) {
        Err("macro has an empty value"@)
    } else {
        proof {
            lemma_chain_push(table, chain, at);
        }
        match fragment(table, value, chain.push(at)) {
            Ok(expansion) => Ok(expansion),
            Err(message) => Err(
                "invalid definition of "@ + table[at].name + ": "@ + message,
            ),
        }
    }
}

/// The messages of the errors in a source, behind one another.
pub open spec fn error_text(source: Seq<char>) -> Seq<char> {
    joined(errors_from(source, 0).map_values(|report: Report| report.message), "; "@)
}

/// What a fragment of source expands to inside of a chain of macros.
pub open spec fn fragment(table: Seq<Definition>, source: Seq<char>, chain: Seq<int>) -> Result<
    Expansion,
    Seq<char>,
>
    decreases table.len() - chain.len(), 2nat, 0nat,
    when is_chain(table, chain)
{
    if encode_utf8(source).len() > u32::MAX {
        Err("GML source is larger than 4 GiB"@)
    } else if errors_from(source, 0).len() > 0 {
        Err(error_text(source))
    } else {
        fragment_from(
            table,
            source,
            tokens_from(source, 0),
            0,
            chain,
            Expansion { text: seq![], token_count: 0, first_kind: None, last_kind: None },
        )
    }
}

/// The expansion of the tokens of a fragment from a position on.
pub open spec fn fragment_from(
    table: Seq<Definition>,
    source: Seq<char>,
    tokens: Seq<Token>,
    position: int,
    chain: Seq<int>,
    before: Expansion,
) -> Result<Expansion, Seq<char>>
    decreases table.len() - chain.len(), 1nat, tokens.len() - position,
    when is_chain(table, chain)
{
    if position < 0 || position >= tokens.len() - 1 {
        Ok(before)
    } else {
        let token = tokens[position];
        let name = span_text(source, token.span);
        let plain = Expansion {
            text: name,
            token_count: 1,
            first_kind: Some(token.kind),
            last_kind: Some(token.kind),
        };
        match definition_of(table, name) {
            Some(at) if token.kind == TokenKind::Identifier => {
                proof {
                    lemma_definition_of(table, name);
                }
                if before.last_kind == Some(TokenKind::Dot) {
                    Err(member_message(name))
                } else {
                    match expanded(table, at, chain) {
                        Err(message) => Err(message),
                        Ok(expansion) => if tokens[position + 1].kind == TokenKind::LeftParen
                            && !is_identifier(expansion) {
                            Err("malformed macro used as function name "@ + name)
                        } else {
                            fragment_from(
                                table,
                                source,
                                tokens,
                                position + 1,
                                chain,
                                followed(before, expansion),
                            )
                        },
                    }
                }
            },
            _ => fragment_from(
                table,
                source,
                tokens,
                position + 1,
                chain,
                followed(before, plain),
            ),
        }
    }
}

/// The text between two byte offsets of the source.
pub open spec fn between(source: Seq<char>, start: u32, end: int) -> Seq<char> {
    span_text(source, Span { start, end: end as u32, line: 0, column: 0 })
}

/// The source with its macros expanded from a token on: nothing if there were
/// none, or the report of what is wrong.
pub open spec fn replaced_from(
    table: Seq<Definition>,
    source: Seq<char>,
    tokens: Seq<Token>,
    position: int,
    cursor: u32,
    previous: Option<TokenKind>,
    output: Option<Seq<char>>,
) -> Result<Option<Seq<char>>, Report>
    decreases tokens.len() - position,
{
    let before = match output {
        None => seq![],
        Some(text) => text,
    };
    if position < 0 || position >= tokens.len() - 1 {
        match output {
            None => Ok(None),
            Some(text) => Ok(
                Some(text + between(source, cursor, encode_utf8(source).len() as int)),
            ),
        }
    } else {
        let token = tokens[position];
        let name = span_text(source, token.span);
        match definition_of(table, name) {
            Some(at) if token.kind == TokenKind::Identifier => {
                if previous == Some(TokenKind::Dot) {
                    Err(Report { message: member_message(name), span: token.span })
                } else {
                    match expanded(table, at, seq![]) {
                        Err(message) => Err(
                            Report {
                                message: "cannot expand macro "@ + name + ": "@ + message,
                                span: token.span,
                            },
                        ),
                        Ok(expansion) => if tokens[position + 1].kind == TokenKind::LeftParen
                            && !is_identifier(expansion) {
                            Err(
                                Report {
                                    message: "malformed macro used as function name "@ + name,
                                    span: token.span,
                                },
                            )
                        } else {
                            replaced_from(
                                table,
                                source,
                                tokens,
                                position + 1,
                                token.span.end,
                                if expansion.last_kind is Some {
                                    expansion.last_kind
                                } else {
                                    previous
                                },
                                Some(
                                    before + between(source, cursor, token.span.start as int) + (
                                    if expansion.text.len() == 0 {
                                        seq![]
                                    } else {
                                        seq![' '] + expansion.text + seq![' ']
                                    }),
                                ),
                            )
                        },
                    }
                }
            },
            _ => replaced_from(
                table,
                source,
                tokens,
                position + 1,
                cursor,
                Some(token.kind),
                output,
            ),
        }
    }
}

/// The source with its macros expanded: nothing if there were none, or the
/// reports of what is wrong.
pub open spec fn macro_expanded(table: Seq<Definition>, source: Seq<char>) -> Result<
    Option<Seq<char>>,
    Seq<Report>,
> {
    if table.len() == 0 {
        Ok(None)
    } else if encode_utf8(source).len() > u32::MAX {
        Err(
            seq![
                Report {
                    message: "GML source is larger than 4 GiB"@,
                    span: Span { start: 0, end: 0, line: 0, column: 0 },
                },
            ],
        )
    } else if errors_from(source, 0).len() > 0 {
        Err(errors_from(source, 0))
    } else {
        match replaced_from(table, source, tokens_from(source, 0), 0, 0, None, None) {
            Ok(text) => Ok(text),
            Err(report) => Err(seq![report]),
        }
    }
}

/// The project, configuration, and extension constants consumed by the GMS
/// 1.4 compiler are token macros rather than immutable values. In particular,
/// an extension may map a public name to a writable global variable.
pub struct MacroTable<'a> {
    pub constants: &'a [CompileConstant],
}

/// The text of an optional string.
pub open spec fn optional_text(text: Option<String>) -> Option<Seq<char>> {
    match text {
        None => None,
        Some(text) => Some(text@),
    }
}

impl<'a> MacroTable<'a> {
    /// The definitions of the table.
    pub open spec fn table(&self) -> Seq<Definition> {
        definitions(self.constants@)
    }

    /// Makes the table of a list of constants. Of two with the same name the
    /// later one counts.
    pub fn new(constants: &'a [CompileConstant]) -> (table: Self)
        ensures
            table.table() == definitions(constants@),
    {
        MacroTable { constants }
    }

    /// Returns whether there are no constants.
    pub fn is_empty(&self) -> (empty: bool)
        ensures
            empty == (self.table().len() == 0),
    {
        self.constants.len() == 0
    }

    /// Expands macro tokens while retaining the ordinary source text around
    /// them. `None` means that no macro occurred.
    pub fn expand(&self, source: &str) -> (result: Result<Option<String>, Vec<Diagnostic>>)
        ensures
            match result {
                Ok(text) => macro_expanded(self.table(), source@) == Ok::<
                    Option<Seq<char>>,
                    Seq<Report>,
                >(optional_text(text)),
                Err(errors) => macro_expanded(self.table(), source@) == Err::<
                    Option<Seq<char>>,
                    Seq<Report>,
                >(reports(errors@)),
            },
    {
        if self.is_empty() {
            return Ok(None);
        }
        let tokens = match lex(source) {
            Ok(tokens) => tokens,
            Err(errors) => {
                assert(reports(errors@).len() == errors@.len());
                return Err(errors);
            },
        };
        match self.replace(source, &tokens) {
            Ok(text) => Ok(text),
            Err(error) => {
                let mut errors: Vec<Diagnostic> = Vec::new();
                errors.push(error);
                assert(reports(errors@) =~= seq![error@]);
                Err(errors)
            },
        }
    }

    fn replace(&self, source: &str, tokens: &Vec<Token>) -> (result: Result<
        Option<String>,
        Diagnostic,
    >)
        requires
            encode_utf8(source@).len() <= u32::MAX,
            tokens@ == tokens_from(source@, 0),
        ensures
            match result {
                Ok(text) => replaced_from(self.table(), source@, tokens@, 0, 0, None, None) == Ok::<
                    Option<Seq<char>>,
                    Report,
                >(optional_text(text)),
                Err(error) => replaced_from(self.table(), source@, tokens@, 0, 0, None, None)
                    == Err::<Option<Seq<char>>, Report>(error@),
            },
    {
        let ghost table = self.table();
        proof {
            law_tokens_end_with_eof(source@, 0);
            lemma_token_spans_fit(source@);
            lemma_offset_bounds(source@, 0, source@.len() as int);
            assert(offset_at(source@, 0) == 0);
        }
        let mut output: Option<String> = None;
        let mut cursor: u32 = 0;
        let mut previous: Option<TokenKind> = None;
        let mut index: usize = 0;
        while index < tokens.len() - 1
            invariant
                index <= tokens.len() - 1,
                table == self.table(),
                    encode_utf8(source@).len() <= u32::MAX,
                tokens@ == tokens_from(source@, 0),
                token_spans_fit(source@, tokens@),
                is_boundary(source@, cursor as int),
                forall|k: int|
                    index <= k < tokens@.len() ==> cursor <= (#[trigger] tokens@[k]).span.start,
                replaced_from(table, source@, tokens@, 0, 0, None, None) == replaced_from(
                    table,
                    source@,
                    tokens@,
                    index as int,
                    cursor,
                    previous,
                    optional_text(output),
                ),
            decreases tokens.len() - index,
        {
            let token = tokens[index];
            let name = source_text(source, token.span);
            let found = self.find(name);
            if token.kind != TokenKind::Identifier {
                previous = Some(token.kind);
                index += 1;
                continue ;
            }
            let at: usize = match found {
                Some(at) => at,
                None => {
                    previous = Some(token.kind);
                    index += 1;
                    continue ;
                },
            };
            if is_dot(previous) {
                return Err(Diagnostic::new(member_error(name).as_str(), token.span));
            }
            let mut expander = Expander { table: self, chain: Vec::new() };
            proof {
                lemma_definition_of(table, name@);
                assert(expander.chain_view() =~= seq![]);
            }
            let expansion = match expander.expand_macro(at) {
                Ok(expansion) => expansion,
                Err(message) => {
                    let mut text = "cannot expand macro ".to_owned();
                    text.append(name);
                    text.append(": ");
                    text.append(message.as_str());
                    return Err(Diagnostic::new(text.as_str(), token.span));
                },
            };
            if tokens[index + 1].kind == TokenKind::LeftParen && !expansion.single_identifier() {
                let mut text = "malformed macro used as function name ".to_owned();
                text.append(name);
                return Err(Diagnostic::new(text.as_str(), token.span));
            }
            let gap = Span { start: cursor, end: token.span.start, line: 0, column: 0 };
            proof {
                lemma_gap(source@, cursor as int, token.span);
            }
            let mut text = match output {
                None => String::new(),
                Some(text) => text,
            };
            let ghost before = text@;
            text.append(source_text(source, gap));
            if !expansion.text.as_str().is_empty() {
                text.push(' ');
                text.append(expansion.text.as_str());
                text.push(' ');
            }
            assert(text@ =~= before + between(source@, cursor, token.span.start as int) + (
            if expansion@.text.len() == 0 {
                seq![]
            } else {
                seq![' '] + expansion@.text + seq![' ']
            }));
            output = Some(text);
            cursor = token.span.end;
            if expansion.last_kind.is_some() {
                previous = expansion.last_kind;
            }
            index += 1;
        }
        match output {
            None => Ok(None),
            Some(text) => {
                let mut text = text;
                let end: u32 = source.as_bytes().len() as u32;
                let gap = Span { start: cursor, end, line: 0, column: 0 };
                proof {
                    lemma_tail(source@, cursor as int);
                }
                text.append(source_text(source, gap));
                Ok(Some(text))
            },
        }
    }

    fn find(&self, name: &str) -> (at: Option<usize>)
        ensures
            match at {
                None => definition_of(self.table(), name@) is None,
                Some(at) => definition_of(self.table(), name@) == Some(at as int),
            },
    {
        let mut left: usize = self.constants.len();
        assert(self.table().take(left as int) =~= self.table());
        while left > 0
            invariant
                left <= self.constants.len(),
                definition_of(self.table(), name@) == definition_of(
                    self.table().take(left as int),
                    name@,
                ),
            decreases left,
        {
            assert(self.table().take(left as int).drop_last() =~= self.table().take(left - 1));
            if same_text(self.constants[left - 1].name.as_str(), name) {
                return Some(left - 1);
            }
            left -= 1;
        }
        None
    }
}

/// What a macro expands to.
#[derive(Clone)]
struct ExpandedMacro {
    text: String,
    token_count: usize,
    first_kind: Option<TokenKind>,
    last_kind: Option<TokenKind>,
}

impl View for ExpandedMacro {
    type V = Expansion;

    closed spec fn view(&self) -> Expansion {
        Expansion {
            text: self.text@,
            token_count: self.token_count as nat,
            first_kind: self.first_kind,
            last_kind: self.last_kind,
        }
    }
}

impl ExpandedMacro {
    fn single_identifier(&self) -> (result: bool)
        ensures
            result == is_identifier(self@),
    {
        self.token_count == 1 && match self.first_kind {
            Some(kind) => kind == TokenKind::Identifier,
            None => false,
        }
    }
}

fn is_dot(kind: Option<TokenKind>) -> (result: bool)
    ensures
        result == (kind == Some(TokenKind::Dot)),
{
    match kind {
        Some(kind) => kind == TokenKind::Dot,
        None => false,
    }
}

fn member_error(name: &str) -> (text: String)
    ensures
        text@ == member_message(name@),
{
    let mut text = "\"".to_owned();
    text.append(name);
    text.append("\" is a macro and cannot be used as an instance variable");
    text
}

spec fn is_boundary(source: Seq<char>, offset: int) -> bool {
    exists|index: int| 0 <= index <= source.len() && #[trigger] offset_at(source, index) == offset
}

spec fn token_spans_fit(source: Seq<char>, tokens: Seq<Token>) -> bool {
    &&& forall|k: int|
        0 <= k < tokens.len() ==> {
            &&& in_source(source, (#[trigger] tokens[k]).span)
            &&& is_boundary(source, tokens[k].span.end as int)
        }
    &&& forall|j: int, k: int|
        0 <= j < k < tokens.len() ==> (#[trigger] tokens[j]).span.end <= (
        #[trigger] tokens[k]).span.start
}

proof fn lemma_gap(source: Seq<char>, cursor: int, span: Span)
    requires
        0 <= cursor <= span.start,
        is_boundary(source, cursor),
        in_source(source, span),
    ensures
        in_source(
            source,
            Span { start: cursor as u32, end: span.start, line: 0, column: 0 },
        ),
{
    reveal(in_source);
    let index = choose|index: int|
        0 <= index <= source.len() && #[trigger] offset_at(source, index) == cursor;
    let (start, end) = choose|start: int, end: int| #[trigger] covers(source, span, start, end);
    lemma_offset_order(source, index, start);
    let gap = Span { start: cursor as u32, end: span.start, line: 0, column: 0 };
    lemma_covers(source, gap, index, start);
}

proof fn lemma_tail(source: Seq<char>, cursor: int)
    requires
        is_boundary(source, cursor),
        0 <= cursor <= u32::MAX,
        encode_utf8(source).len() <= u32::MAX,
    ensures
        in_source(
            source,
            Span {
                start: cursor as u32,
                end: encode_utf8(source).len() as u32,
                line: 0,
                column: 0,
            },
        ),
{
    let index = choose|index: int|
        0 <= index <= source.len() && #[trigger] offset_at(source, index) == cursor;
    lemma_offset_bounds(source, index, source.len() as int);
    let gap = Span {
        start: cursor as u32,
        end: encode_utf8(source).len() as u32,
        line: 0,
        column: 0,
    };
    lemma_covers(source, gap, index, source.len() as int);
}

proof fn lemma_token_spans_fit(source: Seq<char>)
    requires
        encode_utf8(source).len() <= u32::MAX,
    ensures
        token_spans_fit(source, tokens_from(source, 0)),
{
    law_tokens_cover_the_source_in_order(source, 0);
    let tokens = tokens_from(source, 0);
    assert forall|k: int| 0 <= k < tokens.len() implies is_boundary(
        source,
        (#[trigger] tokens[k]).span.end as int,
    ) by {
        reveal(in_source);
        assert(in_source(source, tokens[k].span));
        let (start, end) = choose|start: int, end: int| #[trigger]
            covers(source, tokens[k].span, start, end);
        assert(offset_at(source, end) == tokens[k].span.end);
    }
}

struct Expander<'table, 'definition> {
    table: &'table MacroTable<'definition>,
    chain: Vec<usize>,
}

impl<'table, 'definition> Expander<'table, 'definition> {
    spec fn chain_view(&self) -> Seq<int> {
        self.chain@.map_values(|at: usize| at as int)
    }

    spec fn wf(&self) -> bool {
        is_chain(self.table.table(), self.chain_view())
    }

    fn expand_macro(&mut self, at: usize) -> (result: Result<ExpandedMacro, String>)
        requires
            old(self).wf(),
            at < old(self).table.table().len(),
        ensures
            final(self).table == old(self).table,
            final(self).chain@ == old(self).chain@,
            match result {
                Ok(expansion) => expanded(
                    old(self).table.table(),
                    at as int,
                    old(self).chain_view(),
                ) == Ok::<Expansion, Seq<char>>(expansion@),
                Err(message) => expanded(
                    old(self).table.table(),
                    at as int,
                    old(self).chain_view(),
                ) == Err::<Expansion, Seq<char>>(message@),
            },
        decreases old(self).table.table().len() - old(self).chain@.len(), 0nat, 0nat,
    {
        let ghost table = self.table.table();
        let ghost chain = self.chain_view();
        if self.in_chain(at) {
            return Err(self.recursion_error(at));
        }
        let constant = &self.table.constants[at];
        if is_blank(constant.value.as_str()) {
            return Err("macro has an empty value".to_owned());
        }
        proof {
            lemma_chain_push(table, chain, at as int);
        }
        self.chain.push(at);
        assert(self.chain_view() =~= chain.push(at as int));
        let result = self.expand_fragment(constant.value.as_str());
        self.chain.pop();
        assert(self.chain@ =~= old(self).chain@);
        match result {
            Ok(expansion) => Ok(expansion),
            Err(message) => {
                let mut text = "invalid definition of ".to_owned();
                text.append(constant.name.as_str());
                text.append(": ");
                text.append(message.as_str());
                Err(text)
            },
        }
    }

    fn in_chain(&self, at: usize) -> (result: bool)
        ensures
            result == self.chain_view().contains(at as int),
    {
        let mut index: usize = 0;
        while index < self.chain.len()
            invariant
                index <= self.chain.len(),
                forall|k: int| 0 <= k < index ==> self.chain@[k] != at,
            decreases self.chain.len() - index,
        {
            if self.chain[index] == at {
                assert(self.chain_view()[index as int] == at as int);
                return true;
            }
            index += 1;
        }
        assert forall|k: int| 0 <= k < self.chain_view().len() implies self.chain_view()[k]
            != at as int by {
            assert(self.chain_view()[k] == self.chain@[k] as int);
        }
        false
    }

    fn recursion_error(&self, at: usize) -> (text: String)
        requires
            self.wf(),
            at < self.table.table().len(),
        ensures
            text@ == recursion_message(self.table.table(), self.chain_view(), at as int),
    {
        let mut names: Vec<String> = Vec::new();
        let mut index: usize = 0;
        assert(spelled(names@) =~= chain_names(self.table.table(), self.chain_view()).take(0));
        while index < self.chain.len()
            invariant
                self.wf(),
                index <= self.chain.len(),
                spelled(names@) == chain_names(self.table.table(), self.chain_view()).take(
                    index as int,
                ),
            decreases self.chain.len() - index,
        {
            let at: usize = self.chain[index];
            assert(self.chain_view()[index as int] == at as int);
            let ghost before = names@;
            let name = self.table.constants[at].name.clone();
            names.push(name);
            proof {
                let all = chain_names(self.table.table(), self.chain_view());
                assert(all.take(index + 1) =~= all.take(index as int).push(all[index as int]));
                assert(spelled(names@) =~= spelled(before).push(name@));
            }
            index += 1;
        }
        proof {
            let all = chain_names(self.table.table(), self.chain_view());
            assert(all.take(all.len() as int) =~= all);
        }
        let chain = join(names.as_slice(), " -> ");
        let mut text = "recursive macro expansion is not supported (".to_owned();
        text.append(chain.as_str());
        if !chain.as_str().is_empty() {
            text.append(" -> ");
        }
        text.append(self.table.constants[at].name.as_str());
        text.append(")");
        assert(text@ =~= recursion_message(self.table.table(), self.chain_view(), at as int));
        text
    }

    fn expand_fragment(&mut self, source: &str) -> (result: Result<ExpandedMacro, String>)
        requires
            old(self).wf(),
        ensures
            final(self).table == old(self).table,
            final(self).chain@ == old(self).chain@,
            match result {
                Ok(expansion) => fragment(
                    old(self).table.table(),
                    source@,
                    old(self).chain_view(),
                ) == Ok::<Expansion, Seq<char>>(expansion@),
                Err(message) => fragment(
                    old(self).table.table(),
                    source@,
                    old(self).chain_view(),
                ) == Err::<Expansion, Seq<char>>(message@),
            },
        decreases old(self).table.table().len() - old(self).chain@.len(), 2nat, 0nat,
    {
        let ghost table = self.table.table();
        let ghost chain = self.chain_view();
        let tokens = match lex(source) {
            Ok(tokens) => tokens,
            Err(errors) => {
                return Err(joined_messages(&errors));
            },
        };
        proof {
            law_tokens_end_with_eof(source@, 0);
            lemma_token_spans_fit(source@);
        }
        let mut before = ExpandedMacro {
            text: String::new(),
            token_count: 0,
            first_kind: None,
            last_kind: None,
        };
        let mut index: usize = 0;
        while index < tokens.len() - 1
            invariant
                index <= tokens.len() - 1,
                self.wf(),
                self.table == old(self).table,
                self.chain@ == old(self).chain@,
                table == self.table.table(),
                chain == self.chain_view(),
                chain == old(self).chain_view(),
                table == old(self).table.table(),
                tokens@ == tokens_from(source@, 0),
                token_spans_fit(source@, tokens@),
                fragment(table, source@, chain) == fragment_from(
                    table,
                    source@,
                    tokens@,
                    index as int,
                    chain,
                    before@,
                ),
            decreases tokens.len() - index,
        {
            let token = tokens[index];
            let name = source_text(source, token.span);
            let found = if token.kind == TokenKind::Identifier {
                self.table.find(name)
            } else {
                None
            };
            let next = match found {
                Some(at) => {
                    if is_dot(before.last_kind) {
                        return Err(member_error(name));
                    }
                    proof {
                        lemma_definition_of(table, name@);
                    }
                    let expansion = match self.expand_macro(at) {
                        Ok(expansion) => expansion,
                        Err(message) => {
                            return Err(message);
                        },
                    };
                    if tokens[index + 1].kind == TokenKind::LeftParen
                        && !expansion.single_identifier() {
                        let mut text = "malformed macro used as function name ".to_owned();
                        text.append(name);
                        return Err(text);
                    }
                    expansion
                },
                None => ExpandedMacro {
                    text: name.to_owned(),
                    token_count: 1,
                    first_kind: Some(token.kind),
                    last_kind: Some(token.kind),
                },
            };
            before = follow(before, next);
            index += 1;
        }
        Ok(before)
    }
}

fn follow(before: ExpandedMacro, next: ExpandedMacro) -> (result: ExpandedMacro)
    ensures
        result@ == followed(before@, next@),
{
    let mut text = before.text;
    let ghost start = text@;
    if !next.text.as_str().is_empty() {
        if !text.as_str().is_empty() {
            text.push(' ');
        }
        text.append(next.text.as_str());
    }
    assert(text@ =~= followed(before@, next@).text);
    ExpandedMacro {
        text,
        token_count: before.token_count.saturating_add(next.token_count),
        first_kind: if before.first_kind.is_none() {
            next.first_kind
        } else {
            before.first_kind
        },
        last_kind: if next.last_kind.is_some() {
            next.last_kind
        } else {
            before.last_kind
        },
    }
}

fn joined_messages(errors: &Vec<Diagnostic>) -> (text: String)
    ensures
        text@ == joined(
            reports(errors@).map_values(|report: Report| report.message),
            "; "@,
        ),
{
    let ghost all = reports(errors@).map_values(|report: Report| report.message);
    let mut messages: Vec<String> = Vec::new();
    let mut index: usize = 0;
    assert(spelled(messages@) =~= all.take(0));
    while index < errors.len()
        invariant
            index <= errors.len(),
            all == reports(errors@).map_values(|report: Report| report.message),
            spelled(messages@) == all.take(index as int),
        decreases errors.len() - index,
    {
        let message = errors[index].message.clone();
        let ghost before = messages@;
        messages.push(message);
        assert(all.take(index + 1) =~= all.take(index as int).push(all[index as int]));
        assert(spelled(messages@) =~= spelled(before).push(message@));
        index += 1;
    }
    assert(all.take(all.len() as int) =~= all);
    join(messages.as_slice(), "; ")
}

/// Whether a token is the name of a macro.
pub open spec fn is_macro(table: Seq<Definition>, source: Seq<char>, token: Token) -> bool {
    token.kind == TokenKind::Identifier && definition_of(
        table,
        span_text(source, token.span),
    ) is Some
}

proof fn lemma_something_stays(
    table: Seq<Definition>,
    source: Seq<char>,
    tokens: Seq<Token>,
    position: int,
    cursor: u32,
    previous: Option<TokenKind>,
    output: Seq<char>,
)
    requires
        0 <= position,
    ensures
        replaced_from(table, source, tokens, position, cursor, previous, Some(output)) != Ok::<
            Option<Seq<char>>,
            Report,
        >(None),
    decreases tokens.len() - position,
{
    if position < tokens.len() - 1 {
        let token = tokens[position];
        let name = span_text(source, token.span);
        if is_macro(table, source, token) {
            let at = definition_of(table, name)->0;
            if let Ok(expansion) = expanded(table, at, seq![]) {
                lemma_something_stays(
                    table,
                    source,
                    tokens,
                    position + 1,
                    token.span.end,
                    if expansion.last_kind is Some {
                        expansion.last_kind
                    } else {
                        previous
                    },
                    output + between(source, cursor, token.span.start as int) + (
                    if expansion.text.len() == 0 {
                        seq![]
                    } else {
                        seq![' '] + expansion.text + seq![' ']
                    }),
                );
            }
        } else {
            lemma_something_stays(
                table,
                source,
                tokens,
                position + 1,
                cursor,
                Some(token.kind),
                output,
            );
        }
    }
}

proof fn lemma_nothing_expanded(
    table: Seq<Definition>,
    source: Seq<char>,
    tokens: Seq<Token>,
    position: int,
    cursor: u32,
    previous: Option<TokenKind>,
)
    requires
        0 <= position,
    ensures
        (replaced_from(table, source, tokens, position, cursor, previous, None) == Ok::<
            Option<Seq<char>>,
            Report,
        >(None)) == (forall|k: int|
            position <= k < tokens.len() - 1 ==> !is_macro(table, source, #[trigger] tokens[k])),
    decreases tokens.len() - position,
{
    if position < tokens.len() - 1 {
        let token = tokens[position];
        let name = span_text(source, token.span);
        if is_macro(table, source, token) {
            let at = definition_of(table, name)->0;
            if let Ok(expansion) = expanded(table, at, seq![]) {
                lemma_something_stays(
                    table,
                    source,
                    tokens,
                    position + 1,
                    token.span.end,
                    if expansion.last_kind is Some {
                        expansion.last_kind
                    } else {
                        previous
                    },
                    seq![] + between(source, cursor, token.span.start as int) + (
                    if expansion.text.len() == 0 {
                        seq![]
                    } else {
                        seq![' '] + expansion.text + seq![' ']
                    }),
                );
            }
        } else {
            lemma_nothing_expanded(
                table,
                source,
                tokens,
                position + 1,
                cursor,
                Some(token.kind),
            );
        }
    }
}

/// The expansion of a source that can be read is nothing exactly if no token of
/// the source is the name of a macro.
pub proof fn law_nothing_is_expanded_without_macros(table: Seq<Definition>, source: Seq<char>)
    requires
        encode_utf8(source).len() <= u32::MAX,
        errors_from(source, 0).len() == 0,
    ensures
        (macro_expanded(table, source) == Ok::<Option<Seq<char>>, Seq<Report>>(None)) == (forall|
            k: int,
        |
            0 <= k < tokens_from(source, 0).len() - 1 ==> !is_macro(
                table,
                source,
                #[trigger] tokens_from(source, 0)[k],
            )),
{
    if table.len() > 0 {
        lemma_nothing_expanded(table, source, tokens_from(source, 0), 0, 0, None);
    }
}

} // verus!
