//! The GML language: source text to bytecode.

pub mod ast;
pub mod backend;
pub mod branch_laws;
pub mod chunks;
pub mod codegen;
pub mod codegen_laws;
pub mod compiler;
pub mod constants;
pub mod dnd;
pub mod dnd_laws;
pub mod floats;
pub mod folding;
pub mod folding_laws;
pub mod jump_laws;
pub mod lexer;
pub mod lexer_laws;
pub mod macros;
pub mod name_laws;
pub mod numbers;
pub mod operation_laws;
pub mod parser;
pub mod parser_laws;
pub mod project;
pub mod semantic;
pub mod spans;
pub mod switch_laws;
pub mod symbols;
pub mod token_names;
pub mod variable_laws;
pub mod vm;

use vstd::prelude::*;

use crate::gml::ast::Span;
use crate::text::decimal;

verus! {

/// A message about a place in the source.
#[derive(Debug, Clone, PartialEq, Eq)]
pub struct Diagnostic {
    pub message: String,
    pub span: Span,
}

/// A [`Diagnostic`] with its message as a sequence of characters.
pub struct Report {
    pub message: Seq<char>,
    pub span: Span,
}

impl View for Diagnostic {
    type V = Report;

    open spec fn view(&self) -> Report {
        Report { message: self.message@, span: self.span }
    }
}

/// The reports that a list of diagnostics stands for.
pub open spec fn reports(diagnostics: Seq<Diagnostic>) -> Seq<Report> {
    diagnostics.map_values(|diagnostic: Diagnostic| diagnostic@)
}

impl Diagnostic {
    /// Makes a message about a place in the source.
    pub fn new(message: &str, span: Span) -> (diagnostic: Self)
        ensures
            diagnostic@ == (Report { message: message@, span }),
    {
        Diagnostic { message: message.to_owned(), span }
    }

    /// Returns the message behind its line and column.
    pub fn text(&self) -> (text: String)
        ensures
            text@ == crate::text::digits(self.span.line as nat, 10) + seq![':']
                + crate::text::digits(self.span.column as nat, 10) + seq![':', ' ']
                + self.message@,
    {
        let mut text = decimal(self.span.line as u64);
        text.push(':');
        let column = decimal(self.span.column as u64);
        text.append(column.as_str());
        text.push(':');
        text.push(' ');
        text.append(self.message.as_str());
        assert(text@ =~= crate::text::digits(self.span.line as nat, 10) + seq![':']
            + crate::text::digits(self.span.column as nat, 10) + seq![':', ' '] + self.message@);
        text
    }
}

} // verus!
