//! Compiler error type (wraps a rustc-style [`Diagnostic`]).

use vstd::prelude::*;
use crate::diagnostics::span::{span_at, sat_add};
use crate::diagnostics::{first_primary, lemma_first_primary, primary_span_of, Diagnostic, DiagnosticBatch, Label, Span, Severity};
use crate::parser::ParseError;
use crate::text::{decimal, decimal_spec, owned, push_str};
use crate::diagnostics::location_of;
use crate::token::Location;

verus! {

/// An error produced while lowering a parsed `Program`.
#[derive(Debug)]
pub struct CompileError {
    pub diagnostic: Box<Diagnostic>,
}

/// The diagnostic `CompileError::new` builds: an error with one primary
/// label at `span` and an empty label message.
pub open spec fn is_new_error(d: Diagnostic, message: Seq<char>, span: Span, code: Seq<char>) -> bool {
    &&& d.severity == Severity::Error
    &&& d.code@ == code
    &&& d.message@ == message
    &&& d.path@.len() == 0
    &&& d.labels@.len() == 1
    &&& d.labels@[0].span == span
    &&& d.labels@[0].message@.len() == 0
    &&& d.labels@[0].primary
    &&& d.notes@.len() == 0
    &&& d.helps@.len() == 0
}

impl CompileError {
    pub fn new(message: String, span: Span, code: String) -> (r: Self)
        ensures
            is_new_error(*r.diagnostic, message@, span, code@),
    {
        CompileError {
            diagnostic: Box::new(Diagnostic::error(code, message).with_primary(span, String::new())),
        }
    }

    /// Build from a location (treated as a point span).
    pub fn at(message: String, location: Location, code: String) -> (r: Self)
        ensures
            is_new_error(
                *r.diagnostic,
                message@,
                span_at(location.offset, sat_add(location.offset, 1), location.line, location.column),
                code@,
            ),
    {
        Self::new(message, Span::from_location(location), code)
    }

    pub fn unsupported(message: String, span: Span, code: String) -> (r: Self)
        ensures
            is_new_error(*r.diagnostic, message@, span, code@),
    {
        Self::new(message, span, code)
    }

    pub fn with_path(self, path: String) -> (r: Self)
        ensures
            r.diagnostic.path@ == path@,
            r.diagnostic.severity == self.diagnostic.severity,
            r.diagnostic.code == self.diagnostic.code,
            r.diagnostic.message == self.diagnostic.message,
            r.diagnostic.labels == self.diagnostic.labels,
            r.diagnostic.notes == self.diagnostic.notes,
            r.diagnostic.helps == self.diagnostic.helps,
    {
        CompileError { diagnostic: Box::new((*self.diagnostic).with_path(path)) }
    }

    /// Replace the message of the first primary label (no change without one).
    pub fn with_primary_message(self, message: String) -> (r: Self)
        ensures
            r.diagnostic.severity == self.diagnostic.severity,
            r.diagnostic.code == self.diagnostic.code,
            r.diagnostic.message == self.diagnostic.message,
            r.diagnostic.path == self.diagnostic.path,
            r.diagnostic.notes == self.diagnostic.notes,
            r.diagnostic.helps == self.diagnostic.helps,
            match first_primary(self.diagnostic.labels@) {
                Some(i) => r.diagnostic.labels@.len() == self.diagnostic.labels@.len() && forall|j: int|
                    0 <= j < self.diagnostic.labels@.len() ==> if j == i {
                        &&& (#[trigger] r.diagnostic.labels@[j]).span == self.diagnostic.labels@[j].span
                        &&& r.diagnostic.labels@[j].primary
                        &&& r.diagnostic.labels@[j].message@ == message@
                    } else {
                        r.diagnostic.labels@[j] == self.diagnostic.labels@[j]
                    },
                None => r.diagnostic.labels == self.diagnostic.labels,
            },
    {
        let mut d = *self.diagnostic;
        proof {
            lemma_first_primary(d.labels@);
        }
        let mut i: usize = 0;
        while i < d.labels.len()
            invariant
                0 <= i <= d.labels@.len(),
                d == *self.diagnostic,
                forall|j: int| 0 <= j < i ==> !#[trigger] d.labels@[j].primary,
            decreases d.labels@.len() - i,
        {
            if d.labels[i].primary {
                let span = d.labels[i].span;
                d.labels.set(i, Label::primary(span, message));
                proof {
                    lemma_first_primary(self.diagnostic.labels@);
                    assert(first_primary(self.diagnostic.labels@) == Some(i as int));
                }
                return CompileError { diagnostic: Box::new(d) };
            }
            i += 1;
        }
        CompileError { diagnostic: Box::new(d) }
    }

    pub fn with_label(self, span: Span, message: String) -> (r: Self)
        ensures
            r.diagnostic.labels@.len() == self.diagnostic.labels@.len() + 1,
            r.diagnostic.labels@.drop_last() == self.diagnostic.labels@,
            r.diagnostic.labels@.last().span == span,
            r.diagnostic.labels@.last().message@ == message@,
            !r.diagnostic.labels@.last().primary,
            r.diagnostic.severity == self.diagnostic.severity,
            r.diagnostic.code == self.diagnostic.code,
            r.diagnostic.message == self.diagnostic.message,
            r.diagnostic.path == self.diagnostic.path,
            r.diagnostic.notes == self.diagnostic.notes,
            r.diagnostic.helps == self.diagnostic.helps,
    {
        CompileError { diagnostic: Box::new((*self.diagnostic).with_label(span, message)) }
    }

    pub fn with_note(self, note: String) -> (r: Self)
        ensures
            r.diagnostic.notes@ == self.diagnostic.notes@.push(note),
            r.diagnostic.severity == self.diagnostic.severity,
            r.diagnostic.code == self.diagnostic.code,
            r.diagnostic.message == self.diagnostic.message,
            r.diagnostic.path == self.diagnostic.path,
            r.diagnostic.labels == self.diagnostic.labels,
            r.diagnostic.helps == self.diagnostic.helps,
    {
        CompileError { diagnostic: Box::new((*self.diagnostic).with_note(note)) }
    }

    pub fn with_help(self, help: String) -> (r: Self)
        ensures
            r.diagnostic.helps@ == self.diagnostic.helps@.push(help),
            r.diagnostic.severity == self.diagnostic.severity,
            r.diagnostic.code == self.diagnostic.code,
            r.diagnostic.message == self.diagnostic.message,
            r.diagnostic.path == self.diagnostic.path,
            r.diagnostic.labels == self.diagnostic.labels,
            r.diagnostic.notes == self.diagnostic.notes,
    {
        CompileError { diagnostic: Box::new((*self.diagnostic).with_help(help)) }
    }

    /// The primary span, or the default span when there is none.
    pub fn span(&self) -> (r: Span)
        ensures
            r == match primary_span_of(self.diagnostic.labels@) {
                Some(s) => s,
                None => span_at(0, 0, 1, 1),
            },
    {
        match self.diagnostic.primary_span() {
            Some(s) => s,
            None => Span::default(),
        }
    }

    pub fn code(&self) -> (r: &str)
        ensures
            r@ == self.diagnostic.code@,
    {
        self.diagnostic.code.as_str()
    }

    pub fn message(&self) -> (r: &str)
        ensures
            r@ == self.diagnostic.message@,
    {
        self.diagnostic.message.as_str()
    }

    /// The one-line text form: `[code] message at line L, column C`, where
    /// the position is the start of the primary label (0, 0 without one).
    pub fn to_display_string(&self) -> (r: String)
        ensures
            r@ == "["@ + self.diagnostic.code@ + "] "@ + self.diagnostic.message@ + " at line "@
                + decimal_spec(location_of(self.diagnostic.labels@).line as nat) + ", column "@
                + decimal_spec(location_of(self.diagnostic.labels@).column as nat),
    {
        let loc = self.diagnostic.location();
        let mut s = owned("[");
        push_str(&mut s, self.diagnostic.code.as_str());
        push_str(&mut s, "] ");
        push_str(&mut s, self.diagnostic.message.as_str());
        push_str(&mut s, " at line ");
        push_str(&mut s, decimal(loc.line as u64).as_str());
        push_str(&mut s, ", column ");
        push_str(&mut s, decimal(loc.column as u64).as_str());
        s
    }

    /// The error a syntax error becomes.
    pub fn from_parse_error(e: ParseError) -> (r: Self)
        ensures
            is_new_error(
                *r.diagnostic,
                e.message@,
                span_at(e.location.offset, sat_add(e.location.offset, 1), e.location.line, e.location.column),
                e.code@,
            ),
    {
        CompileError { diagnostic: Box::new(e.into_diagnostic()) }
    }

    /// The first diagnostic of a batch, or a generic `E200` "parse failed"
    /// error for an empty batch.
    pub fn from_batch(batch: DiagnosticBatch) -> (r: Self)
        ensures
            batch.items().len() > 0 ==> *r.diagnostic == batch.items()[0],
            batch.items().len() == 0 ==> {
                &&& r.diagnostic.severity == Severity::Error
                &&& r.diagnostic.code@ == "E200"@
                &&& r.diagnostic.message@ == "parse failed"@
                &&& r.diagnostic.labels@.len() == 0
            },
    {
        let mut items = batch.into_diagnostics();
        let diag = if items.len() == 0 {
            Diagnostic::error(owned("E200"), owned("parse failed"))
        } else {
            items.remove(0)
        };
        CompileError { diagnostic: Box::new(diag) }
    }
}

} // verus!
