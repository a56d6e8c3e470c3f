//! Rustc-style diagnostics: spans, labels, notes / help lines.

pub mod annotate;
pub mod batch;
pub mod explain;
pub mod render;
pub mod source;
pub mod span;

pub use batch::{DiagnosticBatch, DEFAULT_ERROR_LIMIT};
pub use explain::{explain_code, format_explain, normalize_code, ExplainEntry};
pub use render::{render, ColorChoice};
pub use source::SourceFile;
pub use span::Span;

use vstd::prelude::*;
use crate::token::Location;
use crate::diagnostics::span::span_at;

verus! {

/// How serious a diagnostic is.
#[derive(Debug, Clone, Copy, PartialEq, Eq, Structural)]
pub enum Severity {
    Error,
    Warning,
    Note,
    Help,
}

/// A labeled underline on a source range.
#[derive(Debug, Clone)]
pub struct Label {
    pub span: Span,
    pub message: String,
    /// Primary underline (`^`) when true, secondary (`-`) otherwise.
    pub primary: bool,
}

impl Label {
    pub fn primary(span: Span, message: String) -> (r: Self)
        ensures
            r.span == span,
            r.message@ == message@,
            r.primary,
    {
        Label { span, message, primary: true }
    }

    pub fn secondary(span: Span, message: String) -> (r: Self)
        ensures
            r.span == span,
            r.message@ == message@,
            !r.primary,
    {
        Label { span, message, primary: false }
    }

    /// A field-for-field copy.
    pub fn duplicate(&self) -> (r: Self)
        ensures
            r.span == self.span,
            r.message@ == self.message@,
            r.primary == self.primary,
    {
        Label { span: self.span, message: self.message.clone(), primary: self.primary }
    }
}

/// A structured failure ready for rendering.
#[derive(Debug, Clone)]
pub struct Diagnostic {
    pub severity: Severity,
    pub code: String,
    pub message: String,
    /// Source path shown in `--> path:line:col` (empty if unknown).
    pub path: String,
    pub labels: Vec<Label>,
    pub notes: Vec<String>,
    pub helps: Vec<String>,
}

/// Index of the first primary label, if any.
pub open spec fn first_primary(labels: Seq<Label>) -> Option<int>
    decreases labels.len(),
{
    if labels.len() == 0 {
        None
    } else if labels[0].primary {
        Some(0)
    } else {
        match first_primary(labels.drop_first()) {
            Some(i) => Some(i + 1),
            None => None,
        }
    }
}

pub proof fn lemma_first_primary(labels: Seq<Label>)
    ensures
        match first_primary(labels) {
            Some(i) => 0 <= i < labels.len() && labels[i].primary && forall|j: int|
                0 <= j < i ==> !#[trigger] labels[j].primary,
            None => forall|j: int| 0 <= j < labels.len() ==> !#[trigger] labels[j].primary,
        },
    decreases labels.len(),
{
    if labels.len() > 0 {
        lemma_first_primary(labels.drop_first());
        if !labels[0].primary {
            assert forall|j: int| 1 <= j < labels.len() implies labels[j] == labels.drop_first()[j
                - 1] by {}
        }
    }
}

/// Seq of string views of a vector of strings.
pub open spec fn views(v: Seq<String>) -> Seq<Seq<char>> {
    v.map_values(|s: String| s@)
}

/// Primary span of a label list (first primary label), if any.
pub open spec fn primary_span_of(labels: Seq<Label>) -> Option<Span> {
    match first_primary(labels) {
        Some(i) => Some(labels[i].span),
        None => None,
    }
}

/// Fallback location of a label list.
pub open spec fn location_of(labels: Seq<Label>) -> Location {
    match primary_span_of(labels) {
        Some(s) => Location { line: s.line, column: s.column, offset: s.lo },
        None => Location { line: 0, column: 0, offset: 0 },
    }
}

impl Diagnostic {
    pub fn error(code: String, message: String) -> (r: Self)
        ensures
            r.severity == Severity::Error,
            r.code@ == code@,
            r.message@ == message@,
            r.path@.len() == 0,
            r.labels@.len() == 0,
            r.notes@.len() == 0,
            r.helps@.len() == 0,
    {
        Diagnostic {
            severity: Severity::Error,
            code,
            message,
            path: String::new(),
            labels: Vec::new(),
            notes: Vec::new(),
            helps: Vec::new(),
        }
    }

    pub fn with_path(self, path: String) -> (r: Self)
        ensures
            r.path@ == path@,
            r.severity == self.severity,
            r.code == self.code,
            r.message == self.message,
            r.labels == self.labels,
            r.notes == self.notes,
            r.helps == self.helps,
    {
        let mut d = self;
        d.path = path;
        d
    }

    /// Insert a primary label in front of the existing labels.
    pub fn with_primary(self, span: Span, message: String) -> (r: Self)
        ensures
            r.labels@.len() == self.labels@.len() + 1,
            r.labels@[0].span == span,
            r.labels@[0].message@ == message@,
            r.labels@[0].primary,
            r.labels@.drop_first() == self.labels@,
            r.severity == self.severity,
            r.code == self.code,
            r.message == self.message,
            r.path == self.path,
            r.notes == self.notes,
            r.helps == self.helps,
    {
        let mut d = self;
        d.labels.insert(0, Label::primary(span, message));
        proof {
            assert(d.labels@.drop_first() =~= self.labels@);
        }
        d
    }

    /// Append a secondary label.
    pub fn with_label(self, span: Span, message: String) -> (r: Self)
        ensures
            r.labels@.len() == self.labels@.len() + 1,
            r.labels@.drop_last() == self.labels@,
            r.labels@.last().span == span,
            r.labels@.last().message@ == message@,
            !r.labels@.last().primary,
            r.severity == self.severity,
            r.code == self.code,
            r.message == self.message,
            r.path == self.path,
            r.notes == self.notes,
            r.helps == self.helps,
    {
        let mut d = self;
        d.labels.push(Label::secondary(span, message));
        proof {
            assert(d.labels@.drop_last() =~= self.labels@);
        }
        d
    }

    pub fn with_note(self, note: String) -> (r: Self)
        ensures
            r.notes@ == self.notes@.push(note),
            r.severity == self.severity,
            r.code == self.code,
            r.message == self.message,
            r.path == self.path,
            r.labels == self.labels,
            r.helps == self.helps,
    {
        let mut d = self;
        d.notes.push(note);
        d
    }

    pub fn with_help(self, help: String) -> (r: Self)
        ensures
            r.helps@ == self.helps@.push(help),
            r.severity == self.severity,
            r.code == self.code,
            r.message == self.message,
            r.path == self.path,
            r.labels == self.labels,
            r.notes == self.notes,
    {
        let mut d = self;
        d.helps.push(help);
        d
    }

    /// Span of the first primary label, if any.
    pub fn primary_span(&self) -> (r: Option<Span>)
        ensures
            r == primary_span_of(self.labels@),
    {
        proof {
            lemma_first_primary(self.labels@);
        }
        let mut i: usize = 0;
        while i < self.labels.len()
            invariant
                0 <= i <= self.labels@.len(),
                forall|j: int| 0 <= j < i ==> !#[trigger] self.labels@[j].primary,
                match first_primary(self.labels@) {
                    Some(k) => 0 <= k < self.labels@.len() && self.labels@[k].primary && forall|
                        j: int,
                    | 0 <= j < k ==> !#[trigger] self.labels@[j].primary,
                    None => forall|j: int|
                        0 <= j < self.labels@.len() ==> !#[trigger] self.labels@[j].primary,
                },
            decreases self.labels@.len() - i,
        {
            if self.labels[i].primary {
                return Some(self.labels[i].span);
            }
            i += 1;
        }
        None
    }

    /// Start of the primary span, or the default location.
    pub fn location(&self) -> (r: Location)
        ensures
            r == location_of(self.labels@),
    {
        match self.primary_span() {
            Some(s) => s.start_location(),
            None => Location::default(),
        }
    }

    /// A field-for-field copy.
    pub fn duplicate(&self) -> (r: Self)
        ensures
            r.severity == self.severity,
            r.code@ == self.code@,
            r.message@ == self.message@,
            r.path@ == self.path@,
            r.labels@.len() == self.labels@.len(),
            forall|i: int| 0 <= i < self.labels@.len() ==> {
                &&& (#[trigger] r.labels@[i]).span == self.labels@[i].span
                &&& r.labels@[i].message@ == self.labels@[i].message@
                &&& r.labels@[i].primary == self.labels@[i].primary
            },
            views(r.notes@) == views(self.notes@),
            views(r.helps@) == views(self.helps@),
    {
        let mut labels: Vec<Label> = Vec::new();
        let mut i: usize = 0;
        while i < self.labels.len()
            invariant
                0 <= i <= self.labels@.len(),
                labels@.len() == i,
                forall|k: int| 0 <= k < i ==> {
                    &&& (#[trigger] labels@[k]).span == self.labels@[k].span
                    &&& labels@[k].message@ == self.labels@[k].message@
                    &&& labels@[k].primary == self.labels@[k].primary
                },
            decreases self.labels@.len() - i,
        {
            labels.push(self.labels[i].duplicate());
            i += 1;
        }
        let notes = copy_strings(&self.notes);
        let helps = copy_strings(&self.helps);
        Diagnostic {
            severity: self.severity,
            code: self.code.clone(),
            message: self.message.clone(),
            path: self.path.clone(),
            labels,
            notes,
            helps,
        }
    }
}

/// Copy a vector of strings element by element.
pub fn copy_strings(v: &Vec<String>) -> (r: Vec<String>)
    ensures
        views(r@) == views(v@),
{
    let mut out: Vec<String> = Vec::new();
    let mut i: usize = 0;
    while i < v.len()
        invariant
            0 <= i <= v@.len(),
            out@.len() == i,
            forall|k: int| 0 <= k < i ==> (#[trigger] out@[k])@ == v@[k]@,
        decreases v@.len() - i,
    {
        out.push(v[i].clone());
        i += 1;
    }
    assert(views(out@) =~= views(v@));
    out
}

} // verus!
