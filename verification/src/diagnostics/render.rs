//! Rustc-like multi-label diagnostic rendering.

use vstd::prelude::*;
use crate::diagnostics::annotate::{render_rows, rows_spec};
use crate::diagnostics::source::SourceFile;
use crate::diagnostics::{first_primary, lemma_first_primary, Diagnostic, Label, Severity};
use crate::text::{chars_of, decimal, decimal_spec, owned, push_char, push_str};

verus! {

/// Whether to emit ANSI colors.
#[derive(Debug, Clone, Copy, PartialEq, Eq, Structural)]
pub enum ColorChoice {
    Always,
    Never,
    /// Color when the output is a terminal and `NO_COLOR` is unset.
    Auto,
}

impl ColorChoice {
    /// Whether to color, given whether `NO_COLOR` is set: `Auto` colors
    /// unless it is (drivers may force `Always` / `Never`).
    pub fn resolve_with(self, no_color_set: bool) -> (r: bool)
        ensures
            r == match self {
                ColorChoice::Always => true,
                ColorChoice::Never => false,
                ColorChoice::Auto => !no_color_set,
            },
    {
        match self {
            ColorChoice::Always => true,
            ColorChoice::Never => false,
            ColorChoice::Auto => !no_color_set,
        }
    }
}

/// `text` wrapped in the ANSI escape `code` when coloring.
pub open spec fn paint_spec(color: bool, code: Seq<char>, text: Seq<char>) -> Seq<char> {
    if color {
        "\x1b["@ + code + "m"@ + text + "\x1b[0m"@
    } else {
        text
    }
}

pub(crate) fn paint(color: bool, code: &str, text: &str) -> (r: String)
    ensures
        r@ == paint_spec(color, code@, text@),
{
    if color {
        let mut s = owned("\x1b[");
        push_str(&mut s, code);
        push_str(&mut s, "m");
        push_str(&mut s, text);
        push_str(&mut s, "\x1b[0m");
        s
    } else {
        owned(text)
    }
}

pub open spec fn severity_word(s: Severity) -> Seq<char> {
    match s {
        Severity::Error => "error"@,
        Severity::Warning => "warning"@,
        Severity::Note => "note"@,
        Severity::Help => "help"@,
    }
}

/// Bold red, yellow, blue, green for the four severities.
pub open spec fn severity_style(s: Severity) -> Seq<char> {
    match s {
        Severity::Error => "1;31"@,
        Severity::Warning => "1;33"@,
        Severity::Note => "1;34"@,
        Severity::Help => "1;32"@,
    }
}

/// `error[E0001]: message`, or `error: message` without a code.
pub open spec fn header_spec(d: Diagnostic) -> Seq<char> {
    if d.code@.len() == 0 {
        severity_word(d.severity) + ": "@ + d.message@
    } else {
        severity_word(d.severity) + "["@ + d.code@ + "]: "@ + d.message@
    }
}

/// The label whose start the `-->` line names: the first primary label,
/// else the first label.
pub open spec fn shown_label(labels: Seq<Label>) -> Option<int> {
    match first_primary(labels) {
        Some(i) => Some(i),
        None => if labels.len() > 0 {
            Some(0)
        } else {
            None
        },
    }
}

/// The `-->` line names the first label marked primary, whatever labels
/// come before it; with no primary label it names the first label, and with
/// no label none.
pub proof fn lemma_shown_label_is_first_primary(labels: Seq<Label>)
    ensures
        forall|i: int|
            0 <= i < labels.len() && #[trigger] labels[i].primary && (forall|j: int|
                0 <= j < i ==> !#[trigger] labels[j].primary) ==> shown_label(labels) == Some(i),
        (forall|j: int| 0 <= j < labels.len() ==> !#[trigger] labels[j].primary) && labels.len() > 0
            ==> shown_label(labels) == Some(0int),
        labels.len() == 0 ==> shown_label(labels) is None,
        shown_label(labels) matches Some(i) ==> 0 <= i < labels.len() && (labels[i].primary || forall|j: int|
            0 <= j < labels.len() ==> !#[trigger] labels[j].primary),
{
    lemma_first_primary(labels);
    assert forall|i: int|
        0 <= i < labels.len() && #[trigger] labels[i].primary && (forall|j: int|
            0 <= j < i ==> !#[trigger] labels[j].primary) implies shown_label(labels) == Some(i) by {
        match first_primary(labels) {
            Some(k) => {
                if k < i {
                    assert(!labels[k].primary);
                } else if k > i {
                    assert(!labels[i].primary);
                }
            },
            None => {
                assert(!labels[i].primary);
            },
        }
    }
}

/// The path shown: the diagnostic's own, else the file's.
pub open spec fn shown_path(d: Diagnostic, file: SourceFile) -> Seq<char> {
    if d.path@.len() == 0 {
        file.path@
    } else {
        d.path@
    }
}

pub open spec fn blue(color: bool, text: Seq<char>) -> Seq<char> {
    paint_spec(color, "1;34"@, text)
}

/// The `  --> path:line:column` line.
pub open spec fn location_line(d: Diagnostic, file: SourceFile, color: bool) -> Seq<char> {
    match shown_label(d.labels@) {
        Some(i) => {
            let loc = file.spec_location(d.labels@[i].span.lo);
            "  "@ + blue(color, "-->"@) + " "@ + shown_path(d, file) + ":"@ + decimal_spec(
                loc.line as nat,
            ) + ":"@ + decimal_spec(loc.column as nat) + "\n"@
        },
        None => "  "@ + blue(color, "-->"@) + " "@ + shown_path(d, file) + "\n"@,
    }
}

/// One `   = note: text` line per note.
pub open spec fn note_lines(notes: Seq<String>, color: bool) -> Seq<char>
    decreases notes.len(),
{
    if notes.len() == 0 {
        Seq::empty()
    } else {
        note_lines(notes.drop_last(), color) + "   "@ + blue(color, "="@) + " "@ + paint_spec(
            color,
            "1;36"@,
            "note"@,
        ) + ": "@ + notes.last()@ + "\n"@
    }
}

/// One `   = help: text` line per help.
pub open spec fn help_lines(helps: Seq<String>, color: bool) -> Seq<char>
    decreases helps.len(),
{
    if helps.len() == 0 {
        Seq::empty()
    } else {
        help_lines(helps.drop_last(), color) + "   "@ + blue(color, "="@) + " "@ + paint_spec(
            color,
            "1;32"@,
            "help"@,
        ) + ": "@ + helps.last()@ + "\n"@
    }
}

fn append_notes_helps(out: &mut String, diag: &Diagnostic, color: bool)
    ensures
        final(out)@ == old(out)@ + note_lines(diag.notes@, color) + help_lines(diag.helps@, color),
{
    let mut i: usize = 0;
    while i < diag.notes.len()
        invariant
            0 <= i <= diag.notes@.len(),
            out@ == old(out)@ + note_lines(diag.notes@.take(i as int), color),
        decreases diag.notes@.len() - i,
    {
        push_str(out, "   ");
        push_str(out, paint(color, "1;34", "=").as_str());
        push_str(out, " ");
        push_str(out, paint(color, "1;36", "note").as_str());
        push_str(out, ": ");
        push_str(out, diag.notes[i].as_str());
        push_str(out, "\n");
        proof {
            let t = diag.notes@.take(i + 1);
            assert(t.drop_last() =~= diag.notes@.take(i as int));
            assert(out@ =~= old(out)@ + note_lines(t, color));
        }
        i += 1;
    }
    assert(diag.notes@.take(diag.notes@.len() as int) =~= diag.notes@);
    let ghost mid = out@;
    let mut j: usize = 0;
    while j < diag.helps.len()
        invariant
            0 <= j <= diag.helps@.len(),
            out@ == mid + help_lines(diag.helps@.take(j as int), color),
        decreases diag.helps@.len() - j,
    {
        push_str(out, "   ");
        push_str(out, paint(color, "1;34", "=").as_str());
        push_str(out, " ");
        push_str(out, paint(color, "1;32", "help").as_str());
        push_str(out, ": ");
        push_str(out, diag.helps[j].as_str());
        push_str(out, "\n");
        proof {
            let t = diag.helps@.take(j + 1);
            assert(t.drop_last() =~= diag.helps@.take(j as int));
            assert(out@ =~= mid + help_lines(t, color));
        }
        j += 1;
    }
    assert(diag.helps@.take(diag.helps@.len() as int) =~= diag.helps@);
    assert(out@ =~= old(out)@ + note_lines(diag.notes@, color) + help_lines(diag.helps@, color));
}

/// `n` spaces.
pub(crate) fn spaces(n: usize) -> (r: String)
    ensures
        r@ == Seq::new(n as nat, |i: int| ' '),
{
    let mut s = String::new();
    let mut i: usize = 0;
    while i < n
        invariant
            0 <= i <= n,
            s@ == Seq::new(i as nat, |k: int| ' '),
        decreases n - i,
    {
        push_char(&mut s, ' ');
        proof {
            assert(s@ =~= Seq::new((i + 1) as nat, |k: int| ' '));
        }
        i += 1;
    }
    s
}

/// `n` right-aligned in `width` columns.
pub(crate) fn right_aligned(n: usize, width: usize) -> (r: String)
    ensures
        r@ == Seq::new(
            if width > decimal_spec(n as nat).len() { (width - decimal_spec(n as nat).len()) as nat } else { 0 },
            |i: int| ' ',
        ) + decimal_spec(n as nat),
{
    let d = decimal(n as u64);
    let len = chars_of(d.as_str()).len();
    let mut s = spaces(if width > len { width - len } else { 0 });
    push_str(&mut s, d.as_str());
    s
}

fn header_line(diag: &Diagnostic, color: bool) -> (r: String)
    ensures
        r@ == paint_spec(color, severity_style(diag.severity), header_spec(*diag)) + "\n"@,
{
    let (word, style) = match diag.severity {
        Severity::Error => ("error", "1;31"),
        Severity::Warning => ("warning", "1;33"),
        Severity::Note => ("note", "1;34"),
        Severity::Help => ("help", "1;32"),
    };
    let mut header = owned(word);
    if chars_of(diag.code.as_str()).len() == 0 {
        push_str(&mut header, ": ");
    } else {
        push_str(&mut header, "[");
        push_str(&mut header, diag.code.as_str());
        push_str(&mut header, "]: ");
    }
    push_str(&mut header, diag.message.as_str());
    assert(header@ =~= header_spec(*diag));
    let mut out = paint(color, style, header.as_str());
    push_str(&mut out, "\n");
    out
}

fn shown_label_index(labels: &Vec<Label>) -> (r: Option<usize>)
    ensures
        match r {
            Some(i) => shown_label(labels@) == Some(i as int) && i < labels@.len(),
            None => shown_label(labels@) is None,
        },
{
    proof {
        lemma_first_primary(labels@);
    }
    let mut k: usize = 0;
    while k < labels.len()
        invariant
            0 <= k <= labels@.len(),
            forall|j: int| 0 <= j < k ==> !#[trigger] labels@[j].primary,
        decreases labels@.len() - k,
    {
        if labels[k].primary {
            proof {
                lemma_first_primary(labels@);
            }
            return Some(k);
        }
        k += 1;
    }
    proof {
        lemma_first_primary(labels@);
    }
    if labels.len() > 0 {
        Some(0)
    } else {
        None
    }
}

fn location_text(diag: &Diagnostic, file: &SourceFile, color: bool) -> (r: String)
    requires
        file.wf(),
    ensures
        r@ == location_line(*diag, *file, color),
{
    let path = if chars_of(diag.path.as_str()).len() == 0 {
        file.path.as_str()
    } else {
        diag.path.as_str()
    };
    let shown = shown_label_index(&diag.labels);
    let mut out = owned("  ");
    push_str(&mut out, paint(color, "1;34", "-->").as_str());
    push_str(&mut out, " ");
    push_str(&mut out, path);
    match shown {
        Some(i) => {
            let loc = file.span_start(diag.labels[i].span);
            push_str(&mut out, ":");
            push_str(&mut out, decimal(loc.line as u64).as_str());
            push_str(&mut out, ":");
            push_str(&mut out, decimal(loc.column as u64).as_str());
        },
        None => {},
    }
    push_str(&mut out, "\n");
    assert(out@ =~= location_line(*diag, *file, color));
    out
}

/// The header line and the `-->` line.
fn render_head(diag: &Diagnostic, file: &SourceFile, color: bool) -> (r: String)
    requires
        file.wf(),
    ensures
        r@ == paint_spec(color, severity_style(diag.severity), header_spec(*diag)) + "\n"@
            + location_line(*diag, *file, color),
{
    let mut out = header_line(diag, color);
    push_str(&mut out, location_text(diag, file, color).as_str());
    out
}

/// When label `i` is the first primary label, the rendering's second line
/// is `  --> path:line:column` with the line and column where that label
/// starts in `file`.
pub proof fn lemma_location_names_first_primary(d: Diagnostic, file: SourceFile, color: bool, i: int)
    requires
        0 <= i < d.labels@.len(),
        d.labels@[i].primary,
        forall|j: int| 0 <= j < i ==> !#[trigger] d.labels@[j].primary,
    ensures
        ({
            let head = paint_spec(color, severity_style(d.severity), header_spec(d)) + "\n"@;
            let loc = file.spec_location(d.labels@[i].span.lo);
            let line = "  "@ + blue(color, "-->"@) + " "@ + shown_path(d, file) + ":"@ + decimal_spec(
                loc.line as nat,
            ) + ":"@ + decimal_spec(loc.column as nat) + "\n"@;
            &&& location_line(d, file, color) == line
            &&& render_spec(d, file, color).subrange(head.len() as int, (head.len() + line.len()) as int) == line
        }),
{
    lemma_shown_label_is_first_primary(d.labels@);
    assert(shown_label(d.labels@) == Some(i));
    let head = paint_spec(color, severity_style(d.severity), header_spec(d)) + "\n"@;
    let rows = if d.labels@.len() > 0 {
        rows_spec(file, d.labels@, color)
    } else {
        Seq::empty()
    };
    lemma_second_piece(head, location_line(d, file, color), rows, note_lines(d.notes@, color), help_lines(d.helps@, color));
}

/// The second of five pieces put end to end is found right after the first.
proof fn lemma_second_piece(a: Seq<char>, b: Seq<char>, x: Seq<char>, y: Seq<char>, z: Seq<char>)
    ensures
        (a + b + x + y + z).subrange(a.len() as int, (a.len() + b.len()) as int) == b,
{
    assert((a + b + x + y + z).subrange(a.len() as int, (a.len() + b.len()) as int) =~= b);
}

/// The rendering of `diag`: the header line, the `-->` line, the annotated
/// rows when it has labels, then its notes and helps.
pub open spec fn render_spec(diag: Diagnostic, file: SourceFile, color: bool) -> Seq<char> {
    paint_spec(color, severity_style(diag.severity), header_spec(diag)) + "\n"@ + location_line(diag, file, color)
        + (if diag.labels@.len() > 0 {
        rows_spec(file, diag.labels@, color)
    } else {
        Seq::empty()
    }) + note_lines(diag.notes@, color) + help_lines(diag.helps@, color)
}

/// Render `diag` against `file` in rustc layout; `color` turns on ANSI colors.
///
/// The output is the header line, the `-->` line, then (when there are
/// labels) the annotated source rows between two gutter lines, then one line
/// per note and per help.
pub fn render(diag: &Diagnostic, file: &SourceFile, color: bool) -> (r: String)
    requires
        file.wf(),
    ensures
        r@ == render_spec(*diag, *file, color),
{
    let mut out = render_head(diag, file, color);
    if diag.labels.len() > 0 {
        let rows = render_rows(diag, file, color);
        push_str(&mut out, rows.as_str());
    }
    append_notes_helps(&mut out, diag, color);
    out
}

} // verus!
