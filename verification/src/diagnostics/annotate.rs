//! The annotated source rows of a rendered diagnostic: every line a label
//! touches, with carets (`^`, primary) and dashes (`-`, secondary) under the
//! labelled columns and each label's message aligned below.

use vstd::prelude::*;
use crate::diagnostics::render::{blue, paint, paint_spec, right_aligned, spaces};
use crate::diagnostics::source::SourceFile;
use crate::diagnostics::{Diagnostic, Label, Span};
use crate::text::{chars_of, decimal, decimal_spec, is_whitespace, is_ws, owned, push_str, slice_chars, string_of_chars};

verus! {

// ---------------------------------------------------------------------------
// Which lines are shown
// ---------------------------------------------------------------------------

/// The first and last line a span touches (the last never before the first).
pub open spec fn label_range(file: SourceFile, span: Span) -> (int, int) {
    let s = file.spec_location(span.lo).line as int;
    let e = file.spec_location(span.hi).line as int;
    (s, if e >= s { e } else { s })
}

/// Whether label `l` touches `line`.
pub open spec fn on_line(file: SourceFile, l: Label, line: int) -> bool {
    label_range(file, l.span).0 <= line <= label_range(file, l.span).1
}

/// Whether some label touches `line`.
pub open spec fn covered(file: SourceFile, labels: Seq<Label>, line: int) -> bool {
    exists|j: int| 0 <= j < labels.len() && on_line(file, #[trigger] labels[j], line)
}

/// The smallest first line of the labels (`usize::MAX` for none).
pub open spec fn min_start(file: SourceFile, labels: Seq<Label>) -> int
    decreases labels.len(),
{
    if labels.len() == 0 {
        usize::MAX as int
    } else {
        let m = min_start(file, labels.drop_last());
        let s = label_range(file, labels.last().span).0;
        if s < m {
            s
        } else {
            m
        }
    }
}

/// The largest last line of the labels (0 for none).
pub open spec fn max_end(file: SourceFile, labels: Seq<Label>) -> int
    decreases labels.len(),
{
    if labels.len() == 0 {
        0
    } else {
        let m = max_end(file, labels.drop_last());
        let e = label_range(file, labels.last().span).1;
        if e > m {
            e
        } else {
            m
        }
    }
}

/// The lines among the `n` lines from `lo` that some label touches, in order.
pub open spec fn lines_from(file: SourceFile, labels: Seq<Label>, lo: int, n: nat) -> Seq<int>
    decreases n,
{
    if n == 0 {
        Seq::empty()
    } else {
        let prev = lines_from(file, labels, lo, (n - 1) as nat);
        if covered(file, labels, lo + n - 1) {
            prev.push(lo + n - 1)
        } else {
            prev
        }
    }
}

/// Every line some label touches, in increasing order.
pub open spec fn annotated_lines(file: SourceFile, labels: Seq<Label>) -> Seq<int> {
    let lo = min_start(file, labels);
    let hi = max_end(file, labels);
    if lo <= hi {
        lines_from(file, labels, lo, (hi - lo + 1) as nat)
    } else {
        Seq::empty()
    }
}

/// The indices of the labels that touch `line`, in order.
pub open spec fn labels_on(file: SourceFile, labels: Seq<Label>, line: int) -> Seq<int>
    decreases labels.len(),
{
    if labels.len() == 0 {
        Seq::empty()
    } else {
        let prev = labels_on(file, labels.drop_last(), line);
        if on_line(file, labels.last(), line) {
            prev.push(labels.len() - 1)
        } else {
            prev
        }
    }
}

/// The line range of each label, in order.
fn label_ranges(file: &SourceFile, labels: &Vec<Label>) -> (r: (Vec<(usize, usize)>, usize, usize))
    requires
        file.wf(),
    ensures
        r.0@.len() == labels@.len(),
        forall|j: int|
            0 <= j < labels@.len() ==> (#[trigger] r.0@[j]).0 == label_range(*file, labels@[j].span).0
                && r.0@[j].1 == label_range(*file, labels@[j].span).1,
        r.1 == min_start(*file, labels@),
        r.2 == max_end(*file, labels@),
{
    let mut ranges: Vec<(usize, usize)> = Vec::new();
    let mut lo: usize = usize::MAX;
    let mut hi: usize = 0;
    let mut i: usize = 0;
    while i < labels.len()
        invariant
            file.wf(),
            0 <= i <= labels@.len(),
            ranges@.len() == i,
            forall|j: int|
                0 <= j < i ==> (#[trigger] ranges@[j]).0 == label_range(*file, labels@[j].span).0
                    && ranges@[j].1 == label_range(*file, labels@[j].span).1,
            lo == min_start(*file, labels@.take(i as int)),
            hi == max_end(*file, labels@.take(i as int)),
        decreases labels@.len() - i,
    {
        let s = file.span_start(labels[i].span).line;
        let e0 = file.span_end(labels[i].span).line;
        let e = if e0 >= s { e0 } else { s };
        proof {
            assert(labels@.take(i + 1).drop_last() =~= labels@.take(i as int));
            assert(labels@.take(i + 1).last() == labels@[i as int]);
        }
        if s < lo {
            lo = s;
        }
        if e > hi {
            hi = e;
        }
        ranges.push((s, e));
        i += 1;
    }
    assert(labels@.take(i as int) =~= labels@);
    (ranges, lo, hi)
}

/// Whether one of `ranges` contains `line`.
fn hits(ranges: &Vec<(usize, usize)>, line: usize) -> (r: bool)
    ensures
        r == exists|j: int| 0 <= j < ranges@.len() && (#[trigger] ranges@[j]).0 <= line <= ranges@[j].1,
{
    let mut j: usize = 0;
    while j < ranges.len()
        invariant
            0 <= j <= ranges@.len(),
            forall|q: int| 0 <= q < j ==> !((#[trigger] ranges@[q]).0 <= line <= ranges@[q].1),
        decreases ranges@.len() - j,
    {
        if ranges[j].0 <= line && line <= ranges[j].1 {
            return true;
        }
        j += 1;
    }
    false
}

/// The shown lines (see `annotated_lines`), with the line range of each label.
fn shown_lines(file: &SourceFile, labels: &Vec<Label>) -> (r: (Vec<usize>, Vec<(usize, usize)>))
    requires
        file.wf(),
    ensures
        r.0@.map_values(|l: usize| l as int) == annotated_lines(*file, labels@),
        r.1@.len() == labels@.len(),
        forall|j: int|
            0 <= j < labels@.len() ==> (#[trigger] r.1@[j]).0 == label_range(*file, labels@[j].span).0
                && r.1@[j].1 == label_range(*file, labels@[j].span).1,
{
    let (ranges, lo, hi) = label_ranges(file, labels);
    let mut lines: Vec<usize> = Vec::new();
    if lo <= hi {
        let mut line = lo;
        assert(lines@.map_values(|l: usize| l as int) =~= lines_from(*file, labels@, lo as int, 0));
        loop
            invariant_except_break
                lines@.map_values(|l: usize| l as int) == lines_from(
                    *file,
                    labels@,
                    lo as int,
                    (line - lo) as nat,
                ),
            invariant
                lo <= line <= hi,
                ranges@.len() == labels@.len(),
                forall|j: int|
                    0 <= j < labels@.len() ==> (#[trigger] ranges@[j]).0 == label_range(*file, labels@[j].span).0
                        && ranges@[j].1 == label_range(*file, labels@[j].span).1,
            ensures
                lines@.map_values(|l: usize| l as int) == lines_from(
                    *file,
                    labels@,
                    lo as int,
                    (hi - lo + 1) as nat,
                ),
            decreases hi - line,
        {
            let hit = hits(&ranges, line);
            proof {
                if hit {
                    let j = choose|j: int| 0 <= j < ranges@.len() && (#[trigger] ranges@[j]).0 <= line <= ranges@[j].1;
                    assert(on_line(*file, labels@[j], line as int));
                    assert(covered(*file, labels@, line as int));
                } else {
                    assert forall|j: int| 0 <= j < labels@.len() implies !on_line(*file, #[trigger] labels@[j], line as int) by {
                        assert(!(ranges@[j].0 <= line <= ranges@[j].1));
                    }
                }
            }
            let ghost prev = lines@;
            if hit {
                lines.push(line);
                assert(lines@.map_values(|l: usize| l as int) =~= prev.map_values(|l: usize| l as int).push(
                    line as int,
                ));
            }
            assert(lines@.map_values(|l: usize| l as int) == lines_from(
                *file,
                labels@,
                lo as int,
                (line - lo + 1) as nat,
            ));
            if line == hi {
                break;
            }
            line += 1;
        }
    }
    (lines, ranges)
}

/// The indices of the labels whose range holds `line`.
fn labels_on_line(file: &SourceFile, labels: &Vec<Label>, ranges: &Vec<(usize, usize)>, line: usize) -> (r: Vec<usize>)
    requires
        ranges@.len() == labels@.len(),
        forall|j: int|
            0 <= j < labels@.len() ==> (#[trigger] ranges@[j]).0 == label_range(*file, labels@[j].span).0
                && ranges@[j].1 == label_range(*file, labels@[j].span).1,
    ensures
        r@.map_values(|x: usize| x as int) == labels_on(*file, labels@, line as int),
        forall|q: int| 0 <= q < r@.len() ==> (#[trigger] r@[q]) < labels@.len(),
{
    let mut out: Vec<usize> = Vec::new();
    let mut j: usize = 0;
    assert(out@.map_values(|x: usize| x as int) =~= labels_on(*file, labels@.take(0), line as int));
    while j < ranges.len()
        invariant
            0 <= j <= ranges@.len(),
            ranges@.len() == labels@.len(),
            forall|j: int|
                0 <= j < labels@.len() ==> (#[trigger] ranges@[j]).0 == label_range(*file, labels@[j].span).0
                    && ranges@[j].1 == label_range(*file, labels@[j].span).1,
            out@.map_values(|x: usize| x as int) == labels_on(*file, labels@.take(j as int), line as int),
            forall|q: int| 0 <= q < out@.len() ==> (#[trigger] out@[q]) < j,
        decreases ranges@.len() - j,
    {
        proof {
            assert(labels@.take(j + 1).drop_last() =~= labels@.take(j as int));
            assert(labels@.take(j + 1).last() == labels@[j as int]);
        }
        let ghost prev = out@;
        if ranges[j].0 <= line && line <= ranges[j].1 {
            out.push(j);
            assert(out@.map_values(|x: usize| x as int) =~= prev.map_values(|x: usize| x as int).push(j as int));
        }
        j += 1;
    }
    assert(labels@.take(j as int) =~= labels@);
    out
}

// ---------------------------------------------------------------------------
// Text helpers
// ---------------------------------------------------------------------------

/// Whether every character is whitespace.
pub open spec fn blank(s: Seq<char>) -> bool {
    forall|i: int| 0 <= i < s.len() ==> is_ws(#[trigger] s[i])
}

fn is_blank(cs: &Vec<char>) -> (r: bool)
    ensures
        r == blank(cs@),
{
    let mut i: usize = 0;
    while i < cs.len()
        invariant
            0 <= i <= cs@.len(),
            forall|j: int| 0 <= j < i ==> is_ws(#[trigger] cs@[j]),
        decreases cs@.len() - i,
    {
        if !is_whitespace(cs[i]) {
            return false;
        }
        i += 1;
    }
    true
}

/// `s` without its trailing whitespace.
pub open spec fn trim_trailing(s: Seq<char>) -> Seq<char>
    decreases s.len(),
{
    if s.len() > 0 && is_ws(s.last()) {
        trim_trailing(s.drop_last())
    } else {
        s
    }
}

fn trim_end(cs: &Vec<char>) -> (r: String)
    ensures
        r@ == trim_trailing(cs@),
{
    let mut end = cs.len();
    assert(cs@.take(end as int) =~= cs@);
    while end > 0 && is_whitespace(cs[end - 1])
        invariant
            end <= cs@.len(),
            trim_trailing(cs@) == trim_trailing(cs@.take(end as int)),
        decreases end,
    {
        proof {
            assert(cs@.take(end as int).drop_last() =~= cs@.take(end - 1));
        }
        end -= 1;
    }
    let head = slice_chars(cs, 0, end);
    assert(head@ =~= cs@.take(end as int));
    string_of_chars(&head)
}

// ---------------------------------------------------------------------------
// The underline row
// ---------------------------------------------------------------------------

/// 1-based columns a span covers on `line` of a row with `cols` characters:
/// from its start column (1 when it starts on an earlier line) to its end
/// column (past the row when it ends on a later line; at least one column).
pub open spec fn underline_cols_spec(file: SourceFile, cols: usize, line: usize, span: Span) -> (usize, usize) {
    let sl = file.spec_location(span.lo);
    let el = file.spec_location(span.hi);
    let col_start = if sl.line == line { sl.column } else { 1usize };
    let col_end = if el.line == line {
        if el.column > col_start {
            el.column
        } else {
            sat_add(col_start, 1)
        }
    } else {
        sat_add(cols, 1)
    };
    (col_start, col_end)
}

pub open spec fn sat_add(a: usize, b: usize) -> usize {
    if a + b > usize::MAX {
        usize::MAX
    } else {
        (a + b) as usize
    }
}

pub open spec fn sat_sub1(a: usize) -> usize {
    if a >= 1 {
        (a - 1) as usize
    } else {
        0
    }
}

/// The 0-based half-open range of marks a span puts in a row `width` wide,
/// never empty and never past the row.
pub open spec fn mark_range(file: SourceFile, span: Span, line: usize, cols: usize, width: usize) -> (int, int) {
    let c = underline_cols_spec(file, cols, line, span);
    let a = sat_sub1(c.0);
    let start = if a < width - 1 { a as int } else { width - 1 };
    let b = sat_sub1(c.1) as int;
    let b2 = if b > start + 1 { b } else { start + 1 };
    let end = if b2 < width { b2 } else { width as int };
    (start, end)
}

/// Whether the `t`-th label on the line marks column `c`.
pub open spec fn covers(
    file: SourceFile,
    labels: Seq<Label>,
    on: Seq<int>,
    t: int,
    c: int,
    line: usize,
    cols: usize,
    width: usize,
) -> bool {
    let r = mark_range(file, labels[on[t]].span, line, cols, width);
    r.0 <= c < r.1
}

/// The mark under column `c`: a caret where a primary label marks it (they
/// win over dashes), else a dash where a secondary one does, else a space.
pub open spec fn mark_at(
    file: SourceFile,
    labels: Seq<Label>,
    on: Seq<int>,
    line: usize,
    cols: usize,
    width: usize,
    c: int,
) -> char {
    if exists|t: int| 0 <= t < on.len() && labels[on[t]].primary && #[trigger] covers(file, labels, on, t, c, line, cols, width) {
        '^'
    } else if exists|t: int| 0 <= t < on.len() && #[trigger] covers(file, labels, on, t, c, line, cols, width) {
        '-'
    } else {
        ' '
    }
}

/// The marks of a row: one per column, at least one column.
pub open spec fn marks_spec(file: SourceFile, labels: Seq<Label>, on: Seq<int>, line: usize, cols: usize) -> Seq<char> {
    let width: usize = if cols >= 1 { cols } else { 1 };
    Seq::new(width as nat, |c: int| mark_at(file, labels, on, line, cols, width, c))
}

fn underline_cols(file: &SourceFile, cols: usize, line_no: usize, span: Span) -> (r: (usize, usize))
    requires
        file.wf(),
    ensures
        r == underline_cols_spec(*file, cols, line_no, span),
{
    let start_loc = file.span_start(span);
    let end_loc = file.span_end(span);
    let col_start = if start_loc.line == line_no {
        start_loc.column
    } else {
        1
    };
    let col_end = if end_loc.line == line_no {
        if end_loc.column > col_start {
            end_loc.column
        } else {
            col_start.saturating_add(1)
        }
    } else {
        cols.saturating_add(1)
    };
    (col_start, col_end)
}

/// A label's mark over the mark `old` already there: carets always win.
pub open spec fn overlay(old: char, primary: bool) -> char {
    if primary {
        '^'
    } else if old == '^' {
        '^'
    } else {
        '-'
    }
}

proof fn lemma_mark_step(
    file: SourceFile,
    labels: Seq<Label>,
    prev: Seq<int>,
    j: int,
    line: usize,
    cols: usize,
    width: usize,
    c: int,
)
    ensures
        mark_at(file, labels, prev.push(j), line, cols, width, c) == if mark_range(file, labels[j].span, line, cols, width).0 <= c
            < mark_range(file, labels[j].span, line, cols, width).1 {
            overlay(mark_at(file, labels, prev, line, cols, width, c), labels[j].primary)
        } else {
            mark_at(file, labels, prev, line, cols, width, c)
        },
{
    let next = prev.push(j);
    let n = prev.len() as int;
    assert(next[n] == j);
    assert forall|t: int| 0 <= t < n implies next[t] == prev[t] by {}
    assert forall|t: int| 0 <= t < n implies #[trigger] covers(file, labels, next, t, c, line, cols, width) == covers(
        file,
        labels,
        prev,
        t,
        c,
        line,
        cols,
        width,
    ) by {
        assert(next[t] == prev[t]);
    }
    let r = mark_range(file, labels[j].span, line, cols, width);
    let in_new = r.0 <= c < r.1;
    assert(covers(file, labels, next, n, c, line, cols, width) == in_new);
    let old_p = exists|t: int| 0 <= t < prev.len() && labels[prev[t]].primary && #[trigger] covers(file, labels, prev, t, c, line, cols, width);
    let old_any = exists|t: int| 0 <= t < prev.len() && #[trigger] covers(file, labels, prev, t, c, line, cols, width);
    if old_p {
        let t = choose|t: int| 0 <= t < prev.len() && labels[prev[t]].primary && #[trigger] covers(file, labels, prev, t, c, line, cols, width);
        assert(labels[next[t]].primary && covers(file, labels, next, t, c, line, cols, width));
    } else if old_any {
        let t = choose|t: int| 0 <= t < prev.len() && #[trigger] covers(file, labels, prev, t, c, line, cols, width);
        assert(covers(file, labels, next, t, c, line, cols, width));
        if in_new && labels[j].primary {
            assert(labels[next[n]].primary && covers(file, labels, next, n, c, line, cols, width));
        } else {
            assert forall|t2: int| 0 <= t2 < next.len() && labels[next[t2]].primary implies !covers(file, labels, next, t2, c, line, cols, width) by {
                if t2 < n {
                    assert(next[t2] == prev[t2]);
                }
            }
        }
    } else {
        if in_new {
            assert(covers(file, labels, next, n, c, line, cols, width));
            if labels[j].primary {
                assert(labels[next[n]].primary);
            } else {
                assert forall|t2: int| 0 <= t2 < next.len() && labels[next[t2]].primary implies !covers(file, labels, next, t2, c, line, cols, width) by {
                    if t2 < n {
                        assert(next[t2] == prev[t2]);
                    }
                }
            }
        } else {
            assert forall|t2: int| 0 <= t2 < next.len() implies !covers(file, labels, next, t2, c, line, cols, width) by {
                if t2 < n {
                    assert(next[t2] == prev[t2]);
                }
            }
        }
    }
}

/// The marks under a row (see `marks_spec`).
fn underline_marks(file: &SourceFile, labels: &Vec<Label>, on: &Vec<usize>, line_no: usize, cols: usize) -> (r:
    Vec<char>)
    requires
        file.wf(),
        forall|q: int| 0 <= q < on@.len() ==> (#[trigger] on@[q]) < labels@.len(),
    ensures
        r@ == marks_spec(*file, labels@, on@.map_values(|x: usize| x as int), line_no, cols),
{
    let ghost onv = on@.map_values(|x: usize| x as int);
    let width: usize = if cols >= 1 { cols } else { 1 };
    let mut marks: Vec<char> = Vec::new();
    while marks.len() < width
        invariant
            marks@.len() <= width,
            forall|c: int| 0 <= c < marks@.len() ==> marks@[c] == ' ',
        decreases width - marks@.len(),
    {
        marks.push(' ');
    }
    let mut q: usize = 0;
    proof {
        assert forall|c: int| 0 <= c < width implies #[trigger] marks@[c] == mark_at(*file, labels@, onv.take(0), line_no, cols, width, c) by {
        }
    }
    while q < on.len()
        invariant
            file.wf(),
            onv == on@.map_values(|x: usize| x as int),
            forall|q: int| 0 <= q < on@.len() ==> (#[trigger] on@[q]) < labels@.len(),
            width == if cols >= 1 { cols } else { 1 },
            0 <= q <= on@.len(),
            marks@.len() == width,
            forall|c: int| 0 <= c < width ==> #[trigger] marks@[c] == mark_at(*file, labels@, onv.take(q as int), line_no, cols, width, c),
        decreases on@.len() - q,
    {
        let label = &labels[on[q]];
        let (col_start, col_end) = underline_cols(file, cols, line_no, label.span);
        let a = col_start.saturating_sub(1);
        let start = if a < width - 1 { a } else { width - 1 };
        let b = col_end.saturating_sub(1);
        let b2 = if b > start + 1 { b } else { start + 1 };
        let end = if b2 < width { b2 } else { width };
        let ch = if label.primary { '^' } else { '-' };
        let ghost before = marks@;
        let ghost j = on@[q as int] as int;
        assert(forall|c: int| 0 <= c < width ==> before[c] == mark_at(*file, labels@, onv.take(q as int), line_no, cols, width, c));
        proof {
            assert(onv.take(q + 1) =~= onv.take(q as int).push(j));
            assert(mark_range(*file, labels@[j].span, line_no, cols, width) == (start as int, end as int));
        }
        let mut m = start;
        while m < end
            invariant
                start <= m <= end <= width,
                marks@.len() == width,
                before.len() == width,
                ch == if label.primary { '^' } else { '-' },
                forall|c: int| 0 <= c < start || m <= c < width ==> marks@[c] == before[c],
                forall|c: int| start <= c < m ==> marks@[c] == overlay(before[c], label.primary),
            decreases end - m,
        {
            // Primary carets win over secondary dashes on one column.
            if label.primary || marks[m] != '^' {
                marks.set(m, ch);
            }
            m += 1;
        }
        proof {
            assert forall|c: int| 0 <= c < width implies #[trigger] marks@[c] == mark_at(
                *file,
                labels@,
                onv.take(q + 1),
                line_no,
                cols,
                width,
                c,
            ) by {
                lemma_mark_step(*file, labels@, onv.take(q as int), j, line_no, cols, width, c);
                assert(before[c] == mark_at(*file, labels@, onv.take(q as int), line_no, cols, width, c));
                assert(*label == labels@[j]);
            }
        }
        q += 1;
    }
    proof {
        assert(onv.take(q as int) =~= onv);
        assert(marks@ =~= marks_spec(*file, labels@, onv, line_no, cols));
    }
    marks
}

/// Whether a primary label is among those on the line.
pub open spec fn has_primary(labels: Seq<Label>, on: Seq<int>) -> bool {
    exists|t: int| 0 <= t < on.len() && #[trigger] labels[on[t]].primary
}

fn any_primary(labels: &Vec<Label>, on: &Vec<usize>) -> (r: bool)
    requires
        forall|q: int| 0 <= q < on@.len() ==> (#[trigger] on@[q]) < labels@.len(),
    ensures
        r == has_primary(labels@, on@.map_values(|x: usize| x as int)),
{
    let ghost onv = on@.map_values(|x: usize| x as int);
    let mut q: usize = 0;
    while q < on.len()
        invariant
            0 <= q <= on@.len(),
            onv == on@.map_values(|x: usize| x as int),
            forall|q: int| 0 <= q < on@.len() ==> (#[trigger] on@[q]) < labels@.len(),
            forall|t: int| 0 <= t < q ==> !(#[trigger] labels@[onv[t]]).primary,
        decreases on@.len() - q,
    {
        if labels[on[q]].primary {
            assert(labels@[onv[q as int]].primary);
            return true;
        }
        q += 1;
    }
    false
}

// ---------------------------------------------------------------------------
// Message rows
// ---------------------------------------------------------------------------

/// A message to print under the underline: its column, whether its label is
/// primary, and the label index.
struct Pending {
    col: usize,
    primary: bool,
    label: usize,
}

spec fn pending_view(ps: Seq<Pending>) -> Seq<(int, bool, int)> {
    ps.map_values(|p: Pending| (p.col as int, p.primary, p.label as int))
}

/// The labels on the line that have a message, in order: the column their
/// marks start at, whether they are primary, and their index.
pub open spec fn messages_on(
    file: SourceFile,
    labels: Seq<Label>,
    on: Seq<int>,
    line: usize,
    cols: usize,
    width: usize,
) -> Seq<(int, bool, int)>
    decreases on.len(),
{
    if on.len() == 0 {
        Seq::empty()
    } else {
        let prev = messages_on(file, labels, on.drop_last(), line, cols, width);
        let j = on.last();
        if labels[j].message@.len() > 0 {
            prev.push((mark_range(file, labels[j].span, line, cols, width).0, labels[j].primary, j))
        } else {
            prev
        }
    }
}

/// Message order: by column, a primary label before a secondary one.
pub open spec fn goes_before(a: (int, bool, int), b: (int, bool, int)) -> bool {
    a.0 < b.0 || (a.0 == b.0 && a.1 && !b.1)
}

/// Where `x` goes in sorted `s` when inserted from the back: before every
/// trailing entry it goes before, after the rest.
pub open spec fn insert_pos(s: Seq<(int, bool, int)>, x: (int, bool, int), at: int) -> int
    decreases at,
{
    if at > 0 && goes_before(x, s[at - 1]) {
        insert_pos(s, x, at - 1)
    } else {
        at
    }
}

/// The entries stably sorted by `goes_before` (entries in neither order keep
/// their order).
pub open spec fn stable_sort(ps: Seq<(int, bool, int)>) -> Seq<(int, bool, int)>
    decreases ps.len(),
{
    if ps.len() == 0 {
        Seq::empty()
    } else {
        let s = stable_sort(ps.drop_last());
        s.insert(insert_pos(s, ps.last(), s.len() as int), ps.last())
    }
}

proof fn lemma_insert_pos_range(s: Seq<(int, bool, int)>, x: (int, bool, int), at: int)
    requires
        0 <= at <= s.len(),
    ensures
        0 <= insert_pos(s, x, at) <= at,
    decreases at,
{
    if at > 0 && goes_before(x, s[at - 1]) {
        lemma_insert_pos_range(s, x, at - 1);
    }
}

proof fn lemma_stable_sort_len(ps: Seq<(int, bool, int)>)
    ensures
        stable_sort(ps).len() == ps.len(),
    decreases ps.len(),
{
    if ps.len() > 0 {
        lemma_stable_sort_len(ps.drop_last());
        let s = stable_sort(ps.drop_last());
        lemma_insert_pos_range(s, ps.last(), s.len() as int);
    }
}

/// `a` may come before `b`: a smaller column, or the same column with `a`
/// primary or `b` secondary.
spec fn in_order(a: (int, bool, int), b: (int, bool, int)) -> bool {
    a.0 < b.0 || (a.0 == b.0 && (a.1 || !b.1))
}

/// Where `x` goes: after every entry it does not go before, before the
/// trailing entries it goes before.
proof fn lemma_insert_pos_splits(s: Seq<(int, bool, int)>, x: (int, bool, int), at: int)
    requires
        0 <= at <= s.len(),
    ensures
        0 <= insert_pos(s, x, at) <= at,
        insert_pos(s, x, at) > 0 ==> !goes_before(x, s[insert_pos(s, x, at) - 1]),
        forall|k: int| insert_pos(s, x, at) <= k < at ==> goes_before(x, #[trigger] s[k]),
    decreases at,
{
    if at > 0 && goes_before(x, s[at - 1]) {
        lemma_insert_pos_splits(s, x, at - 1);
    }
}

/// Messages come out ordered by column, and at one column a primary label's
/// message before a secondary one's; they are the same messages, each as
/// often as it came in.
pub proof fn lemma_messages_sorted(ps: Seq<(int, bool, int)>)
    ensures
        forall|i: int, j: int|
            0 <= i < j < stable_sort(ps).len() ==> (#[trigger] stable_sort(ps)[i]).0 < (#[trigger] stable_sort(
                ps,
            )[j]).0 || (stable_sort(ps)[i].0 == stable_sort(ps)[j].0 && (stable_sort(ps)[i].1 || !stable_sort(
                ps,
            )[j].1)),
        stable_sort(ps).to_multiset() == ps.to_multiset(),
    decreases ps.len(),
{
    broadcast use vstd::seq_lib::to_multiset_build, vstd::seq_lib::to_multiset_insert;

    if ps.len() == 0 {
        assert(stable_sort(ps) =~= ps);
    } else {
        let d = ps.drop_last();
        lemma_messages_sorted(d);
        let s = stable_sort(d);
        lemma_stable_sort_len(d);
        let x = ps.last();
        let p = insert_pos(s, x, s.len() as int);
        lemma_insert_pos_splits(s, x, s.len() as int);
        let r = s.insert(p, x);
        assert(stable_sort(ps) == r);
        assert(ps == d.push(x));
        assert(r.to_multiset() == s.to_multiset().insert(x));
        assert(d.push(x).to_multiset() == d.to_multiset().insert(x));
        assert forall|i: int, j: int| 0 <= i < j < r.len() implies in_order(#[trigger] r[i], #[trigger] r[j]) by {
            if j < p {
                assert(r[i] == s[i] && r[j] == s[j]);
            } else if j == p {
                assert(r[j] == x);
                assert(r[i] == s[i]);
                assert(!goes_before(x, s[p - 1]));
                if i < p - 1 {
                    assert(in_order(s[i], s[p - 1]));
                }
            } else if i == p {
                assert(r[i] == x && r[j] == s[j - 1]);
                assert(goes_before(x, s[j - 1]));
            } else if i < p {
                assert(r[i] == s[i] && r[j] == s[j - 1]);
            } else {
                assert(r[i] == s[i - 1] && r[j] == s[j - 1]);
            }
        }
    }
}

/// Whether a message sits at column `col` and has primary flag `primary`.
pub open spec fn same_key(col: int, primary: bool) -> spec_fn((int, bool, int)) -> bool {
    |m: (int, bool, int)| m.0 == col && m.1 == primary
}

/// Sorting messages is stable: the messages that share a column and a
/// primary flag come out in the order they went in.
pub proof fn lemma_messages_stable(ps: Seq<(int, bool, int)>, col: int, primary: bool)
    ensures
        stable_sort(ps).filter(same_key(col, primary)) == ps.filter(same_key(col, primary)),
    decreases ps.len(),
{
    reveal(Seq::filter);
    let k = same_key(col, primary);
    if ps.len() == 0 {
        assert(stable_sort(ps) =~= ps);
    } else {
        let d = ps.drop_last();
        lemma_messages_stable(d, col, primary);
        let s = stable_sort(d);
        lemma_stable_sort_len(d);
        let x = ps.last();
        let p = insert_pos(s, x, s.len() as int);
        lemma_insert_pos_splits(s, x, s.len() as int);
        let lo = s.subrange(0, p);
        let hi = s.subrange(p, s.len() as int);
        let one = seq![x];
        assert(stable_sort(ps) == s.insert(p, x));
        assert(s.insert(p, x) =~= lo + one + hi);
        assert(s =~= lo + hi);
        Seq::filter_distributes_over_add(lo + one, hi, k);
        Seq::filter_distributes_over_add(lo, one, k);
        Seq::filter_distributes_over_add(lo, hi, k);
        assert(one.drop_last() =~= Seq::<(int, bool, int)>::empty());
        assert(one.drop_last().filter(k) =~= Seq::<(int, bool, int)>::empty());
        assert(one.last() == x);
        assert(ps.drop_last() == d && ps.last() == x);
        if k(x) {
            // Every entry after the insertion point has a later key.
            if hi.filter(k).len() > 0 {
                let e = hi.filter(k)[0];
                hi.lemma_filter_pred(k, 0);
                assert(hi.filter(k).contains(e));
                hi.lemma_filter_contains_rev(k, e);
                let j = choose|j: int| 0 <= j < hi.len() && hi[j] == e;
                assert(goes_before(x, s[p + j]));
                assert(false);
            }
            assert(hi.filter(k) =~= Seq::<(int, bool, int)>::empty());
            assert(lo.filter(k) + one.filter(k) + hi.filter(k) =~= (lo.filter(k) + hi.filter(k)).push(x));
        } else {
            assert(one.filter(k) =~= Seq::<(int, bool, int)>::empty());
            assert(lo.filter(k) + one.filter(k) + hi.filter(k) =~= lo.filter(k) + hi.filter(k));
        }
    }
}

/// The messages of the labels on a line, in their order.
fn messages_of(file: &SourceFile, labels: &Vec<Label>, on: &Vec<usize>, line_no: usize, cols: usize) -> (r: Vec<
    Pending,
>)
    requires
        file.wf(),
        forall|q: int| 0 <= q < on@.len() ==> (#[trigger] on@[q]) < labels@.len(),
    ensures
        pending_view(r@) == messages_on(
            *file,
            labels@,
            on@.map_values(|x: usize| x as int),
            line_no,
            cols,
            if cols >= 1 { cols } else { 1 },
        ),
        forall|t: int| 0 <= t < r@.len() ==> (#[trigger] r@[t]).label < labels@.len(),
{
    let ghost onv = on@.map_values(|x: usize| x as int);
    let width: usize = if cols >= 1 { cols } else { 1 };
    let mut out: Vec<Pending> = Vec::new();
    let mut q: usize = 0;
    assert(pending_view(out@) =~= messages_on(*file, labels@, onv.take(0), line_no, cols, width));
    while q < on.len()
        invariant
            file.wf(),
            onv == on@.map_values(|x: usize| x as int),
            forall|q: int| 0 <= q < on@.len() ==> (#[trigger] on@[q]) < labels@.len(),
            width == if cols >= 1 { cols } else { 1 },
            0 <= q <= on@.len(),
            pending_view(out@) == messages_on(*file, labels@, onv.take(q as int), line_no, cols, width),
            forall|t: int| 0 <= t < out@.len() ==> (#[trigger] out@[t]).label < labels@.len(),
        decreases on@.len() - q,
    {
        let label = &labels[on[q]];
        proof {
            assert(onv.take(q + 1).drop_last() =~= onv.take(q as int));
            assert(onv.take(q + 1).last() == on@[q as int] as int);
        }
        if chars_of(label.message.as_str()).len() > 0 {
            let (col_start, _) = underline_cols(file, cols, line_no, label.span);
            let a = col_start.saturating_sub(1);
            let start = if a < width - 1 { a } else { width - 1 };
            let ghost prev = out@;
            out.push(Pending { col: start, primary: label.primary, label: on[q] });
            assert(pending_view(out@) =~= pending_view(prev).push((start as int, label.primary, on@[q as int] as int)));
        }
        q += 1;
    }
    assert(onv.take(q as int) =~= onv);
    out
}

/// The messages stably sorted (see `stable_sort`).
fn sort_messages(pending: Vec<Pending>) -> (r: Vec<Pending>)
    ensures
        pending_view(r@) == stable_sort(pending_view(pending@)),
        forall|t: int| 0 <= t < r@.len() ==> exists|u: int| 0 <= u < pending@.len() && (#[trigger] r@[t]).label == pending@[u].label,
{
    let ghost pv = pending_view(pending@);
    let mut sorted: Vec<Pending> = Vec::new();
    let mut p: usize = 0;
    assert(pending_view(sorted@) =~= stable_sort(pv.take(0)));
    while p < pending.len()
        invariant
            pv == pending_view(pending@),
            0 <= p <= pending@.len(),
            pending_view(sorted@) == stable_sort(pv.take(p as int)),
            forall|t: int| 0 <= t < sorted@.len() ==> exists|u: int| 0 <= u < pending@.len() && (#[trigger] sorted@[t]).label == pending@[u].label,
        decreases pending@.len() - p,
    {
        let item = Pending { col: pending[p].col, primary: pending[p].primary, label: pending[p].label };
        let ghost x = (item.col as int, item.primary, item.label as int);
        let ghost sv = pending_view(sorted@);
        proof {
            assert(pv.take(p + 1).drop_last() =~= pv.take(p as int));
            assert(pv.take(p + 1).last() == x);
        }
        let mut at = sorted.len();
        while at > 0 && (item.col < sorted[at - 1].col || (item.col == sorted[at - 1].col && item.primary
            && !sorted[at - 1].primary))
            invariant
                at <= sorted@.len(),
                sv == pending_view(sorted@),
                x == (item.col as int, item.primary, item.label as int),
                insert_pos(sv, x, sv.len() as int) == insert_pos(sv, x, at as int),
            decreases at,
        {
            assert(sv[at - 1] == (sorted@[at - 1].col as int, sorted@[at - 1].primary, sorted@[at - 1].label as int));
            at -= 1;
        }
        proof {
            if at > 0 {
                assert(sv[at - 1] == (sorted@[at - 1].col as int, sorted@[at - 1].primary, sorted@[at - 1].label as int));
            }
        }
        let ghost before = sorted@;
        sorted.insert(at, item);
        proof {
            assert(pending_view(sorted@) =~= sv.insert(at as int, x));
            assert forall|t: int| 0 <= t < sorted@.len() implies exists|u: int| 0 <= u < pending@.len() && (#[trigger] sorted@[t]).label == pending@[u].label by {
                if t < at {
                    assert(sorted@[t] == before[t]);
                } else if t > at {
                    assert(sorted@[t] == before[t - 1]);
                } else {
                    assert(sorted@[t].label == pending@[p as int].label);
                }
            }
        }
        p += 1;
    }
    assert(pv.take(p as int) =~= pv);
    sorted
}

// ---------------------------------------------------------------------------
// The rows
// ---------------------------------------------------------------------------

pub open spec fn red(color: bool, text: Seq<char>) -> Seq<char> {
    paint_spec(color, "1;31"@, text)
}

pub open spec fn blanks(n: nat) -> Seq<char> {
    Seq::new(n, |i: int| ' ')
}

/// `n` right-aligned in `w` columns.
pub open spec fn aligned(n: nat, w: nat) -> Seq<char> {
    blanks(if w > decimal_spec(n).len() { (w - decimal_spec(n).len()) as nat } else { 0 }) + decimal_spec(n)
}

/// The gutter is as wide as the last shown line number (at least one column).
pub open spec fn gutter_width(lines: Seq<int>) -> nat {
    if lines.len() > 0 {
        let n = decimal_spec(lines.last() as nat).len();
        if n >= 1 {
            n
        } else {
            1
        }
    } else {
        1
    }
}

/// The start of a row with an empty gutter: `   <gutter> | `.
pub open spec fn row_start(color: bool, w: nat) -> Seq<char> {
    "   "@ + blanks(w) + " "@ + blue(color, "|"@) + " "@
}

/// A gutter-only row, before and after the shown lines.
pub open spec fn bar_row(color: bool, w: nat) -> Seq<char> {
    "   "@ + blanks(w) + " "@ + blue(color, "|"@) + "\n"@
}

/// The row marking skipped lines.
pub open spec fn gap_row(color: bool, w: nat) -> Seq<char> {
    "   "@ + blanks(w) + " "@ + blue(color, "..."@) + "\n"@
}

/// A source row: the line number, the bar and the line's text.
pub open spec fn source_row(file: SourceFile, color: bool, w: nat, line: int) -> Seq<char> {
    "   "@ + blue(color, aligned(line as nat, w)) + " "@ + blue(color, "|"@) + " "@ + file.spec_line_text(line)
        + "\n"@
}

/// One row per message, indented to its column, red for a primary label.
pub open spec fn message_rows(labels: Seq<Label>, color: bool, w: nat, ms: Seq<(int, bool, int)>) -> Seq<char>
    decreases ms.len(),
{
    if ms.len() == 0 {
        Seq::empty()
    } else {
        let m = ms.last();
        let text = labels[m.2].message@;
        message_rows(labels, color, w, ms.drop_last()) + row_start(color, w) + blanks(m.0 as nat) + (if m.1 {
            red(color, text)
        } else {
            blue(color, text)
        }) + "\n"@
    }
}

/// Under a source row that is not blank and that labels touch: the marks
/// without trailing spaces (red when a primary label is on the line), then
/// the messages in order.
pub open spec fn annotation_rows(file: SourceFile, labels: Seq<Label>, color: bool, w: nat, line: int) -> Seq<char> {
    let text = file.spec_line_text(line);
    let on = labels_on(file, labels, line);
    let cols = text.len() as usize;
    let width: usize = if cols >= 1 { cols } else { 1 };
    if blank(text) || on.len() == 0 {
        Seq::empty()
    } else {
        let underline = trim_trailing(marks_spec(file, labels, on, line as usize, cols));
        row_start(color, w) + (if has_primary(labels, on) {
            red(color, underline)
        } else {
            blue(color, underline)
        }) + "\n"@ + message_rows(
            labels,
            color,
            w,
            stable_sort(messages_on(file, labels, on, line as usize, cols, width)),
        )
    }
}

/// The rows of the `idx`-th shown line, after a gap row when lines were
/// skipped before it.
pub open spec fn line_block(file: SourceFile, labels: Seq<Label>, color: bool, w: nat, lines: Seq<int>, idx: int) -> Seq<char> {
    let line = lines[idx];
    let gap = if idx > 0 && line > lines[idx - 1] + 1 {
        gap_row(color, w)
    } else {
        Seq::empty()
    };
    gap + source_row(file, color, w, line) + annotation_rows(file, labels, color, w, line)
}

pub open spec fn blocks(file: SourceFile, labels: Seq<Label>, color: bool, w: nat, lines: Seq<int>, n: nat) -> Seq<char>
    decreases n,
{
    if n == 0 {
        Seq::empty()
    } else {
        blocks(file, labels, color, w, lines, (n - 1) as nat) + line_block(file, labels, color, w, lines, n - 1)
    }
}

/// The annotated rows of a diagnostic with labels: a gutter row, the
/// blocks of every shown line, a gutter row.
pub open spec fn rows_spec(file: SourceFile, labels: Seq<Label>, color: bool) -> Seq<char> {
    let lines = annotated_lines(file, labels);
    let w = gutter_width(lines);
    bar_row(color, w) + blocks(file, labels, color, w, lines, lines.len()) + bar_row(color, w)
}

/// Append the message rows of `ms`.
#[verifier::spinoff_prover]
#[verifier::rlimit(40)]
fn push_messages(body: &mut String, labels: &Vec<Label>, color: bool, w: usize, ms: &Vec<Pending>)
    requires
        forall|t: int| 0 <= t < ms@.len() ==> (#[trigger] ms@[t]).label < labels@.len(),
    ensures
        final(body)@ == old(body)@ + message_rows(labels@, color, w as nat, pending_view(ms@)),
{
    let ghost start = body@;
    let mut s: usize = 0;
    assert(pending_view(ms@).take(0) =~= Seq::<(int, bool, int)>::empty());
    assert(body@ =~= start + message_rows(labels@, color, w as nat, pending_view(ms@).take(0)));
    while s < ms.len()
        invariant
            0 <= s <= ms@.len(),
            forall|t: int| 0 <= t < ms@.len() ==> (#[trigger] ms@[t]).label < labels@.len(),
            body@ == start + message_rows(labels@, color, w as nat, pending_view(ms@).take(s as int)),
        decreases ms@.len() - s,
    {
        let m = &ms[s];
        let msg = labels[m.label].message.as_str();
        let colored = if m.primary {
            paint(color, "1;31", msg)
        } else {
            paint(color, "1;34", msg)
        };
        let mut row = owned("   ");
        push_str(&mut row, spaces(w).as_str());
        push_str(&mut row, " ");
        push_str(&mut row, paint(color, "1;34", "|").as_str());
        push_str(&mut row, " ");
        push_str(&mut row, spaces(m.col).as_str());
        push_str(&mut row, colored.as_str());
        push_str(&mut row, "\n");
        let ghost piece = row_start(color, w as nat) + blanks(m.col as nat) + (if m.primary {
            red(color, labels@[m.label as int].message@)
        } else {
            blue(color, labels@[m.label as int].message@)
        }) + "\n"@;
        assert(row@ =~= piece);
        let ghost before = body@;
        push_str(body, row.as_str());
        proof {
            let pv = pending_view(ms@);
            assert(pv.take(s + 1).drop_last() =~= pv.take(s as int));
            assert(pv.take(s + 1).last() == (m.col as int, m.primary, m.label as int));
            assert(message_rows(labels@, color, w as nat, pv.take(s + 1)) == message_rows(
                labels@,
                color,
                w as nat,
                pv.take(s as int),
            ) + piece);
            assert(body@ =~= start + message_rows(labels@, color, w as nat, pv.take(s + 1)));
        }
        s += 1;
    }
    assert(pending_view(ms@).take(s as int) =~= pending_view(ms@));
}

/// Append the rows of the `idx`-th shown line (see `line_block`).
#[verifier::rlimit(40)]
fn push_line_block(
    body: &mut String,
    file: &SourceFile,
    labels: &Vec<Label>,
    color: bool,
    ranges: &Vec<(usize, usize)>,
    lines: &Vec<usize>,
    idx: usize,
    w: usize,
)
    requires
        file.wf(),
        idx < lines@.len(),
        ranges@.len() == labels@.len(),
        forall|j: int|
            0 <= j < labels@.len() ==> (#[trigger] ranges@[j]).0 == label_range(*file, labels@[j].span).0
                && ranges@[j].1 == label_range(*file, labels@[j].span).1,
    ensures
        final(body)@ == old(body)@ + line_block(
            *file,
            labels@,
            color,
            w as nat,
            lines@.map_values(|l: usize| l as int),
            idx as int,
        ),
{
    let ghost lv = lines@.map_values(|l: usize| l as int);
    let line_no = lines[idx];
    let bar = paint(color, "1;34", "|");
    let mut block = String::new();
    if idx > 0 {
        let prev = lines[idx - 1];
        if line_no > prev && line_no - prev > 1 {
            push_str(&mut block, "   ");
            push_str(&mut block, spaces(w).as_str());
            push_str(&mut block, " ");
            push_str(&mut block, paint(color, "1;34", "...").as_str());
            push_str(&mut block, "\n");
        }
    }
    let ghost gap = block@;
    proof {
        assert(lv[idx as int] == line_no as int);
        if idx > 0 {
            assert(lv[idx - 1] == lines@[idx - 1] as int);
        }
        assert(spaces_view(w) =~= blanks(w as nat));
        assert(gap =~= if idx > 0 && lv[idx as int] > lv[idx - 1] + 1 {
            gap_row(color, w as nat)
        } else {
            Seq::empty()
        });
    }
    let text = file.line_text(line_no);
    let text_chars = chars_of(text.as_str());
    let line_num = right_aligned(line_no, w);
    let mut src = owned("   ");
    push_str(&mut src, paint(color, "1;34", line_num.as_str()).as_str());
    push_str(&mut src, " ");
    push_str(&mut src, bar.as_str());
    push_str(&mut src, " ");
    push_str(&mut src, text.as_str());
    push_str(&mut src, "\n");
    proof {
        assert(line_num@ =~= aligned(line_no as nat, w as nat));
        assert(src@ =~= source_row(*file, color, w as nat, line_no as int));
    }
    push_str(&mut block, src.as_str());
    let on = labels_on_line(file, labels, ranges, line_no);
    let ghost onv = on@.map_values(|x: usize| x as int);
    let ghost before_notes = block@;
    if !is_blank(&text_chars) && on.len() > 0 {
        let cols = text_chars.len();
        let marks = underline_marks(file, labels, &on, line_no, cols);
        let underline = trim_end(&marks);
        let painted = if any_primary(labels, &on) {
            paint(color, "1;31", underline.as_str())
        } else {
            paint(color, "1;34", underline.as_str())
        };
        let mut row = owned("   ");
        push_str(&mut row, spaces(w).as_str());
        push_str(&mut row, " ");
        push_str(&mut row, bar.as_str());
        push_str(&mut row, " ");
        push_str(&mut row, painted.as_str());
        push_str(&mut row, "\n");
        let pending = messages_of(file, labels, &on, line_no, cols);
        let sorted = sort_messages(pending);
        let ghost before_msgs = row@;
        push_messages(&mut row, labels, color, w, &sorted);
        proof {
            let width: usize = if cols >= 1 { cols } else { 1 };
            assert(text_chars@.len() as usize == cols);
            assert(row@ =~= annotation_rows(*file, labels@, color, w as nat, line_no as int));
        }
        push_str(&mut block, row.as_str());
    } else {
        proof {
            assert(annotation_rows(*file, labels@, color, w as nat, line_no as int) =~= Seq::<char>::empty());
        }
    }
    proof {
        assert(block@ =~= line_block(*file, labels@, color, w as nat, lv, idx as int));
    }
    push_str(body, block.as_str());
}

pub open spec fn spaces_view(n: usize) -> Seq<char> {
    Seq::new(n as nat, |i: int| ' ')
}

/// The annotated rows of a diagnostic (see `rows_spec`).
pub(crate) fn render_rows(diag: &Diagnostic, file: &SourceFile, color: bool) -> (r: String)
    requires
        file.wf(),
    ensures
        r@ == rows_spec(*file, diag.labels@, color),
{
    let (lines, ranges) = shown_lines(file, &diag.labels);
    let ghost lv = lines@.map_values(|l: usize| l as int);
    let w: usize = if lines.len() > 0 {
        let n = chars_of(decimal(lines[lines.len() - 1] as u64).as_str()).len();
        if n >= 1 {
            n
        } else {
            1
        }
    } else {
        1
    };
    proof {
        if lines@.len() > 0 {
            assert(lv.last() == lines@[lines@.len() - 1] as int);
        }
        assert(w as nat == gutter_width(lv));
    }
    let mut bar_line = owned("   ");
    push_str(&mut bar_line, spaces(w).as_str());
    push_str(&mut bar_line, " ");
    push_str(&mut bar_line, paint(color, "1;34", "|").as_str());
    push_str(&mut bar_line, "\n");
    assert(bar_line@ =~= bar_row(color, w as nat));
    let mut body = owned(bar_line.as_str());
    let mut idx: usize = 0;
    assert(body@ =~= bar_row(color, w as nat) + blocks(*file, diag.labels@, color, w as nat, lv, 0));
    while idx < lines.len()
        invariant
            file.wf(),
            lv == lines@.map_values(|l: usize| l as int),
            0 <= idx <= lines@.len(),
            ranges@.len() == diag.labels@.len(),
            forall|j: int|
                0 <= j < diag.labels@.len() ==> (#[trigger] ranges@[j]).0 == label_range(*file, diag.labels@[j].span).0
                    && ranges@[j].1 == label_range(*file, diag.labels@[j].span).1,
            body@ == bar_row(color, w as nat) + blocks(*file, diag.labels@, color, w as nat, lv, idx as nat),
        decreases lines@.len() - idx,
    {
        let ghost before = body@;
        push_line_block(&mut body, file, &diag.labels, color, &ranges, &lines, idx, w);
        assert(body@ =~= bar_row(color, w as nat) + blocks(*file, diag.labels@, color, w as nat, lv, (idx + 1) as nat));
        idx += 1;
    }
    push_str(&mut body, bar_line.as_str());
    body
}

} // verus!
