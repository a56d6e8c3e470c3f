//! Source file buffer and line-index lookup for span rendering.

use vstd::prelude::*;
use vstd::utf8::*;
use crate::diagnostics::span::Span;
use crate::text::{string_from_utf8, bytes_of, is_continuation};
use crate::token::Location;

verus! {

broadcast use vstd::seq_lib::group_seq_properties;

/// Byte offset of the first byte of each line: `0`, then one past every `\n`.
pub open spec fn line_starts_of(bytes: Seq<u8>) -> Seq<int>
    decreases bytes.len(),
{
    if bytes.len() == 0 {
        seq![0]
    } else if bytes.last() == 10u8 {
        line_starts_of(bytes.drop_last()).push(bytes.len() as int)
    } else {
        line_starts_of(bytes.drop_last())
    }
}

/// Number of characters that start in `bytes` (bytes that are not UTF-8
/// continuation bytes); on a slice between two character boundaries of valid
/// UTF-8 this is the number of characters in it.
pub open spec fn char_count(bytes: Seq<u8>) -> nat
    decreases bytes.len(),
{
    if bytes.len() == 0 {
        0
    } else {
        char_count(bytes.drop_last()) + if is_continuation_byte(bytes.last()) {
            0nat
        } else {
            1nat
        }
    }
}

/// Line starts are increasing, begin at 0 and lie within the text.
pub proof fn lemma_line_starts(bytes: Seq<u8>)
    ensures
        line_starts_of(bytes).len() >= 1,
        line_starts_of(bytes)[0] == 0,
        forall|i: int, j: int|
            0 <= i < j < line_starts_of(bytes).len() ==> line_starts_of(bytes)[i]
                < line_starts_of(bytes)[j],
        forall|i: int|
            0 <= i < line_starts_of(bytes).len() ==> 0 <= #[trigger] line_starts_of(bytes)[i]
                <= bytes.len(),
        forall|i: int|
            1 <= i < line_starts_of(bytes).len() ==> bytes[#[trigger] line_starts_of(bytes)[i]
                - 1] == 10u8,
    decreases bytes.len(),
{
    if bytes.len() > 0 {
        lemma_line_starts(bytes.drop_last());
        let p = line_starts_of(bytes.drop_last());
        assert forall|i: int|
            1 <= i < line_starts_of(bytes).len() implies bytes[#[trigger] line_starts_of(
            bytes,
        )[i] - 1] == 10u8 by {
            if i < p.len() {
                assert(line_starts_of(bytes)[i] == p[i]);
                assert(bytes[p[i] - 1] == bytes.drop_last()[p[i] - 1]);
            }
        }
    }
}

/// A source file: path, full text, and the byte offset where each line starts.
#[derive(Debug, Clone)]
pub struct SourceFile {
    pub path: String,
    pub source: String,
    /// Byte offset of the first character of each 1-based line.
    pub line_starts: Vec<usize>,
}

impl SourceFile {
    /// UTF-8 bytes of the source text.
    pub open spec fn bytes(&self) -> Seq<u8> {
        encode_utf8(self.source@)
    }

    pub open spec fn line_starts(&self) -> Seq<usize> {
        self.line_starts@
    }

    /// The line index matches the text.
    pub open spec fn wf(&self) -> bool {
        &&& self.line_starts().len() == line_starts_of(self.bytes()).len()
        &&& forall|i: int|
            0 <= i < self.line_starts().len() ==> #[trigger] self.line_starts()[i] as int
                == line_starts_of(self.bytes())[i]
    }

    pub fn new(path: String, source: String) -> (r: Self)
        ensures
            r.wf(),
            r.path@ == path@,
            r.source@ == source@,
    {
        let bytes = bytes_of(&source);
        let mut line_starts: Vec<usize> = Vec::new();
        line_starts.push(0);
        let mut i: usize = 0;
        while i < bytes.len()
            invariant
                0 <= i <= bytes@.len(),
                bytes@ == encode_utf8(source@),
                line_starts@.len() == line_starts_of(bytes@.subrange(0, i as int)).len(),
                forall|k: int|
                    0 <= k < line_starts@.len() ==> #[trigger] line_starts@[k] as int
                        == line_starts_of(bytes@.subrange(0, i as int))[k],
            decreases bytes@.len() - i,
        {
            proof {
                assert(bytes@.subrange(0, i + 1).drop_last() =~= bytes@.subrange(0, i as int));
            }
            if bytes[i] == 10u8 {
                line_starts.push(i + 1);
            }
            i += 1;
        }
        assert(bytes@.subrange(0, i as int) =~= bytes@);
        SourceFile { path, source, line_starts }
    }

    /// A copy with the same path and text.
    pub fn duplicate(&self) -> (r: Self)
        ensures
            r.wf(),
            r.path@ == self.path@,
            r.source@ == self.source@,
    {
        SourceFile::new(self.path.clone(), self.source.clone())
    }

    /// Byte length of the text.
    pub fn len(&self) -> (r: usize)
        ensures
            r == self.bytes().len(),
    {
        bytes_of(&self.source).len()
    }

    pub fn is_empty(&self) -> (r: bool)
        ensures
            r == (self.source@.len() == 0),
    {
        self.source.as_str().is_empty()
    }

    /// 1-based line and column of `offset` (clamped to the text length);
    /// the column counts the characters between the line start and the offset.
    pub fn location(&self, offset: usize) -> (r: Location)
        requires
            self.wf(),
        ensures
            r == self.spec_location(offset),
            1 <= r.line <= line_starts_of(self.bytes()).len(),
    {
        proof {
            lemma_line_starts(self.bytes());
        }
        let bytes = bytes_of(&self.source);
        let offset = if offset <= bytes.len() { offset } else { bytes.len() };
        // Binary search: the last line start that is <= offset.
        let mut lo: usize = 0;
        let mut hi: usize = self.line_starts.len();
        while lo < hi
            invariant
                self.wf(),
                bytes@ == self.bytes(),
                offset <= bytes@.len(),
                0 <= lo <= hi <= self.line_starts@.len(),
                forall|k: int| 0 <= k < lo ==> #[trigger] self.line_starts@[k] <= offset,
                forall|k: int|
                    hi <= k < self.line_starts@.len() ==> #[trigger] self.line_starts@[k] > offset,
                line_starts_of(self.bytes()).len() >= 1,
                line_starts_of(self.bytes())[0] == 0,
                forall|i: int, j: int|
                    0 <= i < j < line_starts_of(self.bytes()).len() ==> line_starts_of(self.bytes())[i]
                        < line_starts_of(self.bytes())[j],
            decreases hi - lo,
        {
            let mid = lo + (hi - lo) / 2;
            if self.line_starts[mid] <= offset {
                proof {
                    assert forall|k: int| 0 <= k < mid + 1 implies #[trigger] self.line_starts@[k]
                        <= offset by {
                        if k < mid {
                            assert(self.line_starts@[k] as int == line_starts_of(self.bytes())[k]);
                            assert(self.line_starts@[mid as int] as int == line_starts_of(
                                self.bytes(),
                            )[mid as int]);
                        }
                    }
                }
                lo = mid + 1;
            } else {
                proof {
                    assert forall|k: int|
                        mid <= k < self.line_starts@.len() implies #[trigger] self.line_starts@[k]
                        > offset by {
                        if k > mid {
                            assert(self.line_starts@[k] as int == line_starts_of(self.bytes())[k]);
                            assert(self.line_starts@[mid as int] as int == line_starts_of(
                                self.bytes(),
                            )[mid as int]);
                        }
                    }
                }
                hi = mid;
            }
        }
        proof {
            assert(self.line_starts@[0] as int == line_starts_of(self.bytes())[0]);
            let st = line_starts_of(self.bytes());
            assert forall|k: int| 0 <= k < lo implies #[trigger] st[k] <= offset by {
                assert(self.line_starts@[k] as int == st[k]);
            }
            assert forall|k: int| lo <= k < st.len() implies #[trigger] st[k] > offset by {
                assert(self.line_starts@[k] as int == st[k]);
            }
            lemma_count_le_prefix(st, offset as int, lo as int);
            assert(self.line_starts@[lo - 1] as int == st[lo - 1]);
        }
        let line_idx = lo - 1;
        let line_start = self.line_starts[line_idx];
        let mut count: usize = 0;
        let mut i: usize = line_start;
        while i < offset
            invariant
                line_start <= i <= offset <= bytes@.len(),
                count == char_count(bytes@.subrange(line_start as int, i as int)),
                count <= i - line_start,
            decreases offset - i,
        {
            proof {
                assert(bytes@.subrange(line_start as int, i + 1).drop_last() =~= bytes@.subrange(
                    line_start as int,
                    i as int,
                ));
            }
            if !is_continuation(bytes[i]) {
                count = count + 1;
            }
            i += 1;
        }
        Location::new(lo, count.saturating_add(1), offset)
    }

    pub fn span_start(&self, span: Span) -> (r: Location)
        requires
            self.wf(),
        ensures
            r == self.spec_location(span.lo),
    {
        self.location(span.lo)
    }

    pub fn span_end(&self, span: Span) -> (r: Location)
        requires
            self.wf(),
        ensures
            r == self.spec_location(span.hi),
    {
        self.location(span.hi)
    }

    /// Text of 1-based `line` without its trailing `\n` and then `\r`;
    /// empty for line 0 or past the last line.
    pub fn line_text(&self, line: usize) -> (r: String)
        requires
            self.wf(),
        ensures
            r@ == self.spec_line_text(line as int),
    {
        proof {
            lemma_line_starts(self.bytes());
        }
        if line == 0 {
            return String::new();
        }
        let idx = line - 1;
        if idx >= self.line_starts.len() {
            return String::new();
        }
        let bytes = bytes_of(&self.source);
        let start = self.line_starts[idx];
        let end = if idx + 1 < self.line_starts.len() {
            self.line_starts[idx + 1]
        } else {
            bytes.len()
        };
        proof {
            assert(self.line_starts@[idx as int] as int == line_starts_of(self.bytes())[idx as int]);
            if idx + 1 < self.line_starts@.len() {
                assert(self.line_starts@[idx + 1] as int == line_starts_of(self.bytes())[idx + 1]);
            }
        }
        let mut stop = end;
        if stop > start && bytes[stop - 1] == 10u8 {
            stop = stop - 1;
        }
        if stop > start && bytes[stop - 1] == 13u8 {
            stop = stop - 1;
        }
        let mut piece: Vec<u8> = Vec::new();
        let mut i: usize = start;
        while i < stop
            invariant
                start <= i <= stop <= bytes@.len(),
                piece@ == bytes@.subrange(start as int, i as int),
            decreases stop - i,
        {
            piece.push(bytes[i]);
            proof {
                assert(piece@ =~= bytes@.subrange(start as int, i + 1));
            }
            i += 1;
        }
        match string_from_utf8(piece) {
            Some(s) => s,
            None => String::new(),
        }
    }

    /// Number of lines; a trailing `\n` does not open a further line.
    pub fn line_count(&self) -> (r: usize)
        requires
            self.wf(),
        ensures
            r == if self.bytes().len() == 0 {
                0
            } else if self.bytes().last() == 10u8 {
                self.line_starts().len() - 1
            } else {
                self.line_starts().len() as int
            },
    {
        proof {
            lemma_line_starts(self.bytes());
        }
        let bytes = bytes_of(&self.source);
        if bytes.len() == 0 {
            0
        } else if bytes[bytes.len() - 1] == 10u8 {
            self.line_starts.len() - 1
        } else {
            self.line_starts.len()
        }
    }

    /// Byte offset where 1-based `line` starts; `source.len()` past the last
    /// line, 0 for line 0.
    pub fn line_start_offset(&self, line: usize) -> (r: usize)
        requires
            self.wf(),
        ensures
            r == if line == 0 || self.line_starts().len() == 0 {
                0
            } else if line - 1 < self.line_starts().len() {
                self.line_starts()[line - 1] as int
            } else {
                self.bytes().len() as int
            },
    {
        if line == 0 || self.line_starts.len() == 0 {
            return 0;
        }
        if line - 1 < self.line_starts.len() {
            self.line_starts[line - 1]
        } else {
            self.len()
        }
    }
}

/// `x` as a `usize`, saturating at `usize::MAX`.
pub open spec fn sat_usize(x: int) -> usize {
    if x > usize::MAX { usize::MAX } else if x < 0 { 0 } else { x as usize }
}

/// Number of entries of `s` that are at most `off`.
pub open spec fn count_le(s: Seq<int>, off: int) -> nat
    decreases s.len(),
{
    if s.len() == 0 {
        0
    } else {
        count_le(s.drop_last(), off) + if s.last() <= off {
            1nat
        } else {
            0nat
        }
    }
}

/// In an increasing sequence, the entries at most `off` form a prefix of length `lo`.
pub proof fn lemma_count_le_prefix(s: Seq<int>, off: int, lo: int)
    requires
        0 <= lo <= s.len(),
        forall|k: int| 0 <= k < lo ==> #[trigger] s[k] <= off,
        forall|k: int| lo <= k < s.len() ==> #[trigger] s[k] > off,
    ensures
        count_le(s, off) == lo,
    decreases s.len(),
{
    if s.len() > 0 {
        if lo == s.len() {
            lemma_count_le_prefix(s.drop_last(), off, lo - 1);
        } else {
            lemma_count_le_prefix(s.drop_last(), off, lo);
        }
    }
}

impl SourceFile {
    /// The line / column / clamped offset of `offset`: the line is the number
    /// of line starts at or before the offset.
    pub open spec fn spec_location(&self, offset: usize) -> Location {
        let b = self.bytes();
        let off = if offset <= b.len() { offset as int } else { b.len() as int };
        let line = count_le(line_starts_of(b), off);
        Location {
            line: line as usize,
            column: sat_usize(1 + char_count(b.subrange(line_starts_of(b)[line - 1], off)) as int),
            offset: off as usize,
        }
    }

    /// Text of 1-based `line`, without a trailing `\n` and then a trailing `\r`.
    pub open spec fn spec_line_text(&self, line: int) -> Seq<char> {
        let b = self.bytes();
        let st = line_starts_of(b);
        if line < 1 || line > st.len() {
            seq![]
        } else {
            let start = st[line - 1];
            let end = if line < st.len() { st[line] } else { b.len() as int };
            let stop1 = if end > start && b[end - 1] == 10u8 { end - 1 } else { end };
            let stop2 = if stop1 > start && b[stop1 - 1] == 13u8 { stop1 - 1 } else { stop1 };
            let piece = b.subrange(start, stop2);
            if valid_utf8(piece) {
                decode_utf8(piece)
            } else {
                seq![]
            }
        }
    }
}

/// Number of line feeds in `bytes`.
pub open spec fn newline_count(bytes: Seq<u8>) -> nat
    decreases bytes.len(),
{
    if bytes.len() == 0 {
        0
    } else {
        newline_count(bytes.drop_last()) + if bytes.last() == 10u8 {
            1nat
        } else {
            0nat
        }
    }
}

/// Line feeds in two pieces put end to end add up.
proof fn lemma_newline_count_concat(x: Seq<u8>, y: Seq<u8>)
    ensures
        newline_count(x + y) == newline_count(x) + newline_count(y),
    decreases y.len(),
{
    if y.len() == 0 {
        assert(x + y =~= x);
    } else {
        lemma_newline_count_concat(x, y.drop_last());
        assert((x + y).drop_last() =~= x + y.drop_last());
    }
}

/// Line feeds of a range split at any point in it.
proof fn lemma_newline_count_split(b: Seq<u8>, i: int, j: int, k: int)
    requires
        0 <= i <= j <= k <= b.len(),
    ensures
        newline_count(b.subrange(i, k)) == newline_count(b.subrange(i, j)) + newline_count(b.subrange(j, k)),
{
    assert(b.subrange(i, k) =~= b.subrange(i, j) + b.subrange(j, k));
    lemma_newline_count_concat(b.subrange(i, j), b.subrange(j, k));
}

/// In an increasing sequence, `count_le` is the length of the prefix of
/// entries at most `off`.
proof fn lemma_count_le_bounds(s: Seq<int>, off: int)
    requires
        forall|i: int, j: int| 0 <= i < j < s.len() ==> s[i] < s[j],
    ensures
        count_le(s, off) <= s.len(),
        count_le(s, off) > 0 ==> s[count_le(s, off) - 1] <= off,
        count_le(s, off) < s.len() ==> s[count_le(s, off) as int] > off,
    decreases s.len(),
{
    if s.len() > 0 {
        let p = s.drop_last();
        lemma_count_le_bounds(p, off);
        if s.last() <= off {
            assert forall|k: int| 0 <= k < p.len() implies #[trigger] p[k] <= off by {
                assert(s[k] < s[s.len() - 1]);
            }
            lemma_count_le_prefix(p, off, p.len() as int);
        } else if count_le(p, off) > 0 {
            assert(s[count_le(p, off) - 1] == p[count_le(p, off) - 1]);
            if count_le(p, off) < p.len() {
                assert(s[count_le(p, off) as int] == p[count_le(p, off) as int]);
            }
        } else if p.len() > 0 {
            assert(s[0] == p[0]);
        }
    }
}

/// The number of line starts at or before `off` is one more than the number
/// of line feeds before `off`.
proof fn lemma_line_starts_count(b: Seq<u8>, off: int)
    requires
        0 <= off <= b.len(),
    ensures
        count_le(line_starts_of(b), off) == 1 + newline_count(b.subrange(0, off)),
    decreases b.len(),
{
    lemma_line_starts(b);
    let st = line_starts_of(b);
    if b.len() == 0 {
        assert(b.subrange(0, off) =~= Seq::<u8>::empty());
        assert(newline_count(b.subrange(0, off)) == 0);
        assert(st =~= seq![0int]);
        assert(st.drop_last() =~= Seq::<int>::empty());
        assert(count_le(st.drop_last(), off) == 0);
        assert(count_le(st, off) == 1);
    } else {
        let n = b.len() as int;
        let d = b.drop_last();
        let p = line_starts_of(d);
        lemma_line_starts(d);
        if b.last() == 10u8 {
            assert(st == p.push(n));
            assert(st.drop_last() =~= p);
        } else {
            assert(st == p);
        }
        if off == n {
            lemma_line_starts_count(d, n - 1);
            assert forall|k: int| 0 <= k < p.len() implies #[trigger] p[k] <= n - 1 by {}
            lemma_count_le_prefix(p, n - 1, p.len() as int);
            lemma_count_le_prefix(p, n, p.len() as int);
            assert(d.subrange(0, n - 1) =~= d);
            assert(b.subrange(0, n) =~= b);
            assert(newline_count(b) == newline_count(d) + if b.last() == 10u8 { 1nat } else { 0nat });
            if b.last() == 10u8 {
                assert(count_le(st, off) == count_le(p, off) + 1);
            }
        } else {
            lemma_line_starts_count(d, off);
            assert(d.subrange(0, off) =~= b.subrange(0, off));
            if b.last() == 10u8 {
                assert(count_le(st, off) == count_le(p, off));
            }
        }
    }
}

/// Characters in two pieces put end to end add up.
proof fn lemma_char_count_concat(x: Seq<u8>, y: Seq<u8>)
    ensures
        char_count(x + y) == char_count(x) + char_count(y),
    decreases y.len(),
{
    if y.len() == 0 {
        assert(x + y =~= x);
    } else {
        lemma_char_count_concat(x, y.drop_last());
        assert((x + y).drop_last() =~= x + y.drop_last());
    }
}

/// The encoding of one character counts as one character.
proof fn lemma_char_count_scalar(v: u32)
    ensures
        char_count(encode_scalar(v)) == 1,
{
    let e = encode_scalar(v);
    let last = 0x80u8 | (v & 0x3F) as u8;
    let second = 0x80u8 | ((v >> 6) & 0x3F) as u8;
    let third = 0x80u8 | ((v >> 12) & 0x3F) as u8;
    assert(0x80u8 <= (0x80u8 | (v & 0x3F) as u8) <= 0xBFu8) by (bit_vector);
    assert(0x80u8 <= (0x80u8 | ((v >> 6) & 0x3F) as u8) <= 0xBFu8) by (bit_vector);
    assert(0x80u8 <= (0x80u8 | ((v >> 12) & 0x3F) as u8) <= 0xBFu8) by (bit_vector);
    let lead: u8 = if has_width_1_encoding(v) {
        leading_byte_width_1(v)
    } else if has_width_2_encoding(v) {
        leading_byte_width_2(v)
    } else if has_width_3_encoding(v) {
        leading_byte_width_3(v)
    } else {
        leading_byte_width_4(v)
    };
    assert(!is_continuation_byte(lead)) by {
        assert((v & 0x7F) as u8 <= 0x7Fu8) by (bit_vector);
        assert(0xC0u8 | ((v >> 6) & 0x1F) as u8 >= 0xC0u8) by (bit_vector);
        assert(0xE0u8 | ((v >> 12) & 0x0F) as u8 >= 0xC0u8) by (bit_vector);
        assert(0xF0u8 | ((v >> 18) & 0x7) as u8 >= 0xC0u8) by (bit_vector);
    }
    let one = seq![lead];
    assert(one.drop_last() =~= Seq::<u8>::empty());
    assert(char_count(Seq::<u8>::empty()) == 0);
    assert(one.last() == lead);
    assert(char_count(one) == 1);
    let two = one.push(last);
    assert(two.drop_last() =~= one && two.last() == last);
    assert(char_count(two) == 1);
    let two3 = one.push(second);
    assert(two3.drop_last() =~= one && two3.last() == second);
    assert(char_count(two3) == 1);
    let three = two3.push(last);
    assert(three.drop_last() =~= two3 && three.last() == last);
    assert(char_count(three) == 1);
    let two4 = one.push(third);
    assert(two4.drop_last() =~= one && two4.last() == third);
    assert(char_count(two4) == 1);
    let three4 = two4.push(second);
    assert(three4.drop_last() =~= two4 && three4.last() == second);
    assert(char_count(three4) == 1);
    let four = three4.push(last);
    assert(four.drop_last() =~= three4 && four.last() == last);
    assert(char_count(four) == 1);
    if has_width_1_encoding(v) {
        assert(e =~= one);
    } else if has_width_2_encoding(v) {
        assert(e =~= two);
    } else if has_width_3_encoding(v) {
        assert(e =~= three);
    } else {
        assert(e =~= four);
    }
}

/// Counting characters in the UTF-8 encoding of a text gives the number of
/// characters of the text.
pub proof fn lemma_char_count_counts_chars(chars: Seq<char>)
    ensures
        char_count(encode_utf8(chars)) == chars.len(),
    decreases chars.len(),
{
    if chars.len() > 0 {
        lemma_char_count_counts_chars(chars.drop_first());
        lemma_char_count_scalar(chars[0] as u32);
        lemma_char_count_concat(encode_scalar(chars[0] as u32), encode_utf8(chars.drop_first()));
    }
}

/// `offset`, clamped to the length of `bytes`.
pub open spec fn clamped(bytes: Seq<u8>, offset: usize) -> int {
    if offset <= bytes.len() {
        offset as int
    } else {
        bytes.len() as int
    }
}

/// A location's offset is the given one clamped to the text; its line is one
/// more than the number of line feeds before that offset; its column is one
/// more than the number of characters from the start of that line (the
/// text's start, or just past a line feed, with no line feed after it before
/// the offset) to the offset.
pub proof fn lemma_location_counts_lines(file: SourceFile, offset: usize)
    requires
        file.wf(),
    ensures
        file.spec_location(offset).offset as int == clamped(file.bytes(), offset),
        file.spec_location(offset).line as int == 1 + newline_count(
            file.bytes().subrange(0, clamped(file.bytes(), offset)),
        ),
        exists|start: int|
            0 <= start <= clamped(file.bytes(), offset) && (start == 0 || file.bytes()[start - 1] == 10u8)
                && newline_count(#[trigger] file.bytes().subrange(start, clamped(file.bytes(), offset))) == 0,
        forall|start: int|
            0 <= start <= clamped(file.bytes(), offset) && (start == 0 || file.bytes()[start - 1] == 10u8)
                && newline_count(#[trigger] file.bytes().subrange(start, clamped(file.bytes(), offset))) == 0
                ==> file.spec_location(offset).column == sat_usize(
                1 + char_count(file.bytes().subrange(start, clamped(file.bytes(), offset))) as int,
            ),
{
    let b = file.bytes();
    let off = clamped(b, offset);
    let st = line_starts_of(b);
    lemma_line_starts(b);
    lemma_line_starts_count(b, off);
    lemma_count_le_bounds(st, off);
    assert(file.line_starts.len() == st.len());
    let line = count_le(st, off);
    assert(line >= 1) by {
        assert(st[0] <= off);
    }
    let s0 = st[line - 1];
    assert(0 <= s0 <= off);
    // The line's own start has the same number of line feeds before it.
    assert forall|k: int| 0 <= k < line implies #[trigger] st[k] <= s0 by {
        if k < line - 1 {
            assert(st[k] < st[line - 1]);
        }
    }
    assert forall|k: int| line <= k < st.len() implies #[trigger] st[k] > s0 by {
        assert(st[line - 1] < st[k]);
    }
    lemma_count_le_prefix(st, s0, line as int);
    lemma_line_starts_count(b, s0);
    lemma_newline_count_split(b, 0, s0, off);
    assert(newline_count(b.subrange(s0, off)) == 0);
    // Past the first line, a line starts just after a line feed.
    assert(s0 == 0 || b[s0 - 1] == 10u8);
    assert forall|start: int|
        0 <= start <= off && (start == 0 || b[start - 1] == 10u8) && newline_count(b.subrange(start, off))
            == 0 implies file.spec_location(offset).column == sat_usize(
        1 + char_count(#[trigger] b.subrange(start, off)) as int,
    ) by {
        if start < s0 {
            // s0 - 1 holds a line feed between start and off.
            lemma_newline_count_split(b, start, s0 - 1, off);
            lemma_newline_count_split(b, s0 - 1, s0, off);
            assert(b.subrange(s0 - 1, s0).drop_last() =~= Seq::<u8>::empty());
            assert(false);
        } else if start > s0 {
            lemma_newline_count_split(b, s0, start - 1, off);
            lemma_newline_count_split(b, start - 1, start, off);
            assert(b.subrange(start - 1, start).drop_last() =~= Seq::<u8>::empty());
            assert(false);
        }
    }
    // The line's own start witnesses the existence clause.
    assert(newline_count(file.bytes().subrange(s0, clamped(file.bytes(), offset))) == 0);
}

} // verus!
