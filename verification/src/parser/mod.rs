//! Recursive-descent parser for the Yarrow language.
//!
//! Whitespace and newlines are not tokens, so the parser rebuilds structure
//! with an operand stack: values and computed expressions are pushed, binary
//! operators combine the top two values, and declarations / control-flow
//! keywords drain the stack and use its contents as their payload.

pub mod ast;
pub mod debug_text;
pub mod helpers;
pub mod literals;

use vstd::prelude::*;
use crate::diagnostics::span::{span_at, span_merge, sat_add};
use crate::diagnostics::{Diagnostic, DiagnosticBatch, Span};
use crate::text::{owned, push_str, str_eq};
use crate::token::{Location, Token, TokenKind, token_span};
use literals::{
    decode_int_literal, decode_rune_literal, decode_string_literal, float_literal_valid, parse_u64_decimal,
    u64_decimal_value,
};
use helpers::{binary_op, binary_op_spec, drain_ops, extract_fallback, is_value, is_value_spec, kind_in, pop_target};
use ast::{
    BinOp, EnumDecl, EnumMember, ErrorDecl, Expr, Field, Function, Implement, MatchCase,
    MatchCaseKind, Mutability, ParamModifier, Parameter, Primitive, Program, StackOp, Stmt, StmtKind,
    StructDecl, Type, TypeKind, UnOp, UnionDecl, Visibility,
};

verus! {

/// A syntax error: message, where it happened, and its diagnostic code.
#[derive(Debug)]
pub struct ParseError {
    pub message: String,
    pub location: Location,
    pub code: String,
}

impl ParseError {
    pub fn new(message: String, location: Location, code: String) -> (r: Self)
        ensures
            r.message@ == message@,
            r.location == location,
            r.code@ == code@,
    {
        ParseError { message, location, code }
    }

    /// An error-severity diagnostic with a primary label at the location.
    pub fn into_diagnostic(self) -> (r: Diagnostic)
        ensures
            r.severity == crate::diagnostics::Severity::Error,
            r.code@ == self.code@,
            r.message@ == self.message@,
            r.path@.len() == 0,
            r.labels@.len() == 1,
            r.labels@[0].span == span_at(
                self.location.offset,
                sat_add(self.location.offset, 1),
                self.location.line,
                self.location.column,
            ),
            r.labels@[0].message@.len() == 0,
            r.labels@[0].primary,
            r.notes@.len() == 0,
            r.helps@.len() == 0,
    {
        Diagnostic::error(self.code, self.message).with_primary(
            Span::from_location(self.location),
            String::new(),
        )
    }
}

/// Shorthand for a parse error built from string literals.
fn perr(message: &str, location: Location, code: &str) -> (r: ParseError)
    ensures
        r.message@ == message@,
        r.location == location,
        r.code@ == code@,
{
    ParseError::new(owned(message), location, owned(code))
}

pub type ParseResult<T> = Result<T, ParseError>;

/// Parser over a token vector that ends with an `Eof` token.
pub struct Parser {
    tokens: Vec<Token>,
    current: usize,
    /// Syntax errors collected during recovery.
    errors: DiagnosticBatch,
}

/// Every diagnostic of `b` is an error, and there are no more than its limit.
pub open spec fn only_errors(b: DiagnosticBatch) -> bool {
    &&& forall|i: int| 0 <= i < b.items().len() ==> (#[trigger] b.items()[i]).severity == crate::diagnostics::Severity::Error
    &&& b.spec_error_count() == b.items().len()
    &&& b.items().len() <= b.spec_limit()
}

/// Ranks used to order the mutually recursive parsing functions for termination.
pub open spec fn rank_body() -> nat { 6 }
pub open spec fn rank_step() -> nat { 5 }
pub open spec fn rank_decl() -> nat { 4 }
pub open spec fn rank_function() -> nat { 3 }

impl Parser {
    /// The token vector ends with `Eof`, the cursor is on a token, and the
    /// error batch is well formed and holds only errors, no more than its
    /// limit.
    pub closed spec fn wf(&self) -> bool {
        &&& self.tokens@.len() > 0
        &&& self.tokens@.last().kind == TokenKind::Eof
        &&& self.current < self.tokens@.len()
        &&& self.errors.wf()
        &&& only_errors(self.errors)
    }

    pub closed spec fn pos(&self) -> int {
        self.current as int
    }

    pub closed spec fn toks(&self) -> Seq<Token> {
        self.tokens@
    }

    pub closed spec fn errs(&self) -> DiagnosticBatch {
        self.errors
    }

    /// Distance from the cursor to the end of the tokens.
    pub closed spec fn remaining(&self) -> int {
        self.tokens@.len() - self.current
    }

    /// Kind of the token under the cursor.
    pub closed spec fn peek_spec(&self) -> TokenKind {
        self.tokens@[self.current as int].kind
    }

    /// `new` keeps only what it is given; the same tokens, the error limit,
    /// and a cursor that did not move back.
    pub closed spec fn advanced_from(&self, old: Parser) -> bool {
        &&& self.wf()
        &&& self.tokens@ == old.tokens@
        &&& self.current >= old.current
        &&& self.errors.spec_limit() == old.errors.spec_limit()
        &&& self.errors.items().len() >= old.errors.items().len()
    }

    pub fn new(tokens: Vec<Token>) -> (r: Self)
        ensures
            r.wf() <==> (tokens@.len() > 0 && tokens@.last().kind == TokenKind::Eof),
            r.toks() == tokens@,
            r.pos() == 0,
            r.errs().items().len() == 0,
            r.errs().spec_limit() == crate::diagnostics::DEFAULT_ERROR_LIMIT,
    {
        Parser { tokens, current: 0, errors: DiagnosticBatch::new() }
    }

    /// Parse a program. On syntax failure returns every recovered diagnostic
    /// (up to the error limit), not only the first; each of them is an
    /// error.
    pub fn parse(&mut self) -> (r: Result<Program, DiagnosticBatch>)
        requires
            old(self).wf(),
            old(self).errs().items().len() == 0,
        ensures
            final(self).wf(),
            final(self).errs().items().len() == 0,
            final(self).errs().spec_limit() == old(self).errs().spec_limit(),
            match r {
                Ok(_) => true,
                Err(b) => b.wf() && b.items().len() > 0 && b.spec_limit() == old(self).errs().spec_limit()
                    && only_errors(b),
            },
            exists|after: Parser, v: Seq<Stmt>| #[trigger] body_outcome(*old(self), after, seq![TokenKind::Eof], v)
                && match r {
                Ok(p) => after.errs().items().len() == 0 && p.items@ == v,
                Err(b) => after.errs().items().len() > 0 && b.items() == after.errs().items(),
            },
            old(self).peek_spec() == TokenKind::Eof ==> (r matches Ok(p) && p.items@.len() == 0),
            rejected_in_body(old(self).peek_spec()) && old(self).errs().spec_limit() > 0 ==> r is Err,
            body_stop(
                seq![TokenKind::Eof],
                kind_or_eof(old(self).toks(), word_run_end(old(self).toks(), old(self).pos(), seq![TokenKind::Eof])),
            ) ==> (r matches Ok(p) && exists|trace: Seq<Seq<Expr>>| #[trigger] stack_trace(
                old(self).toks(),
                old(self).pos(),
                word_run_end(old(self).toks(), old(self).pos(), seq![TokenKind::Eof]),
                trace,
            ) && trace[0] == Seq::<Expr>::empty() && drained_into(trace.last(), p.items@)),
            body_stop(
                seq![TokenKind::Eof],
                kind_or_eof(old(self).toks(), decl_run_end(old(self).toks(), old(self).pos(), seq![TokenKind::Eof])),
            ) ==> ({
                let starts = decl_run_starts(old(self).toks(), old(self).pos(), seq![TokenKind::Eof]);
                &&& r matches Ok(p)
                &&& p.items@.len() == starts.len()
                &&& forall|k: int| 0 <= k < starts.len() ==> is_decl_stmt_at(old(self).toks(), #[trigger] starts[k], p.items@[k])
            }),
    {
        let stops = [TokenKind::Eof];
        assert(stops@ =~= seq![TokenKind::Eof]);
        assert(old(self).errs().spec_error_count() == 0);
        let items = match self.body(&stops) {
            Ok(items) => items,
            Err(e) => {
                let _ = self.record_error(e);
                Vec::new()
            },
        };
        let ghost after = *self;
        assert(body_outcome(*old(self), after, seq![TokenKind::Eof], items@));
        if !self.errors.is_empty() {
            return Err(self.errors.take());
        }
        Ok(Program { items })
    }

    /// Record a syntax error; `false` when it was dropped at the error limit.
    fn record_error(&mut self, err: ParseError) -> (r: bool)
        requires
            old(self).wf(),
        ensures
            final(self).advanced_from(*old(self)),
            final(self).current == old(self).current,
            final(self).errs().items().len() >= old(self).errs().items().len(),
            r == !(old(self).errs().spec_error_count() >= old(self).errs().spec_limit()),
            r ==> {
                &&& final(self).errs().items().len() == old(self).errs().items().len() + 1
                &&& final(self).errs().items().drop_last() == old(self).errs().items()
                &&& final(self).errs().items().last().severity == crate::diagnostics::Severity::Error
                &&& final(self).errs().items().last().code@ == err.code@
                &&& final(self).errs().items().last().message@ == err.message@
            },
            !r ==> final(self).errs().items() == old(self).errs().items(),
    {
        let d = err.into_diagnostic();
        let ghost before = self.errors.items();
        let accepted = self.errors.push(d);
        proof {
            if accepted {
                assert(self.errors.items().drop_last() =~= old(self).errors.items());
                crate::diagnostics::batch::lemma_error_count_push(before, d);
                assert forall|i: int| 0 <= i < self.errors.items().len() implies (#[trigger] self.errors.items()[i]).severity
                    == crate::diagnostics::Severity::Error by {
                    if i < before.len() {
                        assert(self.errors.items()[i] == before[i]);
                    }
                }
            }
        }
        accepted
    }

    // ------------------------------------------------------------------
    // Token helpers
    // ------------------------------------------------------------------

    fn peek_kind(&self) -> (r: TokenKind)
        requires
            self.wf(),
        ensures
            r == self.peek_spec(),
    {
        self.tokens[self.current].kind
    }

    fn peek_next_kind(&self) -> (r: TokenKind)
        requires
            self.wf(),
        ensures
            r == if self.current + 1 < self.tokens@.len() {
                self.tokens@[self.current + 1].kind
            } else {
                TokenKind::Eof
            },
    {
        if self.current < self.tokens.len() - 1 {
            self.tokens[self.current + 1].kind
        } else {
            TokenKind::Eof
        }
    }

    fn kind_at(&self, i: usize) -> (r: TokenKind)
        requires
            self.wf(),
        ensures
            r == if self.current + i < self.tokens@.len() {
                self.tokens@[self.current + i].kind
            } else {
                TokenKind::Eof
            },
    {
        if i < self.tokens.len() - self.current {
            self.tokens[self.current + i].kind
        } else {
            TokenKind::Eof
        }
    }

    fn peek_lexeme(&self) -> (r: String)
        requires
            self.wf(),
        ensures
            r@ == self.tokens@[self.current as int].lexeme@,
    {
        self.tokens[self.current].lexeme.clone()
    }

    fn peek_location(&self) -> (r: Location)
        requires
            self.wf(),
        ensures
            r == self.tokens@[self.current as int].location,
    {
        self.tokens[self.current].location
    }

    fn peek_span(&self) -> (r: Span)
        requires
            self.wf(),
        ensures
            r == token_span(self.tokens@[self.current as int]),
    {
        self.tokens[self.current].span()
    }

    fn prev_span(&self) -> (r: Span)
        requires
            self.wf(),
        ensures
            r == token_span(self.tokens@[if self.current == 0 { 0 } else { self.current - 1 }]),
    {
        if self.current == 0 {
            self.tokens[0].span()
        } else {
            self.tokens[self.current - 1].span()
        }
    }

    /// Consume the token under the cursor; returns its index.
    fn advance(&mut self) -> (r: usize)
        requires
            old(self).wf(),
            old(self).peek_spec() != TokenKind::Eof,
        ensures
            final(self).advanced_from(*old(self)),
            final(self).current == old(self).current + 1,
            final(self).errors == old(self).errors,
            r == old(self).current,
    {
        let i = self.current;
        assert(self.current < self.tokens@.len() - 1);
        if self.current < self.tokens.len() - 1 {
            self.current = self.current + 1;
        }
        i
    }

    /// Consume the token if it has kind `kind`.
    fn match_kind(&mut self, kind: TokenKind) -> (r: bool)
        requires
            old(self).wf(),
            kind != TokenKind::Eof,
        ensures
            final(self).advanced_from(*old(self)),
            final(self).errors == old(self).errors,
            r == (old(self).peek_spec() == kind),
            final(self).current == if r { old(self).current + 1 } else { old(self).current as int },
    {
        if self.peek_kind() == kind {
            self.advance();
            true
        } else {
            false
        }
    }

    /// Consume a token of kind `kind` (returning its index), or fail with `E217`.
    fn expect(&mut self, kind: TokenKind, message: &str) -> (r: ParseResult<usize>)
        requires
            old(self).wf(),
            kind != TokenKind::Eof,
        ensures
            final(self).advanced_from(*old(self)),
            final(self).errors == old(self).errors,
            match r {
                Ok(i) => old(self).peek_spec() == kind && i == old(self).current
                    && final(self).current == old(self).current + 1,
                Err(e) => old(self).peek_spec() != kind && final(self).current == old(self).current
                    && e.message@ == message@ && e.code@ == "E217"@,
            },
    {
        if self.peek_kind() == kind {
            Ok(self.advance())
        } else {
            Err(perr(message, self.peek_location(), "E217"))
        }
    }

    /// Consume a member name after `.`: an identifier, or `load` / `store`
    /// (keywords that are also valid member names).
    fn expect_member_name(&mut self, message: &str) -> (r: ParseResult<String>)
        requires
            old(self).wf(),
        ensures
            final(self).advanced_from(*old(self)),
            final(self).errors == old(self).errors,
            match r {
                Ok(name) => {
                    &&& (old(self).peek_spec() == TokenKind::Identifier || old(self).peek_spec()
                        == TokenKind::Load || old(self).peek_spec() == TokenKind::Store)
                    &&& final(self).current == old(self).current + 1
                    &&& name@ == old(self).tokens@[old(self).current as int].lexeme@
                },
                Err(e) => final(self).current == old(self).current && e.code@ == "E217"@ && !(
                old(self).peek_spec() == TokenKind::Identifier || old(self).peek_spec() == TokenKind::Load
                    || old(self).peek_spec() == TokenKind::Store),
            },
    {
        let kind = self.peek_kind();
        if kind == TokenKind::Identifier || kind == TokenKind::Load || kind == TokenKind::Store {
            let i = self.advance();
            Ok(self.tokens[i].lexeme.clone())
        } else {
            Err(perr(message, self.peek_location(), "E217"))
        }
    }

    /// Consume an optional `public` / `private`.
    fn parse_visibility(&mut self) -> (r: Option<Visibility>)
        requires
            old(self).wf(),
        ensures
            final(self).advanced_from(*old(self)),
            final(self).errors == old(self).errors,
            r == visibility_of(old(self).peek_spec()),
            final(self).current == if r is Some { old(self).current + 1 } else { old(self).current as int },
    {
        match self.peek_kind() {
            TokenKind::Public => {
                self.advance();
                Some(Visibility::Public)
            },
            TokenKind::Private => {
                self.advance();
                Some(Visibility::Private)
            },
            _ => None,
        }
    }

    /// True when the tokens from `offset` on form a function head
    /// (`[public|private] [unsafe] function`).
    fn peek_is_function_head(&self, offset: usize) -> (r: bool)
        requires
            self.wf(),
            offset <= 1,
        ensures
            r == function_head_at(self.tokens@, self.current + offset),
    {
        let mut i = offset;
        let k = self.kind_at(i);
        if k == TokenKind::Public || k == TokenKind::Private {
            i += 1;
        }
        if self.kind_at(i) == TokenKind::Unsafe {
            i += 1;
        }
        self.kind_at(i) == TokenKind::Function
    }
}

/// The visibility a token kind introduces.
pub open spec fn visibility_of(k: TokenKind) -> Option<Visibility> {
    if k == TokenKind::Public {
        Some(Visibility::Public)
    } else if k == TokenKind::Private {
        Some(Visibility::Private)
    } else {
        None
    }
}

/// Kind at position `i`, or `Eof` past the end.
pub open spec fn kind_or_eof(toks: Seq<Token>, i: int) -> TokenKind {
    if 0 <= i < toks.len() { toks[i].kind } else { TokenKind::Eof }
}

/// `[public|private] [unsafe] function` starts at `i`.
pub open spec fn function_head_at(toks: Seq<Token>, i: int) -> bool {
    let j = if kind_or_eof(toks, i) == TokenKind::Public || kind_or_eof(toks, i)
        == TokenKind::Private {
        i + 1
    } else {
        i
    };
    let k = if kind_or_eof(toks, j) == TokenKind::Unsafe { j + 1 } else { j };
    kind_or_eof(toks, k) == TokenKind::Function
}


// ---------------------------------------------------------------------------
// The type grammar
// ---------------------------------------------------------------------------

/// Where a dotted type path continues from `i` (just after a name) ends:
/// every `.` must be followed by an identifier; `None` otherwise.
pub open spec fn path_end(toks: Seq<Token>, i: int) -> Option<int>
    decreases toks.len() - i,
{
    if 0 <= i < toks.len() && toks[i].kind == TokenKind::Dot {
        if kind_or_eof(toks, i + 1) == TokenKind::Identifier {
            path_end(toks, i + 2)
        } else {
            None
        }
    } else {
        Some(i)
    }
}

/// The text of that path: `first` then `.segment` for each segment.
pub open spec fn path_text(toks: Seq<Token>, i: int, first: Seq<char>) -> Seq<char>
    decreases toks.len() - i,
{
    if 0 <= i < toks.len() && toks[i].kind == TokenKind::Dot && kind_or_eof(toks, i + 1)
        == TokenKind::Identifier {
        path_text(toks, i + 2, first + "."@ + toks[i + 1].lexeme@)
    } else {
        first
    }
}

/// The name a type written at `i` starts with: the identifier, or `error`.
pub open spec fn type_head(toks: Seq<Token>, i: int) -> Seq<char> {
    if toks[i].kind == TokenKind::Error {
        "error"@
    } else {
        toks[i].lexeme@
    }
}

/// Whether generic `path` accepts arguments of these kinds (`true` for a
/// type, `false` for a size): `array`, `list`, `reference` and `pointer`
/// take a type first, `hashmap` two types.
pub open spec fn generic_ok(path: Seq<char>, shape: Seq<bool>) -> bool {
    if path == "array"@ || path == "list"@ || path == "reference"@ || path == "pointer"@ {
        shape.len() >= 1 && shape[0]
    } else if path == "hashmap"@ {
        shape.len() >= 2 && shape[0] && shape[1]
    } else {
        false
    }
}

/// Where a type written at `i` ends: `|T ...|` with at least one member, or
/// a dotted name with optional `<args>` that its generic accepts.
pub open spec fn type_end(toks: Seq<Token>, i: int) -> Option<int>
    decreases toks.len() - i, 0int,
{
    if i < 0 || i >= toks.len() {
        None
    } else if toks[i].kind == TokenKind::Pipe {
        union_type_end(toks, i + 1, 0)
    } else if toks[i].kind == TokenKind::Identifier || toks[i].kind == TokenKind::Error {
        match path_end(toks, i + 1) {
            None => None,
            Some(j) => if kind_or_eof(toks, j) == TokenKind::Less {
                if i < j + 1 <= toks.len() {
                    match type_args(toks, j + 1) {
                        None => None,
                        Some(a) => if generic_ok(path_text(toks, i + 1, type_head(toks, i)), a.0) {
                            Some(a.1)
                        } else {
                            None
                        },
                    }
                } else {
                    None
                }
            } else {
                Some(j)
            },
        }
    } else {
        None
    }
}

/// Where the members of a `|...|` type from `j` end (after the closing
/// `|`), `count` members having been read.
pub open spec fn union_type_end(toks: Seq<Token>, j: int, count: nat) -> Option<int>
    decreases toks.len() - j, 1int,
{
    if j < 0 || j >= toks.len() {
        None
    } else if toks[j].kind == TokenKind::Pipe {
        if count == 0 {
            None
        } else {
            Some(j + 1)
        }
    } else if toks[j].kind == TokenKind::End || toks[j].kind == TokenKind::Eof {
        None
    } else {
        match type_end(toks, j) {
            Some(k) => if j < k <= toks.len() {
                union_type_end(toks, k, count + 1)
            } else {
                None
            },
            None => None,
        }
    }
}

/// The kinds of generic arguments from `j` up to `>` and where they end:
/// decimal sizes and types.
pub open spec fn type_args(toks: Seq<Token>, j: int) -> Option<(Seq<bool>, int)>
    decreases toks.len() - j, 1int,
{
    if j < 0 || j >= toks.len() {
        None
    } else if toks[j].kind == TokenKind::Greater {
        Some((Seq::empty(), j + 1))
    } else if toks[j].kind == TokenKind::Integer {
        if u64_decimal_value(toks[j].lexeme@) is Some {
            match type_args(toks, j + 1) {
                Some(a) => Some((seq![false] + a.0, a.1)),
                None => None,
            }
        } else {
            None
        }
    } else {
        match type_end(toks, j) {
            Some(k) => if j < k <= toks.len() {
                match type_args(toks, k) {
                    Some(a) => Some((seq![true] + a.0, a.1)),
                    None => None,
                }
            } else {
                None
            },
            None => None,
        }
    }
}

/// Where a parameter at `i` ends: its type, then an optional `copy` or
/// `mutable`.
pub open spec fn param_end(toks: Seq<Token>, i: int) -> Option<int> {
    match type_end(toks, i) {
        Some(k) => Some(
            if kind_or_eof(toks, k) == TokenKind::Copy || kind_or_eof(toks, k) == TokenKind::Mutable {
                k + 1
            } else {
                k
            },
        ),
        None => None,
    }
}

/// The modifier a parameter type ending before `k` carries.
pub open spec fn modifier_at(toks: Seq<Token>, k: int) -> Option<ParamModifier> {
    if kind_or_eof(toks, k) == TokenKind::Copy {
        Some(ParamModifier::Copy)
    } else if kind_or_eof(toks, k) == TokenKind::Mutable {
        Some(ParamModifier::Mutable)
    } else {
        None
    }
}

/// Where a run of types from `j` closed by `end` ends (after `end`).
pub open spec fn types_until_end(toks: Seq<Token>, j: int) -> Option<int>
    decreases toks.len() - j,
{
    if j < 0 || j >= toks.len() {
        None
    } else if toks[j].kind == TokenKind::End {
        Some(j + 1)
    } else {
        match type_end(toks, j) {
            Some(k) => if j < k <= toks.len() {
                types_until_end(toks, k)
            } else {
                None
            },
            None => None,
        }
    }
}

/// Where a run of struct fields from `j` (a type, a name, an optional
/// visibility) closed by `end` ends (after `end`).
pub open spec fn fields_until_end(toks: Seq<Token>, j: int) -> Option<int>
    decreases toks.len() - j,
{
    if j < 0 || j >= toks.len() {
        None
    } else if toks[j].kind == TokenKind::End {
        Some(j + 1)
    } else {
        match type_end(toks, j) {
            Some(k) => if j < k < toks.len() && toks[k].kind == TokenKind::Identifier {
                let n = if visibility_of(kind_or_eof(toks, k + 1)) is Some {
                    k + 2
                } else {
                    k + 1
                };
                if n <= toks.len() {
                    fields_until_end(toks, n)
                } else {
                    None
                }
            } else {
                None
            },
            None => None,
        }
    }
}

/// The struct fields written from `j`: each one's name, where its type
/// starts, and its visibility.
pub open spec fn fields_from(toks: Seq<Token>, j: int) -> Seq<(Seq<char>, Location, Option<Visibility>)>
    decreases toks.len() - j,
{
    if 0 <= j < toks.len() && toks[j].kind != TokenKind::End {
        match type_end(toks, j) {
            Some(k) => if j < k < toks.len() && toks[k].kind == TokenKind::Identifier {
                let v = visibility_of(kind_or_eof(toks, k + 1));
                let n = if v is Some {
                    k + 2
                } else {
                    k + 1
                };
                if n <= toks.len() {
                    seq![(toks[k].lexeme@, toks[j].location, v)] + fields_from(toks, n)
                } else {
                    Seq::empty()
                }
            } else {
                Seq::empty()
            },
            None => Seq::empty(),
        }
    } else {
        Seq::empty()
    }
}

pub open spec fn struct_fields_view(fs: Seq<Field>) -> Seq<(Seq<char>, Location, Option<Visibility>)> {
    fs.map_values(|f: Field| (f.name@, f.ty.location, f.visibility))
}

/// Where each type of a run closed by `end` from `j` starts.
pub open spec fn type_starts(toks: Seq<Token>, j: int) -> Seq<Location>
    decreases toks.len() - j,
{
    if 0 <= j < toks.len() && toks[j].kind != TokenKind::End {
        match type_end(toks, j) {
            Some(k) => if j < k <= toks.len() {
                seq![toks[j].location] + type_starts(toks, k)
            } else {
                Seq::empty()
            },
            None => Seq::empty(),
        }
    } else {
        Seq::empty()
    }
}

pub open spec fn type_locations(ts: Seq<Type>) -> Seq<Location> {
    ts.map_values(|t: Type| t.location)
}

/// Where a run of enum members from `j` (a name, an optional integer)
/// closed by `end` ends (after `end`).
pub open spec fn members_until_end(toks: Seq<Token>, j: int) -> Option<int>
    decreases toks.len() - j,
{
    if j < 0 || j >= toks.len() {
        None
    } else if toks[j].kind == TokenKind::End {
        Some(j + 1)
    } else if toks[j].kind == TokenKind::Identifier {
        if kind_or_eof(toks, j + 1) == TokenKind::Integer {
            members_until_end(toks, j + 2)
        } else {
            members_until_end(toks, j + 1)
        }
    } else {
        None
    }
}

/// The enum members written from `j`: each name with its value's text.
pub open spec fn members_from(toks: Seq<Token>, j: int) -> Seq<(Seq<char>, Option<Seq<char>>)>
    decreases toks.len() - j,
{
    if 0 <= j < toks.len() && toks[j].kind == TokenKind::Identifier {
        if kind_or_eof(toks, j + 1) == TokenKind::Integer {
            seq![(toks[j].lexeme@, Some(toks[j + 1].lexeme@))] + members_from(toks, j + 2)
        } else {
            seq![(toks[j].lexeme@, None::<Seq<char>>)] + members_from(toks, j + 1)
        }
    } else {
        Seq::empty()
    }
}

pub open spec fn enum_members_view(ms: Seq<EnumMember>) -> Seq<(Seq<char>, Option<Seq<char>>)> {
    ms.map_values(
        |m: EnumMember|
            (
                m.name@,
                match m.value {
                    Some(v) => Some(v@),
                    None => None,
                },
            ),
    )
}

/// Where a run of identifiers from `j` closed by `end` ends (after `end`).
pub open spec fn names_until_end(toks: Seq<Token>, j: int) -> Option<int>
    decreases toks.len() - j,
{
    if j < 0 || j >= toks.len() {
        None
    } else if toks[j].kind == TokenKind::End {
        Some(j + 1)
    } else if toks[j].kind == TokenKind::Identifier {
        names_until_end(toks, j + 1)
    } else {
        None
    }
}

/// Whether a literal token's text decodes (what `literal_expr` accepts).
pub open spec fn literal_ok(t: Token) -> bool {
    match t.kind {
        TokenKind::Integer => literals::int_literal_value(t.lexeme@) is Some,
        TokenKind::Float => literals::float_text_ok(literals::remove_char(t.lexeme@, '_')),
        TokenKind::Rune => literals::rune_outcome(t.lexeme@) is Value,
        _ => true,
    }
}

/// Where a dotted name continued from `i` ends: every `.` must be followed by
/// a member name (an identifier, `load` or `store`).
pub open spec fn member_path_end(toks: Seq<Token>, i: int) -> Option<int>
    decreases toks.len() - i,
{
    if 0 <= i < toks.len() && toks[i].kind == TokenKind::Dot {
        let k = kind_or_eof(toks, i + 1);
        if k == TokenKind::Identifier || k == TokenKind::Load || k == TokenKind::Store {
            member_path_end(toks, i + 2)
        } else {
            None
        }
    } else {
        Some(i)
    }
}

/// Where an element of a container literal written at `i` ends: a literal
/// that decodes, a dotted name, or a nested `[...]`, `(...)` or `{...}`.
pub open spec fn element_end(toks: Seq<Token>, i: int) -> Option<int>
    decreases toks.len() - i, 0int,
{
    if i < 0 || i >= toks.len() {
        None
    } else {
        match toks[i].kind {
            TokenKind::Integer | TokenKind::Float | TokenKind::String | TokenKind::Rune
            | TokenKind::True | TokenKind::False => if literal_ok(toks[i]) {
                Some(i + 1)
            } else {
                None
            },
            TokenKind::Identifier => member_path_end(toks, i + 1),
            TokenKind::LeftSquare => match elements_until(toks, i + 1, TokenKind::RightSquare) {
                Some(j) => Some(j + 1),
                None => None,
            },
            TokenKind::LeftParen => match elements_until(toks, i + 1, TokenKind::RightParen) {
                Some(j) => Some(j + 1),
                None => None,
            },
            TokenKind::LeftCurly => pairs_until(toks, i + 1),
            _ => None,
        }
    }
}

/// Where the elements from `j` reach the token `close` (its position).
pub open spec fn elements_until(toks: Seq<Token>, j: int, close: TokenKind) -> Option<int>
    decreases toks.len() - j, 1int,
{
    if j < 0 || j >= toks.len() {
        None
    } else if toks[j].kind == close {
        Some(j)
    } else {
        match element_end(toks, j) {
            Some(k) => if j < k <= toks.len() {
                elements_until(toks, k, close)
            } else {
                None
            },
            None => None,
        }
    }
}

/// Where key-value pairs of elements from `j` end (after the closing `}`).
pub open spec fn pairs_until(toks: Seq<Token>, j: int) -> Option<int>
    decreases toks.len() - j, 1int,
{
    if j < 0 || j >= toks.len() {
        None
    } else if toks[j].kind == TokenKind::RightCurly {
        Some(j + 1)
    } else {
        match element_end(toks, j) {
            Some(k) => if j < k < toks.len() {
                match element_end(toks, k) {
                    Some(m) => if k < m <= toks.len() {
                        pairs_until(toks, m)
                    } else {
                        None
                    },
                    None => None,
                }
            } else {
                None
            },
            None => None,
        }
    }
}

/// How `Name [underlying] enum` splits the operand stack: the entries left
/// for the name, and the underlying type's kind when the top entry is a
/// type value (a primitive or a name) or, above another entry, a name.
pub open spec fn enum_head_split(ops: Seq<Expr>) -> (Seq<Expr>, Option<TypeKind>) {
    let n = ops.len();
    if n > 0 {
        match ops.last() {
            Expr::TypeValue { name } => (
                ops.drop_last(),
                Some(
                    match ast::primitive_named(name@) {
                        Some(p) => TypeKind::Primitive(p),
                        None => TypeKind::Named(name),
                    },
                ),
            ),
            Expr::Variable { name } => if n >= 2 {
                (ops.drop_last(), Some(TypeKind::Named(name)))
            } else {
                (ops, None)
            },
            _ => (ops, None),
        }
    } else {
        (ops, None)
    }
}

/// The identifiers written from `j`, up to the first other token.
pub open spec fn names_from(toks: Seq<Token>, j: int) -> Seq<Seq<char>>
    decreases toks.len() - j,
{
    if 0 <= j < toks.len() && toks[j].kind == TokenKind::Identifier {
        seq![toks[j].lexeme@] + names_from(toks, j + 1)
    } else {
        Seq::empty()
    }
}

/// `Name Inject.Path error`: the top entry is the injected type's path when
/// it is a name or member access above another entry.
pub open spec fn has_inject(ops: Seq<Expr>) -> bool {
    ops.len() >= 2 && (ops.last() is Member || ops.last() is Variable)
}

/// Where a function's parameters from `j` reach `do` (after it).
pub open spec fn params_until_do(toks: Seq<Token>, j: int) -> Option<int>
    decreases toks.len() - j,
{
    if j < 0 || j >= toks.len() {
        None
    } else if toks[j].kind == TokenKind::Do {
        Some(j + 1)
    } else {
        match param_end(toks, j) {
            Some(k) => if j < k <= toks.len() {
                params_until_do(toks, k)
            } else {
                None
            },
            None => None,
        }
    }
}

/// Where the head of a function written at `i` (`function`, its
/// parameters, `do`) ends.
pub open spec fn fn_head_end(toks: Seq<Token>, i: int) -> Option<int> {
    if kind_or_eof(toks, i) == TokenKind::Function {
        params_until_do(toks, i + 1)
    } else {
        None
    }
}

/// An optional `with <type>` at `k` is well formed.
pub open spec fn with_ok(toks: Seq<Token>, k: int) -> bool {
    kind_or_eof(toks, k) == TokenKind::With ==> type_end(toks, k + 1) is Some
}

/// The kinds of parsed generic arguments.
pub open spec fn arg_shape(args: Seq<TypeArg>) -> Seq<bool> {
    args.map_values(|a: TypeArg| a is Type)
}

/// A generic argument: a type or an array size.
pub enum TypeArg {
    Type(Type),
    Size(u64),
}

/// Remove argument `index` and require it to be a type (`E218` otherwise).
fn take(args: &mut Vec<TypeArg>, index: usize, location: Location) -> (r: ParseResult<Type>)
    ensures
        old(args)@.len() <= index ==> r is Err && final(args)@ == old(args)@,
        old(args)@.len() > index ==> final(args)@ == old(args)@.remove(index as int) && match old(
            args,
        )@[index as int] {
            TypeArg::Type(t) => r == Ok::<Type, ParseError>(t),
            TypeArg::Size(_) => r is Err,
        },
        r matches Err(e) ==> e.code@ == "E218"@ && e.location == location,
{
    if args.len() <= index {
        return Err(perr("missing type argument", location, "E218"));
    }
    match args.remove(index) {
        TypeArg::Type(t) => Ok(t),
        _ => Err(perr("expected a type argument", location, "E218")),
    }
}

/// Remove argument `index` if present; `Some` only when it is a size.
fn take_size(args: &mut Vec<TypeArg>, index: usize) -> (r: Option<u64>)
    ensures
        old(args)@.len() <= index ==> r is None && final(args)@ == old(args)@,
        old(args)@.len() > index ==> final(args)@ == old(args)@.remove(index as int) && match old(
            args,
        )@[index as int] {
            TypeArg::Size(n) => r == Some(n),
            TypeArg::Type(_) => r is None,
        },
{
    if args.len() <= index {
        return None;
    }
    match args.remove(index) {
        TypeArg::Size(n) => Some(n),
        _ => None,
    }
}

/// The expression a literal token stands for, after checking that the lexeme
/// decodes (`E217` integer, `E218` float, `E219` rune).
pub fn literal_expr(tok: &Token) -> (r: ParseResult<Expr>)
    ensures
        match tok.kind {
            TokenKind::Integer => match literals::int_literal_value(tok.lexeme@) {
                Some(_) => r matches Ok(Expr::Integer { value }) && value@ == tok.lexeme@,
                None => r matches Err(e) && e.code@ == "E217"@ && e.location == tok.location,
            },
            TokenKind::Float => if literals::float_text_ok(literals::remove_char(tok.lexeme@, '_')) {
                r matches Ok(Expr::Float { value }) && value@ == tok.lexeme@
            } else {
                r matches Err(e) && e.code@ == "E218"@ && e.location == tok.location
            },
            TokenKind::String => r matches Ok(Expr::String { value }) && value@ == tok.lexeme@,
            TokenKind::Rune => match literals::rune_outcome(tok.lexeme@) {
                literals::RuneOutcome::Value(_) => r matches Ok(Expr::Rune { value }) && value@
                    == tok.lexeme@,
                _ => r matches Err(e) && e.code@ == "E219"@ && e.location == tok.location,
            },
            TokenKind::True => r matches Ok(Expr::Bool { value: true }),
            TokenKind::False => r matches Ok(Expr::Bool { value: false }),
            _ => r matches Ok(Expr::Variable { name }) && name@.len() == 0,
        },
{
    let loc = tok.location;
    match tok.kind {
        TokenKind::Integer => {
            match decode_int_literal(tok.lexeme.as_str()) {
                Ok(_) => Ok(Expr::Integer { value: tok.lexeme.clone() }),
                Err(m) => Err(ParseError::new(m, loc, owned("E217"))),
            }
        },
        TokenKind::Float => {
            if float_literal_valid(tok.lexeme.as_str()) {
                Ok(Expr::Float { value: tok.lexeme.clone() })
            } else {
                let mut m = owned("invalid float literal '");
                push_str(&mut m, tok.lexeme.as_str());
                push_str(&mut m, "'");
                Err(ParseError::new(m, loc, owned("E218")))
            }
        },
        TokenKind::String => Ok(Expr::String { value: tok.lexeme.clone() }),
        TokenKind::Rune => {
            match decode_rune_literal(tok.lexeme.as_str()) {
                Ok(_) => Ok(Expr::Rune { value: tok.lexeme.clone() }),
                Err(m) => Err(ParseError::new(m, loc, owned("E219"))),
            }
        },
        TokenKind::True => Ok(Expr::Bool { value: true }),
        TokenKind::False => Ok(Expr::Bool { value: false }),
        _ => Ok(Expr::variable(String::new())),
    }
}

/// The dotted path a variable / member chain spells (`E234` otherwise).
pub fn expr_to_path(expr: Expr) -> (r: ParseResult<String>)
    ensures
        match path_of(expr) {
            Some(p) => r matches Ok(s) && s@ == p,
            None => r matches Err(e) && e.code@ == "E234"@,
        },
    decreases expr,
{
    match expr {
        Expr::Variable { name } => Ok(name),
        Expr::Member { base, member } => {
            let b = expr_to_path(*base)?;
            let mut out = b;
            push_str(&mut out, ".");
            push_str(&mut out, member.as_str());
            Ok(out)
        },
        _ => Err(perr("expected a qualified name", Location::default(), "E234")),
    }
}

/// The dotted path of a variable / member chain.
pub open spec fn path_of(e: Expr) -> Option<Seq<char>>
    decreases e,
{
    match e {
        Expr::Variable { name } => Some(name@),
        Expr::Member { base, member } => match path_of(*base) {
            Some(b) => Some(b + "."@ + member@),
            None => None,
        },
        _ => None,
    }
}

/// Tokens at which error recovery stops skipping.
pub open spec fn is_sync_kind(k: TokenKind) -> bool {
    match k {
        TokenKind::End | TokenKind::Else | TokenKind::Case | TokenKind::Function
        | TokenKind::Struct | TokenKind::Enum | TokenKind::Union | TokenKind::Implement
        | TokenKind::Require | TokenKind::If | TokenKind::For | TokenKind::Match
        | TokenKind::Defer | TokenKind::Handle | TokenKind::Return | TokenKind::SetWord
        | TokenKind::Mutable | TokenKind::Const | TokenKind::Static | TokenKind::Public
        | TokenKind::Private | TokenKind::Unsafe | TokenKind::Error => true,
        _ => false,
    }
}

fn sync_kind(k: TokenKind) -> (r: bool)
    ensures
        r == is_sync_kind(k),
{
    match k {
        TokenKind::End | TokenKind::Else | TokenKind::Case | TokenKind::Function
        | TokenKind::Struct | TokenKind::Enum | TokenKind::Union | TokenKind::Implement
        | TokenKind::Require | TokenKind::If | TokenKind::For | TokenKind::Match
        | TokenKind::Defer | TokenKind::Handle | TokenKind::Return | TokenKind::SetWord
        | TokenKind::Mutable | TokenKind::Const | TokenKind::Static | TokenKind::Public
        | TokenKind::Private | TokenKind::Unsafe | TokenKind::Error => true,
        _ => false,
    }
}

impl Parser {
    // ------------------------------------------------------------------
    // Statements
    // ------------------------------------------------------------------

    /// Parse statements until a stop token, `end`, `else`, `case`, `Eof`, or
    /// the error limit. Syntax errors are recorded and skipped over. A run of
    /// plain expression words, or of declarations, up to a stop token parses
    /// to exactly what those words leave on the operand stack, or to those
    /// declarations, with nothing recorded.
    #[verifier::rlimit(100)]
    fn body(&mut self, stops: &[TokenKind]) -> (r: ParseResult<Vec<Stmt>>)
        requires
            old(self).wf(),
        ensures
            r matches Ok(v) && body_outcome(*old(self), *final(self), stops@, v@),
        decreases old(self).remaining(), rank_body(),
    {
        let mut stmts: Vec<Stmt> = Vec::new();
        let mut ops: Vec<Expr> = Vec::new();
        let mut op_spans: Vec<Span> = Vec::new();
        let ghost entry = *self;
        let ghost rejected_start = !body_stop(stops@, entry.peek_spec()) && !(entry.errs().spec_error_count()
            >= entry.errs().spec_limit()) && rejected_in_body(entry.peek_spec());
        let ghost run = !(entry.errs().spec_error_count() >= entry.errs().spec_limit()) && body_stop(
            stops@,
            kind_or_eof(entry.toks(), decl_run_end(entry.toks(), entry.pos(), stops@)),
        );
        let ghost words = !(entry.errs().spec_error_count() >= entry.errs().spec_limit()) && body_stop(
            stops@,
            kind_or_eof(entry.toks(), word_run_end(entry.toks(), entry.pos(), stops@)),
        );
        let ghost mut done: Seq<int> = Seq::empty();
        let ghost mut trace: Seq<Seq<Expr>> = seq![ops@];
        proof {
            lemma_word_run_end_from(entry.toks(), entry.pos(), stops@);
            assert(decl_run_starts(entry.toks(), entry.pos(), stops@) =~= done + decl_run_starts(
                entry.toks(),
                entry.pos(),
                stops@,
            ));
        }
        loop
            invariant_except_break
                self.current == entry.current ==> *self == entry && stmts@.len() == 0 && ops@.len() == 0,
                (body_stop(stops@, entry.peek_spec()) || entry.errs().spec_error_count() >= entry.errs().spec_limit())
                    ==> self.current == entry.current,
            invariant
                entry == *old(self),
                self.advanced_from(entry),
                entry.wf(),
                ops@.len() == op_spans@.len(),
                rejected_start == (!body_stop(stops@, entry.peek_spec()) && !(entry.errs().spec_error_count()
                    >= entry.errs().spec_limit()) && rejected_in_body(entry.peek_spec())),
                rejected_start && self.current > entry.current ==> self.errs().items().len()
                    > entry.errs().items().len(),
                run == (!(entry.errs().spec_error_count() >= entry.errs().spec_limit()) && body_stop(
                    stops@,
                    kind_or_eof(entry.toks(), decl_run_end(entry.toks(), entry.pos(), stops@)),
                )),
                run ==> self.errors == entry.errors && ops@.len() <= 1 && stmts@.len() == done.len()
                    && forall|k: int| 0 <= k < done.len() ==> is_decl_stmt_at(entry.toks(), #[trigger] done[k], stmts@[k]),
                run && ops@.len() == 0 ==> decl_run_starts(entry.toks(), entry.pos(), stops@) == done
                    + decl_run_starts(entry.toks(), self.pos(), stops@) && decl_run_end(
                    entry.toks(),
                    entry.pos(),
                    stops@,
                ) == decl_run_end(entry.toks(), self.pos(), stops@),
                words == (!(entry.errs().spec_error_count() >= entry.errs().spec_limit()) && body_stop(
                    stops@,
                    kind_or_eof(entry.toks(), word_run_end(entry.toks(), entry.pos(), stops@)),
                )),
                words ==> stmts@.len() == 0 && self.errors == entry.errors && entry.pos() <= self.pos()
                    <= word_run_end(entry.toks(), entry.pos(), stops@) && word_run_end(entry.toks(), self.pos(), stops@)
                    == word_run_end(entry.toks(), entry.pos(), stops@) && stack_trace(
                    entry.toks(),
                    entry.pos(),
                    self.pos(),
                    trace,
                ) && trace[0] == Seq::<Expr>::empty() && trace.last() == ops@,
                run && ops@.len() == 1 ==> self.pos() >= 1 && decl_at(entry.toks(), self.pos() - 1, stops@)
                    && (ops@[0] matches Expr::Variable { name } && name@ == type_head(entry.toks(), self.pos() - 1))
                    && decl_run_starts(entry.toks(), entry.pos(), stops@) == done + decl_run_starts(
                    entry.toks(),
                    self.pos() - 1,
                    stops@,
                ) && decl_run_end(entry.toks(), entry.pos(), stops@) == decl_run_end(
                    entry.toks(),
                    self.pos() - 1,
                    stops@,
                ),
            ensures
                self.advanced_from(entry),
                ops@.len() == op_spans@.len(),
                body_stop(stops@, self.peek_spec()) || self.errs().spec_error_count() >= self.errs().spec_limit(),
                (body_stop(stops@, entry.peek_spec()) || entry.errs().spec_error_count() >= entry.errs().spec_limit())
                    ==> *self == entry && stmts@.len() == 0 && ops@.len() == 0,
                rejected_start ==> self.current > entry.current,
                rejected_start && self.current > entry.current ==> self.errs().items().len()
                    > entry.errs().items().len(),
                run ==> self.errors == entry.errors && ops@.len() == 0 && stmts@.len() == done.len()
                    && forall|k: int| 0 <= k < done.len() ==> is_decl_stmt_at(entry.toks(), #[trigger] done[k], stmts@[k]),
                run ==> done == decl_run_starts(entry.toks(), entry.pos(), stops@) && self.pos() == decl_run_end(
                    entry.toks(),
                    entry.pos(),
                    stops@,
                ),
                words ==> stmts@.len() == 0 && self.errors == entry.errors && self.pos() == word_run_end(
                    entry.toks(),
                    entry.pos(),
                    stops@,
                ) && stack_trace(entry.toks(), entry.pos(), self.pos(), trace) && trace[0] == Seq::<Expr>::empty()
                    && trace.last() == ops@,
            decreases self.remaining(),
        {
            if self.errors.is_at_limit() {
                break;
            }
            let kind = self.peek_kind();
            if kind_in(stops, kind) {
                break;
            }
            match kind {
                TokenKind::End | TokenKind::Else | TokenKind::Case | TokenKind::Eof => break,
                _ => {
                    let start_pos = self.current;
                    let ghost before = *self;
                    let ghost ops_before = ops@.len();
                    let ghost ops_seq = ops@;
                    match self.body_step(kind, &mut stmts, &mut ops, &mut op_spans) {
                        Ok(()) => {
                            proof {
                                if words {
                                    assert(entry.toks() == before.toks());
                                    assert(start_pos < word_run_end(entry.toks(), entry.pos(), stops@));
                                    assert(plain_word_at(entry.toks(), start_pos as int, stops@));
                                    assert(word_acts(entry.toks(), start_pos as int, ops_seq, ops@));
                                    lemma_trace_push(entry.toks(), entry.pos(), start_pos as int, trace, ops@);
                                    trace = trace.push(ops@);
                                }
                                if run && ops_before == 1 {
                                    let p = start_pos - 1;
                                    assert(decl_run_starts(entry.toks(), p, stops@) =~= seq![p as int]
                                        + decl_run_starts(entry.toks(), self.pos(), stops@));
                                    assert(done.push(p as int) + decl_run_starts(entry.toks(), self.pos(), stops@)
                                        =~= done + decl_run_starts(entry.toks(), p, stops@));
                                    done = done.push(p as int);
                                }
                            }
                        },
                        Err(e) => {
                            if !self.record_error(e) {
                                break;
                            }
                            ops.clear();
                            op_spans.clear();
                            if self.current == start_pos && self.peek_kind() != TokenKind::Eof {
                                self.advance();
                            }
                            assert(self.current > start_pos);
                            self.synchronize(stops);
                        },
                    }
                },
            }
        }
        let ghost left = ops@;
        if let Some((expr, span)) = drain_ops(&mut ops, &mut op_spans) {
            stmts.push(Stmt::new(StmtKind::Expr(expr), span));
        }
        proof {
            if words {
                assert(stack_trace(entry.toks(), entry.pos(), self.pos(), trace));
                if left.len() >= 2 {
                    assert(drained_into(left, stmts@));
                }
            }
        }
        Ok(stmts)
    }

    /// Skip tokens until a likely statement or block boundary.
    fn synchronize(&mut self, stops: &[TokenKind])
        requires
            old(self).wf(),
        ensures
            final(self).advanced_from(*old(self)),
            final(self).errors == old(self).errors,
            final(self).peek_spec() == TokenKind::Eof || stops@.contains(final(self).peek_spec())
                || is_sync_kind(final(self).peek_spec()),
            forall|i: int|
                old(self).current <= i < final(self).current ==> !is_sync_kind(
                    #[trigger] final(self).tokens@[i].kind,
                ) && !stops@.contains(final(self).tokens@[i].kind) && final(self).tokens@[i].kind
                    != TokenKind::Eof,
    {
        let ghost entry = *self;
        loop
            invariant
                entry == *old(self),
                self.advanced_from(entry),
                self.errors == entry.errors,
                forall|i: int|
                    entry.current <= i < self.current ==> !is_sync_kind(
                        #[trigger] self.tokens@[i].kind,
                    ) && !stops@.contains(self.tokens@[i].kind) && self.tokens@[i].kind
                        != TokenKind::Eof,
            ensures
                self.advanced_from(entry),
                self.errors == entry.errors,
                self.peek_spec() == TokenKind::Eof || stops@.contains(self.peek_spec())
                    || is_sync_kind(self.peek_spec()),
                forall|i: int|
                    entry.current <= i < self.current ==> !is_sync_kind(
                        #[trigger] self.tokens@[i].kind,
                    ) && !stops@.contains(self.tokens@[i].kind) && self.tokens@[i].kind
                        != TokenKind::Eof,
            decreases self.remaining(),
        {
            let kind = self.peek_kind();
            if kind == TokenKind::Eof || kind_in(stops, kind) || sync_kind(kind) {
                break;
            }
            self.advance();
        }
    }

    /// Parse one statement or expression word inside a body.
    #[verifier::spinoff_prover]
    fn body_step(
        &mut self,
        kind: TokenKind,
        stmts: &mut Vec<Stmt>,
        ops: &mut Vec<Expr>,
        op_spans: &mut Vec<Span>,
    ) -> (r: ParseResult<()>)
        requires
            old(self).wf(),
            kind == old(self).peek_spec(),
            kind != TokenKind::Eof,
            old(ops)@.len() == old(op_spans)@.len(),
        ensures
            final(self).advanced_from(*old(self)),
            final(ops)@.len() == final(op_spans)@.len(),
            r is Ok ==> final(self).current > old(self).current,
            !statement_kind(kind) ==> final(self).errors == old(self).errors,
            simple_word(kind) && !statement_kind(kind) ==> r is Ok && final(stmts)@ == old(stmts)@
                && word_effect(kind, old(ops)@, final(ops)@) && final(self).current == old(self).current + 1,
            !statement_kind(kind) && binary_op_spec(kind) is None && !is_word_kind(kind) ==> r is Err,
            kind == TokenKind::Struct ==> ((r is Ok) <==> (old(ops)@.len() > 0 && old(ops)@.last() is Variable
                && fields_until_end(old(self).toks(), old(self).pos() + 1) is Some)),
            kind == TokenKind::Union ==> ((r is Ok) <==> (old(ops)@.len() > 0 && old(ops)@.last() is Variable
                && types_until_end(old(self).toks(), old(self).pos() + 1) is Some)),
            kind == TokenKind::Enum ==> ((r is Ok) <==> (enum_head_split(old(ops)@).0.len() > 0
                && enum_head_split(old(ops)@).0.last() is Variable && members_until_end(
                old(self).toks(),
                old(self).pos() + 1,
            ) is Some)),
            kind == TokenKind::SetWord ==> ((r is Ok) <==> (old(ops)@.len() > 0 && helpers::first_target(
                old(ops)@,
            ) is Some)),
            (kind == TokenKind::Struct || kind == TokenKind::Union || kind == TokenKind::Enum || kind
                == TokenKind::SetWord || kind == TokenKind::Mutable || kind == TokenKind::Const || kind
                == TokenKind::Static) && r is Ok ==> final(stmts)@.len() == old(stmts)@.len() + 1
                && final(stmts)@.drop_last() == old(stmts)@,
            kind == TokenKind::Struct && r is Ok ==> (final(stmts)@.last().kind matches StmtKind::Struct(d) && (old(
                ops,
            )@.last() matches Expr::Variable { name: n } && d.name@ == n@) && d.visibility is None
                && struct_fields_view(d.fields@) == fields_from(old(self).toks(), old(self).pos() + 1)),
            kind == TokenKind::Union && r is Ok ==> (final(stmts)@.last().kind matches StmtKind::Union(d) && (old(
                ops,
            )@.last() matches Expr::Variable { name: n } && d.name@ == n@) && type_locations(d.types@)
                == type_starts(old(self).toks(), old(self).pos() + 1)),
            kind == TokenKind::Enum && r is Ok ==> (final(stmts)@.last().kind matches StmtKind::Enum(d) && (
            enum_head_split(old(ops)@).0.last() matches Expr::Variable { name: n } && d.name@ == n@)
                && enum_members_view(d.members@) == members_from(old(self).toks(), old(self).pos() + 1)),
            (kind == TokenKind::Mutable || kind == TokenKind::Const || kind == TokenKind::Static) && r is Ok ==> (
            final(stmts)@.last().kind matches StmtKind::VarDecl { name, mutability, .. } && (old(ops)@.last() matches Expr::Variable {
                name: n,
            } && name@ == n@) && mutability == if kind == TokenKind::Mutable {
                Mutability::Mutable
            } else if kind == TokenKind::Const {
                Mutability::Const
            } else {
                Mutability::Static
            }),
            kind == TokenKind::SetWord && r is Ok ==> final(stmts)@.last().kind is SetValue,
            kind == TokenKind::Identifier && kind_or_eof(old(self).toks(), old(self).pos() + 1) != TokenKind::Dot
                ==> r is Ok && final(self).current == old(self).current + 1 && final(stmts)@ == old(stmts)@
                && final(ops)@.drop_last() == old(ops)@ && final(ops)@.len() == old(ops)@.len() + 1 && word_pushes(
                old(self).toks(),
                old(self).pos(),
                final(ops)@.last(),
            ),
            kind == TokenKind::Struct && r is Ok ==> final(self).pos() == fields_until_end(
                old(self).toks(),
                old(self).pos() + 1,
            )->Some_0 && final(ops)@ == old(ops)@.drop_last() && final(self).errors == old(self).errors,
            kind == TokenKind::Union && r is Ok ==> final(self).pos() == types_until_end(
                old(self).toks(),
                old(self).pos() + 1,
            )->Some_0 && final(ops)@ == old(ops)@.drop_last() && final(self).errors == old(self).errors,
            kind == TokenKind::Enum && r is Ok ==> final(self).pos() == members_until_end(
                old(self).toks(),
                old(self).pos() + 1,
            )->Some_0 && final(ops)@ == enum_head_split(old(ops)@).0.drop_last() && final(self).errors == old(
                self,
            ).errors && (enum_head_split(old(ops)@).1 is None ==> (final(stmts)@.last().kind matches StmtKind::Enum(
                d,
            ) && d.underlying is None)),
            (kind == TokenKind::Mutable || kind == TokenKind::Const || kind == TokenKind::Static) && r is Ok ==> (
            final(self).pos() == type_end(old(self).toks(), old(self).pos() + 1)->Some_0 && final(ops)@.len() == 0
                && final(self).errors == old(self).errors && (final(stmts)@.last().kind matches StmtKind::VarDecl {
                ty,
                value,
                ..
            } && ty.location == old(self).toks()[old(self).pos() + 1].location && (old(ops)@.len() == 1
                ==> value is None))),
            plain_word(old(self).toks(), old(self).pos()) ==> r is Ok && final(self).current == old(self).current + 1
                && final(stmts)@ == old(stmts)@ && final(self).errors == old(self).errors && word_acts(
                old(self).toks(),
                old(self).pos(),
                old(ops)@,
                final(ops)@,
            ),
            kind == TokenKind::If && r is Ok ==> final(stmts)@.len() == old(stmts)@.len() + 1 && final(stmts)@.drop_last()
                == old(stmts)@ && (final(stmts)@.last().kind matches StmtKind::If { condition, then_branch, else_branch }
                && drained_operand(old(ops)@, old(op_spans)@, condition) && exists|
                s1: Parser,
                p1: Parser,
                s2: Parser,
                p2: Parser,
            | #[trigger] if_parts(*old(self), s1, p1, s2, p2, *final(self), then_branch@, else_branch@)),
            kind == TokenKind::Defer && r is Ok ==> final(stmts)@.len() == old(stmts)@.len() + 1 && final(stmts)@.drop_last() == old(stmts)@ && (final(stmts)@.last().kind matches StmtKind::Defer { body } && exists|
                s1: Parser,
                p1: Parser,
            | #[trigger] block_parts(*old(self), s1, p1, *final(self), body@)),
            kind == TokenKind::Unsafe && kind_or_eof(old(self).toks(), old(self).pos() + 1) != TokenKind::Function && r is Ok
                ==> final(stmts)@.len() == old(stmts)@.len() + 1 && final(stmts)@.drop_last() == old(stmts)@ && (final(stmts)@.last().kind matches StmtKind::Unsafe { body } && exists|s1: Parser, p1: Parser| #[trigger] block_parts(
                *old(self),
                s1,
                p1,
                *final(self),
                body@,
            )),
            kind == TokenKind::Unsafe && kind_or_eof(old(self).toks(), old(self).pos() + 1) == TokenKind::Function && r is Ok
                ==> final(stmts)@.len() == old(stmts)@.len() + 1 && final(stmts)@.drop_last() == old(stmts)@ && (final(stmts)@.last().kind matches StmtKind::Function(
                f,
            ) && (old(ops)@.last() matches Expr::Variable { name: n } && f.name@ == n@) && f.visibility is None
                && f.is_unsafe && exists|s1: Parser, p1: Parser| #[trigger] fn_body_parts(
                old(self).toks(),
                fn_head_end(old(self).toks(), old(self).pos() + 1)->Some_0,
                s1,
                p1,
                f.body@,
            )),
            kind == TokenKind::For && r is Ok ==> final(stmts)@.len() == old(stmts)@.len() + 1 && final(stmts)@.drop_last()
                == old(stmts)@ && (final(stmts)@.last().kind matches StmtKind::For { source, body } && drained_operand(
                old(ops)@,
                old(op_spans)@,
                source,
            ) && exists|s1: Parser, p1: Parser| #[trigger] block_parts(*old(self), s1, p1, *final(self), body@)),
            kind == TokenKind::Handle && r is Ok ==> (final(stmts)@.last().kind matches StmtKind::Handle { body, fallback }
                && exists|s1: Parser, p1: Parser, b: Seq<Stmt>| #[trigger] block_parts(*old(self), s1, p1, *final(self), b)
                && body@ == helpers::without_fallback(b) && fallback == helpers::fallback_of(b)),
            kind == TokenKind::Handle && r is Ok && old(ops)@.len() == 0 ==> final(stmts)@.len() == old(stmts)@.len() + 1
                && final(stmts)@.drop_last() == old(stmts)@,
            kind == TokenKind::Handle && r is Ok && old(ops)@.len() > 0 ==> final(stmts)@.len() == old(stmts)@.len() + 2
                && final(stmts)@.take(old(stmts)@.len() as int) == old(stmts)@ && (final(stmts)@[old(stmts)@.len() as int].kind matches StmtKind::Expr(
                e,
            ) && drained_operand(old(ops)@, old(op_spans)@, e)),
            kind == TokenKind::Match && r is Ok ==> final(stmts)@.len() == old(stmts)@.len() + 1 && final(stmts)@.drop_last()
                == old(stmts)@ && match_built(old(self).toks(), old(ops)@, old(op_spans)@, final(stmts)@.last()),
            kind == TokenKind::Return ==> r is Ok && (final(stmts)@.last().kind matches StmtKind::Return { value }
                && value is None),
            kind == TokenKind::Return && old(ops)@.len() == 0 ==> final(stmts)@.drop_last() == old(stmts)@,
            kind == TokenKind::Return && old(ops)@.len() > 0 ==> final(stmts)@.len() == old(stmts)@.len() + 2 && final(stmts)@.take(old(stmts)@.len() as int) == old(stmts)@ && (final(stmts)@[old(stmts)@.len() as int].kind matches StmtKind::Expr(
                e,
            ) && drained_operand(old(ops)@, old(op_spans)@, e)),
            kind == TokenKind::Move ==> ((r is Ok) <==> (old(ops)@.len() > 0 && old(ops)@.last() is Variable)),
            kind == TokenKind::Move && r is Ok ==> final(stmts)@.drop_last() == old(stmts)@ && final(stmts)@.len()
                == old(stmts)@.len() + 1 && (final(stmts)@.last().kind matches StmtKind::Move { target, source } && (old(
                ops,
            )@.last() matches Expr::Variable { name } && target@ == name@) && drained_operand(
                old(ops)@.drop_last(),
                old(op_spans)@.drop_last(),
                source,
            )),
            kind == TokenKind::Fallback ==> r is Ok && final(stmts)@.drop_last() == old(stmts)@ && final(stmts)@.len()
                == old(stmts)@.len() + 1 && (final(stmts)@.last().kind matches StmtKind::Fallback { value }
                && drained_value(old(ops)@, old(op_spans)@, value)),
            (kind == TokenKind::Function || kind == TokenKind::Implement) && r is Ok ==> final(stmts)@.len()
                == old(stmts)@.len() + 1 && final(stmts)@.drop_last() == old(stmts)@ && final(ops)@ == old(
                ops,
            )@.drop_last(),
            kind == TokenKind::Function && r is Ok ==> (final(stmts)@.last().kind matches StmtKind::Function(f) && (old(
                ops,
            )@.last() matches Expr::Variable { name: n } && f.name@ == n@) && f.visibility is None
                && !f.is_unsafe && exists|s1: Parser, p1: Parser| #[trigger] fn_body_parts(
                old(self).toks(),
                fn_head_end(old(self).toks(), old(self).pos())->Some_0,
                s1,
                p1,
                f.body@,
            )),
            kind == TokenKind::Implement && r is Ok ==> (final(stmts)@.last().kind matches StmtKind::Implement(d) && (
            old(ops)@.last() matches Expr::Variable { name: n } && d.target@ == n@)),
            (kind == TokenKind::Mutable || kind == TokenKind::Const || kind == TokenKind::Static) ==> ((r is Ok)
                <==> (old(ops)@.len() > 0 && old(ops)@.last() is Variable && type_end(
                old(self).toks(),
                old(self).pos() + 1,
            ) is Some)),
        decreases old(self).remaining(), rank_step(),
    {
        match kind {
            TokenKind::Mutable | TokenKind::Const | TokenKind::Static => {
                let decl = self.parse_var_decl(ops, op_spans)?;
                stmts.push(decl);
            },
            TokenKind::Function => {
                let (name, stack_span) = self.pop_name(ops, op_spans)?;
                let start = self.peek_span();
                let func = self.parse_function(name, None, false)?;
                let end = self.prev_span();
                let span = stack_span.merge(start).merge(end);
                stmts.push(Stmt::new(StmtKind::Function(func), span));
            },
            TokenKind::Load | TokenKind::Store => {
                // `load` / `store` are the typed pointer words, but a function
                // may carry these names: before a function head they are a name.
                if self.peek_is_function_head(1) {
                    let span = self.peek_span();
                    ops.push(Expr::variable(self.peek_lexeme()));
                    op_spans.push(span);
                    self.advance();
                } else {
                    self.process_expr_word(ops, op_spans)?;
                }
            },
            TokenKind::Public | TokenKind::Private => {
                let vis = match self.parse_visibility() {
                    Some(v) => v,
                    None => Visibility::Public,
                };
                let stmt = self.parse_visible_decl(ops, op_spans, vis)?;
                stmts.push(stmt);
            },
            TokenKind::Unsafe => {
                if self.peek_next_kind() == TokenKind::Function {
                    // `name unsafe function`
                    let (name, stack_span) = self.pop_name(ops, op_spans)?;
                    let start = self.peek_span();
                    self.advance();
                    let func = self.parse_function(name, None, true)?;
                    let end = self.prev_span();
                    let span = stack_span.merge(start).merge(end);
                    stmts.push(Stmt::new(StmtKind::Function(func), span));
                } else {
                    // `unsafe ... end`: an unsafe block.
                    let start = self.peek_span();
                    self.advance();
                    let ghost s1 = *self;
                    let stops = [TokenKind::End];
                    assert(stops@ =~= seq![TokenKind::End]);
                    let body = self.body(&stops)?;
                    let ghost p1 = *self;
                    self.expect(TokenKind::End, "expected 'end' after unsafe block")?;
                    assert(block_parts(*old(self), s1, p1, *self, body@)) by {
                        reveal(block_parts);
                    }
                    let ghost bv = body@;
                    let end = self.prev_span();
                    stmts.push(Stmt::new(StmtKind::Unsafe { body }, start.merge(end)));
                    assert(stmts@.last().kind matches StmtKind::Unsafe { body } && body@ == bv);
                }
            },
            TokenKind::Struct => {
                let (name, stack_span) = self.pop_name(ops, op_spans)?;
                let start = self.peek_span();
                let decl = self.parse_struct(name, None)?;
                let end = self.prev_span();
                let span = stack_span.merge(start).merge(end);
                stmts.push(Stmt::new(StmtKind::Struct(decl), span));
            },
            TokenKind::Enum => {
                let (name, underlying, stack_span) = self.pop_enum_head(ops, op_spans)?;
                let start = self.peek_span();
                let decl = self.parse_enum(name, underlying)?;
                let end = self.prev_span();
                let span = stack_span.merge(start).merge(end);
                stmts.push(Stmt::new(StmtKind::Enum(decl), span));
            },
            TokenKind::Union => {
                let (name, stack_span) = self.pop_name(ops, op_spans)?;
                let start = self.peek_span();
                let decl = self.parse_union(name)?;
                let end = self.prev_span();
                let span = stack_span.merge(start).merge(end);
                stmts.push(Stmt::new(StmtKind::Union(decl), span));
            },
            TokenKind::Error => {
                // Soft keyword: `error.Name` is a path; `... error require` is a
                // module alias; otherwise `Name error ... end`.
                let next = self.peek_next_kind();
                if next == TokenKind::Dot {
                    self.process_expr_word(ops, op_spans)?;
                } else if next == TokenKind::Require {
                    let span = self.peek_span();
                    ops.push(Expr::variable(owned("error")));
                    op_spans.push(span);
                    self.advance();
                } else {
                    let start = self.peek_span();
                    let (decl, stack_span) = self.parse_error_decl(ops, op_spans)?;
                    let end = self.prev_span();
                    let span = stack_span.merge(start).merge(end);
                    stmts.push(Stmt::new(StmtKind::Error(decl), span));
                }
            },
            TokenKind::Implement => {
                let (name, stack_span) = self.pop_name(ops, op_spans)?;
                let start = self.peek_span();
                let imp = self.parse_implement(name)?;
                let end = self.prev_span();
                let span = stack_span.merge(start).merge(end);
                stmts.push(Stmt::new(StmtKind::Implement(imp), span));
            },
            TokenKind::Require => {
                let req = self.parse_require(ops, op_spans)?;
                stmts.push(req);
            },
            TokenKind::SetWord => {
                let set = self.parse_set(ops, op_spans)?;
                stmts.push(set);
            },
            TokenKind::If => {
                let (condition, cond_span) = match drain_ops(ops, op_spans) {
                    Some(p) => p,
                    None => (Expr::variable(String::new()), Span::default()),
                };
                assert(drained_operand(old(ops)@, old(op_spans)@, condition)) by {
                    reveal(drained_operand);
                    if old(ops)@.len() > 0 {
                        assert(helpers::drain_result(old(ops)@, old(op_spans)@, Some((condition, cond_span))));
                    }
                }
                let start = self.peek_span();
                self.advance();
                let ghost s1 = *self;
                let then_stops = [TokenKind::Else, TokenKind::End];
                assert(then_stops@ =~= seq![TokenKind::Else, TokenKind::End]);
                let then_branch = self.body(&then_stops)?;
                let ghost p1 = *self;
                let ghost mut s2 = *self;
                let else_branch = if self.match_kind(TokenKind::Else) {
                    proof {
                        s2 = *self;
                    }
                    let else_stops = [TokenKind::End];
                    assert(else_stops@ =~= seq![TokenKind::End]);
                    self.body(&else_stops)?
                } else {
                    Vec::new()
                };
                let ghost p2 = *self;
                self.expect(TokenKind::End, "expected 'end' after if/else block")?;
                assert(if_parts(*old(self), s1, p1, s2, p2, *self, then_branch@, else_branch@)) by {
                    reveal(if_parts);
                }
                let ghost tv = then_branch@;
                let ghost ev = else_branch@;
                let end = self.prev_span();
                let span = cond_span.merge(start).merge(end);
                stmts.push(Stmt::new(StmtKind::If { condition, then_branch, else_branch }, span));
                assert(stmts@.last().kind matches StmtKind::If { then_branch, else_branch, .. } && then_branch@ == tv
                    && else_branch@ == ev);
            },
            TokenKind::For => {
                let stmt = self.parse_for(ops, op_spans)?;
                stmts.push(stmt);
            },
            TokenKind::Match => {
                let stmt = self.parse_match(ops, op_spans)?;
                stmts.push(stmt);
            },
            TokenKind::Defer => {
                let start = self.peek_span();
                self.advance();
                let ghost s1 = *self;
                let stops = [TokenKind::End];
                assert(stops@ =~= seq![TokenKind::End]);
                let body = self.body(&stops)?;
                let ghost p1 = *self;
                self.expect(TokenKind::End, "expected 'end' after defer block")?;
                assert(block_parts(*old(self), s1, p1, *self, body@)) by {
                    reveal(block_parts);
                }
                let ghost bv = body@;
                let end = self.prev_span();
                stmts.push(Stmt::new(StmtKind::Defer { body }, start.merge(end)));
                assert(stmts@.last().kind matches StmtKind::Defer { body } && body@ == bv);
            },
            TokenKind::Handle => {
                if let Some((expr, span)) = drain_ops(ops, op_spans) {
                    assert(drained_operand(old(ops)@, old(op_spans)@, expr)) by {
                        reveal(drained_operand);
                        assert(helpers::drain_result(old(ops)@, old(op_spans)@, Some((expr, span))));
                    }
                    stmts.push(Stmt::new(StmtKind::Expr(expr), span));
                }
                let ghost mid = stmts@;
                let start = self.peek_span();
                self.advance();
                let ghost s1 = *self;
                let stops = [TokenKind::End];
                assert(stops@ =~= seq![TokenKind::End]);
                let body = self.body(&stops)?;
                let ghost p1 = *self;
                self.expect(TokenKind::End, "expected 'end' after handle block")?;
                assert(block_parts(*old(self), s1, p1, *self, body@)) by {
                    reveal(block_parts);
                }
                let ghost bv = body@;
                let end = self.prev_span();
                let (body, fallback) = extract_fallback(body);
                let ghost kept = body@;
                stmts.push(Stmt::new(StmtKind::Handle { body, fallback }, start.merge(end)));
                assert(stmts@.last().kind matches StmtKind::Handle { body, fallback } && body@ == kept
                    && kept == helpers::without_fallback(bv) && fallback == helpers::fallback_of(bv));
                assert(stmts@.drop_last() == mid);
            },
            TokenKind::Move => {
                let start = self.peek_span();
                self.advance();
                let location = self.prev_span().start_location();
                let target_expr = match ops.pop() {
                    Some(e) => e,
                    None => {
                        return Err(perr("'move' requires a target variable", location, "E220"));
                    },
                };
                let target_span = match op_spans.pop() {
                    Some(s) => s,
                    None => Span::default(),
                };
                let target = match target_expr {
                    Expr::Variable { name } => name,
                    _ => {
                        return Err(perr("'move' requires a target variable", location, "E221"));
                    },
                };
                let ghost rest_ops = ops@;
                let ghost rest_spans = op_spans@;
                let (source, source_span) = match drain_ops(ops, op_spans) {
                    Some(p) => p,
                    None => (Expr::variable(String::new()), Span::default()),
                };
                assert(drained_operand(rest_ops, rest_spans, source)) by {
                    reveal(drained_operand);
                    if rest_ops.len() > 0 {
                        assert(helpers::drain_result(rest_ops, rest_spans, Some((source, source_span))));
                    }
                }
                stmts.push(
                    Stmt::new(
                        StmtKind::Move { target, source },
                        target_span.merge(source_span).merge(start),
                    ),
                );
            },
            TokenKind::Fallback => {
                let start = self.peek_span();
                self.advance();
                let ghost before_ops = ops@;
                let ghost before_spans = op_spans@;
                let (value, stack_span) = match drain_ops(ops, op_spans) {
                    Some((expr, span)) => (Some(expr), span),
                    None => (None, Span::default()),
                };
                assert(drained_value(before_ops, before_spans, value)) by {
                    reveal(drained_value);
                    if let Some(e) = value {
                        assert(helpers::drain_result(before_ops, before_spans, Some((e, stack_span))));
                    }
                }
                stmts.push(Stmt::new(StmtKind::Fallback { value }, stack_span.merge(start)));
            },
            TokenKind::Return => {
                let drained = drain_ops(ops, op_spans);
                let start = self.peek_span();
                self.advance();
                if let Some((expr, expr_span)) = drained {
                    assert(drained_operand(old(ops)@, old(op_spans)@, expr)) by {
                        reveal(drained_operand);
                        assert(helpers::drain_result(old(ops)@, old(op_spans)@, Some((expr, expr_span))));
                    }
                    stmts.push(Stmt::new(StmtKind::Expr(expr), expr_span));
                }
                stmts.push(Stmt::new(StmtKind::Return { value: None }, start));
            },
            _ => self.process_expr_word(ops, op_spans)?,
        }
        Ok(())
    }

    fn parse_var_decl(&mut self, ops: &mut Vec<Expr>, op_spans: &mut Vec<Span>) -> (r:
        ParseResult<Stmt>)
        requires
            old(self).wf(),
            old(self).peek_spec() == TokenKind::Mutable || old(self).peek_spec()
                == TokenKind::Const || old(self).peek_spec() == TokenKind::Static,
            old(ops)@.len() == old(op_spans)@.len(),
        ensures
            final(self).advanced_from(*old(self)),
            final(ops)@.len() == final(op_spans)@.len(),
            r is Ok ==> final(self).current > old(self).current,
            (r is Ok) <==> (old(ops)@.len() > 0 && old(ops)@.last() is Variable && type_end(
                old(self).toks(),
                old(self).pos() + 1,
            ) is Some),
            r is Ok ==> final(self).pos() == type_end(old(self).toks(), old(self).pos() + 1)->Some_0,
            r matches Ok(s) ==> s.kind matches StmtKind::VarDecl { name, .. } && (old(ops)@.last() matches Expr::Variable {
                name: n,
            } && name@ == n@),
            r matches Ok(s) ==> s.kind matches StmtKind::VarDecl { mutability, .. } && mutability
                == if old(self).peek_spec() == TokenKind::Mutable {
                Mutability::Mutable
            } else if old(self).peek_spec() == TokenKind::Const {
                Mutability::Const
            } else {
                Mutability::Static
            },
            r matches Ok(s) ==> s.kind matches StmtKind::VarDecl { ty, value, .. } && ty.location == old(
                self,
            ).tokens@[old(self).current + 1].location && (old(ops)@.len() == 1 ==> value is None),
            r is Ok ==> final(ops)@.len() == 0,
            final(self).errors == old(self).errors,
    {
        let start = self.peek_span();
        let mutability = match self.peek_kind() {
            TokenKind::Mutable => Mutability::Mutable,
            TokenKind::Const => Mutability::Const,
            _ => Mutability::Static,
        };
        self.advance();
        let (name, name_span) = self.pop_name(ops, op_spans)?;
        let (value, value_span) = match drain_ops(ops, op_spans) {
            Some((expr, span)) => (Some(expr), span),
            None => (None, Span::default()),
        };
        let ty = self.parse_type()?;
        let end = self.prev_span();
        Ok(
            Stmt::new(
                StmtKind::VarDecl { name, mutability, ty, value },
                name_span.merge(value_span).merge(start).merge(end),
            ),
        )
    }

    /// `value target set`: the target is the top entry if it is a variable or
    /// field, otherwise the first one on the stack.
    fn parse_set(&mut self, ops: &mut Vec<Expr>, op_spans: &mut Vec<Span>) -> (r: ParseResult<
        Stmt,
    >)
        requires
            old(self).wf(),
            old(self).peek_spec() == TokenKind::SetWord,
            old(ops)@.len() == old(op_spans)@.len(),
        ensures
            final(self).advanced_from(*old(self)),
            final(self).current == old(self).current + 1,
            final(ops)@.len() == final(op_spans)@.len(),
            old(ops)@.len() == 0 ==> (r matches Err(e) && e.code@ == "E202"@),
            old(ops)@.len() > 0 && helpers::first_target(old(ops)@) is None ==> (r matches Err(e)
                && e.code@ == "E203"@),
            old(ops)@.len() > 0 && helpers::first_target(old(ops)@) is Some ==> (r matches Ok(s)
                && s.kind is SetValue),
    {
        let start = self.peek_span();
        let location = self.peek_location();
        self.advance();
        if ops.len() == 0 {
            return Err(perr("'set' requires a target variable", location, "E202"));
        }
        proof {
            helpers::lemma_first_target_last(ops@);
        }
        let (target, target_span) = match pop_target(ops, op_spans) {
            Some(p) => p,
            None => {
                return Err(perr("'set' target must be a variable or field", location, "E203"));
            },
        };
        let (value, value_span) = match drain_ops(ops, op_spans) {
            Some((expr, span)) => (Some(expr), span),
            None => (None, Span::default()),
        };
        Ok(
            Stmt::new(
                StmtKind::SetValue { target, value },
                target_span.merge(value_span).merge(start),
            ),
        )
    }

    fn parse_for(&mut self, ops: &mut Vec<Expr>, op_spans: &mut Vec<Span>) -> (r: ParseResult<
        Stmt,
    >)
        requires
            old(self).wf(),
            old(self).peek_spec() == TokenKind::For,
            old(ops)@.len() == old(op_spans)@.len(),
        ensures
            final(self).advanced_from(*old(self)),
            final(self).current > old(self).current,
            final(ops)@.len() == 0 && final(op_spans)@.len() == 0,
            r matches Ok(s) ==> s.kind matches StmtKind::For { source, body } && drained_operand(
                old(ops)@,
                old(op_spans)@,
                source,
            ) && exists|s1: Parser, p1: Parser| #[trigger] block_parts(*old(self), s1, p1, *final(self), body@),
        decreases old(self).remaining(), rank_decl(),
    {
        let (source, source_span) = match drain_ops(ops, op_spans) {
            Some(p) => p,
            None => (Expr::variable(String::new()), Span::default()),
        };
        assert(drained_operand(old(ops)@, old(op_spans)@, source)) by {
            reveal(drained_operand);
            if old(ops)@.len() > 0 {
                assert(helpers::drain_result(old(ops)@, old(op_spans)@, Some((source, source_span))));
            }
        }
        let start = self.peek_span();
        self.advance();
        let ghost s1 = *self;
        let stops = [TokenKind::End];
        assert(stops@ =~= seq![TokenKind::End]);
        let body = self.body(&stops)?;
        let ghost p1 = *self;
        self.expect(TokenKind::End, "expected 'end' after for block")?;
        assert(block_parts(*old(self), s1, p1, *self, body@)) by {
            reveal(block_parts);
        }
        let end = self.prev_span();
        let ghost bv = body@;
        let ghost sv = source;
        let st = Stmt::new(StmtKind::For { source, body }, source_span.merge(start).merge(end));
        assert(st.kind matches StmtKind::For { source, body } && body@ == bv && source == sv);
        Ok(st)
    }

    fn parse_match(&mut self, ops: &mut Vec<Expr>, op_spans: &mut Vec<Span>) -> (r:
        ParseResult<Stmt>)
        requires
            old(self).wf(),
            old(self).peek_spec() == TokenKind::Match,
            old(ops)@.len() == old(op_spans)@.len(),
        ensures
            final(self).advanced_from(*old(self)),
            final(self).current > old(self).current,
            final(ops)@.len() == 0 && final(op_spans)@.len() == 0,
            r matches Ok(s) ==> match_built(old(self).toks(), old(ops)@, old(op_spans)@, s),
        decreases old(self).remaining(), rank_decl(),
    {
        let (value, value_span) = match drain_ops(ops, op_spans) {
            Some(p) => p,
            None => (Expr::variable(String::new()), Span::default()),
        };
        assert(drained_operand(old(ops)@, old(op_spans)@, value)) by {
            reveal(drained_operand);
            if old(ops)@.len() > 0 {
                assert(helpers::drain_result(old(ops)@, old(op_spans)@, Some((value, value_span))));
            }
        }
        let start = self.peek_span();
        self.advance();
        let mut cases: Vec<MatchCase> = Vec::new();
        let mut else_branch: Vec<Stmt> = Vec::new();
        let ghost entry = *old(self);
        loop
            invariant
                entry == *old(self),
                self.advanced_from(entry),
                self.current > entry.current,
                ops@.len() == 0 && op_spans@.len() == 0,
                forall|k: int| #![trigger cases@[k]] 0 <= k < cases@.len() ==> exists|s1: Parser, p1: Parser| #[trigger] case_body(
                    entry.toks(),
                    s1,
                    p1,
                    cases@[k].body@,
                ),
                else_branch@.len() == 0 || exists|s1: Parser, p1: Parser| #[trigger] case_body(
                    entry.toks(),
                    s1,
                    p1,
                    else_branch@,
                ),
            decreases self.remaining(),
        {
            if self.match_kind(TokenKind::End) {
                break;
            }
            if self.match_kind(TokenKind::Else) {
                let ghost s1 = *self;
                let stops = [TokenKind::End];
                assert(stops@ =~= seq![TokenKind::End]);
                else_branch = self.body(&stops)?;
                let ghost p1 = *self;
                self.expect(TokenKind::End, "expected 'end' after match else block")?;
                assert(case_body(entry.toks(), s1, p1, else_branch@)) by {
                    reveal(case_body);
                }
                continue;
            }
            let location = self.peek_location();
            // A type case on a union subject: `<Type> case <body> end`. The
            // type only wins when `case` follows at once; otherwise rewind and
            // read a condition.
            let save = self.current;
            let ghost at_save = *self;
            match self.parse_type() {
                Ok(ty) => {
                    if self.match_kind(TokenKind::Case) {
                        let ghost s1 = *self;
                        let stops = [TokenKind::End];
                        assert(stops@ =~= seq![TokenKind::End]);
                        let body = self.body(&stops)?;
                        let ghost p1 = *self;
                        self.expect(TokenKind::End, "expected 'end' after case block")?;
                        assert(case_body(entry.toks(), s1, p1, body@)) by {
                            reveal(case_body);
                        }
                        let ghost before = cases@;
                        let ghost bv = body@;
                        cases.push(MatchCase { kind: MatchCaseKind::Type(ty), body });
                        assert(cases@.last().body@ == bv);
                        assert forall|k: int| #![trigger cases@[k]] 0 <= k < cases@.len() implies exists|x: Parser, y: Parser| #[trigger] case_body(
                            entry.toks(),
                            x,
                            y,
                            cases@[k].body@,
                        ) by {
                            if k < before.len() {
                                assert(cases@[k] == before[k]);
                            }
                        }
                        continue;
                    }
                },
                Err(_) => {},
            }
            self.current = save;
            assert(self.advanced_from(entry));
            // An expression case: `<condition words> case <body> end`.
            let mut cond_ops: Vec<Expr> = Vec::new();
            let mut cond_op_spans: Vec<Span> = Vec::new();
            loop
                invariant
                    entry == *old(self),
                    self.advanced_from(entry),
                    self.current >= save,
                    save > entry.current,
                    ops@.len() == 0 && op_spans@.len() == 0,
                    cond_ops@.len() == cond_op_spans@.len(),
                ensures
                    self.advanced_from(entry),
                    self.current >= save,
                    self.peek_spec() == TokenKind::Case,
                decreases self.remaining(),
            {
                let kind = self.peek_kind();
                if kind == TokenKind::Case {
                    break;
                }
                if kind == TokenKind::End || kind == TokenKind::Else || kind == TokenKind::Eof {
                    return Err(perr("expected a condition before 'case'", location, "E205"));
                }
                self.process_expr_word(&mut cond_ops, &mut cond_op_spans)?;
            }
            self.advance();  // consume 'case'
            let (condition, _) = match drain_ops(&mut cond_ops, &mut cond_op_spans) {
                Some(p) => p,
                None => (Expr::variable(String::new()), Span::default()),
            };
            let ghost s1 = *self;
            let stops = [TokenKind::End];
            assert(stops@ =~= seq![TokenKind::End]);
            let body = self.body(&stops)?;
            let ghost p1 = *self;
            self.expect(TokenKind::End, "expected 'end' after case block")?;
            assert(case_body(entry.toks(), s1, p1, body@)) by {
                reveal(case_body);
            }
            let ghost before = cases@;
            let ghost bv = body@;
            cases.push(MatchCase { kind: MatchCaseKind::Condition(condition), body });
            assert(cases@.last().body@ == bv);
            assert forall|k: int| #![trigger cases@[k]] 0 <= k < cases@.len() implies exists|x: Parser, y: Parser| #[trigger] case_body(
                entry.toks(),
                x,
                y,
                cases@[k].body@,
            ) by {
                if k < before.len() {
                    assert(cases@[k] == before[k]);
                }
            }
        }
        let end = self.prev_span();
        let st = Stmt::new(StmtKind::Match { value, cases, else_branch }, value_span.merge(start).merge(end));
        assert(match_built(old(self).toks(), old(ops)@, old(op_spans)@, st)) by {
            reveal(match_built);
        }
        Ok(st)
    }

    /// `"<path>" [<alias>] require`.
    fn parse_require(&mut self, ops: &mut Vec<Expr>, op_spans: &mut Vec<Span>) -> (r:
        ParseResult<Stmt>)
        requires
            old(self).wf(),
            old(self).peek_spec() == TokenKind::Require,
            old(ops)@.len() == old(op_spans)@.len(),
        ensures
            final(self).advanced_from(*old(self)),
            final(self).current == old(self).current + 1,
            final(ops)@.len() == final(op_spans)@.len(),
            r matches Ok(s) ==> s.kind is Require,
            r matches Err(e) ==> e.code@ == "E207"@,
    {
        let start = self.peek_span();
        let location = self.peek_location();
        self.advance();
        // The alias, if any, sits above the path string on the operand stack.
        let top = ops.pop();
        let (path_expr, alias, stack_span) = match top {
            Some(Expr::Variable { name }) => {
                let alias_span = match op_spans.pop() {
                    Some(s) => s,
                    None => Span::default(),
                };
                let path = match ops.pop() {
                    Some(p) => p,
                    None => {
                        return Err(
                            perr("'require' expects a module path string", location, "E207"),
                        );
                    },
                };
                let path_span = match op_spans.pop() {
                    Some(s) => s,
                    None => Span::default(),
                };
                (path, Some(name), path_span.merge(alias_span))
            },
            Some(other) => {
                let s = match op_spans.pop() {
                    Some(s) => s,
                    None => Span::default(),
                };
                (other, None, s)
            },
            None => {
                return Err(perr("'require' expects a module path string", location, "E207"));
            },
        };
        let path = match path_expr {
            Expr::String { value } => match decode_string_literal(value.as_str()) {
                Ok(p) => p,
                Err(m) => {
                    return Err(ParseError::new(m, location, owned("E207")));
                },
            },
            _ => {
                return Err(perr("'require' expects a string module path", location, "E207"));
            },
        };
        Ok(Stmt::new(StmtKind::Require { path, alias }, stack_span.merge(start)))
    }

    // ------------------------------------------------------------------
    // Declarations
    // ------------------------------------------------------------------

    /// `function <params> do <body> end [with <type>]`.
    fn parse_function(&mut self, name: String, visibility: Option<Visibility>, is_unsafe: bool) -> (r:
        ParseResult<Function>)
        requires
            old(self).wf(),
        ensures
            final(self).advanced_from(*old(self)),
            r is Ok ==> final(self).current > old(self).current && old(self).peek_spec()
                == TokenKind::Function,
            r matches Ok(f) ==> f.name@ == name@ && f.visibility == visibility && f.is_unsafe
                == is_unsafe && f.returns@.len() <= 1,
            fn_head_end(old(self).toks(), old(self).pos()) is None ==> r is Err,
            ({
                let h = fn_head_end(old(self).toks(), old(self).pos());
                h is Some && kind_or_eof(old(self).toks(), h->Some_0) == TokenKind::End ==> ((r is Ok
                    <==> with_ok(old(self).toks(), h->Some_0 + 1)) && (r matches Ok(f) ==> f.body@.len() == 0))
            }),
            r matches Ok(f) ==> exists|s1: Parser, p1: Parser| #[trigger] fn_body_parts(
                old(self).toks(),
                fn_head_end(old(self).toks(), old(self).pos())->Some_0,
                s1,
                p1,
                f.body@,
            ),
        decreases old(self).remaining(), rank_function(),
    {
        self.expect(TokenKind::Function, "expected 'function'")?;
        let mut params: Vec<Parameter> = Vec::new();
        let ghost entry = *old(self);
        while self.peek_kind() != TokenKind::Do
            invariant
                entry == *old(self),
                self.advanced_from(entry),
                self.current > entry.current,
                entry.peek_spec() == TokenKind::Function,
                fn_head_end(entry.toks(), entry.pos()) == params_until_do(self.toks(), self.pos()),
            decreases self.remaining(),
        {
            let p = self.parse_parameter()?;
            params.push(p);
        }
        self.expect(TokenKind::Do, "expected 'do' to start function body")?;
        let ghost s1 = *self;
        let stops = [TokenKind::End];
        assert(stops@ =~= seq![TokenKind::End]);
        let body = self.body(&stops)?;
        let ghost p1 = *self;
        self.expect(TokenKind::End, "expected 'end' to close function body")?;
        assert(fn_body_parts(entry.toks(), fn_head_end(entry.toks(), entry.pos())->Some_0, s1, p1, body@)) by {
            reveal(fn_body_parts);
        }
        let mut result_types: Vec<Type> = Vec::new();
        if self.match_kind(TokenKind::With) {
            let t = self.parse_type()?;
            result_types.push(t);
        }
        let ghost bv = body@;
        let f = Function { name, visibility, params, body, returns: result_types, is_unsafe };
        assert(f.body@ == bv);
        Ok(f)
    }

    /// A parameter type with an optional `copy` / `mutable` modifier.
    fn parse_parameter(&mut self) -> (r: ParseResult<Parameter>)
        requires
            old(self).wf(),
        ensures
            final(self).advanced_from(*old(self)),
            r is Ok ==> final(self).current > old(self).current,
            (r is Ok) <==> type_end(old(self).toks(), old(self).pos()) is Some,
            r matches Ok(p) ==> final(self).pos() == param_end(old(self).toks(), old(self).pos())->Some_0
                && p.modifier == modifier_at(
                old(self).toks(),
                type_end(old(self).toks(), old(self).pos())->Some_0,
            ),
    {
        let ty = self.parse_type()?;
        let modifier = if self.match_kind(TokenKind::Copy) {
            Some(ParamModifier::Copy)
        } else if self.match_kind(TokenKind::Mutable) {
            Some(ParamModifier::Mutable)
        } else {
            None
        };
        Ok(Parameter { ty, modifier })
    }

    /// `struct <type> <name> [visibility] ... end`.
    fn parse_struct(&mut self, name: String, visibility: Option<Visibility>) -> (r: ParseResult<
        StructDecl,
    >)
        requires
            old(self).wf(),
        ensures
            final(self).advanced_from(*old(self)),
            r is Ok ==> final(self).current > old(self).current,
            r matches Ok(d) ==> d.name@ == name@ && d.visibility == visibility,
            (r is Ok) <==> old(self).peek_spec() == TokenKind::Struct && fields_until_end(
                old(self).toks(),
                old(self).pos() + 1,
            ) is Some,
            r is Ok ==> final(self).pos() == fields_until_end(old(self).toks(), old(self).pos() + 1)->Some_0,
            r matches Ok(d) ==> struct_fields_view(d.fields@) == fields_from(old(self).toks(), old(self).pos() + 1),
            final(self).errors == old(self).errors,
    {
        self.expect(TokenKind::Struct, "expected 'struct'")?;
        let mut fields: Vec<Field> = Vec::new();
        let ghost entry = *old(self);
        assert(struct_fields_view(fields@) =~= Seq::<(Seq<char>, Location, Option<Visibility>)>::empty());
        while self.peek_kind() != TokenKind::End
            invariant
                entry == *old(self),
                self.advanced_from(entry),
                self.current > entry.current,
                entry.peek_spec() == TokenKind::Struct,
                fields_until_end(entry.toks(), entry.pos() + 1) == fields_until_end(self.toks(), self.pos()),
                fields_from(entry.toks(), entry.pos() + 1) == struct_fields_view(fields@) + fields_from(
                    self.toks(),
                    self.pos(),
                ),
                self.errors == entry.errors,
            decreases self.remaining(),
        {
            let ghost at = self.pos();
            let ghost before = struct_fields_view(fields@);
            let ty = self.parse_type()?;
            let i = self.expect(TokenKind::Identifier, "expected field name")?;
            let field_name = self.tokens[i].lexeme.clone();
            let field_vis = self.parse_visibility();
            fields.push(Field { name: field_name, ty, visibility: field_vis });
            proof {
                let toks = self.toks();
                let k = type_end(toks, at)->Some_0;
                assert(k == i);
                assert(fields_from(toks, at) == seq![(toks[k].lexeme@, toks[at].location, field_vis)]
                    + fields_from(toks, self.pos()));
                assert(struct_fields_view(fields@) =~= before.push((toks[k].lexeme@, toks[at].location, field_vis)));
                assert(struct_fields_view(fields@) + fields_from(toks, self.pos()) =~= before + fields_from(toks, at));
            }
        }
        proof {
            assert(fields_from(self.toks(), self.pos()) =~= Seq::<(Seq<char>, Location, Option<Visibility>)>::empty());
            assert(struct_fields_view(fields@) + fields_from(self.toks(), self.pos()) =~= struct_fields_view(fields@));
        }
        self.expect(TokenKind::End, "expected 'end' to close struct")?;
        Ok(StructDecl { name, visibility, fields })
    }

    /// `enum MEMBER [value] ... end`.
    fn parse_enum(&mut self, name: String, underlying: Option<Type>) -> (r: ParseResult<EnumDecl>)
        requires
            old(self).wf(),
        ensures
            final(self).advanced_from(*old(self)),
            r is Ok ==> final(self).current > old(self).current,
            r matches Ok(d) ==> d.name@ == name@,
            (r is Ok) <==> old(self).peek_spec() == TokenKind::Enum && members_until_end(
                old(self).toks(),
                old(self).pos() + 1,
            ) is Some,
            r matches Ok(d) ==> final(self).pos() == members_until_end(old(self).toks(), old(self).pos() + 1)->Some_0
                && enum_members_view(d.members@) == members_from(old(self).toks(), old(self).pos() + 1)
                && d.underlying == underlying,
            final(self).errors == old(self).errors,
    {
        self.expect(TokenKind::Enum, "expected 'enum'")?;
        let mut members: Vec<EnumMember> = Vec::new();
        let ghost entry = *old(self);
        assert(enum_members_view(members@) =~= Seq::<(Seq<char>, Option<Seq<char>>)>::empty());
        while self.peek_kind() != TokenKind::End
            invariant
                entry == *old(self),
                self.advanced_from(entry),
                self.current > entry.current,
                entry.peek_spec() == TokenKind::Enum,
                members_until_end(entry.toks(), entry.pos() + 1) == members_until_end(self.toks(), self.pos()),
                members_until_end(self.toks(), self.pos()) is Some ==> members_from(entry.toks(), entry.pos() + 1)
                    == enum_members_view(members@) + members_from(self.toks(), self.pos()),
                self.errors == entry.errors,
            decreases self.remaining(),
        {
            let ghost before = enum_members_view(members@);
            let ghost at = self.pos();
            let i = self.expect(TokenKind::Identifier, "expected enum member")?;
            let member_name = self.tokens[i].lexeme.clone();
            // An explicit value is juxtaposed: `RED 10` (`-5` is one token).
            let value = if self.peek_kind() == TokenKind::Integer {
                let j = self.advance();
                Some(self.tokens[j].lexeme.clone())
            } else {
                None
            };
            members.push(EnumMember { name: member_name, value });
            proof {
                assert(enum_members_view(members@) =~= before.push(members_from(self.toks(), at)[0]));
                if members_until_end(self.toks(), self.pos()) is Some {
                    assert(members_from(self.toks(), at) =~= seq![members_from(self.toks(), at)[0]]
                        + members_from(self.toks(), self.pos()));
                    assert(before + members_from(self.toks(), at) =~= enum_members_view(members@)
                        + members_from(self.toks(), self.pos()));
                }
            }
        }
        proof {
            assert(members_from(self.toks(), self.pos()) =~= Seq::<(Seq<char>, Option<Seq<char>>)>::empty());
            assert(enum_members_view(members@) + Seq::<(Seq<char>, Option<Seq<char>>)>::empty()
                =~= enum_members_view(members@));
        }
        self.expect(TokenKind::End, "expected 'end' to close enum")?;
        Ok(EnumDecl { name, underlying, members })
    }

    /// `Name [Inject.Path] error MEMBER ... end`.
    fn parse_error_decl(&mut self, ops: &mut Vec<Expr>, op_spans: &mut Vec<Span>) -> (r:
        ParseResult<(ErrorDecl, Span)>)
        requires
            old(self).wf(),
            old(ops)@.len() == old(op_spans)@.len(),
        ensures
            final(self).advanced_from(*old(self)),
            final(ops)@.len() == final(op_spans)@.len(),
            r is Ok ==> final(self).current > old(self).current,
            ({
                let rest = if has_inject(old(ops)@) { old(ops)@.drop_last() } else { old(ops)@ };
                &&& (r is Ok) <==> (old(self).peek_spec() == TokenKind::Error && (has_inject(old(ops)@)
                    ==> path_of(old(ops)@.last()) is Some) && rest.len() > 0 && rest.last() is Variable
                    && names_until_end(old(self).toks(), old(self).pos() + 1) is Some)
                &&& r matches Ok((d, _)) ==> {
                    &&& final(self).pos() == names_until_end(old(self).toks(), old(self).pos() + 1)->Some_0
                    &&& (rest.last() matches Expr::Variable { name: n } && d.name@ == n@)
                    &&& (has_inject(old(ops)@) ==> (d.inject matches Some(p) && p@ == path_of(
                        old(ops)@.last(),
                    )->Some_0))
                    &&& (!has_inject(old(ops)@) ==> d.inject is None)
                    &&& d.members@.map_values(|m: String| m@) == names_from(old(self).toks(), old(self).pos() + 1)
                }
            }),
    {
        let location = self.peek_location();
        self.expect(TokenKind::Error, "expected 'error'")?;
        let mut head_span = Span::default();
        let n = ops.len();
        let has_inject = n >= 2 && match &ops[n - 1] {
            Expr::Member { .. } | Expr::Variable { .. } => true,
            _ => false,
        };
        let inject = if has_inject {
            let inject_span = match op_spans.pop() {
                Some(s) => s,
                None => Span::default(),
            };
            head_span = head_span.merge(inject_span);
            let e = ops.pop().unwrap();
            Some(expr_to_path(e)?)
        } else {
            None
        };
        let (name, name_span) = match self.pop_name(ops, op_spans) {
            Ok(p) => p,
            Err(_) => {
                return Err(perr("'error' declaration requires a type name", location, "E230"));
            },
        };
        head_span = head_span.merge(name_span);
        let mut members: Vec<String> = Vec::new();
        let ghost entry = *old(self);
        assert(members@.map_values(|m: String| m@) =~= Seq::<Seq<char>>::empty());
        while self.peek_kind() != TokenKind::End
            invariant
                entry == *old(self),
                self.advanced_from(entry),
                self.current > entry.current,
                ops@.len() == op_spans@.len(),
                self.pos() >= entry.pos() + 1,
                names_until_end(entry.toks(), entry.pos() + 1) == names_until_end(self.toks(), self.pos()),
                names_until_end(self.toks(), self.pos()) is Some ==> names_from(entry.toks(), entry.pos() + 1)
                    == members@.map_values(|m: String| m@) + names_from(self.toks(), self.pos()),
            decreases self.remaining(),
        {
            let ghost before = members@.map_values(|m: String| m@);
            let i = self.expect(TokenKind::Identifier, "expected error member")?;
            members.push(self.tokens[i].lexeme.clone());
            proof {
                assert(members@.map_values(|m: String| m@) =~= before.push(self.tokens@[i as int].lexeme@));
                if names_until_end(self.toks(), self.pos()) is Some {
                    assert(before + names_from(self.toks(), i as int) =~= members@.map_values(|m: String| m@)
                        + names_from(self.toks(), self.pos()));
                }
            }
        }
        proof {
            assert(names_from(self.toks(), self.pos()) =~= Seq::<Seq<char>>::empty());
            assert(members@.map_values(|m: String| m@) + Seq::<Seq<char>>::empty() =~= members@.map_values(
                |m: String| m@,
            ));
        }
        self.expect(TokenKind::End, "expected 'end' to close error")?;
        Ok((ErrorDecl { name, inject, members }, head_span))
    }

    /// `union <type> ... end`.
    fn parse_union(&mut self, name: String) -> (r: ParseResult<UnionDecl>)
        requires
            old(self).wf(),
        ensures
            final(self).advanced_from(*old(self)),
            r is Ok ==> final(self).current > old(self).current,
            r matches Ok(d) ==> d.name@ == name@,
            (r is Ok) <==> old(self).peek_spec() == TokenKind::Union && types_until_end(
                old(self).toks(),
                old(self).pos() + 1,
            ) is Some,
            r is Ok ==> final(self).pos() == types_until_end(old(self).toks(), old(self).pos() + 1)->Some_0,
            r matches Ok(d) ==> type_locations(d.types@) == type_starts(old(self).toks(), old(self).pos() + 1),
            final(self).errors == old(self).errors,
    {
        self.expect(TokenKind::Union, "expected 'union'")?;
        let mut types: Vec<Type> = Vec::new();
        let ghost entry = *old(self);
        assert(type_locations(types@) =~= Seq::<Location>::empty());
        while self.peek_kind() != TokenKind::End
            invariant
                entry == *old(self),
                self.advanced_from(entry),
                self.current > entry.current,
                entry.peek_spec() == TokenKind::Union,
                types_until_end(entry.toks(), entry.pos() + 1) == types_until_end(self.toks(), self.pos()),
                type_starts(entry.toks(), entry.pos() + 1) == type_locations(types@) + type_starts(
                    self.toks(),
                    self.pos(),
                ),
                self.errors == entry.errors,
            decreases self.remaining(),
        {
            let ghost at = self.pos();
            let ghost before = type_locations(types@);
            let t = self.parse_type()?;
            types.push(t);
            proof {
                let toks = self.toks();
                assert(type_starts(toks, at) == seq![toks[at].location] + type_starts(toks, self.pos()));
                assert(type_locations(types@) =~= before.push(toks[at].location));
                assert(type_locations(types@) + type_starts(toks, self.pos()) =~= before + type_starts(toks, at));
            }
        }
        proof {
            assert(type_starts(self.toks(), self.pos()) =~= Seq::<Location>::empty());
            assert(type_locations(types@) + type_starts(self.toks(), self.pos()) =~= type_locations(types@));
        }
        self.expect(TokenKind::End, "expected 'end' to close union")?;
        Ok(UnionDecl { name, types })
    }

    /// `implement <name> [visibility] [unsafe] function ... end ... end`.
    fn parse_implement(&mut self, target: String) -> (r: ParseResult<Implement>)
        requires
            old(self).wf(),
        ensures
            final(self).advanced_from(*old(self)),
            r is Ok ==> final(self).current > old(self).current,
            r matches Ok(d) ==> d.target@ == target@,
            old(self).peek_spec() != TokenKind::Implement ==> r is Err,
            old(self).peek_spec() == TokenKind::Implement && kind_or_eof(old(self).toks(), old(self).pos() + 1)
                == TokenKind::End ==> (r matches Ok(d) && d.functions@.len() == 0 && final(self).pos()
                == old(self).pos() + 2),
            old(self).peek_spec() == TokenKind::Implement && kind_or_eof(old(self).toks(), old(self).pos() + 1)
                != TokenKind::End && kind_or_eof(old(self).toks(), old(self).pos() + 1) != TokenKind::Identifier
                ==> r is Err,
        decreases old(self).remaining(), rank_decl(),
    {
        self.expect(TokenKind::Implement, "expected 'implement'")?;
        let mut functions: Vec<Function> = Vec::new();
        let ghost entry = *old(self);
        while self.peek_kind() != TokenKind::End
            invariant
                entry == *old(self),
                self.advanced_from(entry),
                self.current > entry.current,
                entry.peek_spec() == TokenKind::Implement,
                self.pos() == entry.pos() + 1 ==> functions@.len() == 0,
                self.pos() > entry.pos() + 1 ==> kind_or_eof(entry.toks(), entry.pos() + 1)
                    == TokenKind::Identifier,
            decreases self.remaining(),
        {
            if self.peek_kind() != TokenKind::Identifier {
                return Err(
                    perr(
                        "expected a function name in 'implement' block",
                        self.peek_location(),
                        "E208",
                    ),
                );
            }
            let i = self.advance();
            let name = self.tokens[i].lexeme.clone();
            let visibility = self.parse_visibility();
            let is_unsafe = self.match_kind(TokenKind::Unsafe);
            let f = self.parse_function(name, visibility, is_unsafe)?;
            functions.push(f);
        }
        self.expect(TokenKind::End, "expected 'end' to close implement")?;
        Ok(Implement { target, functions })
    }

    /// After a visibility word: `[unsafe] function` or `struct`.
    fn parse_visible_decl(
        &mut self,
        ops: &mut Vec<Expr>,
        op_spans: &mut Vec<Span>,
        visibility: Visibility,
    ) -> (r: ParseResult<Stmt>)
        requires
            old(self).wf(),
            old(ops)@.len() == old(op_spans)@.len(),
        ensures
            final(self).advanced_from(*old(self)),
            final(ops)@.len() == final(op_spans)@.len(),
            r is Ok ==> final(self).current > old(self).current,
            r matches Err(e) ==> (final(self).current == old(self).current && !(old(self).peek_spec()
                == TokenKind::Unsafe || old(self).peek_spec() == TokenKind::Function
                || old(self).peek_spec() == TokenKind::Struct) ==> e.code@ == "E233"@),
        decreases old(self).remaining(), rank_decl(),
    {
        match self.peek_kind() {
            TokenKind::Unsafe => {
                let start = self.peek_span();
                self.advance();
                let (name, stack_span) = self.pop_name(ops, op_spans)?;
                let fn_start = self.peek_span();
                let func = self.parse_function(name, Some(visibility), true)?;
                let end = self.prev_span();
                Ok(
                    Stmt::new(
                        StmtKind::Function(func),
                        stack_span.merge(start).merge(fn_start).merge(end),
                    ),
                )
            },
            TokenKind::Function => {
                let (name, stack_span) = self.pop_name(ops, op_spans)?;
                let start = self.peek_span();
                let func = self.parse_function(name, Some(visibility), false)?;
                let end = self.prev_span();
                Ok(Stmt::new(StmtKind::Function(func), stack_span.merge(start).merge(end)))
            },
            TokenKind::Struct => {
                let (name, stack_span) = self.pop_name(ops, op_spans)?;
                let start = self.peek_span();
                let decl = self.parse_struct(name, Some(visibility))?;
                let end = self.prev_span();
                Ok(Stmt::new(StmtKind::Struct(decl), stack_span.merge(start).merge(end)))
            },
            _ => Err(
                perr(
                    "visibility must precede 'function', 'unsafe function', or 'struct'",
                    self.peek_location(),
                    "E233",
                ),
            ),
        }
    }

    /// Pop the declaration name from the operand stack (`E216` unless it is a variable).
    fn pop_name(&mut self, ops: &mut Vec<Expr>, op_spans: &mut Vec<Span>) -> (r: ParseResult<
        (String, Span),
    >)
        requires
            old(self).wf(),
            old(ops)@.len() == old(op_spans)@.len(),
        ensures
            *final(self) == *old(self),
            final(ops)@.len() == final(op_spans)@.len(),
            old(ops)@.len() == 0 ==> (r matches Err(e) && e.code@ == "E216"@ && final(ops)@
                == old(ops)@),
            old(ops)@.len() > 0 ==> final(ops)@ == old(ops)@.drop_last() && final(op_spans)@
                == old(op_spans)@.drop_last() && match old(ops)@.last() {
                Expr::Variable { name } => r matches Ok((n, s)) && n@ == name@ && s
                    == old(op_spans)@.last(),
                _ => r matches Err(e) && e.code@ == "E216"@,
            },
    {
        let location = self.peek_location();
        let expr = match ops.pop() {
            Some(e) => e,
            None => {
                return Err(perr("expected a name before declaration keyword", location, "E216"));
            },
        };
        let span = match op_spans.pop() {
            Some(s) => s,
            None => Span::default(),
        };
        match expr {
            Expr::Variable { name } => Ok((name, span)),
            _ => Err(perr("expected an identifier name", location, "E216")),
        }
    }

    /// `Name [underlying] enum`: an optional underlying type sits above the name.
    fn pop_enum_head(&mut self, ops: &mut Vec<Expr>, op_spans: &mut Vec<Span>) -> (r: ParseResult<
        (String, Option<Type>, Span),
    >)
        requires
            old(self).wf(),
            old(ops)@.len() == old(op_spans)@.len(),
        ensures
            *final(self) == *old(self),
            final(ops)@.len() == final(op_spans)@.len(),
            ({
                let (rest, under) = enum_head_split(old(ops)@);
                &&& (r is Ok) <==> (rest.len() > 0 && rest.last() is Variable)
                &&& r matches Ok((name, u, _)) ==> (rest.last() matches Expr::Variable { name: n }
                    && name@ == n@) && match under {
                    Some(k) => u matches Some(t) && t.kind == k && t.location
                        == old(self).tokens@[old(self).current as int].location,
                    None => u is None,
                } && final(ops)@ == rest.drop_last()
            }),
    {
        let location = self.peek_location();
        let mut head_span = Span::default();
        let n = ops.len();
        let underlying = if n > 0 {
            match &ops[n - 1] {
                Expr::TypeValue { name } => {
                    let kind = match Primitive::parse_name(name.as_str()) {
                        Some(p) => TypeKind::Primitive(p),
                        None => TypeKind::Named(name.clone()),
                    };
                    let _ = ops.pop();
                    head_span = match op_spans.pop() {
                        Some(s) => s,
                        None => Span::default(),
                    };
                    Some(Type { kind, location })
                },
                Expr::Variable { name } => {
                    if n >= 2 {
                        // A named underlying type that is not a primitive.
                        let kind = TypeKind::Named(name.clone());
                        let _ = ops.pop();
                        head_span = match op_spans.pop() {
                            Some(s) => s,
                            None => Span::default(),
                        };
                        Some(Type { kind, location })
                    } else {
                        None
                    }
                },
                _ => None,
            }
        } else {
            None
        };
        let (name, name_span) = self.pop_name(ops, op_spans)?;
        head_span = head_span.merge(name_span);
        Ok((name, underlying, head_span))
    }

    // ------------------------------------------------------------------
    // Types
    // ------------------------------------------------------------------

    /// A type: `|T ...|`, or a dotted name with optional `<args>`.
    fn parse_type(&mut self) -> (r: ParseResult<Type>)
        requires
            old(self).wf(),
        ensures
            final(self).advanced_from(*old(self)),
            final(self).errors == old(self).errors,
            r is Ok ==> final(self).current > old(self).current,
            r matches Ok(t) ==> t.location == old(self).tokens@[old(self).current as int].location,
            (r is Ok) <==> type_end(old(self).toks(), old(self).pos()) is Some,
            r is Ok ==> final(self).pos() == type_end(old(self).toks(), old(self).pos())->Some_0,
        decreases old(self).remaining(), 0nat,
    {
        let location = self.peek_location();
        if self.match_kind(TokenKind::Pipe) {
            let mut members: Vec<Type> = Vec::new();
            let ghost entry = *old(self);
            while self.peek_kind() != TokenKind::Pipe
                invariant
                    entry == *old(self),
                    self.advanced_from(entry),
                    self.errors == entry.errors,
                    self.current > entry.current,
                    entry.tokens@[entry.current as int].kind == TokenKind::Pipe,
                    type_end(entry.toks(), entry.pos()) == union_type_end(
                        self.toks(),
                        self.pos(),
                        members@.len() as nat,
                    ),
                decreases self.remaining(),
            {
                let k = self.peek_kind();
                if k == TokenKind::End || k == TokenKind::Eof {
                    return Err(
                        perr("unterminated union type literal; expected '|'", location, "E231"),
                    );
                }
                let t = self.parse_type()?;
                members.push(t);
            }
            self.expect(TokenKind::Pipe, "expected '|' to close union type literal")?;
            if members.len() == 0 {
                return Err(
                    perr("union type literal requires at least one member type", location, "E232"),
                );
            }
            return Ok(Type { kind: TypeKind::Union(members), location });
        }
        let name = self.expect_type_name_start()?;
        let path = self.parse_type_path(name)?;
        let kind = if self.match_kind(TokenKind::Less) {
            let args = self.parse_type_args(location)?;
            self.build_generic(&path, args, location)?
        } else {
            match Primitive::parse_name(path.as_str()) {
                Some(p) => TypeKind::Primitive(p),
                None => TypeKind::Named(path),
            }
        };
        Ok(Type { kind, location })
    }

    /// First token of a type name: an identifier or the soft `error` keyword.
    fn expect_type_name_start(&mut self) -> (r: ParseResult<String>)
        requires
            old(self).wf(),
        ensures
            final(self).advanced_from(*old(self)),
            final(self).errors == old(self).errors,
            match r {
                Ok(name) => final(self).current == old(self).current + 1 && (
                (old(self).peek_spec() == TokenKind::Identifier && name@ == old(self).tokens@[old(
                    self,
                ).current as int].lexeme@) || (old(self).peek_spec() == TokenKind::Error && name@
                    == "error"@)),
                Err(e) => final(self).current == old(self).current && e.code@ == "E207"@
                    && old(self).peek_spec() != TokenKind::Identifier && old(self).peek_spec()
                    != TokenKind::Error,
            },
    {
        match self.peek_kind() {
            TokenKind::Identifier => {
                let i = self.advance();
                Ok(self.tokens[i].lexeme.clone())
            },
            TokenKind::Error => {
                self.advance();
                Ok(owned("error"))
            },
            _ => Err(perr("expected a type", self.peek_location(), "E207")),
        }
    }

    /// Generic arguments up to `>`: types, or decimal array sizes.
    fn parse_type_args(&mut self, location: Location) -> (r: ParseResult<Vec<TypeArg>>)
        requires
            old(self).wf(),
        ensures
            final(self).advanced_from(*old(self)),
            final(self).errors == old(self).errors,
            r is Ok ==> final(self).current > old(self).current,
            (r is Ok) <==> type_args(old(self).toks(), old(self).pos()) is Some,
            r matches Ok(args) ==> arg_shape(args@) == type_args(old(self).toks(), old(self).pos())->Some_0.0
                && final(self).pos() == type_args(old(self).toks(), old(self).pos())->Some_0.1,
        decreases old(self).remaining(), 1nat,
    {
        let mut args: Vec<TypeArg> = Vec::new();
        let ghost entry = *old(self);
        assert(arg_shape(args@) =~= Seq::<bool>::empty());
        assert(forall|a: (Seq<bool>, int)| (Seq::<bool>::empty() + a.0) =~= a.0);
        while self.peek_kind() != TokenKind::Greater
            invariant
                entry == *old(self),
                self.advanced_from(entry),
                self.errors == entry.errors,
                type_args(entry.toks(), entry.pos()) == match type_args(self.toks(), self.pos()) {
                    Some(a) => Some((arg_shape(args@) + a.0, a.1)),
                    None => None,
                },
            decreases self.remaining(),
        {
            let ghost shape0 = arg_shape(args@);
            if self.peek_kind() == TokenKind::Integer {
                let i = self.advance();
                let size = match parse_u64_decimal(self.tokens[i].lexeme.as_str()) {
                    Some(n) => n,
                    None => {
                        return Err(perr("invalid array size literal", location, "E209"));
                    },
                };
                args.push(TypeArg::Size(size));
                proof {
                    assert(arg_shape(args@) =~= shape0.push(false));
                    match type_args(self.toks(), self.pos()) {
                        Some(a) => assert(shape0 + (seq![false] + a.0) =~= arg_shape(args@) + a.0),
                        None => {},
                    }
                }
            } else {
                let t = self.parse_type()?;
                args.push(TypeArg::Type(t));
                proof {
                    assert(arg_shape(args@) =~= shape0.push(true));
                    match type_args(self.toks(), self.pos()) {
                        Some(a) => assert(shape0 + (seq![true] + a.0) =~= arg_shape(args@) + a.0),
                        None => {},
                    }
                }
            }
        }
        self.expect(TokenKind::Greater, "expected '>' to close generic type")?;
        assert(arg_shape(args@) + Seq::<bool>::empty() =~= arg_shape(args@));
        Ok(args)
    }

    /// The generic type a path and its arguments denote (`E210` for other paths).
    fn build_generic(&self, path: &String, args: Vec<TypeArg>, location: Location) -> (r:
        ParseResult<TypeKind>)
        ensures
            r matches Ok(k) ==> (path@ == "array"@ && k is Array) || (path@ == "list"@ && k is List)
                || (path@ == "hashmap"@ && k is Hashmap) || (path@ == "reference"@ && k is Reference)
                || (path@ == "pointer"@ && k is Pointer),
            !(path@ == "array"@ || path@ == "list"@ || path@ == "hashmap"@ || path@ == "reference"@
                || path@ == "pointer"@) ==> (r matches Err(e) && e.code@ == "E210"@),
            (r is Ok) <==> generic_ok(path@, arg_shape(args@)),
    {
        let mut args = args;
        if str_eq(path.as_str(), "array") {
            let element = take(&mut args, 0, location)?;
            let size = take_size(&mut args, 0);
            Ok(TypeKind::Array { element: Box::new(element), size })
        } else if str_eq(path.as_str(), "list") {
            let element = take(&mut args, 0, location)?;
            Ok(TypeKind::List { element: Box::new(element) })
        } else if str_eq(path.as_str(), "hashmap") {
            let ghost given = args@;
            let key = take(&mut args, 0, location)?;
            proof {
                if given.len() >= 2 {
                    assert(args@[0] == given[1]);
                    assert(arg_shape(given)[1] == (given[1] is Type));
                }
            }
            let ghost rest = args@;
            let value = match take(&mut args, 0, location) {
                Ok(v) => v,
                Err(e) => {
                    proof {
                        assert(rest.len() == 0 || rest[0] is Size);
                        assert(given.len() < 2 || !(given[1] is Type));
                        assert(path@ == "hashmap"@);
                        reveal_strlit("hashmap");
                        reveal_strlit("array");
                        reveal_strlit("list");
                        reveal_strlit("reference");
                        reveal_strlit("pointer");
                        assert("hashmap"@.len() == 7);
                        assert("array"@.len() == 5 && "list"@.len() == 4 && "reference"@.len() == 9 && "pointer"@.len() == 7);
                        assert("hashmap"@[0] != "pointer"@[0]);
                        assert(path@ != "array"@ && path@ != "list"@ && path@ != "reference"@ && path@ != "pointer"@);
                        if given.len() >= 2 {
                            assert(!arg_shape(given)[1]);
                        }
                        assert(!generic_ok(path@, arg_shape(given)));
                    }
                    return Err(e);
                },
            };
            Ok(TypeKind::Hashmap { key: Box::new(key), value: Box::new(value) })
        } else if str_eq(path.as_str(), "reference") {
            let inner = take(&mut args, 0, location)?;
            Ok(TypeKind::Reference { inner: Box::new(inner) })
        } else if str_eq(path.as_str(), "pointer") {
            let inner = take(&mut args, 0, location)?;
            Ok(TypeKind::Pointer { inner: Box::new(inner) })
        } else {
            let mut m = owned("type '");
            push_str(&mut m, path.as_str());
            push_str(&mut m, "' does not accept type arguments");
            Err(ParseError::new(m, location, owned("E210")))
        }
    }

    /// Extend a type name with `.segment`s.
    fn parse_type_path(&mut self, first: String) -> (r: ParseResult<String>)
        requires
            old(self).wf(),
        ensures
            final(self).advanced_from(*old(self)),
            final(self).errors == old(self).errors,
            r matches Ok(p) ==> p@.len() >= first@.len(),
            (r is Ok) <==> path_end(old(self).toks(), old(self).pos()) is Some,
            r matches Ok(p) ==> p@ == path_text(old(self).toks(), old(self).pos(), first@)
                && final(self).pos() == path_end(old(self).toks(), old(self).pos())->Some_0,
    {
        let ghost first_text = first@;
        let mut path = first;
        let ghost entry = *old(self);
        while self.peek_kind() == TokenKind::Dot
            invariant
                entry == *old(self),
                self.advanced_from(entry),
                self.errors == entry.errors,
                path@.len() >= first_text.len(),
                path_end(entry.toks(), entry.pos()) == path_end(self.toks(), self.pos()),
                path_text(entry.toks(), entry.pos(), first_text) == path_text(self.toks(), self.pos(), path@),
            decreases self.remaining(),
        {
            self.advance();
            let i = self.expect(TokenKind::Identifier, "expected identifier after '.'")?;
            push_str(&mut path, ".");
            push_str(&mut path, self.tokens[i].lexeme.as_str());
        }
        Ok(path)
    }
}

impl Parser {
    // ------------------------------------------------------------------
    // Expressions
    // ------------------------------------------------------------------

    /// Apply one expression word to the operand stack.
    fn process_expr_word(&mut self, ops: &mut Vec<Expr>, op_spans: &mut Vec<Span>) -> (r:
        ParseResult<()>)
        requires
            old(self).wf(),
            old(ops)@.len() == old(op_spans)@.len(),
        ensures
            final(self).advanced_from(*old(self)),
            final(self).errors == old(self).errors,
            final(ops)@.len() == final(op_spans)@.len(),
            r is Ok ==> final(self).current > old(self).current,
            r is Ok ==> word_effect(old(self).peek_spec(), old(ops)@, final(ops)@),
            binary_op_spec(old(self).peek_spec()) is None && !is_word_kind(old(self).peek_spec())
                ==> (r matches Err(e) && e.code@ == "E214"@),
            simple_word(old(self).peek_spec()) ==> r is Ok && final(self).current == old(self).current + 1,
            r is Ok && final(ops)@.len() > old(ops)@.len() ==> word_pushes(
                old(self).toks(),
                old(self).pos(),
                final(ops)@.last(),
            ),
            old(self).peek_spec() == TokenKind::Identifier && kind_or_eof(old(self).toks(), old(self).pos() + 1)
                != TokenKind::Dot ==> r is Ok && final(self).current == old(self).current + 1 && final(ops)@.len()
                == old(ops)@.len() + 1,
            old(self).peek_spec() == TokenKind::Integer && literals::int_literal_value(
                old(self).toks()[old(self).pos()].lexeme@,
            ) is Some ==> r is Ok && final(self).current == old(self).current + 1,
    {
        let kind = self.peek_kind();
        match kind {
            TokenKind::LeftSquare => {
                let e = self.parse_array_literal()?;
                ops.push(e);
                assert(ops@.take(old(ops)@.len() as int) =~= old(ops)@);
                op_spans.push(self.prev_span());
            },
            TokenKind::LeftParen => {
                let e = self.parse_list_literal()?;
                ops.push(e);
                assert(ops@.take(old(ops)@.len() as int) =~= old(ops)@);
                op_spans.push(self.prev_span());
            },
            TokenKind::LeftCurly => {
                let e = self.parse_map_literal()?;
                ops.push(e);
                assert(ops@.take(old(ops)@.len() as int) =~= old(ops)@);
                op_spans.push(self.prev_span());
            },
            TokenKind::Integer | TokenKind::Float | TokenKind::String | TokenKind::Rune
            | TokenKind::True | TokenKind::False => {
                let i = self.advance();
                let expr = literal_expr(&self.tokens[i])?;
                ops.push(expr);
                assert(ops@.take(old(ops)@.len() as int) =~= old(ops)@);
                assert(self.tokens@[i as int] == old(self).toks()[old(self).pos()]);
                assert(word_pushes(old(self).toks(), old(self).pos(), ops@.last()));
                op_spans.push(self.tokens[i].span());
            },
            TokenKind::Identifier | TokenKind::Error => {
                let i = self.advance();
                let name = if kind == TokenKind::Error {
                    owned("error")
                } else {
                    self.tokens[i].lexeme.clone()
                };
                let mut span = self.tokens[i].span();
                let is_primitive = match Primitive::parse_name(name.as_str()) {
                    Some(_) => true,
                    None => false,
                };
                let mut expr = Expr::variable(name.clone());
                let mut dotted = false;
                let ghost entry = *old(self);
                while self.peek_kind() == TokenKind::Dot
                    invariant
                        entry == *old(self),
                        self.advanced_from(entry),
                        self.errors == entry.errors,
                        self.current > entry.current,
                        ops@ == old(ops)@,
                        op_spans@ == old(op_spans)@,
                        old(ops)@.len() == old(op_spans)@.len(),
                        kind == old(self).peek_spec(),
                        kind == TokenKind::Identifier || kind == TokenKind::Error,
                        dotted ==> expr is Member,
                        !dotted ==> expr is Variable,
                        name@ == type_head(entry.toks(), entry.pos()),
                        dotted == (self.pos() > entry.pos() + 1),
                        !dotted ==> self.pos() == entry.pos() + 1 && (expr matches Expr::Variable { name: n } && n@ == name@),
                        path_of(expr) is Some,
                        dotted ==> kind_or_eof(entry.toks(), entry.pos() + 1) == TokenKind::Dot,
                        self.toks() == entry.toks(),
                        member_path_text(entry.toks(), entry.pos() + 1, type_head(entry.toks(), entry.pos()))
                            == member_path_text(self.toks(), self.pos(), path_of(expr)->Some_0),
                    decreases self.remaining(),
                {
                    self.advance();
                    let member = self.expect_member_name("expected member name after '.'")?;
                    expr = Expr::Member { base: Box::new(expr), member };
                    dotted = true;
                    span = span.merge(self.prev_span());
                }
                // A bare primitive type name is a type value (the `i32` in
                // `x typeof i32 ==`); a dotted path stays a member access.
                if !dotted && is_primitive {
                    ops.push(Expr::TypeValue { name });
                } else {
                    ops.push(expr);
                }
                op_spans.push(span);
                assert(ops@.take(old(ops)@.len() as int) =~= old(ops)@);
                assert(word_pushes(old(self).toks(), old(self).pos(), ops@.last()));
            },
            TokenKind::Call => {
                self.advance();
                let call_span = self.prev_span();
                let target = match ops.pop() {
                    Some(t) => t,
                    None => {
                        let _ = op_spans.pop();
                        return Err(
                            perr(
                                "'call' requires a function to call",
                                self.peek_location(),
                                "E211",
                            ),
                        );
                    },
                };
                let _ = op_spans.pop();
                ops.push(Expr::Call { target: Box::new(target) });
                op_spans.push(call_span);
            },
            TokenKind::At => {
                let i = self.advance();
                let lexeme = crate::text::chars_of(self.tokens[i].lexeme.as_str());
                let from: usize = if lexeme.len() > 0 && lexeme[0] == '@' { 1 } else { 0 };
                if lexeme.len() == from {
                    return Err(
                        perr("expected a builtin name after '@'", self.peek_location(), "E217"),
                    );
                }
                let name_chars = crate::text::slice_chars(&lexeme, from, lexeme.len());
                let name = crate::text::string_of_chars(&name_chars);
                proof {
                    let lx = old(self).toks()[old(self).pos()].lexeme@;
                    assert(lexeme@ == lx);
                    if from == 1 {
                        assert(name@ =~= lx.drop_first());
                    } else {
                        assert(name@ =~= lx);
                    }
                }
                ops.push(Expr::Builtin { name });
                assert(ops@.take(old(ops)@.len() as int) =~= old(ops)@);
                op_spans.push(self.tokens[i].span());
            },
            TokenKind::Unwrap => {
                self.advance();
                let unwrap_span = self.prev_span();
                let inner = match ops.pop() {
                    Some(t) => t,
                    None => {
                        let _ = op_spans.pop();
                        return Err(
                            perr(
                                "'unwrap' requires a value to unwrap",
                                self.peek_location(),
                                "E212",
                            ),
                        );
                    },
                };
                let _ = op_spans.pop();
                ops.push(Expr::Unwrap { inner: Box::new(inner) });
                op_spans.push(unwrap_span);
            },
            TokenKind::Typeof => {
                self.advance();
                let typeof_span = self.prev_span();
                match ops.pop() {
                    Some(inner) => {
                        let _ = op_spans.pop();
                        ops.push(Expr::Typeof { inner: Box::new(inner) });
                    },
                    None => {
                        ops.push(Expr::ApplyTypeof);
                    },
                }
                op_spans.push(typeof_span);
            },
            TokenKind::Borrow => {
                self.advance();
                let borrow_span = self.prev_span();
                match ops.pop() {
                    Some(inner) => {
                        let _ = op_spans.pop();
                        ops.push(Expr::Borrow { inner: Box::new(inner) });
                    },
                    None => {
                        ops.push(Expr::ApplyBorrow);
                    },
                }
                op_spans.push(borrow_span);
            },
            TokenKind::Load => {
                self.advance();
                let load_span = self.prev_span();
                match ops.pop() {
                    Some(inner) => {
                        let _ = op_spans.pop();
                        ops.push(Expr::Load { inner: Box::new(inner) });
                    },
                    None => {
                        ops.push(Expr::ApplyLoad);
                    },
                }
                op_spans.push(load_span);
            },
            TokenKind::Store => {
                self.advance();
                let store_span = self.prev_span();
                let value = match ops.pop() {
                    Some(v) => v,
                    None => {
                        let _ = op_spans.pop();
                        return Err(
                            perr(
                                "'store' requires a value and an address",
                                self.peek_location(),
                                "E221",
                            ),
                        );
                    },
                };
                let _ = op_spans.pop();
                let addr = match ops.pop() {
                    Some(a) => a,
                    None => {
                        let _ = op_spans.pop();
                        return Err(perr("'store' requires an address", self.peek_location(), "E221"));
                    },
                };
                let _ = op_spans.pop();
                ops.push(Expr::Store { addr: Box::new(addr), value: Box::new(value) });
                op_spans.push(store_span);
            },
            TokenKind::Dup => {
                self.advance();
                let dup_span = self.prev_span();
                let n = ops.len();
                if n > 0 {
                    let top = ops[n - 1].duplicate();
                    let top_span = op_spans[n - 1];
                    ops.push(top);
                    op_spans.push(top_span);
                    assert(ops@.take(n as int) =~= old(ops)@);
                } else {
                    ops.push(Expr::StackOp(StackOp::Dup));
                    op_spans.push(dup_span);
                }
            },
            TokenKind::Swap => {
                self.advance();
                let swap_span = self.prev_span();
                let n = ops.len();
                if n >= 2 {
                    let top = ops.pop().unwrap();
                    let below = ops.pop().unwrap();
                    ops.push(top);
                    ops.push(below);
                    let top_span = op_spans.pop().unwrap();
                    let below_span = op_spans.pop().unwrap();
                    op_spans.push(top_span);
                    op_spans.push(below_span);
                } else {
                    ops.push(Expr::StackOp(StackOp::Swap));
                    op_spans.push(swap_span);
                }
            },
            TokenKind::Rot => {
                self.advance();
                let rot_span = self.prev_span();
                if ops.len() >= 3 {
                    let first = ops.remove(0);
                    let first_span = op_spans.remove(0);
                    ops.push(first);
                    op_spans.push(first_span);
                } else {
                    ops.push(Expr::StackOp(StackOp::Rot));
                    op_spans.push(rot_span);
                }
            },
            TokenKind::Unrot => {
                self.advance();
                let unrot_span = self.prev_span();
                if ops.len() >= 3 {
                    let last = ops.pop().unwrap();
                    let last_span = op_spans.pop().unwrap();
                    ops.insert(0, last);
                    op_spans.insert(0, last_span);
                    assert(ops@ =~= seq![old(ops)@.last()] + old(ops)@.drop_last());
                } else {
                    ops.push(Expr::StackOp(StackOp::Unrot));
                    op_spans.push(unrot_span);
                }
            },
            TokenKind::Pop => {
                // A runtime pop: the top entry may be a call that must still run.
                self.advance();
                op_spans.push(self.prev_span());
                ops.push(Expr::StackOp(StackOp::Pop));
            },
            TokenKind::Drop => {
                // Always a runtime drop, for the same reason.
                self.advance();
                op_spans.push(self.prev_span());
                ops.push(Expr::StackOp(StackOp::Drop));
            },
            TokenKind::Not => {
                self.advance();
                let not_span = self.prev_span();
                let n = ops.len();
                let can_combine = n > 0 && is_value(&ops[n - 1]);
                if can_combine {
                    let operand = ops.pop().unwrap();
                    let _ = op_spans.pop();
                    ops.push(Expr::Unary { op: UnOp::Not, operand: Box::new(operand) });
                } else {
                    ops.push(Expr::ApplyUn(UnOp::Not));
                }
                op_spans.push(not_span);
            },
            _ => {
                match binary_op(kind) {
                    Some(op) => {
                        self.advance();
                        let bin_span = self.prev_span();
                        let n = ops.len();
                        let can_combine = n >= 2 && is_value(&ops[n - 1]) && is_value(&ops[n - 2]);
                        if can_combine {
                            let right = ops.pop().unwrap();
                            let _ = op_spans.pop();
                            let left = ops.pop().unwrap();
                            let _ = op_spans.pop();
                            ops.push(Expr::Binary { op, left: Box::new(left), right: Box::new(right) });
                        } else {
                            ops.push(Expr::ApplyBin(op));
                        }
                        op_spans.push(bin_span);
                    },
                    None => {
                        let mut m = owned("unexpected token '");
                        push_str(&mut m, token_kind_name(kind));
                        push_str(&mut m, "' in expression");
                        return Err(ParseError::new(m, self.peek_location(), owned("E214")));
                    },
                }
            },
        }
        Ok(())
    }

    // ------------------------------------------------------------------
    // Container literals
    // ------------------------------------------------------------------

    /// `[ elements ]`.
    fn parse_array_literal(&mut self) -> (r: ParseResult<Expr>)
        requires
            old(self).wf(),
            old(self).peek_spec() == TokenKind::LeftSquare,
        ensures
            final(self).advanced_from(*old(self)),
            final(self).errors == old(self).errors,
            final(self).current > old(self).current,
            r matches Ok(e) ==> e is Array,
            (r is Ok) <==> element_end(old(self).toks(), old(self).pos()) is Some,
            r is Ok ==> final(self).pos() == element_end(old(self).toks(), old(self).pos())->Some_0,
        decreases old(self).remaining(), 0nat,
    {
        self.advance();
        let elements = self.parse_container_elements(TokenKind::RightSquare)?;
        self.expect(TokenKind::RightSquare, "expected ']' to close array literal")?;
        Ok(Expr::Array(elements))
    }

    /// `( elements )`.
    fn parse_list_literal(&mut self) -> (r: ParseResult<Expr>)
        requires
            old(self).wf(),
            old(self).peek_spec() == TokenKind::LeftParen,
        ensures
            final(self).advanced_from(*old(self)),
            final(self).errors == old(self).errors,
            final(self).current > old(self).current,
            r matches Ok(e) ==> e is List,
            (r is Ok) <==> element_end(old(self).toks(), old(self).pos()) is Some,
            r is Ok ==> final(self).pos() == element_end(old(self).toks(), old(self).pos())->Some_0,
        decreases old(self).remaining(), 0nat,
    {
        self.advance();
        let elements = self.parse_container_elements(TokenKind::RightParen)?;
        self.expect(TokenKind::RightParen, "expected ')' to close list literal")?;
        Ok(Expr::List(elements))
    }

    /// `{ key value ... }`.
    fn parse_map_literal(&mut self) -> (r: ParseResult<Expr>)
        requires
            old(self).wf(),
            old(self).peek_spec() == TokenKind::LeftCurly,
        ensures
            final(self).advanced_from(*old(self)),
            final(self).errors == old(self).errors,
            final(self).current > old(self).current,
            r matches Ok(e) ==> e is MapLiteral,
            (r is Ok) <==> element_end(old(self).toks(), old(self).pos()) is Some,
            r is Ok ==> final(self).pos() == element_end(old(self).toks(), old(self).pos())->Some_0,
        decreases old(self).remaining(), 0nat,
    {
        self.advance();
        let mut pairs: Vec<(Expr, Expr)> = Vec::new();
        let ghost entry = *old(self);
        while self.peek_kind() != TokenKind::RightCurly
            invariant
                entry == *old(self),
                self.advanced_from(entry),
                self.errors == entry.errors,
                self.current > entry.current,
                entry.peek_spec() == TokenKind::LeftCurly,
                element_end(entry.toks(), entry.pos()) == pairs_until(self.toks(), self.pos()),
            decreases self.remaining(),
        {
            let key = self.parse_literal_element()?;
            let value = self.parse_literal_element()?;
            pairs.push((key, value));
        }
        self.expect(TokenKind::RightCurly, "expected '}' to close map literal")?;
        Ok(Expr::MapLiteral(pairs))
    }

    /// Literal elements up to (not including) `close`.
    fn parse_container_elements(&mut self, close: TokenKind) -> (r: ParseResult<Vec<Expr>>)
        requires
            old(self).wf(),
        ensures
            final(self).advanced_from(*old(self)),
            final(self).errors == old(self).errors,
            r is Ok ==> final(self).peek_spec() == close,
            (r is Ok) <==> elements_until(old(self).toks(), old(self).pos(), close) is Some,
            r is Ok ==> final(self).pos() == elements_until(old(self).toks(), old(self).pos(), close)->Some_0,
        decreases old(self).remaining(), 2nat,
    {
        let mut elements: Vec<Expr> = Vec::new();
        let ghost entry = *old(self);
        while self.peek_kind() != close
            invariant
                entry == *old(self),
                self.advanced_from(entry),
                self.errors == entry.errors,
                elements_until(entry.toks(), entry.pos(), close) == elements_until(self.toks(), self.pos(), close),
            decreases self.remaining(),
        {
            let e = self.parse_literal_element()?;
            elements.push(e);
        }
        Ok(elements)
    }

    /// One element of a container literal: a literal, a dotted name, or a
    /// nested container (`E215` otherwise).
    fn parse_literal_element(&mut self) -> (r: ParseResult<Expr>)
        requires
            old(self).wf(),
        ensures
            final(self).advanced_from(*old(self)),
            final(self).errors == old(self).errors,
            r is Ok ==> final(self).current > old(self).current,
            (r is Ok) <==> element_end(old(self).toks(), old(self).pos()) is Some,
            r is Ok ==> final(self).pos() == element_end(old(self).toks(), old(self).pos())->Some_0,
        decreases old(self).remaining(), 1nat,
    {
        match self.peek_kind() {
            TokenKind::Integer | TokenKind::Float | TokenKind::String | TokenKind::Rune
            | TokenKind::True | TokenKind::False => {
                let i = self.advance();
                literal_expr(&self.tokens[i])
            },
            TokenKind::Identifier => {
                let i = self.advance();
                let mut expr = Expr::variable(self.tokens[i].lexeme.clone());
                let ghost entry = *old(self);
                while self.peek_kind() == TokenKind::Dot
                    invariant
                        entry == *old(self),
                        self.advanced_from(entry),
                        self.errors == entry.errors,
                        self.current > entry.current,
                        entry.peek_spec() == TokenKind::Identifier,
                        element_end(entry.toks(), entry.pos()) == member_path_end(self.toks(), self.pos()),
                    decreases self.remaining(),
                {
                    self.advance();
                    let member = self.expect_member_name("expected member after '.'")?;
                    expr = Expr::Member { base: Box::new(expr), member };
                }
                Ok(expr)
            },
            TokenKind::LeftSquare => self.parse_array_literal(),
            TokenKind::LeftParen => self.parse_list_literal(),
            TokenKind::LeftCurly => self.parse_map_literal(),
            _ => Err(perr("unexpected token in container literal", self.peek_location(), "E215")),
        }
    }
}

/// Token kinds `process_expr_word` handles besides the binary operators.
pub open spec fn is_word_kind(k: TokenKind) -> bool {
    match k {
        TokenKind::LeftSquare | TokenKind::LeftParen | TokenKind::LeftCurly | TokenKind::Integer
        | TokenKind::Float | TokenKind::String | TokenKind::Rune | TokenKind::True
        | TokenKind::False | TokenKind::Identifier | TokenKind::Error | TokenKind::Call
        | TokenKind::At | TokenKind::Unwrap | TokenKind::Typeof | TokenKind::Borrow
        | TokenKind::Load | TokenKind::Store | TokenKind::Dup | TokenKind::Swap | TokenKind::Rot
        | TokenKind::Unrot | TokenKind::Pop | TokenKind::Drop | TokenKind::Not => true,
        _ => false,
    }
}

/// Words that always apply to the operand stack: the stack words, `not`,
/// `typeof`, `borrow`, string and boolean literals, and binary operators.
pub open spec fn simple_word(k: TokenKind) -> bool {
    binary_op_spec(k) is Some || match k {
        TokenKind::Pop | TokenKind::Drop | TokenKind::Dup | TokenKind::Swap | TokenKind::Rot
        | TokenKind::Unrot | TokenKind::Not | TokenKind::Typeof | TokenKind::Borrow | TokenKind::String
        | TokenKind::True | TokenKind::False => true,
        _ => false,
    }
}

/// Where the declaration whose keyword is at `k` ends: after the `end` of a
/// `struct`, `union` or `enum`, after the type of a `mutable`, `const` or
/// `static` variable.
pub open spec fn decl_end(toks: Seq<Token>, k: int) -> Option<int> {
    if kind_or_eof(toks, k) == TokenKind::Struct {
        fields_until_end(toks, k + 1)
    } else if kind_or_eof(toks, k) == TokenKind::Union {
        types_until_end(toks, k + 1)
    } else if kind_or_eof(toks, k) == TokenKind::Enum {
        members_until_end(toks, k + 1)
    } else if mutability_of(kind_or_eof(toks, k)) is Some {
        type_end(toks, k + 1)
    } else {
        None
    }
}

/// The mutability a variable declaration keyword gives.
pub open spec fn mutability_of(k: TokenKind) -> Option<Mutability> {
    if k == TokenKind::Mutable {
        Some(Mutability::Mutable)
    } else if k == TokenKind::Const {
        Some(Mutability::Const)
    } else if k == TokenKind::Static {
        Some(Mutability::Static)
    } else {
        None
    }
}

/// The tokens from `i` start a declaration (`Name struct|union|enum ... end`
/// or `Name mutable|const|static <type>`) for a name that is not a
/// primitive type, where neither word ends the body.
pub open spec fn decl_at(toks: Seq<Token>, i: int, stops: Seq<TokenKind>) -> bool {
    &&& 0 <= i < toks.len()
    &&& toks[i].kind == TokenKind::Identifier
    &&& !body_stop(stops, TokenKind::Identifier)
    &&& !body_stop(stops, kind_or_eof(toks, i + 1))
    &&& ast::primitive_named(type_head(toks, i)) is None
    &&& decl_end(toks, i + 1) is Some
}

/// Where each declaration of the run of them from `i` starts.
pub open spec fn decl_run_starts(toks: Seq<Token>, i: int, stops: Seq<TokenKind>) -> Seq<int>
    decreases toks.len() - i,
{
    if decl_at(toks, i, stops) && i < decl_end(toks, i + 1)->Some_0 <= toks.len() {
        seq![i] + decl_run_starts(toks, decl_end(toks, i + 1)->Some_0, stops)
    } else {
        Seq::empty()
    }
}

/// Where the run of declarations from `i` ends.
pub open spec fn decl_run_end(toks: Seq<Token>, i: int, stops: Seq<TokenKind>) -> int
    decreases toks.len() - i,
{
    if decl_at(toks, i, stops) && i < decl_end(toks, i + 1)->Some_0 <= toks.len() {
        decl_run_end(toks, decl_end(toks, i + 1)->Some_0, stops)
    } else {
        i
    }
}

/// `s` is the declaration written from `i`: the keyword's kind, named by
/// the token at `i`, with the fields, member types, enum members or the
/// variable's type written from `i + 2` (a variable without a value).
pub open spec fn is_decl_stmt_at(toks: Seq<Token>, i: int, s: Stmt) -> bool {
    match s.kind {
        StmtKind::Struct(d) => kind_or_eof(toks, i + 1) == TokenKind::Struct && d.name@ == type_head(toks, i)
            && d.visibility is None && struct_fields_view(d.fields@) == fields_from(toks, i + 2),
        StmtKind::Union(d) => kind_or_eof(toks, i + 1) == TokenKind::Union && d.name@ == type_head(toks, i)
            && type_locations(d.types@) == type_starts(toks, i + 2),
        StmtKind::Enum(d) => kind_or_eof(toks, i + 1) == TokenKind::Enum && d.name@ == type_head(toks, i)
            && d.underlying is None && enum_members_view(d.members@) == members_from(toks, i + 2),
        StmtKind::VarDecl { name, mutability, ty, value } => mutability_of(kind_or_eof(toks, i + 1)) == Some(
            mutability,
        ) && name@ == type_head(toks, i) && ty.location == toks[i + 2].location && value is None,
        _ => false,
    }
}

/// A one-token expression word that always applies and records nothing: a
/// stack or operator word, a string or boolean, a valid integer literal, or
/// a name not followed by `.`.
pub open spec fn plain_word(toks: Seq<Token>, i: int) -> bool {
    ||| (simple_word(toks[i].kind) && !statement_kind(toks[i].kind))
    ||| (toks[i].kind == TokenKind::Integer && literals::int_literal_value(toks[i].lexeme@) is Some)
    ||| (toks[i].kind == TokenKind::Identifier && kind_or_eof(toks, i + 1) != TokenKind::Dot)
}

/// A plain word at `i` that does not end the body.
pub open spec fn plain_word_at(toks: Seq<Token>, i: int, stops: Seq<TokenKind>) -> bool {
    &&& 0 <= i < toks.len()
    &&& !body_stop(stops, toks[i].kind)
    &&& plain_word(toks, i)
}

/// Where the run of plain words from `i` ends.
pub open spec fn word_run_end(toks: Seq<Token>, i: int, stops: Seq<TokenKind>) -> int
    decreases toks.len() - i,
{
    if plain_word_at(toks, i, stops) {
        word_run_end(toks, i + 1, stops)
    } else {
        i
    }
}

proof fn lemma_trace_push(toks: Seq<Token>, i: int, j: int, trace: Seq<Seq<Expr>>, next: Seq<Expr>)
    requires
        i <= j,
        stack_trace(toks, i, j, trace),
        word_acts(toks, j, trace.last(), next),
    ensures
        stack_trace(toks, i, j + 1, trace.push(next)),
{
    let t = trace.push(next);
    assert forall|k: int| #![trigger t[k]] 0 <= k < j + 1 - i implies word_acts(toks, i + k, t[k], t[k + 1]) by {
        if k < j - i {
            assert(t[k] == trace[k]);
            assert(t[k + 1] == trace[k + 1]);
        } else {
            assert(t[k] == trace.last());
        }
    }
}

proof fn lemma_word_run_end_from(toks: Seq<Token>, i: int, stops: Seq<TokenKind>)
    ensures
        word_run_end(toks, i, stops) >= i,
    decreases toks.len() - i,
{
    if plain_word_at(toks, i, stops) {
        lemma_word_run_end_from(toks, i + 1, stops);
    }
}

/// How the word at `i` changes the operand stack `before` into `after`.
pub open spec fn word_acts(toks: Seq<Token>, i: int, before: Seq<Expr>, after: Seq<Expr>) -> bool {
    &&& word_effect(toks[i].kind, before, after)
    &&& after.len() > before.len() ==> word_pushes(toks, i, after.last())
}

/// `trace` holds the operand stack before the word at `i` and after each
/// word up to `j`, every word acting on the stack before it as `word_acts`
/// says.
pub open spec fn stack_trace(toks: Seq<Token>, i: int, j: int, trace: Seq<Seq<Expr>>) -> bool {
    &&& trace.len() == j - i + 1
    &&& forall|k: int| #![trigger trace[k]] 0 <= k < j - i ==> word_acts(toks, i + k, trace[k], trace[k + 1])
}

/// The statements left when the operand stack `es` is drained at the end of
/// a body: none, or one expression statement holding the single entry or a
/// `Sequence` of all entries.
pub open spec fn drained_into(es: Seq<Expr>, v: Seq<Stmt>) -> bool {
    if es.len() == 0 {
        v.len() == 0
    } else {
        v.len() == 1 && (v[0].kind matches StmtKind::Expr(e) && if es.len() == 1 {
            e == es[0]
        } else {
            e matches Expr::Sequence(xs) && xs@.len() == es.len() && forall|k: int|
                0 <= k < es.len() ==> #[trigger] xs@[k].0 == es[k]
        })
    }
}

/// Token kinds that start a statement or declaration inside a body.
pub open spec fn statement_kind(k: TokenKind) -> bool {
    match k {
        TokenKind::Mutable | TokenKind::Const | TokenKind::Static | TokenKind::Function | TokenKind::Load
        | TokenKind::Store | TokenKind::Public | TokenKind::Private | TokenKind::Unsafe | TokenKind::Struct
        | TokenKind::Enum | TokenKind::Union | TokenKind::Error | TokenKind::Implement | TokenKind::Require
        | TokenKind::SetWord | TokenKind::If | TokenKind::For | TokenKind::Match | TokenKind::Defer
        | TokenKind::Handle | TokenKind::Move | TokenKind::Fallback | TokenKind::Return => true,
        _ => false,
    }
}

/// `b` is `a` one token further on, with the same tokens and errors.
pub open spec fn moved_on(a: Parser, b: Parser) -> bool {
    &&& b.toks() == a.toks()
    &&& b.pos() == a.pos() + 1
    &&& b.errs() == a.errs()
}

/// `e` is what draining the operand stack `es` (with spans `ss`) gives, or
/// an empty name when the stack is empty.
#[verifier::opaque]
pub open spec fn drained_operand(es: Seq<Expr>, ss: Seq<Span>, e: Expr) -> bool {
    if es.len() == 0 {
        e matches Expr::Variable { name } && name@.len() == 0
    } else {
        exists|sp: Span| #[trigger] helpers::drain_result(es, ss, Some((e, sp)))
    }
}

/// `v` is what draining the operand stack `es` gives: nothing when it is
/// empty.
#[verifier::opaque]
pub open spec fn drained_value(es: Seq<Expr>, ss: Seq<Span>, v: Option<Expr>) -> bool {
    match v {
        None => es.len() == 0,
        Some(e) => es.len() > 0 && exists|sp: Span| #[trigger] helpers::drain_result(es, ss, Some((e, sp))),
    }
}

/// A block `<keyword> <body> end` read from parser state `a`: the keyword
/// moves to `s1`, the body parses from there (up to `end`) into `body`,
/// ending in `p1` on `end`, which moves to `fin`.
#[verifier::opaque]
pub open spec fn block_parts(a: Parser, s1: Parser, p1: Parser, fin: Parser, body: Seq<Stmt>) -> bool {
    &&& moved_on(a, s1)
    &&& body_outcome(s1, p1, seq![TokenKind::End], body)
    &&& p1.peek_spec() == TokenKind::End
    &&& moved_on(p1, fin)
}

/// A function body read over `toks`: it parses from `s1`, just after the
/// head's `do` at `head`, up to the `end` at `p1`.
#[verifier::opaque]
pub open spec fn fn_body_parts(toks: Seq<Token>, head: int, s1: Parser, p1: Parser, body: Seq<Stmt>) -> bool {
    &&& s1.toks() == toks
    &&& s1.pos() == head
    &&& body_outcome(s1, p1, seq![TokenKind::End], body)
    &&& p1.peek_spec() == TokenKind::End
}

/// A `case` or `else` body of a `match` over `toks`: it parses from `s1` up
/// to the `end` at `p1`.
#[verifier::opaque]
pub open spec fn case_body(toks: Seq<Token>, s1: Parser, p1: Parser, body: Seq<Stmt>) -> bool {
    &&& s1.toks() == toks
    &&& body_outcome(s1, p1, seq![TokenKind::End], body)
    &&& p1.peek_spec() == TokenKind::End
}

/// `s` is a `match` statement read over `toks` with the operand stack `es`
/// (spans `ss`): its value is the drained operand, and every case body and
/// the else body (when there is one) is a body parsed up to an `end`.
#[verifier::opaque]
pub open spec fn match_built(toks: Seq<Token>, es: Seq<Expr>, ss: Seq<Span>, s: Stmt) -> bool {
    s.kind matches StmtKind::Match { value, cases, else_branch } && drained_operand(es, ss, value) && (forall|k: int|
        #![trigger cases@[k]] 0 <= k < cases@.len() ==> exists|s1: Parser, p1: Parser| #[trigger] case_body(toks, s1, p1, cases@[k].body@))
        && (else_branch@.len() == 0 || exists|s1: Parser, p1: Parser| #[trigger] case_body(toks, s1, p1, else_branch@))
}

/// `if <then> [else <else>] end` read from parser state `a`: the then branch
/// parses from after `if` up to `else` or `end`; when `else` follows, the
/// else branch parses from after it up to `end`, else it is empty; `end`
/// then moves to `fin`.
#[verifier::opaque]
pub open spec fn if_parts(
    a: Parser,
    s1: Parser,
    p1: Parser,
    s2: Parser,
    p2: Parser,
    fin: Parser,
    then_branch: Seq<Stmt>,
    else_branch: Seq<Stmt>,
) -> bool {
    &&& moved_on(a, s1)
    &&& body_outcome(s1, p1, seq![TokenKind::Else, TokenKind::End], then_branch)
    &&& if p1.peek_spec() == TokenKind::Else {
        moved_on(p1, s2) && body_outcome(s2, p2, seq![TokenKind::End], else_branch)
    } else {
        p2.toks() == p1.toks() && p2.pos() == p1.pos() && p2.errs() == p1.errs() && else_branch.len() == 0
    }
    &&& p2.peek_spec() == TokenKind::End
    &&& moved_on(p2, fin)
}

/// What a call of `body` from parser state `a` with `stops` ends in: state
/// `b` and statements `v`. It moves forward over the same tokens, stops at a
/// stop token or the error limit, moves nothing when it starts at one,
/// records an error on a token nothing accepts, and parses a run of plain
/// words, or of declarations, exactly and without recording anything.
pub open spec fn body_outcome(a: Parser, b: Parser, stops: Seq<TokenKind>, v: Seq<Stmt>) -> bool {
    let at_limit = a.errs().spec_error_count() >= a.errs().spec_limit();
    &&& b.advanced_from(a)
    &&& body_stop(stops, b.peek_spec()) || b.errs().spec_error_count() >= b.errs().spec_limit()
    &&& (body_stop(stops, a.peek_spec()) || at_limit) ==> (b == a && v.len() == 0)
    &&& (!body_stop(stops, a.peek_spec()) && !at_limit && rejected_in_body(a.peek_spec())) ==> b.errs().items().len()
        > a.errs().items().len()
    &&& (!at_limit && body_stop(stops, kind_or_eof(a.toks(), decl_run_end(a.toks(), a.pos(), stops)))) ==> ({
        let starts = decl_run_starts(a.toks(), a.pos(), stops);
        &&& v.len() == starts.len()
        &&& forall|k: int| 0 <= k < starts.len() ==> is_decl_stmt_at(a.toks(), #[trigger] starts[k], v[k])
        &&& b.pos() == decl_run_end(a.toks(), a.pos(), stops)
        &&& b.errs() == a.errs()
    })
    &&& (!at_limit && body_stop(stops, kind_or_eof(a.toks(), word_run_end(a.toks(), a.pos(), stops)))) ==> ({
        let end = word_run_end(a.toks(), a.pos(), stops);
        &&& exists|trace: Seq<Seq<Expr>>| #[trigger] stack_trace(a.toks(), a.pos(), end, trace)
            && trace[0] == Seq::<Expr>::empty() && drained_into(trace.last(), v)
        &&& b.pos() == end
        &&& b.errs() == a.errs()
    })
}

/// Token kinds that end a body.
pub open spec fn body_stop(stops: Seq<TokenKind>, k: TokenKind) -> bool {
    stops.contains(k) || k == TokenKind::End || k == TokenKind::Else || k == TokenKind::Case || k
        == TokenKind::Eof
}

/// Token kinds that nothing in a body accepts.
pub open spec fn rejected_in_body(k: TokenKind) -> bool {
    !statement_kind(k) && binary_op_spec(k) is None && !is_word_kind(k) && !body_stop(Seq::empty(), k)
}

/// The text of a dotted name continued from `i`: `first`, then `.member`
/// for each member (an identifier, `load` or `store`).
pub open spec fn member_path_text(toks: Seq<Token>, i: int, first: Seq<char>) -> Seq<char>
    decreases toks.len() - i,
{
    if 0 <= i < toks.len() && toks[i].kind == TokenKind::Dot && (kind_or_eof(toks, i + 1)
        == TokenKind::Identifier || kind_or_eof(toks, i + 1) == TokenKind::Load || kind_or_eof(toks, i + 1)
        == TokenKind::Store) {
        member_path_text(toks, i + 2, first + "."@ + toks[i + 1].lexeme@)
    } else {
        first
    }
}

/// The expression a literal, name or builtin word at `i` pushes: the
/// literal with the token's text, a name (a bare primitive name as a type
/// value) or member path, a builtin without its `@`, or a container
/// literal of its kind.
pub open spec fn word_pushes(toks: Seq<Token>, i: int, e: Expr) -> bool {
    let t = toks[i];
    match t.kind {
        TokenKind::Integer => e matches Expr::Integer { value } && value@ == t.lexeme@,
        TokenKind::Float => e matches Expr::Float { value } && value@ == t.lexeme@,
        TokenKind::String => e matches Expr::String { value } && value@ == t.lexeme@,
        TokenKind::Rune => e matches Expr::Rune { value } && value@ == t.lexeme@,
        TokenKind::True => e == Expr::Bool { value: true },
        TokenKind::False => e == Expr::Bool { value: false },
        TokenKind::Identifier | TokenKind::Error => if kind_or_eof(toks, i + 1) == TokenKind::Dot {
            e is Member && path_of(e) == Some(member_path_text(toks, i + 1, type_head(toks, i)))
        } else if ast::primitive_named(type_head(toks, i)) is Some {
            e matches Expr::TypeValue { name } && name@ == type_head(toks, i)
        } else {
            e matches Expr::Variable { name } && name@ == type_head(toks, i)
        },
        TokenKind::At => e matches Expr::Builtin { name } && name@ == if t.lexeme@.len() > 0
            && t.lexeme@[0] == '@' {
            t.lexeme@.drop_first()
        } else {
            t.lexeme@
        },
        TokenKind::LeftSquare => e is Array,
        TokenKind::LeftParen => e is List,
        TokenKind::LeftCurly => e is MapLiteral,
        _ => true,
    }
}

/// How a word changes the operand stack (for the words whose effect does not
/// depend on the text after them).
pub open spec fn word_effect(k: TokenKind, before: Seq<Expr>, after: Seq<Expr>) -> bool {
    let n = before.len();
    match k {
        TokenKind::Swap => if n >= 2 {
            after == before.drop_last().drop_last().push(before.last()).push(before[n - 2])
        } else {
            after == before.push(Expr::StackOp(StackOp::Swap))
        },
        TokenKind::Rot => if n >= 3 {
            after == before.drop_first().push(before[0])
        } else {
            after == before.push(Expr::StackOp(StackOp::Rot))
        },
        TokenKind::Unrot => if n >= 3 {
            after == seq![before.last()] + before.drop_last()
        } else {
            after == before.push(Expr::StackOp(StackOp::Unrot))
        },
        TokenKind::Dup => if n > 0 {
            after.len() == n + 1 && after.take(n as int) == before && ast::same_expr(before.last(), after.last())
        } else {
            after == before.push(Expr::StackOp(StackOp::Dup))
        },
        TokenKind::Pop => after == before.push(Expr::StackOp(StackOp::Pop)),
        TokenKind::Drop => after == before.push(Expr::StackOp(StackOp::Drop)),
        TokenKind::Not => if n > 0 && is_value_spec(before.last()) {
            after == before.drop_last().push(
                Expr::Unary { op: UnOp::Not, operand: Box::new(before.last()) },
            )
        } else {
            after == before.push(Expr::ApplyUn(UnOp::Not))
        },
        TokenKind::Typeof => if n > 0 {
            after == before.drop_last().push(Expr::Typeof { inner: Box::new(before.last()) })
        } else {
            after == before.push(Expr::ApplyTypeof)
        },
        TokenKind::Borrow => if n > 0 {
            after == before.drop_last().push(Expr::Borrow { inner: Box::new(before.last()) })
        } else {
            after == before.push(Expr::ApplyBorrow)
        },
        TokenKind::Load => if n > 0 {
            after == before.drop_last().push(Expr::Load { inner: Box::new(before.last()) })
        } else {
            after == before.push(Expr::ApplyLoad)
        },
        TokenKind::Call => n > 0 && after == before.drop_last().push(
            Expr::Call { target: Box::new(before.last()) },
        ),
        TokenKind::Unwrap => n > 0 && after == before.drop_last().push(
            Expr::Unwrap { inner: Box::new(before.last()) },
        ),
        TokenKind::Store => n >= 2 && after == before.drop_last().drop_last().push(
            Expr::Store { addr: Box::new(before[n - 2]), value: Box::new(before.last()) },
        ),
        _ => match binary_op_spec(k) {
            Some(op) => if n >= 2 && is_value_spec(before.last()) && is_value_spec(before[n - 2]) {
                after == before.drop_last().drop_last().push(
                    Expr::Binary {
                        op,
                        left: Box::new(before[n - 2]),
                        right: Box::new(before.last()),
                    },
                )
            } else {
                after == before.push(Expr::ApplyBin(op))
            },
            None => after.len() == n + 1 && after.take(n as int) == before,
        },
    }
}

/// The name of a token kind in messages: its variant's name (`Set` for
/// the `set` word).
pub open spec fn token_kind_text(k: TokenKind) -> Seq<char> {
    match k {
        TokenKind::And => "And"@,
        TokenKind::Asterisk => "Asterisk"@,
        TokenKind::At => "At"@,
        TokenKind::Borrow => "Borrow"@,
        TokenKind::Call => "Call"@,
        TokenKind::Caret => "Caret"@,
        TokenKind::Case => "Case"@,
        TokenKind::Const => "Const"@,
        TokenKind::Copy => "Copy"@,
        TokenKind::Defer => "Defer"@,
        TokenKind::Do => "Do"@,
        TokenKind::Dot => "Dot"@,
        TokenKind::Drop => "Drop"@,
        TokenKind::Dup => "Dup"@,
        TokenKind::Else => "Else"@,
        TokenKind::End => "End"@,
        TokenKind::Enum => "Enum"@,
        TokenKind::Eof => "Eof"@,
        TokenKind::EqualEqual => "EqualEqual"@,
        TokenKind::Error => "Error"@,
        TokenKind::Fallback => "Fallback"@,
        TokenKind::False => "False"@,
        TokenKind::Float => "Float"@,
        TokenKind::For => "For"@,
        TokenKind::Function => "Function"@,
        TokenKind::Greater => "Greater"@,
        TokenKind::GreaterEqual => "GreaterEqual"@,
        TokenKind::Handle => "Handle"@,
        TokenKind::Identifier => "Identifier"@,
        TokenKind::If => "If"@,
        TokenKind::Implement => "Implement"@,
        TokenKind::Integer => "Integer"@,
        TokenKind::LeftCurly => "LeftCurly"@,
        TokenKind::LeftParen => "LeftParen"@,
        TokenKind::LeftShift => "LeftShift"@,
        TokenKind::LeftSquare => "LeftSquare"@,
        TokenKind::Less => "Less"@,
        TokenKind::LessEqual => "LessEqual"@,
        TokenKind::Load => "Load"@,
        TokenKind::Match => "Match"@,
        TokenKind::Minus => "Minus"@,
        TokenKind::Move => "Move"@,
        TokenKind::Mutable => "Mutable"@,
        TokenKind::Not => "Not"@,
        TokenKind::NotEqual => "NotEqual"@,
        TokenKind::Or => "Or"@,
        TokenKind::Percent => "Percent"@,
        TokenKind::Pipe => "Pipe"@,
        TokenKind::Plus => "Plus"@,
        TokenKind::Pop => "Pop"@,
        TokenKind::Private => "Private"@,
        TokenKind::Public => "Public"@,
        TokenKind::Require => "Require"@,
        TokenKind::Return => "Return"@,
        TokenKind::RightCurly => "RightCurly"@,
        TokenKind::RightParen => "RightParen"@,
        TokenKind::RightShift => "RightShift"@,
        TokenKind::RightSquare => "RightSquare"@,
        TokenKind::Rot => "Rot"@,
        TokenKind::Rune => "Rune"@,
        TokenKind::SetWord => "Set"@,
        TokenKind::Slash => "Slash"@,
        TokenKind::SlashSlash => "SlashSlash"@,
        TokenKind::Static => "Static"@,
        TokenKind::Store => "Store"@,
        TokenKind::String => "String"@,
        TokenKind::Struct => "Struct"@,
        TokenKind::Swap => "Swap"@,
        TokenKind::Tilde => "Tilde"@,
        TokenKind::True => "True"@,
        TokenKind::Typeof => "Typeof"@,
        TokenKind::Union => "Union"@,
        TokenKind::Unrot => "Unrot"@,
        TokenKind::Unsafe => "Unsafe"@,
        TokenKind::Unwrap => "Unwrap"@,
        TokenKind::With => "With"@,
        TokenKind::Xor => "Xor"@,
    }
}

/// Display name of a token kind, as used in messages.
pub fn token_kind_name(k: TokenKind) -> (r: &'static str)
    ensures
        r@ == token_kind_text(k),
{
    match k {
        TokenKind::And => "And",
        TokenKind::Asterisk => "Asterisk",
        TokenKind::At => "At",
        TokenKind::Borrow => "Borrow",
        TokenKind::Call => "Call",
        TokenKind::Caret => "Caret",
        TokenKind::Case => "Case",
        TokenKind::Const => "Const",
        TokenKind::Copy => "Copy",
        TokenKind::Defer => "Defer",
        TokenKind::Do => "Do",
        TokenKind::Dot => "Dot",
        TokenKind::Drop => "Drop",
        TokenKind::Dup => "Dup",
        TokenKind::Else => "Else",
        TokenKind::End => "End",
        TokenKind::Enum => "Enum",
        TokenKind::Eof => "Eof",
        TokenKind::EqualEqual => "EqualEqual",
        TokenKind::Error => "Error",
        TokenKind::Fallback => "Fallback",
        TokenKind::False => "False",
        TokenKind::Float => "Float",
        TokenKind::For => "For",
        TokenKind::Function => "Function",
        TokenKind::Greater => "Greater",
        TokenKind::GreaterEqual => "GreaterEqual",
        TokenKind::Handle => "Handle",
        TokenKind::Identifier => "Identifier",
        TokenKind::If => "If",
        TokenKind::Implement => "Implement",
        TokenKind::Integer => "Integer",
        TokenKind::LeftCurly => "LeftCurly",
        TokenKind::LeftParen => "LeftParen",
        TokenKind::LeftShift => "LeftShift",
        TokenKind::LeftSquare => "LeftSquare",
        TokenKind::Less => "Less",
        TokenKind::LessEqual => "LessEqual",
        TokenKind::Load => "Load",
        TokenKind::Match => "Match",
        TokenKind::Minus => "Minus",
        TokenKind::Move => "Move",
        TokenKind::Mutable => "Mutable",
        TokenKind::Not => "Not",
        TokenKind::NotEqual => "NotEqual",
        TokenKind::Or => "Or",
        TokenKind::Percent => "Percent",
        TokenKind::Pipe => "Pipe",
        TokenKind::Plus => "Plus",
        TokenKind::Pop => "Pop",
        TokenKind::Private => "Private",
        TokenKind::Public => "Public",
        TokenKind::Require => "Require",
        TokenKind::Return => "Return",
        TokenKind::RightCurly => "RightCurly",
        TokenKind::RightParen => "RightParen",
        TokenKind::RightShift => "RightShift",
        TokenKind::RightSquare => "RightSquare",
        TokenKind::Rot => "Rot",
        TokenKind::Rune => "Rune",
        TokenKind::SetWord => "Set",
        TokenKind::Slash => "Slash",
        TokenKind::SlashSlash => "SlashSlash",
        TokenKind::Static => "Static",
        TokenKind::Store => "Store",
        TokenKind::String => "String",
        TokenKind::Struct => "Struct",
        TokenKind::Swap => "Swap",
        TokenKind::Tilde => "Tilde",
        TokenKind::True => "True",
        TokenKind::Typeof => "Typeof",
        TokenKind::Union => "Union",
        TokenKind::Unrot => "Unrot",
        TokenKind::Unsafe => "Unsafe",
        TokenKind::Unwrap => "Unwrap",
        TokenKind::With => "With",
        TokenKind::Xor => "Xor",
    }
}

/// Parse a whole token vector.
pub fn parse(tokens: Vec<Token>) -> (r: Result<Program, DiagnosticBatch>)
    requires
        tokens@.len() > 0,
        tokens@.last().kind == TokenKind::Eof,
    ensures
        r matches Err(b) ==> b.wf() && b.items().len() > 0 && b.spec_limit()
            == crate::diagnostics::DEFAULT_ERROR_LIMIT && only_errors(b),
        exists|start: Parser, after: Parser, v: Seq<Stmt>| #[trigger] body_outcome(start, after, seq![TokenKind::Eof], v)
            && start.toks() == tokens@ && start.pos() == 0 && start.errs().items().len() == 0
            && start.errs().spec_limit() == crate::diagnostics::DEFAULT_ERROR_LIMIT && match r {
            Ok(p) => after.errs().items().len() == 0 && p.items@ == v,
            Err(b) => after.errs().items().len() > 0 && b.items() == after.errs().items(),
        },
        tokens@[0].kind == TokenKind::Eof ==> (r matches Ok(p) && p.items@.len() == 0),
        rejected_in_body(tokens@[0].kind) ==> r is Err,
        body_stop(seq![TokenKind::Eof], kind_or_eof(tokens@, word_run_end(tokens@, 0, seq![TokenKind::Eof]))) ==> (
        r matches Ok(p) && exists|trace: Seq<Seq<Expr>>| #[trigger] stack_trace(
            tokens@,
            0,
            word_run_end(tokens@, 0, seq![TokenKind::Eof]),
            trace,
        ) && trace[0] == Seq::<Expr>::empty() && drained_into(trace.last(), p.items@)),
        body_stop(seq![TokenKind::Eof], kind_or_eof(tokens@, decl_run_end(tokens@, 0, seq![TokenKind::Eof]))) ==> ({
            let starts = decl_run_starts(tokens@, 0, seq![TokenKind::Eof]);
            &&& r matches Ok(p)
            &&& p.items@.len() == starts.len()
            &&& forall|k: int| 0 <= k < starts.len() ==> is_decl_stmt_at(tokens@, #[trigger] starts[k], p.items@[k])
        }),
{
    let mut p = Parser::new(tokens);
    p.parse()
}

} // verus!
