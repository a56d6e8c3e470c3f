//! Decisions code generation makes before emitting anything: literal and
//! merge types, element-type inference, loop-source classification, and the
//! string constants a program needs.

use vstd::prelude::*;
use crate::compiler::errors::{is_new_error, CompileError};
use crate::compiler::types::{
    common_type, common_type_spec, elem_ty, elem_ty_of, is_float_ty, scalar_ty, scalar_ty_of, ty_debug,
    ty_debug_spec, CResult, Ty,
};
use crate::diagnostics::span::span_at;
use crate::diagnostics::{views, Span};
use crate::parser::ast::{BinOp, Expr, Function, MatchCase, MatchCaseKind, Stmt, StmtKind};
use crate::text::{decimal, decimal_spec, owned, push_str, str_eq};

verus! {

/// Fold a running inferred container element type with a new candidate:
/// the first candidate, then the common type, or `E345` when there is none.
pub fn merge_type(prev: Option<Ty>, next: Ty) -> (r: CResult<Ty>)
    ensures
        prev is None ==> (r matches Ok(t) && t == next),
        prev matches Some(p) ==> match common_type_spec(p, next) {
            Some(c) => r matches Ok(t) && t == c,
            None => r matches Err(e) && is_new_error(
                *e.diagnostic,
                "incompatible element types "@ + ty_debug_spec(p) + " and "@ + ty_debug_spec(next),
                span_at(0, 0, 1, 1),
                "E345"@,
            ),
        },
{
    match prev {
        None => Ok(next),
        Some(p) => match common_type(p, next) {
            Some(c) => Ok(c),
            None => {
                let mut m = owned("incompatible element types ");
                push_str(&mut m, ty_debug(p).as_str());
                push_str(&mut m, " and ");
                push_str(&mut m, ty_debug(next).as_str());
                Err(CompileError::new(m, Span::default(), owned("E345")))
            },
        },
    }
}

/// Comparison and logical operators (the ones that yield a condition).
pub open spec fn is_condition_op(op: BinOp) -> bool {
    match op {
        BinOp::Eq | BinOp::Ne | BinOp::Gt | BinOp::Gte | BinOp::Lt | BinOp::Lte | BinOp::And
        | BinOp::Or => true,
        _ => false,
    }
}

fn condition_op(op: BinOp) -> (r: bool)
    ensures
        r == is_condition_op(op),
{
    match op {
        BinOp::Eq | BinOp::Ne | BinOp::Gt | BinOp::Gte | BinOp::Lt | BinOp::Lte | BinOp::And
        | BinOp::Or => true,
        _ => false,
    }
}

/// Whether a `for` source reads as a condition (a comparison or boolean
/// phrase) rather than an iterable (a container or other value).
pub open spec fn source_is_condition(source: Expr) -> bool
    decreases source,
{
    match source {
        Expr::Bool { .. } => true,
        Expr::Binary { op, .. } => is_condition_op(op),
        Expr::Unary { .. } | Expr::ApplyUn(_) => true,
        Expr::ApplyBin(op) => is_condition_op(op),
        Expr::Sequence(xs) => xs.len() > 0 && {
            let last = xs@.last();
            decreases_to!(source => xs);
            source_is_condition(last.0)
        },
        _ => false,
    }
}

/// Heuristic: a condition `for` leaves a comparison or boolean phrase; an
/// iterable `for` leaves a container name or other non-boolean expression.
pub fn for_source_is_condition(source: &Expr) -> (r: bool)
    ensures
        r == source_is_condition(*source),
    decreases source,
{
    match source {
        Expr::Bool { .. } => true,
        Expr::Binary { op, .. } => condition_op(*op),
        Expr::Unary { .. } | Expr::ApplyUn(_) => true,
        Expr::ApplyBin(op) => condition_op(*op),
        Expr::Sequence(xs) => {
            if xs.len() == 0 {
                false
            } else {
                let last = &xs[xs.len() - 1];
                assert(decreases_to!(source => xs@[xs@.len() - 1]));
                for_source_is_condition(&last.0)
            }
        },
        _ => false,
    }
}

/// The smallest type that fits an integer literal: unsigned for values
/// from 0, signed for negative values, at most 64 bits wide.
pub open spec fn int_literal_ty_spec(n: int) -> Ty {
    if n >= 0 {
        if n <= u8::MAX {
            Ty::U8
        } else if n <= u16::MAX {
            Ty::U16
        } else if n <= u32::MAX {
            Ty::U32
        } else {
            Ty::U64
        }
    } else if n >= i8::MIN {
        Ty::I8
    } else if n >= i16::MIN {
        Ty::I16
    } else if n >= i32::MIN {
        Ty::I32
    } else {
        Ty::I64
    }
}

pub fn int_literal_ty(n: i128) -> (r: Ty)
    ensures
        r == int_literal_ty_spec(n as int),
{
    if n >= 0 {
        if n <= 0xff {
            Ty::U8
        } else if n <= 0xffff {
            Ty::U16
        } else if n <= 0xffff_ffff {
            Ty::U32
        } else {
            Ty::U64
        }
    } else if n >= -0x80 {
        Ty::I8
    } else if n >= -0x8000 {
        Ty::I16
    } else if n >= -0x8000_0000 {
        Ty::I32
    } else {
        Ty::I64
    }
}

/// The literal's type holds the literal whenever it fits 64 bits, and no
/// narrower type of the same signedness would.
pub proof fn lemma_int_literal_ty_fits(n: int)
    requires
        i64::MIN <= n <= u64::MAX,
    ensures
        int_literal_ty_spec(n) == Ty::U8 ==> 0 <= n <= u8::MAX,
        int_literal_ty_spec(n) == Ty::U16 ==> u8::MAX < n <= u16::MAX,
        int_literal_ty_spec(n) == Ty::U32 ==> u16::MAX < n <= u32::MAX,
        int_literal_ty_spec(n) == Ty::U64 ==> u32::MAX < n <= u64::MAX,
        int_literal_ty_spec(n) == Ty::I8 ==> i8::MIN <= n < 0,
        int_literal_ty_spec(n) == Ty::I16 ==> i16::MIN <= n < i8::MIN,
        int_literal_ty_spec(n) == Ty::I32 ==> i32::MIN <= n < i16::MIN,
        int_literal_ty_spec(n) == Ty::I64 ==> i64::MIN <= n < i32::MIN,
{
}

/// The merge type an `if` result starts from, fixed before the `else`
/// branch is compiled: floats widen to `F64` so a wider `else` still fits.
pub fn if_merge_ty_from_then(t: Ty) -> (r: Ty)
    ensures
        r == if is_float_ty(t) { Ty::F64 } else { t },
{
    if t.is_float() {
        Ty::F64
    } else {
        t
    }
}

/// `E334` for `%` or `^` on floats, with a note and a help line.
pub fn float_mod_pow_error(op: BinOp, span: Span) -> (r: CompileError)
    requires
        op == BinOp::Mod || op == BinOp::Pow,
    ensures
        r.diagnostic.code@ == "E334"@,
        r.diagnostic.message@ == if op == BinOp::Mod {
            "'%' is integer remainder, not defined on floats"@
        } else {
            "'^' is integer exponentiation, not defined on floats"@
        },
        r.diagnostic.labels@.len() == 1,
        r.diagnostic.labels@[0].span == span,
        views(r.diagnostic.notes@) == seq!["use integer operands for '%' and '^'"@],
        views(r.diagnostic.helps@) == seq![
            "for float division use '/'; there is no float power operator yet"@,
        ],
{
    let (sym, what) = if op == BinOp::Mod {
        ("%", "remainder")
    } else {
        ("^", "exponentiation")
    };
    let mut m = owned("'");
    push_str(&mut m, sym);
    push_str(&mut m, "' is integer ");
    push_str(&mut m, what);
    push_str(&mut m, ", not defined on floats");
    proof {
        reveal_strlit("'");
        reveal_strlit("%");
        reveal_strlit("^");
        reveal_strlit("' is integer ");
        reveal_strlit("remainder");
        reveal_strlit("exponentiation");
        reveal_strlit(", not defined on floats");
        reveal_strlit("'%' is integer remainder, not defined on floats");
        reveal_strlit("'^' is integer exponentiation, not defined on floats");
    }
    assert(m@ =~= if op == BinOp::Mod {
        "'%' is integer remainder, not defined on floats"@
    } else {
        "'^' is integer exponentiation, not defined on floats"@
    });
    let e = CompileError::unsupported(m, span, owned("E334")).with_note(
        owned("use integer operands for '%' and '^'"),
    ).with_help(owned("for float division use '/'; there is no float power operator yet"));
    assert(views(e.diagnostic.notes@) =~= seq!["use integer operands for '%' and '^'"@]);
    assert(views(e.diagnostic.helps@) =~= seq![
        "for float division use '/'; there is no float power operator yet"@,
    ]);
    e
}

/// `scope.member` where the scope is a plain variable: the loop helpers
/// (`loop.index`, `loop.value`, ...) are written this way.
pub fn loop_helper_parts(e: &Expr) -> (r: Option<(&str, &str)>)
    ensures
        match r {
            Some((scope, member)) => e matches Expr::Member { base, member: m } && m@ == member@ && (
            **base matches Expr::Variable { name } && name@ == scope@),
            None => !(e matches Expr::Member { base, .. } && **base is Variable),
        },
{
    match e {
        Expr::Member { base, member } => match &**base {
            Expr::Variable { name } => Some((name.as_str(), member.as_str())),
            _ => None,
        },
        _ => None,
    }
}

/// An array type's element count from its initializer: an undeclared count
/// (0) takes the initializer's length; a declared count must match it
/// (`E345`); other types pass through.
pub fn infer_array_count(declared: Ty, elems: &Vec<Expr>) -> (r: CResult<Ty>)
    ensures
        match declared {
            Ty::Array { elem, count } => if count != 0 && count as int != elems@.len() {
                r matches Err(e) && e.diagnostic.code@ == "E345"@ && e.diagnostic.message@
                    == "array initializer has "@ + decimal_spec(elems@.len()) + " element(s) but the type declares "@
                    + decimal_spec(count as nat)
            } else {
                r matches Ok(t) && t == (Ty::Array { elem, count: elems@.len() as u32 })
            },
            _ => r matches Ok(t) && t == declared,
        },
{
    match declared {
        Ty::Array { elem, count } => {
            let n = elems.len();
            if count != 0 && count as usize != n {
                let mut m = owned("array initializer has ");
                push_str(&mut m, decimal(n as u64).as_str());
                push_str(&mut m, " element(s) but the type declares ");
                push_str(&mut m, decimal(count as u64).as_str());
                return Err(CompileError::new(m, Span::default(), owned("E345")));
            }
            Ok(Ty::Array { elem, count: n as u32 })
        },
        _ => Ok(declared),
    }
}

/// Append `s` unless it is already listed.
fn push_unique(out: &mut Vec<String>, s: &String)
    ensures
        views(old(out)@).contains(s@) ==> views(final(out)@) == views(old(out)@),
        !views(old(out)@).contains(s@) ==> views(final(out)@) == views(old(out)@).push(s@),
{
    crate::link::push_lib_dir(out, s.clone());
}

/// No string is listed twice.
pub open spec fn distinct(v: Seq<Seq<char>>) -> bool {
    forall|i: int, j: int| 0 <= i < j < v.len() ==> v[i] != v[j]
}

/// `out` extended by each string of `new` in order that it does not list yet.
pub open spec fn add_all(out: Seq<Seq<char>>, new: Seq<Seq<char>>) -> Seq<Seq<char>>
    decreases new.len(),
{
    if new.len() == 0 {
        out
    } else {
        let o = add_all(out, new.drop_last());
        if o.contains(new.last()) {
            o
        } else {
            o.push(new.last())
        }
    }
}

/// Adding two lists one after the other adds their concatenation.
pub proof fn lemma_add_all_concat(out: Seq<Seq<char>>, a: Seq<Seq<char>>, b: Seq<Seq<char>>)
    ensures
        add_all(add_all(out, a), b) == add_all(out, a + b),
    decreases b.len(),
{
    if b.len() == 0 {
        assert(a + b =~= a);
    } else {
        lemma_add_all_concat(out, a, b.drop_last());
        assert((a + b).drop_last() =~= a + b.drop_last());
        assert((a + b).last() == b.last());
    }
}

/// Adding strings keeps the old list first, lists every added string, and
/// lists nothing twice when the old list did not.
pub proof fn lemma_add_all_extends(out: Seq<Seq<char>>, new: Seq<Seq<char>>)
    ensures
        add_all(out, new).len() >= out.len(),
        add_all(out, new).take(out.len() as int) == out,
        forall|i: int| 0 <= i < new.len() ==> add_all(out, new).contains(#[trigger] new[i]),
        forall|x: Seq<char>| #[trigger] add_all(out, new).contains(x) ==> out.contains(x) || new.contains(x),
        distinct(out) ==> distinct(add_all(out, new)),
    decreases new.len(),
{
    if new.len() == 0 {
        assert(out.take(out.len() as int) =~= out);
    } else {
        let d = new.drop_last();
        lemma_add_all_extends(out, d);
        let o = add_all(out, d);
        assert(o.push(new.last()).take(out.len() as int) =~= o.take(out.len() as int));
        assert forall|i: int| 0 <= i < new.len() implies add_all(out, new).contains(#[trigger] new[i]) by {
            if i < new.len() - 1 {
                assert(new[i] == d[i]);
                assert(o.contains(d[i]));
                if !o.contains(new.last()) {
                    let j = choose|j: int| 0 <= j < o.len() && o[j] == d[i];
                    assert(o.push(new.last())[j] == d[i]);
                }
            } else if !o.contains(new.last()) {
                assert(o.push(new.last())[o.len() as int] == new.last());
            }
        }
        assert forall|x: Seq<char>| #[trigger] add_all(out, new).contains(x) implies out.contains(x) || new.contains(x) by {
            if o.contains(x) {
                if d.contains(x) {
                    let j = choose|j: int| 0 <= j < d.len() && d[j] == x;
                    assert(new[j] == x);
                }
            } else {
                assert(x == new.last());
                assert(new[new.len() - 1] == x);
            }
        }
        if distinct(out) && !o.contains(new.last()) {
            assert forall|i: int, j: int| 0 <= i < j < o.push(new.last()).len() implies o.push(new.last())[i]
                != o.push(new.last())[j] by {
                if j == o.len() {
                    assert(o.push(new.last())[i] == o[i]);
                }
            }
        }
    }
}

/// The string literals of an expression, in order of appearance.
pub open spec fn expr_strings(e: Expr) -> Seq<Seq<char>>
    decreases e,
{
    match e {
        Expr::String { value } => seq![value@],
        Expr::Array(es) => exprs_strings(es@),
        Expr::List(es) => exprs_strings(es@),
        Expr::Sequence(es) => spanned_strings(es@),
        Expr::MapLiteral(pairs) => pairs_strings(pairs@),
        Expr::Member { base, .. } => expr_strings(*base),
        Expr::Call { target } => expr_strings(*target),
        Expr::Unwrap { inner } => expr_strings(*inner),
        Expr::Typeof { inner } => expr_strings(*inner),
        Expr::Borrow { inner } => expr_strings(*inner),
        Expr::Unary { operand, .. } => expr_strings(*operand),
        Expr::Binary { left, right, .. } => expr_strings(*left) + expr_strings(*right),
        _ => Seq::empty(),
    }
}

pub open spec fn exprs_strings(es: Seq<Expr>) -> Seq<Seq<char>>
    decreases es,
{
    if es.len() == 0 {
        Seq::empty()
    } else {
        exprs_strings(es.drop_last()) + expr_strings(es.last())
    }
}

pub open spec fn spanned_strings(es: Seq<(Expr, Span)>) -> Seq<Seq<char>>
    decreases es,
{
    if es.len() == 0 {
        Seq::empty()
    } else {
        spanned_strings(es.drop_last()) + expr_strings(es.last().0)
    }
}

pub open spec fn pairs_strings(ps: Seq<(Expr, Expr)>) -> Seq<Seq<char>>
    decreases ps,
{
    if ps.len() == 0 {
        Seq::empty()
    } else {
        pairs_strings(ps.drop_last()) + expr_strings(ps.last().0) + expr_strings(ps.last().1)
    }
}

pub open spec fn opt_strings(o: Option<Expr>) -> Seq<Seq<char>> {
    match o {
        Some(e) => expr_strings(e),
        None => Seq::empty(),
    }
}

/// The string literals of statements (their expressions, conditions, loop
/// sources, match values and case conditions, returns and fallbacks, and
/// nested bodies, functions and methods included), in order.
pub open spec fn stmts_strings(stmts: Seq<Stmt>) -> Seq<Seq<char>>
    decreases stmts,
{
    if stmts.len() == 0 {
        Seq::empty()
    } else {
        stmts_strings(stmts.drop_last()) + stmt_strings(stmts.last())
    }
}

pub open spec fn stmt_strings(s: Stmt) -> Seq<Seq<char>>
    decreases s,
{
    match s.kind {
        StmtKind::Expr(e) => expr_strings(e),
        StmtKind::VarDecl { value, .. } => opt_strings(value),
        StmtKind::SetValue { value, .. } => opt_strings(value),
        StmtKind::If { condition, then_branch, else_branch } => expr_strings(condition) + stmts_strings(
            then_branch@,
        ) + stmts_strings(else_branch@),
        StmtKind::For { source, body } => expr_strings(source) + stmts_strings(body@),
        StmtKind::Match { value, cases, else_branch } => expr_strings(value) + cases_strings(cases@)
            + stmts_strings(else_branch@),
        StmtKind::Return { value } => opt_strings(value),
        StmtKind::Defer { body } => stmts_strings(body@),
        StmtKind::Unsafe { body } => stmts_strings(body@),
        StmtKind::Handle { body, fallback } => stmts_strings(body@) + opt_strings(fallback),
        StmtKind::Function(f) => stmts_strings(f.body@),
        StmtKind::Implement(imp) => fns_strings(imp.functions@),
        _ => Seq::empty(),
    }
}

pub open spec fn cases_strings(cases: Seq<MatchCase>) -> Seq<Seq<char>>
    decreases cases,
{
    if cases.len() == 0 {
        Seq::empty()
    } else {
        cases_strings(cases.drop_last()) + match cases.last().kind {
            MatchCaseKind::Condition(e) => expr_strings(e),
            MatchCaseKind::Type(_) => Seq::empty(),
        } + stmts_strings(cases.last().body@)
    }
}

pub open spec fn fns_strings(fs: Seq<Function>) -> Seq<Seq<char>>
    decreases fs,
{
    if fs.len() == 0 {
        Seq::empty()
    } else {
        fns_strings(fs.drop_last()) + stmts_strings(fs.last().body@)
    }
}

fn add_string(out: &mut Vec<String>, s: &String)
    ensures
        views(final(out)@) == add_all(views(old(out)@), seq![s@]),
{
    let ghost one = seq![s@];
    assert(one.drop_last() =~= Seq::<Seq<char>>::empty());
    assert(add_all(views(old(out)@), one.drop_last()) == views(old(out)@));
    push_unique(out, s);
}

/// Add the string literals of `e` to `out` (see `expr_strings`).
fn walk_expr(e: &Expr, out: &mut Vec<String>)
    ensures
        views(final(out)@) == add_all(views(old(out)@), expr_strings(*e)),
    decreases e,
{
    let ghost o = views(out@);
    match e {
        Expr::String { value } => {
            add_string(out, value);
        },
        Expr::Array(es) => walk_exprs(es, out),
        Expr::List(es) => walk_exprs(es, out),
        Expr::Sequence(es) => walk_spanned(es, out),
        Expr::MapLiteral(pairs) => walk_pairs(pairs, out),
        Expr::Member { base, .. } => walk_expr(base, out),
        Expr::Call { target } => walk_expr(target, out),
        Expr::Unwrap { inner } => walk_expr(inner, out),
        Expr::Typeof { inner } => walk_expr(inner, out),
        Expr::Borrow { inner } => walk_expr(inner, out),
        Expr::Unary { operand, .. } => walk_expr(operand, out),
        Expr::Binary { left, right, .. } => {
            walk_expr(left, out);
            walk_expr(right, out);
            proof {
                lemma_add_all_concat(o, expr_strings(**left), expr_strings(**right));
            }
        },
        _ => {},
    }
}

fn walk_exprs(es: &Vec<Expr>, out: &mut Vec<String>)
    ensures
        views(final(out)@) == add_all(views(old(out)@), exprs_strings(es@)),
    decreases es@,
{
    let ghost o = views(out@);
    let mut i: usize = 0;
    assert(es@.take(0) =~= Seq::<Expr>::empty());
    while i < es.len()
        invariant
            0 <= i <= es@.len(),
            views(out@) == add_all(o, exprs_strings(es@.take(i as int))),
        decreases es@.len() - i,
    {
        assert(es@.take(i + 1).drop_last() =~= es@.take(i as int));
        assert(es@.take(i + 1).last() == es@[i as int]);
        assert(decreases_to!(es@ => es@[i as int]));
        walk_expr(&es[i], out);
        proof {
            lemma_add_all_concat(o, exprs_strings(es@.take(i as int)), expr_strings(es@[i as int]));
        }
        i += 1;
    }
    assert(es@.take(es@.len() as int) =~= es@);
}

fn walk_spanned(es: &Vec<(Expr, Span)>, out: &mut Vec<String>)
    ensures
        views(final(out)@) == add_all(views(old(out)@), spanned_strings(es@)),
    decreases es@,
{
    let ghost o = views(out@);
    let mut i: usize = 0;
    assert(es@.take(0) =~= Seq::<(Expr, Span)>::empty());
    while i < es.len()
        invariant
            0 <= i <= es@.len(),
            views(out@) == add_all(o, spanned_strings(es@.take(i as int))),
        decreases es@.len() - i,
    {
        assert(es@.take(i + 1).drop_last() =~= es@.take(i as int));
        assert(es@.take(i + 1).last() == es@[i as int]);
        assert(decreases_to!(es@ => es@[i as int].0));
        walk_expr(&es[i].0, out);
        proof {
            lemma_add_all_concat(o, spanned_strings(es@.take(i as int)), expr_strings(es@[i as int].0));
        }
        i += 1;
    }
    assert(es@.take(es@.len() as int) =~= es@);
}

fn walk_pairs(pairs: &Vec<(Expr, Expr)>, out: &mut Vec<String>)
    ensures
        views(final(out)@) == add_all(views(old(out)@), pairs_strings(pairs@)),
    decreases pairs@,
{
    let ghost o = views(out@);
    let mut i: usize = 0;
    assert(pairs@.take(0) =~= Seq::<(Expr, Expr)>::empty());
    while i < pairs.len()
        invariant
            0 <= i <= pairs@.len(),
            views(out@) == add_all(o, pairs_strings(pairs@.take(i as int))),
        decreases pairs@.len() - i,
    {
        assert(pairs@.take(i + 1).drop_last() =~= pairs@.take(i as int));
        assert(pairs@.take(i + 1).last() == pairs@[i as int]);
        let ghost pre = pairs_strings(pairs@.take(i as int));
        assert(decreases_to!(pairs@ => pairs@[i as int].0));
        walk_expr(&pairs[i].0, out);
        assert(decreases_to!(pairs@ => pairs@[i as int].1));
        walk_expr(&pairs[i].1, out);
        proof {
            lemma_add_all_concat(o, pre, expr_strings(pairs@[i as int].0));
            lemma_add_all_concat(o, pre + expr_strings(pairs@[i as int].0), expr_strings(pairs@[i as int].1));
        }
        i += 1;
    }
    assert(pairs@.take(pairs@.len() as int) =~= pairs@);
}

fn walk_opt(v: &Option<Expr>, out: &mut Vec<String>)
    ensures
        views(final(out)@) == add_all(views(old(out)@), opt_strings(*v)),
{
    if let Some(e) = v {
        walk_expr(e, out);
    }
}

/// Collect the string literals of `stmts` (see `stmts_strings`): each one
/// not listed yet is appended to `out`, in order of first appearance.
#[verifier::loop_isolation(false)]
pub fn collect_strings(stmts: &Vec<Stmt>, out: &mut Vec<String>)
    ensures
        views(final(out)@) == add_all(views(old(out)@), stmts_strings(stmts@)),
    decreases stmts@,
{
    let ghost o = views(out@);
    let mut i: usize = 0;
    assert(stmts@.take(0) =~= Seq::<Stmt>::empty());
    while i < stmts.len()
        invariant
            0 <= i <= stmts@.len(),
            views(out@) == add_all(o, stmts_strings(stmts@.take(i as int))),
        decreases stmts@.len() - i,
    {
        assert(stmts@.take(i + 1).drop_last() =~= stmts@.take(i as int));
        assert(stmts@.take(i + 1).last() == stmts@[i as int]);
        let ghost pre = stmts_strings(stmts@.take(i as int));
        let ghost before = views(out@);
        assert(decreases_to!(stmts@ => stmts@[i as int]));
        collect_stmt_strings(&stmts[i], out);
        proof {
            lemma_add_all_concat(o, pre, stmt_strings(stmts@[i as int]));
        }
        i += 1;
    }
    assert(stmts@.take(stmts@.len() as int) =~= stmts@);
}

#[verifier::loop_isolation(false)]
fn collect_stmt_strings(s: &Stmt, out: &mut Vec<String>)
    ensures
        views(final(out)@) == add_all(views(old(out)@), stmt_strings(*s)),
    decreases s,
{
    let ghost o = views(out@);
    match &s.kind {
        StmtKind::Expr(e) => walk_expr(e, out),
        StmtKind::VarDecl { value, .. } => walk_opt(value, out),
        StmtKind::SetValue { value, .. } => walk_opt(value, out),
        StmtKind::If { condition, then_branch, else_branch } => {
            walk_expr(condition, out);
            collect_strings(then_branch, out);
            collect_strings(else_branch, out);
            proof {
                lemma_add_all_concat(o, expr_strings(*condition), stmts_strings(then_branch@));
                lemma_add_all_concat(o, expr_strings(*condition) + stmts_strings(then_branch@), stmts_strings(else_branch@));
            }
        },
        StmtKind::For { source, body } => {
            walk_expr(source, out);
            collect_strings(body, out);
            proof {
                lemma_add_all_concat(o, expr_strings(*source), stmts_strings(body@));
            }
        },
        StmtKind::Match { value, cases, else_branch } => {
            walk_expr(value, out);
            let ghost v = expr_strings(*value);
            let mut c: usize = 0;
            assert(cases@.take(0) =~= Seq::<MatchCase>::empty());
            assert(v + cases_strings(cases@.take(0)) =~= v);
            while c < cases.len()
                invariant
                    0 <= c <= cases@.len(),
                    views(out@) == add_all(o, v + cases_strings(cases@.take(c as int))),
                decreases cases@.len() - c,
            {
                let ghost pre = v + cases_strings(cases@.take(c as int));
                let ghost cond = match cases@[c as int].kind {
                    MatchCaseKind::Condition(e) => expr_strings(e),
                    MatchCaseKind::Type(_) => Seq::<Seq<char>>::empty(),
                };
                match &cases[c].kind {
                    MatchCaseKind::Condition(expr) => {
                        walk_expr(expr, out);
                    },
                    MatchCaseKind::Type(_) => {
                        assert(add_all(views(out@), Seq::<Seq<char>>::empty()) == views(out@));
                    },
                }
                assert(decreases_to!(s => cases@[c as int].body@));
                collect_strings(&cases[c].body, out);
                proof {
                    lemma_add_all_concat(o, pre, cond);
                    lemma_add_all_concat(o, pre + cond, stmts_strings(cases@[c as int].body@));
                    assert(cases@.take(c + 1).drop_last() =~= cases@.take(c as int));
                    assert(cases@.take(c + 1).last() == cases@[c as int]);
                    assert(pre + cond + stmts_strings(cases@[c as int].body@) =~= v + cases_strings(cases@.take(c + 1)));
                }
                c += 1;
            }
            assert(cases@.take(cases@.len() as int) =~= cases@);
            collect_strings(else_branch, out);
            proof {
                lemma_add_all_concat(o, v + cases_strings(cases@), stmts_strings(else_branch@));
            }
        },
        StmtKind::Return { value } => walk_opt(value, out),
        StmtKind::Defer { body } => collect_strings(body, out),
        StmtKind::Unsafe { body } => collect_strings(body, out),
        StmtKind::Handle { body, fallback } => {
            collect_strings(body, out);
            walk_opt(fallback, out);
            proof {
                lemma_add_all_concat(o, stmts_strings(body@), opt_strings(*fallback));
            }
        },
        StmtKind::Function(f) => collect_strings(&f.body, out),
        StmtKind::Implement(imp) => {
            let mut k: usize = 0;
            assert(imp.functions@.take(0) =~= Seq::<Function>::empty());
            while k < imp.functions.len()
                invariant
                    0 <= k <= imp.functions@.len(),
                    views(out@) == add_all(o, fns_strings(imp.functions@.take(k as int))),
                decreases imp.functions@.len() - k,
            {
                let ghost pre = fns_strings(imp.functions@.take(k as int));
                assert(imp.functions@.take(k + 1).drop_last() =~= imp.functions@.take(k as int));
                assert(imp.functions@.take(k + 1).last() == imp.functions@[k as int]);
                assert(decreases_to!(s => imp.functions@[k as int].body@));
                collect_strings(&imp.functions[k].body, out);
                proof {
                    lemma_add_all_concat(o, pre, stmts_strings(imp.functions@[k as int].body@));
                }
                k += 1;
            }
            assert(imp.functions@.take(imp.functions@.len() as int) =~= imp.functions@);
        },
        _ => {},
    }
}

/// Names of the declared structs, unions and enums, indexed by their ids.
pub struct TypeNames {
    pub structs: Vec<String>,
    pub unions: Vec<String>,
    pub enums: Vec<String>,
}

/// How far a type's codes can still nest: what the formatter recurses on.
pub open spec fn ty_measure(t: Ty) -> nat {
    match t {
        Ty::List { elem } => elem as nat + 1,
        Ty::Hashmap { key, value } => (if key >= value { key } else { value }) as nat + 1,
        Ty::Ptr(c) => if c == 0x50 {
            0
        } else {
            c as nat + 1
        },
        Ty::Array { .. } => 1,
        _ => 0,
    }
}

/// Decoding a code never gives a type that nests deeper than the code.
pub proof fn lemma_elem_ty_measure(c: u64)
    ensures
        ty_measure(elem_ty_of(c)) <= c,
{
    let tag = c & 0xff;
    if tag == 0x20 {
        assert(c & 0xff == 0x20 ==> (c >> 8u64) + 1 <= c) by (bit_vector);
    } else if tag == 0x30 {
        assert(c & 0xff == 0x30 ==> ((c >> 8u64) & 0xffff_ffff) + 1 <= c && (c >> 40u64) + 1 <= c)
            by (bit_vector);
    } else if tag == 0x60 {
        assert(c & 0xff == 0x60 ==> 1 <= c) by (bit_vector);
    }
}

/// The name of entry `id` of a name table, or `<kind>#<id>` past its end.
pub open spec fn table_name(names: Seq<String>, id: u32, kind: Seq<char>) -> Seq<char> {
    if (id as int) < names.len() {
        names[id as int]@
    } else {
        kind + "#"@ + decimal_spec(id as nat)
    }
}

/// A type as users write it (`list<i32>`, `hashmap<string i64>`,
/// `array<u8 4>`, `pointer<_>`, declared names for structs, unions, enums).
pub open spec fn format_ty_spec(t: Ty, names: TypeNames) -> Seq<char>
    decreases ty_measure(t),
{
    match t {
        Ty::Bool => "bool"@,
        Ty::I8 => "i8"@,
        Ty::I16 => "i16"@,
        Ty::I32 => "i32"@,
        Ty::I64 => "i64"@,
        Ty::I128 => "i128"@,
        Ty::U8 => "u8"@,
        Ty::U16 => "u16"@,
        Ty::U32 => "u32"@,
        Ty::U64 => "u64"@,
        Ty::U128 => "u128"@,
        Ty::Rune => "rune"@,
        Ty::F16 => "f16"@,
        Ty::F32 => "f32"@,
        Ty::F64 => "f64"@,
        Ty::F128 => "f128"@,
        Ty::Void => "void"@,
        Ty::String => "string"@,
        Ty::Error => "error"@,
        Ty::List { elem } => {
            proof {
                lemma_elem_ty_measure(elem);
            }
            "list<"@ + format_ty_spec(elem_ty_of(elem), names) + ">"@
        },
        Ty::Hashmap { key, value } => {
            proof {
                lemma_elem_ty_measure(key);
                lemma_elem_ty_measure(value);
            }
            "hashmap<"@ + format_ty_spec(elem_ty_of(key), names) + " "@ + format_ty_spec(
                elem_ty_of(value),
                names,
            ) + ">"@
        },
        Ty::Array { elem, count } => if count == 0 {
            "array<"@ + format_ty_spec(scalar_ty_of(elem), names) + ">"@
        } else {
            "array<"@ + format_ty_spec(scalar_ty_of(elem), names) + " "@ + decimal_spec(count as nat)
                + ">"@
        },
        Ty::Ptr(code) => if code == 0x50 {
            "pointer<_>"@
        } else {
            proof {
                lemma_elem_ty_measure(code as u64);
            }
            "pointer<"@ + format_ty_spec(elem_ty_of(code as u64), names) + ">"@
        },
        Ty::Struct(id) => table_name(names.structs@, id, "struct"@),
        Ty::Union(id) => table_name(names.unions@, id, "union"@),
        Ty::Enum(id) => table_name(names.enums@, id, "enum"@),
    }
}

fn name_or_id(names: &Vec<String>, id: u32, kind: &str) -> (r: String)
    ensures
        r@ == table_name(names@, id, kind@),
{
    if (id as usize) < names.len() {
        names[id as usize].clone()
    } else {
        let mut s = owned(kind);
        push_str(&mut s, "#");
        push_str(&mut s, decimal(id as u64).as_str());
        s
    }
}

fn wrapped(head: &str, inner: String, tail: &str) -> (r: String)
    ensures
        r@ == head@ + inner@ + tail@,
{
    let mut s = owned(head);
    push_str(&mut s, inner.as_str());
    push_str(&mut s, tail);
    s
}

/// Format a type the way users write it.
pub fn format_ty(ty: Ty, names: &TypeNames) -> (r: String)
    ensures
        r@ == format_ty_spec(ty, *names),
    decreases ty_measure(ty),
{
    match ty {
        Ty::Bool => owned("bool"),
        Ty::I8 => owned("i8"),
        Ty::I16 => owned("i16"),
        Ty::I32 => owned("i32"),
        Ty::I64 => owned("i64"),
        Ty::I128 => owned("i128"),
        Ty::U8 => owned("u8"),
        Ty::U16 => owned("u16"),
        Ty::U32 => owned("u32"),
        Ty::U64 => owned("u64"),
        Ty::U128 => owned("u128"),
        Ty::Rune => owned("rune"),
        Ty::F16 => owned("f16"),
        Ty::F32 => owned("f32"),
        Ty::F64 => owned("f64"),
        Ty::F128 => owned("f128"),
        Ty::Void => owned("void"),
        Ty::String => owned("string"),
        Ty::Error => owned("error"),
        Ty::List { elem } => {
            proof {
                lemma_elem_ty_measure(elem);
            }
            wrapped("list<", format_ty(elem_ty(elem), names), ">")
        },
        Ty::Hashmap { key, value } => {
            proof {
                lemma_elem_ty_measure(key);
                lemma_elem_ty_measure(value);
            }
            let k = format_ty(elem_ty(key), names);
            let v = format_ty(elem_ty(value), names);
            let mut s = wrapped("hashmap<", k, " ");
            push_str(&mut s, v.as_str());
            push_str(&mut s, ">");
            s
        },
        Ty::Array { elem, count } => {
            let e = format_ty(scalar_ty(elem), names);
            if count == 0 {
                wrapped("array<", e, ">")
            } else {
                let mut s = wrapped("array<", e, " ");
                push_str(&mut s, decimal(count as u64).as_str());
                push_str(&mut s, ">");
                s
            }
        },
        Ty::Ptr(code) => {
            if code == 0x50 {
                owned("pointer<_>")
            } else {
                proof {
                    lemma_elem_ty_measure(code as u64);
                }
                wrapped("pointer<", format_ty(elem_ty(code as u64), names), ">")
            }
        },
        Ty::Struct(id) => name_or_id(&names.structs, id, "struct"),
        Ty::Union(id) => name_or_id(&names.unions, id, "union"),
        Ty::Enum(id) => name_or_id(&names.enums, id, "enum"),
    }
}

/// Types joined with `, ` inside brackets.
pub open spec fn stack_text(tys: Seq<Ty>, names: TypeNames) -> Seq<char>
    decreases tys.len(),
{
    if tys.len() == 0 {
        Seq::empty()
    } else if tys.len() == 1 {
        format_ty_spec(tys[0], names)
    } else {
        stack_text(tys.drop_last(), names) + ", "@ + format_ty_spec(tys.last(), names)
    }
}

/// A stack of types as `[a, b, c]`.
pub fn format_stack_tys(tys: &Vec<Ty>, names: &TypeNames) -> (r: String)
    ensures
        r@ == "["@ + stack_text(tys@, *names) + "]"@,
{
    let mut inner = String::new();
    let mut i: usize = 0;
    while i < tys.len()
        invariant
            0 <= i <= tys@.len(),
            inner@ == stack_text(tys@.take(i as int), *names),
        decreases tys@.len() - i,
    {
        if i > 0 {
            push_str(&mut inner, ", ");
        }
        push_str(&mut inner, format_ty(tys[i], names).as_str());
        proof {
            let t = tys@.take(i + 1);
            assert(t.drop_last() =~= tys@.take(i as int));
            assert(inner@ =~= stack_text(t, *names));
        }
        i += 1;
    }
    assert(tys@.take(tys@.len() as int) =~= tys@);
    wrapped("[", inner, "]")
}

/// The note `stack: [found…] → expected [wanted…]`.
pub fn stack_effect_note(found: &Vec<Ty>, expected: &Vec<Ty>, names: &TypeNames) -> (r: String)
    ensures
        r@ == "stack: "@ + ("["@ + stack_text(found@, *names) + "]"@) + " → expected "@ + ("["@
            + stack_text(expected@, *names) + "]"@),
{
    let mut s = wrapped("stack: ", format_stack_tys(found, names), " → expected ");
    push_str(&mut s, format_stack_tys(expected, names).as_str());
    s
}

} // verus!
