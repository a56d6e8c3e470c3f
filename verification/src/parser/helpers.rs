//! Operand-stack helpers of the parser.

use vstd::prelude::*;
use crate::diagnostics::span::{span_at, span_merge};
use crate::diagnostics::Span;
use crate::token::TokenKind;
use super::ast::{BinOp, Expr, Stmt, StmtKind};

verus! {

/// Whether `k` is one of `stops`.
pub fn kind_in(stops: &[TokenKind], k: TokenKind) -> (r: bool)
    ensures
        r == stops@.contains(k),
{
    let mut i: usize = 0;
    while i < stops.len()
        invariant
            0 <= i <= stops@.len(),
            forall|j: int| 0 <= j < i ==> stops@[j] != k,
        decreases stops@.len() - i,
    {
        if stops[i] == k {
            assert(stops@[i as int] == k);
            return true;
        }
        i += 1;
    }
    false
}

/// Whether an operand-stack entry is a value an operator can consume at
/// parse time (as opposed to a runtime stack operation).
pub open spec fn is_value_spec(e: Expr) -> bool {
    match e {
        Expr::Integer { .. } | Expr::Float { .. } | Expr::String { .. } | Expr::Rune { .. }
        | Expr::Bool { .. } | Expr::Variable { .. } | Expr::Member { .. } | Expr::TypeValue { .. }
        | Expr::Binary { .. } | Expr::Unary { .. } | Expr::Call { .. } | Expr::Typeof { .. }
        | Expr::Borrow { .. } | Expr::Array(_) | Expr::List(_) | Expr::MapLiteral(_)
        | Expr::Sequence(_) => true,
        _ => false,
    }
}

pub fn is_value(e: &Expr) -> (r: bool)
    ensures
        r == is_value_spec(*e),
{
    match e {
        Expr::Integer { .. } | Expr::Float { .. } | Expr::String { .. } | Expr::Rune { .. }
        | Expr::Bool { .. } | Expr::Variable { .. } | Expr::Member { .. } | Expr::TypeValue { .. }
        | Expr::Binary { .. } | Expr::Unary { .. } | Expr::Call { .. } | Expr::Typeof { .. }
        | Expr::Borrow { .. } | Expr::Array(_) | Expr::List(_) | Expr::MapLiteral(_)
        | Expr::Sequence(_) => true,
        _ => false,
    }
}

/// The binary operator a token denotes.
pub open spec fn binary_op_spec(kind: TokenKind) -> Option<BinOp> {
    match kind {
        TokenKind::Plus => Some(BinOp::Plus),
        TokenKind::Minus => Some(BinOp::Minus),
        TokenKind::Asterisk => Some(BinOp::Mul),
        TokenKind::Slash => Some(BinOp::Div),
        TokenKind::SlashSlash => Some(BinOp::Fdiv),
        TokenKind::Percent => Some(BinOp::Mod),
        TokenKind::Caret => Some(BinOp::Pow),
        TokenKind::Tilde => Some(BinOp::Concat),
        TokenKind::EqualEqual => Some(BinOp::Eq),
        TokenKind::NotEqual => Some(BinOp::Ne),
        TokenKind::Greater => Some(BinOp::Gt),
        TokenKind::GreaterEqual => Some(BinOp::Gte),
        TokenKind::Less => Some(BinOp::Lt),
        TokenKind::LessEqual => Some(BinOp::Lte),
        TokenKind::And => Some(BinOp::And),
        TokenKind::Or => Some(BinOp::Or),
        TokenKind::Xor => Some(BinOp::Xor),
        TokenKind::LeftShift => Some(BinOp::Lshift),
        TokenKind::RightShift => Some(BinOp::Rshift),
        _ => None,
    }
}

pub fn binary_op(kind: TokenKind) -> (r: Option<BinOp>)
    ensures
        r == binary_op_spec(kind),
{
    match kind {
        TokenKind::Plus => Some(BinOp::Plus),
        TokenKind::Minus => Some(BinOp::Minus),
        TokenKind::Asterisk => Some(BinOp::Mul),
        TokenKind::Slash => Some(BinOp::Div),
        TokenKind::SlashSlash => Some(BinOp::Fdiv),
        TokenKind::Percent => Some(BinOp::Mod),
        TokenKind::Caret => Some(BinOp::Pow),
        TokenKind::Tilde => Some(BinOp::Concat),
        TokenKind::EqualEqual => Some(BinOp::Eq),
        TokenKind::NotEqual => Some(BinOp::Ne),
        TokenKind::Greater => Some(BinOp::Gt),
        TokenKind::GreaterEqual => Some(BinOp::Gte),
        TokenKind::Less => Some(BinOp::Lt),
        TokenKind::LessEqual => Some(BinOp::Lte),
        TokenKind::And => Some(BinOp::And),
        TokenKind::Or => Some(BinOp::Or),
        TokenKind::Xor => Some(BinOp::Xor),
        TokenKind::LeftShift => Some(BinOp::Lshift),
        TokenKind::RightShift => Some(BinOp::Rshift),
        _ => None,
    }
}

/// Left-to-right merge of a non-empty sequence of spans.
pub open spec fn merge_all(spans: Seq<Span>) -> Span
    decreases spans.len(),
{
    if spans.len() <= 1 {
        if spans.len() == 1 { spans[0] } else { span_at(0, 0, 1, 1) }
    } else {
        span_merge(merge_all(spans.drop_last()), spans.last())
    }
}

/// Pairs of operand-stack entries and their spans.
pub open spec fn zip_spec(es: Seq<Expr>, ss: Seq<Span>) -> Seq<(Expr, Span)> {
    Seq::new(es.len(), |i: int| (es[i], ss[i]))
}

/// What draining the operand stack yields: nothing, the single entry, or a
/// `Sequence` of all entries with the merged span.
pub open spec fn drain_result(es: Seq<Expr>, ss: Seq<Span>, r: Option<(Expr, Span)>) -> bool {
    if es.len() == 0 {
        r is None
    } else if es.len() == 1 {
        r == Some((es[0], ss[0]))
    } else {
        r matches Some((Expr::Sequence(v), s)) && v@ == zip_spec(es, ss) && s == merge_all(ss)
    }
}

/// Drain the operand stack (and its spans) into one expression and span.
pub fn drain_ops(ops: &mut Vec<Expr>, op_spans: &mut Vec<Span>) -> (r: Option<(Expr, Span)>)
    requires
        old(ops)@.len() == old(op_spans)@.len(),
    ensures
        final(ops)@.len() == 0,
        final(op_spans)@.len() == 0,
        drain_result(old(ops)@, old(op_spans)@, r),
{
    let n = ops.len();
    if n == 0 {
        op_spans.clear();
        return None;
    }
    if n == 1 {
        let e = ops.pop().unwrap();
        let s = op_spans.pop().unwrap();
        op_spans.clear();
        return Some((e, s));
    }
    let ghost es = ops@;
    let ghost ss = op_spans@;
    let mut merged = op_spans[0];
    let mut i: usize = 1;
    while i < n
        invariant
            1 <= i <= n,
            n == op_spans@.len(),
            op_spans@ == ss,
            merged == merge_all(ss.take(i as int)),
        decreases n - i,
    {
        proof {
            assert(ss.take(i + 1).drop_last() =~= ss.take(i as int));
        }
        merged = merged.merge(op_spans[i]);
        i += 1;
    }
    assert(ss.take(n as int) =~= ss);
    let mut pairs: Vec<(Expr, Span)> = Vec::new();
    let mut k = n;
    while k > 0
        invariant
            0 <= k <= n,
            ops@ == es.take(k as int),
            op_spans@ == ss.take(k as int),
            es.len() == n,
            ss.len() == n,
            pairs@ == zip_spec(es, ss).skip(k as int),
        decreases k,
    {
        let e = ops.pop().unwrap();
        let s = op_spans.pop().unwrap();
        pairs.insert(0, (e, s));
        proof {
            assert(pairs@ =~= zip_spec(es, ss).skip(k - 1));
        }
        k -= 1;
    }
    assert(pairs@ =~= zip_spec(es, ss));
    Some((Expr::Sequence(pairs), merged))
}

/// Whether an entry can be the target of `set`.
pub open spec fn is_target(e: Expr) -> bool {
    e is Variable || e is Member
}

/// Index of the first settable entry.
pub open spec fn first_target(es: Seq<Expr>) -> Option<int>
    decreases es.len(),
{
    if es.len() == 0 {
        None
    } else if is_target(es[0]) {
        Some(0)
    } else {
        match first_target(es.drop_first()) {
            Some(i) => Some(i + 1),
            None => None,
        }
    }
}

/// When the top entry is not a target, `pop_target` finds one iff `first_target` does.
pub proof fn lemma_first_target_last(es: Seq<Expr>)
    ensures
        es.len() > 0 && is_target(es.last()) ==> first_target(es) is Some,
{
    lemma_first_target(es);
}

proof fn lemma_first_target(es: Seq<Expr>)
    ensures
        match first_target(es) {
            Some(i) => 0 <= i < es.len() && is_target(es[i]) && forall|j: int|
                0 <= j < i ==> !is_target(#[trigger] es[j]),
            None => forall|j: int| 0 <= j < es.len() ==> !is_target(#[trigger] es[j]),
        },
    decreases es.len(),
{
    if es.len() > 0 {
        lemma_first_target(es.drop_first());
        assert forall|j: int| 1 <= j < es.len() implies es[j] == es.drop_first()[j - 1] by {}
    }
}

/// Pop the target of `set`: the top entry when it is a variable or field,
/// otherwise the first variable / field anywhere on the stack.
pub fn pop_target(ops: &mut Vec<Expr>, op_spans: &mut Vec<Span>) -> (r: Option<(Expr, Span)>)
    requires
        old(ops)@.len() == old(op_spans)@.len(),
    ensures
        final(ops)@.len() == final(op_spans)@.len(),
        old(ops)@.len() > 0 && is_target(old(ops)@.last()) ==> {
            &&& r == Some((old(ops)@.last(), old(op_spans)@.last()))
            &&& final(ops)@ == old(ops)@.drop_last()
            &&& final(op_spans)@ == old(op_spans)@.drop_last()
        },
        !(old(ops)@.len() > 0 && is_target(old(ops)@.last())) ==> match first_target(old(ops)@) {
            Some(i) => {
                &&& r == Some((old(ops)@[i], old(op_spans)@[i]))
                &&& final(ops)@ == old(ops)@.remove(i)
                &&& final(op_spans)@ == old(op_spans)@.remove(i)
            },
            None => r is None && final(ops)@ == old(ops)@ && final(op_spans)@ == old(op_spans)@,
        },
{
    proof {
        lemma_first_target(ops@);
    }
    let n = ops.len();
    if n == 0 {
        return None;
    }
    let last_is_target = match &ops[n - 1] {
        Expr::Variable { .. } | Expr::Member { .. } => true,
        _ => false,
    };
    if last_is_target {
        let ghost oo = ops@;
        let ghost os = op_spans@;
        let e = ops.pop().unwrap();
        let s = op_spans.pop().unwrap();
        assert(e == oo.last() && s == os.last());
        assert(ops@ =~= oo.drop_last());
        assert(op_spans@ =~= os.drop_last());
        return Some((e, s));
    }
    assert(!is_target(ops@.last()));
    let mut i: usize = 0;
    while i < n
        invariant
            0 <= i <= n,
            n == ops@.len(),
            ops@ == old(ops)@,
            op_spans@ == old(op_spans)@,
            ops@.len() == op_spans@.len(),
            !is_target(old(ops)@.last()),
            forall|j: int| 0 <= j < i ==> !is_target(#[trigger] ops@[j]),
            match first_target(ops@) {
                Some(k) => 0 <= k < ops@.len() && is_target(ops@[k]) && forall|j: int|
                    0 <= j < k ==> !is_target(#[trigger] ops@[j]),
                None => forall|j: int| 0 <= j < ops@.len() ==> !is_target(#[trigger] ops@[j]),
            },
        decreases n - i,
    {
        let hit = match &ops[i] {
            Expr::Variable { .. } | Expr::Member { .. } => true,
            _ => false,
        };
        if hit {
            assert(is_target(ops@[i as int]));
            let e = ops.remove(i);
            let s = op_spans.remove(i);
            return Some((e, s));
        }
        i += 1;
    }
    None
}

/// The fallback value a `handle` body supplies: the first `fallback` that carries a value.
pub open spec fn fallback_of(body: Seq<Stmt>) -> Option<Expr>
    decreases body.len(),
{
    if body.len() == 0 {
        None
    } else {
        match body[0].kind {
            StmtKind::Fallback { value: Some(v) } => Some(v),
            _ => fallback_of(body.drop_first()),
        }
    }
}

/// The statements of a `handle` body other than `fallback`.
pub open spec fn without_fallback(body: Seq<Stmt>) -> Seq<Stmt>
    decreases body.len(),
{
    if body.len() == 0 {
        seq![]
    } else if body[0].kind is Fallback {
        without_fallback(body.drop_first())
    } else {
        seq![body[0]] + without_fallback(body.drop_first())
    }
}

/// Pull the `fallback` statements out of a `handle` body.
pub fn extract_fallback(body: Vec<Stmt>) -> (r: (Vec<Stmt>, Option<Expr>))
    ensures
        r.0@ == without_fallback(body@),
        r.1 == fallback_of(body@),
{
    let mut rest = body;
    let mut stmts: Vec<Stmt> = Vec::new();
    let mut fallback: Option<Expr> = None;
    while rest.len() > 0
        invariant
            without_fallback(body@) == stmts@ + without_fallback(rest@),
            fallback_of(body@) == match fallback {
                Some(v) => Some(v),
                None => fallback_of(rest@),
            },
        decreases rest@.len(),
    {
        let ghost before = rest@;
        let stmt = rest.remove(0);
        assert(before.drop_first() =~= rest@);
        assert(before[0] == stmt);
        match stmt.kind {
            StmtKind::Fallback { value } => {
                if fallback.is_none() {
                    fallback = value;
                }
            },
            other => {
                let s = Stmt { kind: other, span: stmt.span };
                assert(s == stmt);
                stmts.push(s);
                proof {
                    assert(stmts@ + without_fallback(rest@) =~= stmts@.drop_last() + (seq![s]
                        + without_fallback(rest@)));
                }
            },
        }
    }
    assert(stmts@ + seq![] =~= stmts@);
    (stmts, fallback)
}

} // verus!
