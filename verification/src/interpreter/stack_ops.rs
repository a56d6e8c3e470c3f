//! The stack shuffles `swap`, `rot` and `unrot` on the interpreter's operand
//! stack, whatever its slots hold.

use vstd::prelude::*;
use crate::diagnostics::Span;
use crate::parser::ast::StackOp;
use crate::text::owned;
use super::InterpretError;

verus! {

/// How many values a shuffle needs on the stack.
pub open spec fn shuffle_depth(op: StackOp) -> nat {
    match op {
        StackOp::Swap => 2,
        _ => 3,
    }
}

/// The stack after a shuffle: `swap` exchanges the top two values, `rot`
/// brings the third from the top up (`a b c` to `b c a`), `unrot` sends the
/// top down to third place (`a b c` to `c a b`).
pub open spec fn shuffled<T>(op: StackOp, s: Seq<T>) -> Seq<T> {
    let n = s.len() as int;
    match op {
        StackOp::Swap => s.take(n - 2) + seq![s[n - 1], s[n - 2]],
        StackOp::Rot => s.take(n - 3) + seq![s[n - 2], s[n - 1], s[n - 3]],
        _ => s.take(n - 3) + seq![s[n - 1], s[n - 3], s[n - 2]],
    }
}

/// The error message of a shuffle on too short a stack.
pub open spec fn shuffle_message(op: StackOp) -> Seq<char> {
    match op {
        StackOp::Swap => "swap requires 2 values"@,
        StackOp::Rot => "rot requires 3 values"@,
        _ => "unrot requires 3 values"@,
    }
}

/// Apply `swap`, `rot` or `unrot` to the top of `stack`. On too short a stack
/// it fails with `E362` and leaves the stack as it was.
pub fn shuffle_stack<T>(op: StackOp, stack: &mut Vec<T>, span: Span) -> (r: Result<(), InterpretError>)
    requires
        op == StackOp::Swap || op == StackOp::Rot || op == StackOp::Unrot,
    ensures
        r is Err <==> old(stack)@.len() < shuffle_depth(op),
        r is Ok ==> final(stack)@ == shuffled(op, old(stack)@),
        r is Err ==> final(stack)@ == old(stack)@,
        r matches Err(e) ==> e.message@ == shuffle_message(op) && e.code@ == "E362"@ && e.span
            == span,
{
    let ghost s = stack@;
    let ghost n = s.len() as int;
    match op {
        StackOp::Swap => {
            if stack.len() < 2 {
                return Err(InterpretError::new(owned("swap requires 2 values"), span, owned("E362")));
            }
            let top = stack.pop().unwrap();
            let second = stack.pop().unwrap();
            stack.push(top);
            stack.push(second);
            assert(stack@ =~= shuffled(op, s));
        },
        StackOp::Rot => {
            if stack.len() < 3 {
                return Err(InterpretError::new(owned("rot requires 3 values"), span, owned("E362")));
            }
            let c = stack.pop().unwrap();
            let b = stack.pop().unwrap();
            let a = stack.pop().unwrap();
            stack.push(b);
            stack.push(c);
            stack.push(a);
            assert(stack@ =~= shuffled(op, s));
        },
        _ => {
            if stack.len() < 3 {
                return Err(
                    InterpretError::new(owned("unrot requires 3 values"), span, owned("E362")),
                );
            }
            let c = stack.pop().unwrap();
            let b = stack.pop().unwrap();
            let a = stack.pop().unwrap();
            stack.push(c);
            stack.push(a);
            stack.push(b);
            assert(stack@ =~= shuffled(op, s));
        },
    }
    Ok(())
}

/// `unrot` undoes `rot` and `rot` undoes `unrot`.
pub proof fn lemma_unrot_undoes_rot<T>(s: Seq<T>)
    requires
        s.len() >= 3,
    ensures
        shuffled(StackOp::Unrot, shuffled(StackOp::Rot, s)) == s,
        shuffled(StackOp::Rot, shuffled(StackOp::Unrot, s)) == s,
{
    let n = s.len() as int;
    assert(shuffled(StackOp::Unrot, shuffled(StackOp::Rot, s)) =~= s);
    assert(shuffled(StackOp::Rot, shuffled(StackOp::Unrot, s)) =~= s);
}

/// `swap` twice leaves the stack as it was.
pub proof fn lemma_swap_twice<T>(s: Seq<T>)
    requires
        s.len() >= 2,
    ensures
        shuffled(StackOp::Swap, shuffled(StackOp::Swap, s)) == s,
{
    assert(shuffled(StackOp::Swap, shuffled(StackOp::Swap, s)) =~= s);
}

/// Three `rot`s leave the stack as it was.
pub proof fn lemma_rot_thrice<T>(s: Seq<T>)
    requires
        s.len() >= 3,
    ensures
        shuffled(StackOp::Rot, shuffled(StackOp::Rot, shuffled(StackOp::Rot, s))) == s,
{
    assert(shuffled(StackOp::Rot, shuffled(StackOp::Rot, shuffled(StackOp::Rot, s))) =~= s);
}

/// A shuffle moves values and neither adds nor drops any: the stack keeps
/// its height and its values, and everything under the top stays in place.
pub proof fn lemma_shuffle_keeps_values<T>(op: StackOp, s: Seq<T>)
    requires
        op == StackOp::Swap || op == StackOp::Rot || op == StackOp::Unrot,
        s.len() >= shuffle_depth(op),
    ensures
        shuffled(op, s).len() == s.len(),
        forall|i: int| 0 <= i < s.len() - shuffle_depth(op) ==> shuffled(op, s)[i] == s[i],
        shuffled(op, s).to_multiset() == s.to_multiset(),
{
    broadcast use vstd::seq_lib::group_to_multiset_ensures;

    let n = s.len() as int;
    let t = shuffled(op, s);
    if op == StackOp::Swap {
        let p = s.take(n - 2);
        assert(s =~= p.push(s[n - 2]).push(s[n - 1]));
        assert(t =~= p.push(s[n - 1]).push(s[n - 2]));
        assert(t.to_multiset() =~= s.to_multiset());
    } else {
        let p = s.take(n - 3);
        assert(s =~= p.push(s[n - 3]).push(s[n - 2]).push(s[n - 1]));
        if op == StackOp::Rot {
            assert(t =~= p.push(s[n - 2]).push(s[n - 1]).push(s[n - 3]));
        } else {
            assert(t =~= p.push(s[n - 1]).push(s[n - 3]).push(s[n - 2]));
        }
        assert(t.to_multiset() =~= s.to_multiset());
    }
}

} // verus!
