//! Multi-error collection with an error cap.

use vstd::prelude::*;
use crate::diagnostics::{Diagnostic, Severity};

verus! {

/// Default maximum number of errors reported in one run.
pub const DEFAULT_ERROR_LIMIT: usize = 20;

/// Number of error-severity diagnostics in a sequence.
pub open spec fn error_count_of(items: Seq<Diagnostic>) -> nat
    decreases items.len(),
{
    if items.len() == 0 {
        0
    } else {
        error_count_of(items.drop_last()) + if items.last().severity == Severity::Error {
            1nat
        } else {
            0nat
        }
    }
}

pub proof fn lemma_error_count_push(items: Seq<Diagnostic>, d: Diagnostic)
    ensures
        error_count_of(items.push(d)) == error_count_of(items) + if d.severity == Severity::Error {
            1nat
        } else {
            0nat
        },
{
    assert(items.push(d).drop_last() =~= items);
}

pub proof fn lemma_error_count_le_len(items: Seq<Diagnostic>)
    ensures
        error_count_of(items) <= items.len(),
    decreases items.len(),
{
    if items.len() > 0 {
        lemma_error_count_le_len(items.drop_last());
    }
}

/// Accumulates diagnostics until the error limit is reached. Only
/// error-severity diagnostics count toward (and are capped by) the limit.
#[derive(Debug, Clone)]
pub struct DiagnosticBatch {
    items: Vec<Diagnostic>,
    limit: usize,
}

impl DiagnosticBatch {
    /// The stored diagnostics, in the order they were accepted.
    pub closed spec fn items(&self) -> Seq<Diagnostic> {
        self.items@
    }

    pub closed spec fn spec_limit(&self) -> usize {
        self.limit
    }

    /// The limit is at least 1 and never exceeded by the stored errors.
    pub open spec fn wf(&self) -> bool {
        &&& self.spec_limit() >= 1
        &&& error_count_of(self.items()) <= self.spec_limit()
    }

    pub open spec fn spec_error_count(&self) -> nat {
        error_count_of(self.items())
    }

    pub fn new() -> (r: Self)
        ensures
            r.wf(),
            r.items().len() == 0,
            r.spec_limit() == DEFAULT_ERROR_LIMIT,
    {
        Self::with_limit(DEFAULT_ERROR_LIMIT)
    }

    /// A batch that keeps at most `limit` errors (at least one).
    pub fn with_limit(limit: usize) -> (r: Self)
        ensures
            r.wf(),
            r.items().len() == 0,
            r.spec_limit() == if limit >= 1 { limit } else { 1 },
    {
        DiagnosticBatch { items: Vec::new(), limit: if limit >= 1 { limit } else { 1 } }
    }

    /// A batch that never discards diagnostics.
    pub fn unlimited() -> (r: Self)
        ensures
            r.wf(),
            r.items().len() == 0,
            r.spec_limit() == usize::MAX,
    {
        DiagnosticBatch { items: Vec::new(), limit: usize::MAX }
    }

    /// Record `diag`. Returns `false` (and keeps the batch unchanged) when an
    /// error is discarded because the error limit was already reached;
    /// other severities are always kept.
    pub fn push(&mut self, diag: Diagnostic) -> (accepted: bool)
        requires
            old(self).wf(),
        ensures
            final(self).wf(),
            final(self).spec_limit() == old(self).spec_limit(),
            accepted == !(diag.severity == Severity::Error && old(self).spec_error_count()
                >= old(self).spec_limit()),
            accepted ==> final(self).items() == old(self).items().push(diag),
            !accepted ==> final(self).items() == old(self).items(),
            final(self).items() == push_step(old(self).items(), old(self).spec_limit() as nat, diag),
    {
        let is_error = match diag.severity {
            Severity::Error => true,
            _ => false,
        };
        if is_error && self.error_count() >= self.limit {
            return false;
        }
        proof {
            lemma_error_count_push(self.items@, diag);
        }
        self.items.push(diag);
        true
    }

    pub fn is_empty(&self) -> (r: bool)
        ensures
            r == (self.items().len() == 0),
    {
        self.items.len() == 0
    }

    pub fn len(&self) -> (r: usize)
        ensures
            r == self.items().len(),
    {
        self.items.len()
    }

    pub fn limit(&self) -> (r: usize)
        ensures
            r == self.spec_limit(),
    {
        self.limit
    }

    /// Number of error-severity diagnostics currently stored.
    pub fn error_count(&self) -> (r: usize)
        ensures
            r == self.spec_error_count(),
    {
        let mut n: usize = 0;
        let mut i: usize = 0;
        while i < self.items.len()
            invariant
                0 <= i <= self.items@.len(),
                n == error_count_of(self.items@.subrange(0, i as int)),
                n <= i,
            decreases self.items@.len() - i,
        {
            proof {
                assert(self.items@.subrange(0, i + 1).drop_last() =~= self.items@.subrange(
                    0,
                    i as int,
                ));
            }
            match self.items[i].severity {
                Severity::Error => {
                    n = n + 1;
                },
                _ => {},
            }
            i += 1;
        }
        assert(self.items@.subrange(0, i as int) =~= self.items@);
        n
    }

    pub fn has_errors(&self) -> (r: bool)
        ensures
            r == (self.spec_error_count() > 0),
    {
        self.error_count() > 0
    }

    pub fn is_at_limit(&self) -> (r: bool)
        ensures
            r == (self.spec_error_count() >= self.spec_limit()),
    {
        self.error_count() >= self.limit
    }

    /// The stored diagnostics, borrowed.
    pub fn iter(&self) -> (r: &Vec<Diagnostic>)
        ensures
            r@ == self.items(),
    {
        &self.items
    }

    pub fn into_diagnostics(self) -> (r: Vec<Diagnostic>)
        ensures
            r@ == self.items(),
    {
        self.items
    }

    /// Move the collected items out, leaving an empty batch with the same limit.
    pub fn take(&mut self) -> (r: DiagnosticBatch)
        requires
            old(self).wf(),
        ensures
            r.wf(),
            final(self).wf(),
            r.items() == old(self).items(),
            r.spec_limit() == old(self).spec_limit(),
            final(self).items().len() == 0,
            final(self).spec_limit() == old(self).spec_limit(),
    {
        let mut items: Vec<Diagnostic> = Vec::new();
        std::mem::swap(&mut items, &mut self.items);
        DiagnosticBatch { items, limit: self.limit }
    }

    /// A default-limit batch holding `diag` (an error is always accepted into an empty batch).
    pub fn from_diagnostic(diag: Diagnostic) -> (r: DiagnosticBatch)
        ensures
            r.wf(),
            r.items() == seq![diag],
            r.spec_limit() == DEFAULT_ERROR_LIMIT,
    {
        let mut b = Self::new();
        let _ = b.push(diag);
        assert(b.items() =~= seq![diag]);
        b
    }

    /// A default-limit batch filled from `diags` in order, stopping at the
    /// first error that finds the batch at its limit.
    pub fn from_diagnostics(diags: Vec<Diagnostic>) -> (r: DiagnosticBatch)
        ensures
            r.wf(),
            r.spec_limit() == DEFAULT_ERROR_LIMIT,
            r.items() == collect_from(diags@, 0, DEFAULT_ERROR_LIMIT as nat),
    {
        let mut b = Self::new();
        let mut rest = diags;
        while rest.len() > 0
            invariant
                b.wf(),
                b.spec_limit() == DEFAULT_ERROR_LIMIT,
                collect_from(diags@, 0, DEFAULT_ERROR_LIMIT as nat) == b.items() + collect_from(
                    rest@,
                    b.spec_error_count(),
                    DEFAULT_ERROR_LIMIT as nat,
                ),
            decreases rest@.len(),
        {
            let ghost before = rest@;
            let d = rest.remove(0);
            assert(before.drop_first() =~= rest@);
            let is_error = match d.severity {
                Severity::Error => true,
                _ => false,
            };
            if is_error && b.is_at_limit() {
                assert(b.items() + seq![] =~= b.items());
                return b;
            }
            let ghost old_items = b.items();
            let ghost old_count = b.spec_error_count();
            let _ = b.push(d);
            proof {
                lemma_error_count_push(old_items, d);
                assert(old_items.push(d) + collect_from(rest@, b.spec_error_count(), DEFAULT_ERROR_LIMIT as nat)
                    =~= old_items + (seq![d] + collect_from(rest@, b.spec_error_count(), DEFAULT_ERROR_LIMIT as nat)));
            }
        }
        assert(b.items() + seq![] =~= b.items());
        b
    }
}

/// What a batch keeps of `ds` when it already holds `count` errors: items in
/// order up to the first error that arrives with the count at the limit.
pub open spec fn collect_from(ds: Seq<Diagnostic>, count: nat, limit: nat) -> Seq<Diagnostic>
    decreases ds.len(),
{
    if ds.len() == 0 {
        seq![]
    } else if ds[0].severity == Severity::Error && count >= limit {
        seq![]
    } else {
        seq![ds[0]] + collect_from(
            ds.drop_first(),
            count + if ds[0].severity == Severity::Error { 1nat } else { 0nat },
            limit,
        )
    }
}

/// What a batch holding `items` holds after `push(d)` with error limit `limit`.
pub open spec fn push_step(items: Seq<Diagnostic>, limit: nat, d: Diagnostic) -> Seq<Diagnostic> {
    if d.severity == Severity::Error && error_count_of(items) >= limit {
        items
    } else {
        items.push(d)
    }
}

/// What a batch holding `items` holds after pushing each of `ds`, in order.
pub open spec fn after_pushes(items: Seq<Diagnostic>, limit: nat, ds: Seq<Diagnostic>) -> Seq<Diagnostic>
    decreases ds.len(),
{
    if ds.len() == 0 {
        items
    } else {
        after_pushes(push_step(items, limit, ds[0]), limit, ds.drop_first())
    }
}

/// The diagnostics of `ds` that a push accepts when they are pushed in order
/// into an empty batch: every non-error, and each error that finds fewer
/// than `limit` errors before it in `ds`; in their order in `ds`.
pub open spec fn accepted_of(ds: Seq<Diagnostic>, limit: nat) -> Seq<Diagnostic>
    decreases ds.len(),
{
    if ds.len() == 0 {
        Seq::empty()
    } else {
        let d = ds.last();
        if d.severity == Severity::Error && error_count_of(ds.drop_last()) >= limit {
            accepted_of(ds.drop_last(), limit)
        } else {
            accepted_of(ds.drop_last(), limit).push(d)
        }
    }
}

proof fn lemma_accepted_error_count(ds: Seq<Diagnostic>, limit: nat)
    ensures
        error_count_of(accepted_of(ds, limit)) == if error_count_of(ds) < limit {
            error_count_of(ds)
        } else {
            limit
        },
    decreases ds.len(),
{
    if ds.len() > 0 {
        lemma_accepted_error_count(ds.drop_last(), limit);
        lemma_error_count_push(accepted_of(ds.drop_last(), limit), ds.last());
        assert(ds.drop_last().push(ds.last()) =~= ds);
        lemma_error_count_push(ds.drop_last(), ds.last());
    }
}

proof fn lemma_after_pushes_from(pre: Seq<Diagnostic>, rest: Seq<Diagnostic>, limit: nat)
    ensures
        after_pushes(accepted_of(pre, limit), limit, rest) == accepted_of(pre + rest, limit),
    decreases rest.len(),
{
    if rest.len() == 0 {
        assert(pre + rest =~= pre);
    } else {
        let d = rest[0];
        let next = pre.push(d);
        lemma_accepted_error_count(pre, limit);
        assert(next.drop_last() =~= pre);
        assert(push_step(accepted_of(pre, limit), limit, d) == accepted_of(next, limit));
        lemma_after_pushes_from(next, rest.drop_first(), limit);
        assert(next + rest.drop_first() =~= pre + rest);
    }
}

/// Pushing diagnostics one by one into an empty batch, and then taking them
/// out with `into_diagnostics` (or reading them with `iter`), gives back
/// exactly the diagnostics whose push returned `true`, in push order: every
/// non-error, and the errors that arrived before the limit was reached.
pub proof fn lemma_batch_keeps_accepted_pushes(ds: Seq<Diagnostic>, limit: nat)
    ensures
        after_pushes(Seq::empty(), limit, ds) == accepted_of(ds, limit),
        forall|i: int|
            #![trigger ds[i]]
            0 <= i < ds.len() ==> (ds[i].severity != Severity::Error || error_count_of(ds.take(i)) < limit)
                == (accepted_of(ds.take(i + 1), limit).len() == accepted_of(ds.take(i), limit).len() + 1),
{
    assert(accepted_of(Seq::<Diagnostic>::empty(), limit) =~= Seq::<Diagnostic>::empty());
    lemma_after_pushes_from(Seq::empty(), ds, limit);
    assert(Seq::<Diagnostic>::empty() + ds =~= ds);
    assert forall|i: int|
        #![trigger ds[i]]
        0 <= i < ds.len() implies (ds[i].severity != Severity::Error || error_count_of(ds.take(i)) < limit)
        == (accepted_of(ds.take(i + 1), limit).len() == accepted_of(ds.take(i), limit).len() + 1) by {
        assert(ds.take(i + 1).drop_last() =~= ds.take(i));
        assert(ds.take(i + 1).last() == ds[i]);
    }
}

/// An unlimited batch never discards a diagnostic: pushing `ds` one by one
/// into an empty batch whose limit is `usize::MAX` keeps every one of them,
/// errors included, in order (while fewer than `usize::MAX` errors are
/// pushed), and every push returns `true`.
pub proof fn lemma_unlimited_keeps_every_push(ds: Seq<Diagnostic>)
    requires
        error_count_of(ds) < usize::MAX,
    ensures
        after_pushes(Seq::empty(), usize::MAX as nat, ds) == ds,
        forall|i: int| 0 <= i < ds.len() ==> !(#[trigger] ds[i].severity == Severity::Error && error_count_of(ds.take(i))
            >= usize::MAX),
    decreases ds.len(),
{
    lemma_unlimited_accepts_all(ds);
    lemma_batch_keeps_accepted_pushes(ds, usize::MAX as nat);
    assert forall|i: int| 0 <= i < ds.len() implies !(#[trigger] ds[i].severity == Severity::Error && error_count_of(
        ds.take(i),
    ) >= usize::MAX) by {
        lemma_error_count_prefix(ds, i);
    }
}

proof fn lemma_error_count_prefix(ds: Seq<Diagnostic>, i: int)
    requires
        0 <= i <= ds.len(),
    ensures
        error_count_of(ds.take(i)) <= error_count_of(ds),
    decreases ds.len() - i,
{
    if i < ds.len() {
        lemma_error_count_prefix(ds, i + 1);
        assert(ds.take(i + 1).drop_last() =~= ds.take(i));
    } else {
        assert(ds.take(i) =~= ds);
    }
}

proof fn lemma_unlimited_accepts_all(ds: Seq<Diagnostic>)
    requires
        error_count_of(ds) < usize::MAX,
    ensures
        accepted_of(ds, usize::MAX as nat) == ds,
    decreases ds.len(),
{
    if ds.len() > 0 {
        lemma_unlimited_accepts_all(ds.drop_last());
        assert(ds.drop_last().push(ds.last()) =~= ds);
    }
}

} // verus!
