//! Typed-at-span and definition / require probes after a successful check.
//!
//! Collected during lowering without re-running analysis; used by the
//! session's checked program and by editor hover / goto-definition.

use vstd::prelude::*;
use crate::diagnostics::Span;

verus! {

/// Binding or function info at a byte offset in the checked root file.
#[derive(Debug)]
pub struct TypeProbe {
    /// Binding or function name.
    pub name: String,
    /// Tightest span for this site (usually the identifier).
    pub span: Span,
    /// Resolved type string (`i32`, `list<i32>`, …) when this is a binding.
    pub ty: Option<String>,
    /// Function / method signature (and stack-effect summary) when applicable.
    pub signature: Option<String>,
}

/// The character view of an optional string.
pub open spec fn opt_chars(s: Option<String>) -> Option<Seq<char>> {
    match s {
        Some(t) => Some(t@),
        None => None,
    }
}

fn copy_opt(s: &Option<String>) -> (r: Option<String>)
    ensures
        opt_chars(r) == opt_chars(*s),
{
    match s {
        Some(t) => Some(t.clone()),
        None => None,
    }
}

impl TypeProbe {
    /// Same name, span, type and signature text.
    pub open spec fn same_as(self, other: TypeProbe) -> bool {
        &&& self.name@ == other.name@
        &&& self.span == other.span
        &&& opt_chars(self.ty) == opt_chars(other.ty)
        &&& opt_chars(self.signature) == opt_chars(other.signature)
    }

    fn duplicate(&self) -> (r: TypeProbe)
        ensures
            r.same_as(*self),
    {
        TypeProbe {
            name: self.name.clone(),
            span: self.span,
            ty: copy_opt(&self.ty),
            signature: copy_opt(&self.signature),
        }
    }
}

/// `offset` lies inside the half-open span.
pub open spec fn covers(s: Span, offset: usize) -> bool {
    s.lo <= offset && offset < s.hi
}

/// Length of a span (`Span::len`).
pub open spec fn span_width(s: Span) -> int {
    if s.hi >= s.lo {
        s.hi - s.lo
    } else {
        0
    }
}

/// Index of the innermost span covering `offset`: the shortest one, and the
/// first among equally short ones.
pub open spec fn innermost(spans: Seq<Span>, offset: usize) -> Option<int>
    decreases spans.len(),
{
    if spans.len() == 0 {
        None
    } else {
        let prev = innermost(spans.drop_last(), offset);
        let i = spans.len() - 1;
        if covers(spans[i], offset) && (prev is None || span_width(spans[i]) < span_width(
            spans[prev->0],
        )) {
            Some(i)
        } else {
            prev
        }
    }
}

/// The innermost site covers the offset, no covering site is shorter, and no
/// earlier covering site is as short; with no covering site there is none.
pub proof fn lemma_innermost(spans: Seq<Span>, offset: usize)
    ensures
        match innermost(spans, offset) {
            Some(k) => {
                &&& 0 <= k < spans.len()
                &&& covers(spans[k], offset)
                &&& forall|j: int|
                    0 <= j < spans.len() && covers(#[trigger] spans[j], offset) ==> span_width(
                        spans[k],
                    ) <= span_width(spans[j])
                &&& forall|j: int|
                    0 <= j < k && covers(#[trigger] spans[j], offset) ==> span_width(spans[k])
                        < span_width(spans[j])
            },
            None => forall|j: int| 0 <= j < spans.len() ==> !covers(#[trigger] spans[j], offset),
        },
    decreases spans.len(),
{
    if spans.len() > 0 {
        let init = spans.drop_last();
        let i = spans.len() - 1;
        lemma_innermost(init, offset);
        assert forall|j: int| 0 <= j < init.len() implies #[trigger] init[j] == spans[j] by {}
        let prev = innermost(init, offset);
        match innermost(spans, offset) {
            Some(k) => {
                assert forall|j: int|
                    0 <= j < spans.len() && covers(#[trigger] spans[j], offset) implies span_width(
                    spans[k],
                ) <= span_width(spans[j]) by {
                    if j < i {
                        assert(covers(init[j], offset));
                    }
                }
                assert forall|j: int| 0 <= j < k && covers(#[trigger] spans[j], offset) implies span_width(
                    spans[k],
                ) < span_width(spans[j]) by {
                    assert(covers(init[j], offset));
                }
            },
            None => {
                assert forall|j: int| 0 <= j < spans.len() implies !covers(#[trigger] spans[j], offset) by {
                    if j < i {
                        assert(!covers(init[j], offset));
                    }
                }
            },
        }
    }
}

/// Index of typed sites in the root file, built while checking.
#[derive(Debug)]
pub struct TypeIndex {
    sites: Vec<TypeProbe>,
}

impl TypeIndex {
    /// The recorded sites, in the order they were pushed.
    pub closed spec fn sites(&self) -> Seq<TypeProbe> {
        self.sites@
    }

    pub open spec fn site_spans(&self) -> Seq<Span> {
        self.sites().map_values(|s: TypeProbe| s.span)
    }

    pub fn new() -> (r: Self)
        ensures
            r.sites().len() == 0,
    {
        TypeIndex { sites: Vec::new() }
    }

    pub fn clear(&mut self)
        ensures
            final(self).sites().len() == 0,
    {
        self.sites.clear();
    }

    /// Record a binding and its resolved type at `span`.
    pub fn push_binding(&mut self, span: Span, name: String, ty: String)
        ensures
            final(self).sites().len() == old(self).sites().len() + 1,
            final(self).sites().drop_last() == old(self).sites(),
            final(self).sites().last().name@ == name@,
            final(self).sites().last().span == span,
            opt_chars(final(self).sites().last().ty) == Some(ty@),
            final(self).sites().last().signature is None,
    {
        self.sites.push(TypeProbe { name, span, ty: Some(ty), signature: None });
        proof {
            assert(self.sites().drop_last() =~= old(self).sites());
        }
    }

    /// Record a function and its signature at `span`.
    pub fn push_signature(&mut self, span: Span, name: String, signature: String)
        ensures
            final(self).sites().len() == old(self).sites().len() + 1,
            final(self).sites().drop_last() == old(self).sites(),
            final(self).sites().last().name@ == name@,
            final(self).sites().last().span == span,
            final(self).sites().last().ty is None,
            opt_chars(final(self).sites().last().signature) == Some(signature@),
    {
        self.sites.push(TypeProbe { name, span, ty: None, signature: Some(signature) });
        proof {
            assert(self.sites().drop_last() =~= old(self).sites());
        }
    }

    /// Innermost site whose span contains `offset`, or `None` on a miss.
    pub fn type_at(&self, offset: usize) -> (r: Option<TypeProbe>)
        ensures
            match innermost(self.site_spans(), offset) {
                Some(k) => r matches Some(p) && p.same_as(self.sites()[k]),
                None => r is None,
            },
    {
        let ghost spans = self.site_spans();
        let mut best: Option<usize> = None;
        let mut i: usize = 0;
        while i < self.sites.len()
            invariant
                0 <= i <= self.sites@.len(),
                spans == self.site_spans(),
                spans.len() == self.sites@.len(),
                match innermost(spans.take(i as int), offset) {
                    Some(k) => best == Some(k as usize),
                    None => best is None,
                },
            decreases self.sites@.len() - i,
        {
            proof {
                assert(spans.take(i + 1).drop_last() =~= spans.take(i as int));
                assert(spans.take(i + 1)[i as int] == self.sites@[i as int].span);
                if let Some(k) = best {
                    lemma_innermost(spans.take(i as int), offset);
                    assert(spans.take(i + 1)[k as int] == self.sites@[k as int].span);
                }
            }
            let s = self.sites[i].span;
            if s.lo <= offset && offset < s.hi {
                match best {
                    None => {
                        best = Some(i);
                    },
                    Some(k) => {
                        if s.len() < self.sites[k].span.len() {
                            best = Some(i);
                        }
                    },
                }
            }
            i += 1;
        }
        proof {
            assert(spans.take(i as int) =~= spans);
            if let Some(k) = best {
                lemma_innermost(spans, offset);
            }
        }
        match best {
            Some(k) => Some(self.sites[k].duplicate()),
            None => None,
        }
    }

    /// All recorded sites in the root file (for inlay hints and similar).
    pub fn probes(&self) -> (r: Vec<TypeProbe>)
        ensures
            r@.len() == self.sites().len(),
            forall|i: int| 0 <= i < r@.len() ==> (#[trigger] r@[i]).same_as(self.sites()[i]),
    {
        let mut out: Vec<TypeProbe> = Vec::new();
        let mut i: usize = 0;
        while i < self.sites.len()
            invariant
                0 <= i <= self.sites@.len(),
                out@.len() == i,
                forall|k: int| 0 <= k < i ==> (#[trigger] out@[k]).same_as(self.sites@[k]),
            decreases self.sites@.len() - i,
        {
            out.push(self.sites[i].duplicate());
            i += 1;
        }
        out
    }
}

impl Default for TypeIndex {
    fn default() -> (r: Self)
        ensures
            r.sites().len() == 0,
    {
        TypeIndex::new()
    }
}

/// Kind of definition / navigation probe.
#[derive(Debug, Clone, Copy, PartialEq, Eq, Structural)]
pub enum DefKind {
    /// Local binding, function, or type in the root file.
    Definition,
    /// `require` import (alias, item name, or path string).
    Require,
}

/// Definition or require target at a byte offset in the checked root file.
#[derive(Debug)]
pub struct DefProbe {
    /// Binding / alias / item name (or last path segment for path-only hits).
    pub name: String,
    /// Span of the definition name in the root file (or require site name).
    pub def_span: Span,
    /// Root source path for a definition, or the resolved module dotted path
    /// for a require.
    pub path: String,
    /// On-disk `.yar` when the loader resolved a file; `None` for
    /// embedded-only std (or other sources with no search-path hit).
    pub file_path: Option<String>,
    pub kind: DefKind,
}

/// A recorded definition / require site.
#[derive(Debug)]
pub struct DefSite {
    /// Span that answers `definition_at` (use or declaration / require site).
    pub hit_span: Span,
    pub name: String,
    pub def_span: Span,
    pub path: String,
    pub file_path: Option<String>,
    pub kind: DefKind,
}

impl DefSite {
    /// The probe a site answers with.
    pub open spec fn answers(self, p: DefProbe) -> bool {
        &&& p.name@ == self.name@
        &&& p.def_span == self.def_span
        &&& p.path@ == self.path@
        &&& opt_chars(p.file_path) == opt_chars(self.file_path)
        &&& p.kind == self.kind
    }

    fn to_probe(&self) -> (r: DefProbe)
        ensures
            self.answers(r),
    {
        DefProbe {
            name: self.name.clone(),
            def_span: self.def_span,
            path: self.path.clone(),
            file_path: copy_opt(&self.file_path),
            kind: self.kind,
        }
    }
}

/// Index of definition / require sites in the root file.
#[derive(Debug)]
pub struct DefIndex {
    sites: Vec<DefSite>,
}

impl DefIndex {
    pub closed spec fn sites(&self) -> Seq<DefSite> {
        self.sites@
    }

    pub open spec fn hit_spans(&self) -> Seq<Span> {
        self.sites().map_values(|s: DefSite| s.hit_span)
    }

    pub fn new() -> (r: Self)
        ensures
            r.sites().len() == 0,
    {
        DefIndex { sites: Vec::new() }
    }

    pub fn clear(&mut self)
        ensures
            final(self).sites().len() == 0,
    {
        self.sites.clear();
    }

    /// Record a definition site: a use or declaration at `hit_span` that
    /// names the definition at `def_span` in the file at `path`.
    pub fn push_definition(&mut self, hit_span: Span, name: String, def_span: Span, path: String)
        ensures
            final(self).sites().len() == old(self).sites().len() + 1,
            final(self).sites().drop_last() == old(self).sites(),
            final(self).sites().last().hit_span == hit_span,
            final(self).sites().last().name@ == name@,
            final(self).sites().last().def_span == def_span,
            final(self).sites().last().path@ == path@,
            final(self).sites().last().file_path is None,
            final(self).sites().last().kind == DefKind::Definition,
    {
        self.sites.push(
            DefSite { hit_span, name, def_span, path, file_path: None, kind: DefKind::Definition },
        );
        proof {
            assert(self.sites().drop_last() =~= old(self).sites());
        }
    }

    /// Record a `require` site for the module at `dotted_path`.
    pub fn push_require(
        &mut self,
        hit_span: Span,
        name: String,
        def_span: Span,
        dotted_path: String,
        file_path: Option<String>,
    )
        ensures
            final(self).sites().len() == old(self).sites().len() + 1,
            final(self).sites().drop_last() == old(self).sites(),
            final(self).sites().last().hit_span == hit_span,
            final(self).sites().last().name@ == name@,
            final(self).sites().last().def_span == def_span,
            final(self).sites().last().path@ == dotted_path@,
            opt_chars(final(self).sites().last().file_path) == opt_chars(file_path),
            final(self).sites().last().kind == DefKind::Require,
    {
        self.sites.push(
            DefSite {
                hit_span,
                name,
                def_span,
                path: dotted_path,
                file_path,
                kind: DefKind::Require,
            },
        );
        proof {
            assert(self.sites().drop_last() =~= old(self).sites());
        }
    }

    /// Innermost site whose hit span contains `offset`, or `None` on a miss.
    pub fn definition_at(&self, offset: usize) -> (r: Option<DefProbe>)
        ensures
            match innermost(self.hit_spans(), offset) {
                Some(k) => r matches Some(p) && self.sites()[k].answers(p),
                None => r is None,
            },
    {
        let ghost spans = self.hit_spans();
        let mut best: Option<usize> = None;
        let mut i: usize = 0;
        while i < self.sites.len()
            invariant
                0 <= i <= self.sites@.len(),
                spans == self.hit_spans(),
                spans.len() == self.sites@.len(),
                match innermost(spans.take(i as int), offset) {
                    Some(k) => best == Some(k as usize),
                    None => best is None,
                },
            decreases self.sites@.len() - i,
        {
            proof {
                assert(spans.take(i + 1).drop_last() =~= spans.take(i as int));
                assert(spans.take(i + 1)[i as int] == self.sites@[i as int].hit_span);
                if let Some(k) = best {
                    lemma_innermost(spans.take(i as int), offset);
                    assert(spans.take(i + 1)[k as int] == self.sites@[k as int].hit_span);
                }
            }
            let s = self.sites[i].hit_span;
            if s.lo <= offset && offset < s.hi {
                match best {
                    None => {
                        best = Some(i);
                    },
                    Some(k) => {
                        if s.len() < self.sites[k].hit_span.len() {
                            best = Some(i);
                        }
                    },
                }
            }
            i += 1;
        }
        proof {
            assert(spans.take(i as int) =~= spans);
            if let Some(k) = best {
                lemma_innermost(spans, offset);
            }
        }
        match best {
            Some(k) => Some(self.sites[k].to_probe()),
            None => None,
        }
    }
}

impl Default for DefIndex {
    fn default() -> (r: Self)
        ensures
            r.sites().len() == 0,
    {
        DefIndex::new()
    }
}

} // verus!
