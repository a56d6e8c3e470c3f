//! Module loading for `require`: resolves dotted module paths (like
//! `"std.math.sqrt"`) to Yarrow source.
//!
//! Standard-library modules are embedded (dotted path -> source) and win over
//! files; user modules live under the registered search paths as
//! `path/to/module.yar`. Reading those files is the caller's part: it hands
//! `load` what it found on disk.

use vstd::prelude::*;
use crate::compiler::errors::CompileError;
use crate::compiler::types::{is_failure, CResult, Failure};
use crate::parser::ast::Program;
use crate::text::{owned, push_str, str_eq};
use crate::token::Location;

verus! {

/// A module imported with `require`, paired with its optional alias.
///
/// `item` is `Some(name)` for an item import (`"a.b.c" require` where `c` is a
/// function of module `a.b`): only that single function is exposed. `None`
/// means the whole module is imported.
#[derive(Debug)]
pub struct RequiredModule {
    pub path: String,
    pub alias: Option<String>,
    pub item: Option<String>,
    pub program: Program,
}

/// Resolves module paths to Yarrow source.
pub struct ModuleLoader {
    search_paths: Vec<String>,
    embedded: Vec<(String, String)>,
}

/// The source an embedded-module table gives a dotted path (first match).
pub open spec fn embedded_source(table: Seq<(String, String)>, path: Seq<char>) -> Option<Seq<char>>
    decreases table.len(),
{
    if table.len() == 0 {
        None
    } else if table[0].0@ == path {
        Some(table[0].1@)
    } else {
        embedded_source(table.drop_first(), path)
    }
}

proof fn lemma_embedded_skip(table: Seq<(String, String)>, path: Seq<char>, i: int)
    requires
        0 <= i <= table.len(),
        forall|j: int| 0 <= j < i ==> (#[trigger] table[j]).0@ != path,
    ensures
        embedded_source(table, path) == embedded_source(table.subrange(i, table.len() as int), path),
    decreases i,
{
    if i > 0 {
        let rest = table.drop_first();
        assert forall|j: int| 0 <= j < i - 1 implies (#[trigger] rest[j]).0@ != path by {
            assert(rest[j] == table[j + 1]);
        }
        lemma_embedded_skip(rest, path, i - 1);
        assert(rest.subrange(i - 1, rest.len() as int) =~= table.subrange(i, table.len() as int));
    } else {
        assert(table.subrange(0, table.len() as int) =~= table);
    }
}

/// What loading a module gives: the embedded source when there is one,
/// else the source found on disk, else an `E380` "unknown module" error.
pub open spec fn load_spec(
    table: Seq<(String, String)>,
    path: Seq<char>,
    on_disk: Option<Seq<char>>,
) -> Result<Seq<char>, Failure> {
    match embedded_source(table, path) {
        Some(s) => Ok(s),
        None => match on_disk {
            Some(s) => Ok(s),
            None => Err(
                (
                    "unknown module '"@ + path + "'"@,
                    "E380"@,
                    Location { line: 0, column: 0, offset: 0 },
                ),
            ),
        },
    }
}

/// The character view of an optional string.
pub open spec fn opt_view(s: Option<String>) -> Option<Seq<char>> {
    match s {
        Some(t) => Some(t@),
        None => None,
    }
}

impl ModuleLoader {
    /// The registered search directories, in order.
    pub closed spec fn paths(&self) -> Seq<Seq<char>> {
        self.search_paths@.map_values(|p: String| p@)
    }

    /// The embedded modules: dotted path and source.
    pub closed spec fn modules(&self) -> Seq<(String, String)> {
        self.embedded@
    }

    /// A loader with no search paths and the embedded standard library,
    /// which is generated into the build and empty in this crate.
    pub fn new() -> (r: Self)
        ensures
            r.paths().len() == 0,
            r.modules().len() == 0,
    {
        ModuleLoader { search_paths: Vec::new(), embedded: Vec::new() }
    }

    /// Add a directory searched for user modules. A require of `"a.b"` looks
    /// for `a/b.yar` under every registered path.
    pub fn add_search_path(&mut self, path: String)
        ensures
            final(self).paths() == old(self).paths().push(path@),
            final(self).modules() == old(self).modules(),
    {
        self.search_paths.push(path);
        proof {
            assert(self.paths() =~= old(self).paths().push(path@));
        }
    }

    /// The registered search directories, in order.
    pub fn search_paths(&self) -> (r: &Vec<String>)
        ensures
            r@.map_values(|p: String| p@) == self.paths(),
    {
        &self.search_paths
    }

    /// Embedded source of a module, if the standard library has it.
    pub fn embedded_module(&self, path: &str) -> (r: Option<String>)
        ensures
            match r {
                Some(s) => embedded_source(self.modules(), path@) == Some(s@),
                None => embedded_source(self.modules(), path@) is None,
            },
    {
        let mut i: usize = 0;
        while i < self.embedded.len()
            invariant
                0 <= i <= self.embedded@.len(),
                forall|j: int| 0 <= j < i ==> (#[trigger] self.embedded@[j]).0@ != path@,
            decreases self.embedded@.len() - i,
        {
            if str_eq(self.embedded[i].0.as_str(), path) {
                proof {
                    lemma_embedded_skip(self.embedded@, path@, i as int);
                }
                return Some(self.embedded[i].1.clone());
            }
            i += 1;
        }
        proof {
            lemma_embedded_skip(self.embedded@, path@, i as int);
        }
        None
    }

    /// Load the source of a module by its dotted path; `on_disk` is the
    /// source of the first `<search path>/a/b.yar` file that exists, if any.
    pub fn load(&self, path: &str, on_disk: Option<String>) -> (r: CResult<String>)
        ensures
            match (r, load_spec(self.modules(), path@, opt_view(on_disk))) {
                (Ok(a), Ok(b)) => a@ == b,
                (Err(e), Err(f)) => is_failure(e, f),
                _ => false,
            },
    {
        match self.embedded_module(path) {
            Some(s) => Ok(s),
            None => match on_disk {
                Some(s) => Ok(s),
                None => {
                    let mut m = owned("unknown module '");
                    push_str(&mut m, path);
                    push_str(&mut m, "'");
                    Err(CompileError::at(m, Location::default(), owned("E380")))
                },
            },
        }
    }
}

} // verus!
