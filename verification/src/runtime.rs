//! Where the runtime archive for ahead-of-time links comes from.
//!
//! Lookup order for a target: the environment override
//! `YARROW_RUNTIME_AOT_ARCHIVE_<triple_with_underscores>`, then the archive
//! table baked in at build time (`triple=path;...`), then, for the host only,
//! the build-time host archive. Reading variables and files is the caller's
//! part; the names, the table format and the messages are decided here.

use vstd::prelude::*;
use crate::target::TargetTriple;
use crate::text::{chars_of, owned, push_str, string_of_chars};

verus! {

/// Runtime static-library bytes for linking with an emitted object.
pub struct RuntimeArchive {
    pub bytes: Vec<u8>,
    /// Triple this archive was built for.
    pub target: TargetTriple,
}

/// Name of the environment variable that overrides the archive of a target.
pub fn archive_override_key(target: &TargetTriple) -> (r: String)
    ensures
        r@ == "YARROW_RUNTIME_AOT_ARCHIVE_"@ + target.text_view().map_values(
            |c: char| if c == '-' || c == '.' { '_' } else { c },
        ),
{
    let mut k = owned("YARROW_RUNTIME_AOT_ARCHIVE_");
    push_str(&mut k, target.env_key_suffix().as_str());
    k
}

/// Index of the first `c` in `s`.
pub open spec fn first_index(s: Seq<char>, c: char) -> Option<int>
    decreases s.len(),
{
    if s.len() == 0 {
        None
    } else if s[0] == c {
        Some(0)
    } else {
        match first_index(s.drop_first(), c) {
            Some(i) => Some(i + 1),
            None => None,
        }
    }
}

/// The path a `triple=path;...` table gives `want`: entries are separated by
/// `;`, empty entries and entries without `=` are skipped, an entry splits at
/// its first `=`, and the first entry whose triple is `want` wins.
pub open spec fn table_lookup(table: Seq<char>, want: Seq<char>) -> Option<Seq<char>>
    decreases table.len(),
{
    let (seg, rest) = match first_index(table, ';') {
        Some(i) => (table.take(i), table.skip(i + 1)),
        None => (table, Seq::<char>::empty()),
    };
    let found = match first_index(seg, '=') {
        Some(j) => if seg.take(j) == want {
            Some(seg.skip(j + 1))
        } else {
            None
        },
        None => None,
    };
    if found is Some {
        found
    } else if first_index(table, ';') is Some {
        proof {
            lemma_first_index(table, ';');
        }
        table_lookup(rest, want)
    } else {
        None
    }
}

/// `first_index` finds the first occurrence, or reports there is none.
pub proof fn lemma_first_index(s: Seq<char>, c: char)
    ensures
        match first_index(s, c) {
            Some(i) => 0 <= i < s.len() && s[i] == c && forall|k: int| 0 <= k < i ==> #[trigger] s[k] != c,
            None => forall|k: int| 0 <= k < s.len() ==> #[trigger] s[k] != c,
        },
    decreases s.len(),
{
    if s.len() > 0 {
        lemma_first_index(s.drop_first(), c);
        assert forall|k: int| 1 <= k < s.len() implies #[trigger] s[k] == s.drop_first()[k - 1] by {}
    }
}

fn find_char(cs: &Vec<char>, from: usize, c: char) -> (r: Option<usize>)
    requires
        from <= cs@.len(),
    ensures
        match r {
            Some(i) => first_index(cs@.skip(from as int), c) == Some(i - from) && from <= i < cs@.len(),
            None => first_index(cs@.skip(from as int), c) is None,
        },
{
    proof {
        lemma_first_index(cs@.skip(from as int), c);
    }
    let mut i = from;
    while i < cs.len()
        invariant
            from <= i <= cs@.len(),
            forall|k: int| from <= k < i ==> #[trigger] cs@[k] != c,
        decreases cs@.len() - i,
    {
        if cs[i] == c {
            proof {
                lemma_first_index(cs@.skip(from as int), c);
                let t = cs@.skip(from as int);
                assert(t[i - from] == c);
                assert forall|k: int| 0 <= k < i - from implies #[trigger] t[k] != c by {
                    assert(t[k] == cs@[k + from]);
                }
            }
            return Some(i);
        }
        i += 1;
    }
    proof {
        lemma_first_index(cs@.skip(from as int), c);
        let t = cs@.skip(from as int);
        assert forall|k: int| 0 <= k < t.len() implies #[trigger] t[k] != c by {
            assert(t[k] == cs@[k + from]);
        }
    }
    None
}

/// Look a triple up in a build-time `triple=path;...` archive table.
pub fn archive_table_lookup(table: &str, want: &str) -> (r: Option<String>)
    ensures
        match r {
            Some(p) => table_lookup(table@, want@) == Some(p@),
            None => table_lookup(table@, want@) is None,
        },
{
    let cs = chars_of(table);
    let mut start: usize = 0;
    assert(cs@.skip(0) =~= cs@);
    loop
        invariant
            start <= cs@.len(),
            cs@ == table@,
            table_lookup(table@, want@) == table_lookup(cs@.skip(start as int), want@),
        decreases cs@.len() - start,
    {
        let ghost rest = cs@.skip(start as int);
        let semi = find_char(&cs, start, ';');
        let seg_end = match semi {
            Some(i) => i,
            None => cs.len(),
        };
        let seg = crate::text::slice_chars(&cs, start, seg_end);
        proof {
            match semi {
                Some(i) => assert(seg@ =~= rest.take(i - start)),
                None => assert(seg@ =~= rest),
            }
        }
        let eq = find_char(&seg, 0, '=');
        proof {
            assert(seg@.skip(0) =~= seg@);
        }
        if let Some(j) = eq {
            let key = string_of_chars(&crate::text::slice_chars(&seg, 0, j));
            if crate::text::str_eq(key.as_str(), want) {
                let value = crate::text::slice_chars(&seg, j + 1, seg.len());
                proof {
                    assert(key@ =~= seg@.take(j as int));
                    assert(value@ =~= seg@.skip(j + 1));
                }
                return Some(string_of_chars(&value));
            }
            proof {
                assert(key@ =~= seg@.take(j as int));
            }
        }
        match semi {
            Some(i) => {
                proof {
                    assert(rest.skip(i - start + 1) =~= cs@.skip(i + 1));
                }
                start = i + 1;
            },
            None => {
                return None;
            },
        }
    }
}

/// The message when no archive exists for a (non-host) target.
pub fn missing_archive_message(target: &TargetTriple) -> (r: String)
    ensures
        r@ == "no runtime archive for '"@ + target.text_view()
            + "': build with `cargo build -p yarrow_runtime_aot --target "@ + target.text_view()
            + "` and set "@ + "YARROW_RUNTIME_AOT_ARCHIVE_"@ + target.text_view().map_values(
            |c: char| if c == '-' || c == '.' { '_' } else { c },
        ) + ", or rebuild yarrow-core after installing that Rust target"@,
{
    let t = target.as_str();
    let mut m = owned("no runtime archive for '");
    push_str(&mut m, t.as_str());
    push_str(&mut m, "': build with `cargo build -p yarrow_runtime_aot --target ");
    push_str(&mut m, t.as_str());
    push_str(&mut m, "` and set ");
    push_str(&mut m, archive_override_key(target).as_str());
    push_str(&mut m, ", or rebuild yarrow-core after installing that Rust target");
    m
}

} // verus!
