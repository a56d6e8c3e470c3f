//! Function names across modules: the symbol name of an item of a unit,
//! the std functions the compiler implements itself, and which functions a
//! module may call in another.

use vstd::prelude::*;
use crate::compiler::errors::{is_new_error, CompileError};
use crate::compiler::types::CResult;
use crate::diagnostics::span::span_at;
use crate::diagnostics::Span;
use crate::interpreter::name_map::NameMap;
use crate::text::{chars_of, owned, push_str, slice_chars, str_eq, string_of_chars};

verus! {

/// The symbol name of `name` in a unit: the module path prefixes it.
pub open spec fn item_name_spec(module: Option<Seq<char>>, name: Seq<char>) -> Seq<char> {
    match module {
        Some(p) => p + "::"@ + name,
        None => name,
    }
}

pub fn item_name(module: Option<&str>, name: &str) -> (r: String)
    ensures
        r@ == item_name_spec(
            match module {
                Some(m) => Some(m@),
                None => None,
            },
            name@,
        ),
{
    match module {
        Some(path) => {
            let mut s = owned(path);
            push_str(&mut s, "::");
            push_str(&mut s, name);
            s
        },
        None => owned(name),
    }
}

/// The std functions the compiler emits as intrinsics rather than from
/// Yarrow bodies.
pub open spec fn compiler_intrinsic(fq: Seq<char>) -> bool {
    ||| fq == "std.region::create"@
    ||| fq == "std.region::put"@
    ||| fq == "std.region::free"@
    ||| fq == "std.list::push_last"@
    ||| fq == "std.list::len"@
    ||| fq == "std.list::get"@
    ||| fq == "std.list::put"@
    ||| fq == "std.map::len"@
    ||| fq == "std.map::get"@
    ||| fq == "std.map::put"@
}

pub fn is_std_intrinsic(fq: &str) -> (r: bool)
    ensures
        r == compiler_intrinsic(fq@),
{
    str_eq(fq, "std.region::create") || str_eq(fq, "std.region::put") || str_eq(fq, "std.region::free")
        || str_eq(fq, "std.list::push_last") || str_eq(fq, "std.list::len") || str_eq(fq, "std.list::get")
        || str_eq(fq, "std.list::put") || str_eq(fq, "std.map::len") || str_eq(fq, "std.map::get") || str_eq(
        fq,
        "std.map::put",
    )
}

/// Index of the first `::` in `s`.
pub open spec fn first_sep(s: Seq<char>) -> Option<int>
    decreases s.len(),
{
    if s.len() < 2 {
        None
    } else if s[0] == ':' && s[1] == ':' {
        Some(0)
    } else {
        match first_sep(s.drop_first()) {
            Some(i) => Some(i + 1),
            None => None,
        }
    }
}

/// The module a fully-qualified name belongs to, when it names one: what
/// precedes its first `::`, when that holds a `.` (module paths do;
/// `Type::method` in the program does not).
pub open spec fn foreign_module(fq: Seq<char>) -> Option<Seq<char>> {
    match first_sep(fq) {
        Some(i) => if fq.take(i).contains('.') {
            Some(fq.take(i))
        } else {
            None
        },
        None => None,
    }
}

/// Whether a call from `caller_module` to `fq` crosses a `require` to a
/// function that is not public.
pub open spec fn export_refused(fq: Seq<char>, caller_module: Option<Seq<char>>, public: Map<Seq<char>, ()>) -> bool {
    match foreign_module(fq) {
        Some(m) => caller_module != Some(m) && !public.contains_key(fq),
        None => false,
    }
}

fn first_sep_of(cs: &Vec<char>) -> (r: Option<usize>)
    ensures
        match r {
            Some(i) => first_sep(cs@) == Some(i as int) && i + 2 <= cs@.len(),
            None => first_sep(cs@) is None,
        },
{
    let mut i: usize = 0;
    assert(cs@.skip(0) =~= cs@);
    while cs.len() - i > 1
        invariant
            0 <= i <= cs@.len(),
            forall|k: int| 0 <= k < i ==> !(cs@[k] == ':' && #[trigger] cs@[k + 1] == ':'),
            first_sep(cs@) == match first_sep(cs@.skip(i as int)) {
                Some(j) => Some(j + i),
                None => None,
            },
        decreases cs@.len() - i,
    {
        let ghost sk = cs@.skip(i as int);
        assert(sk[0] == cs@[i as int] && sk[1] == cs@[i + 1]);
        if cs[i] == ':' && cs[i + 1] == ':' {
            return Some(i);
        }
        assert(sk.drop_first() =~= cs@.skip(i + 1));
        i += 1;
    }
    assert(cs@.skip(i as int).len() < 2);
    None
}

fn has_dot(cs: &Vec<char>, end: usize) -> (r: bool)
    requires
        end <= cs@.len(),
    ensures
        r == cs@.take(end as int).contains('.'),
{
    let mut i: usize = 0;
    while i < end
        invariant
            0 <= i <= end <= cs@.len(),
            forall|k: int| 0 <= k < i ==> cs@[k] != '.',
        decreases end - i,
    {
        if cs[i] == '.' {
            assert(cs@.take(end as int)[i as int] == '.');
            return true;
        }
        i += 1;
    }
    assert forall|k: int| 0 <= k < end implies cs@.take(end as int)[k] != '.' by {}
    false
}

/// The refusal of a call to `fq`, which is not public, from outside module
/// `module`.
pub open spec fn not_public_error(e: CompileError, fq: Seq<char>, module: Seq<char>) -> bool {
    &&& e.diagnostic.code@ == "E381"@
    &&& e.diagnostic.message@ == "'"@ + fq + "' is not public and cannot be used across 'require'"@
    &&& e.diagnostic.labels@.len() == 1
    &&& e.diagnostic.labels@[0].span == span_at(0, 0, 1, 1)
    &&& e.diagnostic.notes@.len() == 1
    &&& e.diagnostic.notes@[0]@ == "only `public` functions are visible to other modules via `require`"@
    &&& e.diagnostic.helps@.len() == 1
    &&& e.diagnostic.helps@[0]@ == "mark the function `public`, or call it only from within `"@ + module + "`"@
}

/// `E381` when a call from `caller_module` to `fq` crosses a `require` to a
/// function that is not public.
pub fn require_public_export(fq: &str, caller_module: Option<&str>, public: &NameMap<()>) -> (r: CResult<()>)
    ensures
        r is Err <==> export_refused(
            fq@,
            match caller_module {
                Some(m) => Some(m@),
                None => None,
            },
            public@,
        ),
        r matches Err(e) ==> not_public_error(e, fq@, foreign_module(fq@)->0),
{
    let cs = chars_of(fq);
    let sep = match first_sep_of(&cs) {
        Some(i) => i,
        None => {
            return Ok(());
        },
    };
    if !has_dot(&cs, sep) {
        return Ok(());
    }
    let mod_path = string_of_chars(&slice_chars(&cs, 0, sep));
    assert(mod_path@ =~= fq@.take(sep as int));
    if let Some(m) = caller_module {
        if str_eq(m, mod_path.as_str()) {
            return Ok(());
        }
    }
    if public.contains_key(fq) {
        return Ok(());
    }
    let mut msg = owned("'");
    push_str(&mut msg, fq);
    push_str(&mut msg, "' is not public and cannot be used across 'require'");
    let mut help = owned("mark the function `public`, or call it only from within `");
    push_str(&mut help, mod_path.as_str());
    push_str(&mut help, "`");
    Err(CompileError::new(msg, Span::default(), owned("E381")).with_note(
        owned("only `public` functions are visible to other modules via `require`"),
    ).with_help(help))
}

} // verus!
