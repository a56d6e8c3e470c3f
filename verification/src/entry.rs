//! Program entry glue for ahead-of-time builds.
//!
//! Object emit exports a fixed trampoline [`ENTRY_LINK_SYMBOL`]
//! (`yarrow_entry`) with ABI `int64_t yarrow_entry(void)`. The host C runtime
//! defines C `main`, calls that trampoline, and uses the `i64` as the process
//! exit status. The Yarrow function the trampoline targets is the session's
//! entry name (default `"main"`); exporting a Yarrow `main` as linker `main`
//! would clash with this glue.

use vstd::prelude::*;
use crate::text::{owned, push_str};

verus! {

/// Linker symbol object emit exports for the C runtime to call.
pub const ENTRY_LINK_SYMBOL: &'static str = "yarrow_entry";

/// Object-local symbol for the real Yarrow entry body (not visible to C).
pub const USER_ENTRY_LINK_SYMBOL: &'static str = "yarrow_user_entry";

/// Default language entry name.
pub const DEFAULT_ENTRY_NAME: &'static str = "main";

/// C source that defines process `main` and calls [`ENTRY_LINK_SYMBOL`].
#[derive(Debug)]
pub struct EntryCrt {
    /// Yarrow entry name this glue was generated for.
    pub entry_name: String,
    /// Symbol the glue imports (`yarrow_entry`).
    pub link_symbol: &'static str,
    /// Complete C translation unit.
    pub source: String,
}

/// The entry name used for a requested one: the default for an empty request.
pub open spec fn effective_entry(requested: Seq<char>) -> Seq<char> {
    if requested.len() == 0 {
        "main"@
    } else {
        requested
    }
}

/// The C translation unit generated for entry `name` calling `link`.
pub open spec fn crt_text(name: Seq<char>, link: Seq<char>) -> Seq<char> {
    "/* Yarrow CRT: process entry for AOT binaries.\n * Yarrow entry function: `"@ + name
        + "` (CompileOptions::entry_name).\n * Object emit exports `"@ + link
        + "` with ABI:\n *   int64_t "@ + link
        + "(void);\n * Mapping: void / non-integer -> 0; integer -> value; fallible error -> 1.\n */\n#include <stdint.h>\n\nextern int64_t "@
        + link + "(void);\n\nint main(void) {\n    return (int)"@ + link + "();\n}\n"@
}

/// Build the C glue for the given Yarrow entry name (empty means `main`).
/// The generated `main` always calls [`ENTRY_LINK_SYMBOL`]; `entry_name`
/// only documents which Yarrow function object emit binds to it.
pub fn entry_crt_source(entry_name: &str) -> (r: EntryCrt)
    ensures
        r.entry_name@ == effective_entry(entry_name@),
        r.link_symbol@ == ENTRY_LINK_SYMBOL@,
        r.source@ == crt_text(effective_entry(entry_name@), ENTRY_LINK_SYMBOL@),
{
    let name = if crate::text::chars_of(entry_name).len() == 0 {
        "main"
    } else {
        entry_name
    };
    let link = ENTRY_LINK_SYMBOL;
    let mut source = owned(
        "/* Yarrow CRT: process entry for AOT binaries.\n * Yarrow entry function: `",
    );
    push_str(&mut source, name);
    push_str(&mut source, "` (CompileOptions::entry_name).\n * Object emit exports `");
    push_str(&mut source, link);
    push_str(&mut source, "` with ABI:\n *   int64_t ");
    push_str(&mut source, link);
    push_str(
        &mut source,
        "(void);\n * Mapping: void / non-integer -> 0; integer -> value; fallible error -> 1.\n */\n#include <stdint.h>\n\nextern int64_t ",
    );
    push_str(&mut source, link);
    push_str(&mut source, "(void);\n\nint main(void) {\n    return (int)");
    push_str(&mut source, link);
    push_str(&mut source, "();\n}\n");
    assert(source@ =~= crt_text(effective_entry(entry_name@), ENTRY_LINK_SYMBOL@));
    EntryCrt { entry_name: owned(name), link_symbol: ENTRY_LINK_SYMBOL, source }
}

} // verus!
