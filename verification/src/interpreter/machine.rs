//! The interpreter's tables of a loaded program: its functions by
//! fully-qualified name, the bindings that required modules bring into
//! scope, and the registered declarations.

use vstd::prelude::*;
use crate::compiler::modules::{opt_view, ModuleLoader, RequiredModule};
use crate::diagnostics::Span;
use crate::parser::ast::{Expr, Function, Implement, Program, Stmt, StmtKind, Visibility};
use crate::text::{owned, push_str};
use super::name_map::NameMap;
use super::registry::{
    empty_reg, outcome, reg_enum, reg_error, reg_struct, reg_union, unsupported_text, RegFailure, RegView, StructView,
    TypeRegistry, KIND_STRUCT,
};
use super::InterpretError;

verus! {

/// `a::b`.
pub open spec fn join_path(a: Seq<char>, b: Seq<char>) -> Seq<char> {
    a + "::"@ + b
}

/// A registered function: its fully-qualified name, the module it came
/// from, and whether it is a method (binds `self`).
#[derive(Debug)]
pub struct FuncEntry {
    pub fq: String,
    pub module: Option<String>,
    pub is_method: bool,
}

/// A registered function by value.
pub type FuncView = (Seq<char>, Option<Seq<char>>, bool);

pub open spec fn func_view(e: FuncEntry) -> FuncView {
    (e.fq@, opt_view(e.module), e.is_method)
}

/// The function table, the set of public names, and the declarations.
pub struct UnitState {
    pub funcs: Map<Seq<char>, FuncView>,
    pub public: Set<Seq<char>>,
    pub types: RegView,
}

pub open spec fn is_public(f: Function) -> bool {
    f.visibility == Some(Visibility::Public)
}

/// Registering function `f` under `fq`: its name joins the public set when
/// it is public, the functions declared in its body are registered under
/// `fq::name` (in order, not as methods), then `f` itself.
pub open spec fn tree_state(st: UnitState, module: Option<Seq<char>>, fq: Seq<char>, f: Function, is_method: bool) -> UnitState
    decreases f,
{
    let st1 = if is_public(f) {
        UnitState { public: st.public.insert(fq), ..st }
    } else {
        st
    };
    let st2 = nested_state(st1, module, fq, f.body@);
    UnitState { funcs: st2.funcs.insert(fq, (fq, module, is_method)), ..st2 }
}

/// Registering the functions declared among `stmts`, under `fq::name`.
pub open spec fn nested_state(st: UnitState, module: Option<Seq<char>>, fq: Seq<char>, stmts: Seq<Stmt>) -> UnitState
    decreases stmts,
{
    if stmts.len() == 0 {
        st
    } else {
        let st1 = nested_state(st, module, fq, stmts.drop_last());
        match stmts.last().kind {
            StmtKind::Function(nf) => tree_state(st1, module, join_path(fq, nf.name@), nf, false),
            _ => st1,
        }
    }
}

/// The name an `implement` method is called by, and the name it is
/// registered under (prefixed by its module, when it has one).
pub open spec fn method_names(module: Option<Seq<char>>, target: Seq<char>, f: Function) -> (Seq<char>, Seq<char>) {
    let short = join_path(target, f.name@);
    let fq = match module {
        Some(p) => join_path(p, short),
        None => short,
    };
    (short, fq)
}

/// Registering the methods of `imp` (the first `n` of them).
pub open spec fn implement_state(st: UnitState, module: Option<Seq<char>>, imp: Implement, n: int) -> UnitState
    decreases n,
{
    if n <= 0 {
        st
    } else {
        let st0 = implement_state(st, module, imp, n - 1);
        let f = imp.functions@[n - 1];
        let (short, fq) = method_names(module, imp.target@, f);
        let st1 = if is_public(f) {
            UnitState { public: st0.public.insert(fq).insert(short), ..st0 }
        } else {
            st0
        };
        let st2 = tree_state(st1, module, fq, f, true);
        if module is Some {
            UnitState { funcs: st2.funcs.insert(short, (short, module, true)), ..st2 }
        } else {
            st2
        }
    }
}

/// Registering one top-level item of a unit (`module` is `None` for the
/// program itself): declarations go to the registry, `implement` blocks
/// register their methods, and functions are registered under their name
/// (prefixed by the module, whose private functions stay out).
pub open spec fn item_state(st: UnitState, module: Option<Seq<char>>, item: Stmt) -> (UnitState, Option<RegFailure>) {
    match item.kind {
        StmtKind::Struct(d) => {
            let r = reg_struct(st.types, d);
            (UnitState { types: r.0, ..st }, r.1)
        },
        StmtKind::Enum(d) => {
            let r = reg_enum(st.types, d);
            (UnitState { types: r.0, ..st }, r.1)
        },
        StmtKind::Union(d) => {
            let r = reg_union(st.types, d);
            (UnitState { types: r.0, ..st }, r.1)
        },
        StmtKind::Error(d) => (UnitState { types: reg_error(st.types, d), ..st }, None),
        StmtKind::Implement(imp) => (implement_state(st, module, imp, imp.functions@.len() as int), None),
        StmtKind::Function(f) => if module is None || is_public(f) {
            let fq = match module {
                Some(p) => join_path(p, f.name@),
                None => f.name@,
            };
            (tree_state(st, module, fq, f, false), None)
        } else {
            (st, None)
        },
        _ => (st, None),
    }
}

/// Registering the top-level items of a unit in order, stopping at the
/// first failure.
pub open spec fn unit_state(st: UnitState, module: Option<Seq<char>>, items: Seq<Stmt>) -> (UnitState, Option<RegFailure>)
    decreases items.len(),
{
    if items.len() == 0 {
        (st, None)
    } else {
        let step = item_state(st, module, items[0]);
        if step.1 is Some {
            step
        } else {
            unit_state(step.0, module, items.drop_first())
        }
    }
}

/// No struct among `items` has more than 2^28 fields: a field takes at most
/// 8 bytes, so every offset then fits an `i32` and the size 32 bits.
pub open spec fn struct_sizes_fit(items: Seq<Stmt>) -> bool {
    forall|i: int| 0 <= i < items.len() ==> struct_size_fits(#[trigger] items[i])
}

/// A struct item with at most 2^28 fields (any other item).
pub open spec fn struct_size_fits(item: Stmt) -> bool {
    item.kind matches StmtKind::Struct(d) ==> d.fields@.len() <= 0x1000_0000
}

/// The function table and declarations before anything is registered.
pub open spec fn empty_unit() -> UnitState {
    UnitState { funcs: Map::empty(), public: Set::empty(), types: empty_reg() }
}

/// Registering required modules in order, each under its path, stopping at
/// the first failure.
pub open spec fn modules_state(st: UnitState, ms: Seq<RequiredModule>) -> (UnitState, Option<RegFailure>)
    decreases ms.len(),
{
    if ms.len() == 0 {
        (st, None)
    } else {
        let r = unit_state(st, Some(ms[0].path@), ms[0].program.items@);
        if r.1 is Some {
            r
        } else {
            modules_state(r.0, ms.drop_first())
        }
    }
}

/// Loading a program: its own items first, then its required modules.
pub open spec fn load_state(program: Program, ms: Seq<RequiredModule>) -> (UnitState, Option<RegFailure>) {
    let r = unit_state(empty_unit(), None, program.items@);
    if r.1 is Some {
        r
    } else {
        modules_state(r.0, ms)
    }
}

/// The names that required modules bring into scope.
pub struct Bindings {
    pub aliases: Map<Seq<char>, Seq<char>>,
    pub item_aliases: Map<Seq<char>, Seq<char>>,
    pub plain: Map<Seq<char>, Seq<char>>,
}

/// Every public top-level function of a module, bound by its bare name.
pub open spec fn public_fn_bindings(plain: Map<Seq<char>, Seq<char>>, path: Seq<char>, items: Seq<Stmt>) -> Map<
    Seq<char>,
    Seq<char>,
>
    decreases items.len(),
{
    if items.len() == 0 {
        plain
    } else {
        let p = public_fn_bindings(plain, path, items.drop_last());
        match items.last().kind {
            StmtKind::Function(f) => if is_public(f) {
                p.insert(f.name@, join_path(path, f.name@))
            } else {
                p
            },
            _ => p,
        }
    }
}

/// The bindings one required module brings: an alias names the module (and
/// the one item it imports, if any); without an alias, an imported item, or
/// else every public function, is bound by its bare name.
pub open spec fn module_binding(b: Bindings, m: RequiredModule) -> Bindings {
    match m.alias {
        Some(a) => {
            let b1 = Bindings { aliases: b.aliases.insert(a@, m.path@), ..b };
            match m.item {
                Some(it) => Bindings { item_aliases: b1.item_aliases.insert(a@, it@), ..b1 },
                None => b1,
            }
        },
        None => match m.item {
            Some(it) => Bindings { plain: b.plain.insert(it@, join_path(m.path@, it@)), ..b },
            None => Bindings { plain: public_fn_bindings(b.plain, m.path@, m.program.items@), ..b },
        },
    }
}

/// The bindings of the first `n` modules, in order.
pub open spec fn modules_bindings(b: Bindings, ms: Seq<RequiredModule>, n: int) -> Bindings
    decreases n,
{
    if n <= 0 {
        b
    } else {
        module_binding(modules_bindings(b, ms, n - 1), ms[n - 1])
    }
}

/// Bare item imports of already-loaded modules, bound by their bare name.
pub open spec fn extra_bindings(plain: Map<Seq<char>, Seq<char>>, extras: Seq<(String, String)>, n: int) -> Map<
    Seq<char>,
    Seq<char>,
>
    decreases n,
{
    if n <= 0 {
        plain
    } else {
        let e = extras[n - 1];
        extra_bindings(plain, extras, n - 1).insert(e.1@, join_path(e.0@, e.1@))
    }
}

pub open spec fn no_bindings() -> Bindings {
    Bindings { aliases: Map::empty(), item_aliases: Map::empty(), plain: Map::empty() }
}

/// All bindings of a loaded program: the modules' in order, then the extra
/// item imports.
pub open spec fn load_bindings(ms: Seq<RequiredModule>, extras: Seq<(String, String)>) -> Bindings {
    let b = modules_bindings(no_bindings(), ms, ms.len() as int);
    Bindings { plain: extra_bindings(b.plain, extras, extras.len() as int), ..b }
}

/// The modules a program requires, loaded and parsed in the order the
/// loader finished them, and the bare item imports that named a module
/// already loaded under an alias (module path, item).
pub struct LoadedModules {
    pub modules: Vec<RequiredModule>,
    pub extra_plain_items: Vec<(String, String)>,
}

/// Why a call target does not name a function.
pub enum CallFailure {
    /// `alias.member` where the alias imports one other item (module path,
    /// that item, the member).
    NotExported(Seq<char>, Seq<char>, Seq<char>),
    /// A member call that is neither a module function nor a method of a
    /// local struct value.
    Complex,
    /// A target that is not a name.
    NotAName,
}

/// The function a call target names, seen from the function `caller` of
/// `module`: a bare name is a function nested in the caller, then one of
/// the caller's module, then a bare import, else the name as written;
/// `alias.member` is a function of the aliased module; `local.member` is a
/// method of the struct that local holds (by its runtime kind).
pub open spec fn call_name_spec(
    funcs: Map<Seq<char>, FuncView>,
    b: Bindings,
    structs: Seq<StructView>,
    locals: Map<Seq<char>, u64>,
    target: Expr,
    module: Option<Seq<char>>,
    caller: Seq<char>,
) -> Result<Seq<char>, CallFailure> {
    match target {
        Expr::Variable { name } => {
            let n = name@;
            if funcs.contains_key(join_path(caller, n)) {
                Ok(join_path(caller, n))
            } else if module is Some && funcs.contains_key(join_path(module->0, n)) {
                Ok(join_path(module->0, n))
            } else if b.plain.contains_key(n) {
                Ok(b.plain[n])
            } else {
                Ok(n)
            }
        },
        Expr::Member { base, member } => match *base {
            Expr::Variable { name } => if b.aliases.contains_key(name@) {
                let path = b.aliases[name@];
                if b.item_aliases.contains_key(name@) && b.item_aliases[name@] != member@ {
                    Err(CallFailure::NotExported(path, b.item_aliases[name@], member@))
                } else {
                    Ok(join_path(path, member@))
                }
            } else if locals.contains_key(name@) && locals[name@] & 0xff == KIND_STRUCT {
                let sid = (locals[name@] >> 8u64) as u32;
                if (sid as int) < structs.len() && funcs.contains_key(join_path(structs[sid as int].0, member@)) {
                    Ok(join_path(structs[sid as int].0, member@))
                } else {
                    Err(CallFailure::Complex)
                }
            } else {
                Err(CallFailure::Complex)
            },
            _ => Err(CallFailure::Complex),
        },
        _ => Err(CallFailure::NotAName),
    }
}

/// The error `e` reports call failure `f` at `span`.
pub open spec fn reports_call(f: CallFailure, e: InterpretError, span: Span) -> bool {
    &&& e.span == span
    &&& match f {
        CallFailure::NotExported(path, item, member) => e.code@ == "E330"@ && e.message@ == "module '"@ + path
            + "' only exports '"@ + item + "' (not '"@ + member + "')"@,
        CallFailure::Complex => e.code@ == "E393"@ && e.message@ == unsupported_text(
            "method call / complex call target"@,
        ),
        CallFailure::NotAName => e.code@ == "E329"@ && e.message@ == "'call' target must be a function name"@,
    }
}

/// The std functions the interpreter runs itself rather than from Yarrow
/// bodies.
pub open spec fn interp_intrinsic(fq: Seq<char>) -> bool {
    ||| fq == "std.list::push_last"@
    ||| fq == "std.list::len"@
    ||| fq == "std.list::get"@
    ||| fq == "std.list::put"@
    ||| fq == "std.map::len"@
    ||| fq == "std.map::get"@
    ||| fq == "std.map::put"@
}

pub fn is_std_intrinsic(fq: &str) -> (r: bool)
    ensures
        r == interp_intrinsic(fq@),
{
    crate::text::str_eq(fq, "std.list::push_last") || crate::text::str_eq(fq, "std.list::len")
        || crate::text::str_eq(fq, "std.list::get") || crate::text::str_eq(fq, "std.list::put")
        || crate::text::str_eq(fq, "std.map::len") || crate::text::str_eq(fq, "std.map::get")
        || crate::text::str_eq(fq, "std.map::put")
}

/// The interpreter: a module loader, the registered functions and
/// declarations, and the bindings of required modules.
pub struct Interpreter {
    loader: ModuleLoader,
    funcs: NameMap<FuncEntry>,
    aliases: NameMap<String>,
    plain_funcs: NameMap<String>,
    item_aliases: NameMap<String>,
    extra_plain_items: Vec<(String, String)>,
    public_funcs: NameMap<()>,
    modules: Vec<RequiredModule>,
    types: TypeRegistry,
}

fn clone_module(m: &Option<String>) -> (r: Option<String>)
    ensures
        opt_view(r) == opt_view(*m),
{
    match m {
        Some(s) => Some(s.clone()),
        None => None,
    }
}

fn joined(a: &str, b: &str) -> (r: String)
    ensures
        r@ == join_path(a@, b@),
{
    let mut s = owned(a);
    push_str(&mut s, "::");
    push_str(&mut s, b);
    s
}

impl Interpreter {
    /// The function table, public names and declarations.
    pub closed spec fn unit(&self) -> UnitState {
        UnitState {
            funcs: self.funcs@.map_values(|e: FuncEntry| func_view(e)),
            public: self.public_funcs@.dom(),
            types: self.types.view(),
        }
    }

    /// Module alias to module path.
    pub closed spec fn aliases(&self) -> Map<Seq<char>, Seq<char>> {
        self.aliases@.map_values(|s: String| s@)
    }

    /// Bare function name to fully-qualified name, for required modules
    /// without an alias.
    pub closed spec fn plain_funcs(&self) -> Map<Seq<char>, Seq<char>> {
        self.plain_funcs@.map_values(|s: String| s@)
    }

    /// Alias to the one item it imports.
    pub closed spec fn item_aliases(&self) -> Map<Seq<char>, Seq<char>> {
        self.item_aliases@.map_values(|s: String| s@)
    }

    /// The module loader.
    pub closed spec fn loader(&self) -> ModuleLoader {
        self.loader
    }

    /// The three binding tables.
    pub open spec fn bindings(&self) -> Bindings {
        Bindings { aliases: self.aliases(), item_aliases: self.item_aliases(), plain: self.plain_funcs() }
    }

    /// The required modules of the loaded program.
    pub closed spec fn modules(&self) -> Seq<RequiredModule> {
        self.modules@
    }

    fn insert_func(&mut self, fq: String, module: &Option<String>, is_method: bool)
        ensures
            final(self).unit() == (UnitState {
                funcs: old(self).unit().funcs.insert(fq@, (fq@, opt_view(*module), is_method)),
                ..old(self).unit()
            }),
            final(self).aliases() == old(self).aliases(),
            final(self).plain_funcs() == old(self).plain_funcs(),
            final(self).item_aliases() == old(self).item_aliases(),
            final(self).loader() == old(self).loader(),
    {
        let ghost k = fq@;
        let e = FuncEntry { fq: fq.clone(), module: clone_module(module), is_method };
        self.funcs.insert(fq, e);
        assert(self.funcs@.map_values(|e: FuncEntry| func_view(e)) =~= old(self).funcs@.map_values(
            |e: FuncEntry| func_view(e),
        ).insert(k, (k, opt_view(*module), is_method)));
    }

    fn insert_public(&mut self, name: String)
        ensures
            final(self).unit() == (UnitState { public: old(self).unit().public.insert(name@), ..old(self).unit() }),
            final(self).aliases() == old(self).aliases(),
            final(self).plain_funcs() == old(self).plain_funcs(),
            final(self).item_aliases() == old(self).item_aliases(),
            final(self).loader() == old(self).loader(),
    {
        let ghost k = name@;
        self.public_funcs.insert(name, ());
        assert(self.public_funcs@.dom() =~= old(self).public_funcs@.dom().insert(k));
    }

    /// An interpreter with nothing loaded.
    pub fn new() -> (r: Self)
        ensures
            r.unit() == empty_unit(),
            r.bindings() == no_bindings(),
            r.modules() == Seq::<RequiredModule>::empty(),
            r.loader().paths() == Seq::<Seq<char>>::empty(),
    {
        let r = Interpreter {
            loader: ModuleLoader::new(),
            funcs: NameMap::new(),
            aliases: NameMap::new(),
            plain_funcs: NameMap::new(),
            item_aliases: NameMap::new(),
            extra_plain_items: Vec::new(),
            public_funcs: NameMap::new(),
            modules: Vec::new(),
            types: TypeRegistry::new(),
        };
        assert(r.unit().funcs =~= Map::<Seq<char>, FuncView>::empty());
        assert(r.unit().public =~= Set::<Seq<char>>::empty());
        assert(r.aliases() =~= Map::<Seq<char>, Seq<char>>::empty());
        assert(r.item_aliases() =~= Map::<Seq<char>, Seq<char>>::empty());
        assert(r.plain_funcs() =~= Map::<Seq<char>, Seq<char>>::empty());
        r
    }

    /// Add a directory searched for user modules.
    pub fn add_module_search_path(&mut self, path: String)
        ensures
            final(self).loader().paths() == old(self).loader().paths().push(path@),
            final(self).loader().modules() == old(self).loader().modules(),
            final(self).unit() == old(self).unit(),
            final(self).bindings() == old(self).bindings(),
            final(self).modules() == old(self).modules(),
    {
        self.loader.add_search_path(path);
    }

    /// Load a checked program with the modules it requires: forget what was
    /// loaded before, register the program's items and then each module's
    /// (under its path), and bind the modules' names. The first declaration
    /// that cannot be registered is the error; the names are then unbound.
    pub fn load_program(&mut self, program: &Program, loaded: LoadedModules) -> (r: Result<(), InterpretError>)
        requires
            struct_sizes_fit(program.items@),
            forall|i: int| 0 <= i < loaded.modules@.len() ==> struct_sizes_fit(#[trigger] loaded.modules@[i].program.items@),
        ensures
            final(self).unit() == load_state(*program, loaded.modules@).0,
            outcome(load_state(*program, loaded.modules@).1, r),
            r is Ok ==> final(self).bindings() == load_bindings(loaded.modules@, loaded.extra_plain_items@),
            r is Err ==> final(self).bindings() == no_bindings(),
            final(self).modules() == loaded.modules@,
            final(self).loader() == old(self).loader(),
    {
        let LoadedModules { modules, extra_plain_items } = loaded;
        self.funcs.clear();
        self.aliases.clear();
        self.plain_funcs.clear();
        self.item_aliases.clear();
        self.public_funcs.clear();
        self.types = TypeRegistry::new();
        self.extra_plain_items = Vec::new();
        self.modules = Vec::new();
        proof {
            assert(self.unit().funcs =~= Map::<Seq<char>, FuncView>::empty());
            assert(self.unit().public =~= Set::<Seq<char>>::empty());
            assert(self.aliases() =~= Map::<Seq<char>, Seq<char>>::empty());
            assert(self.item_aliases() =~= Map::<Seq<char>, Seq<char>>::empty());
            assert(self.plain_funcs() =~= Map::<Seq<char>, Seq<char>>::empty());
            assert(self.unit() == empty_unit());
            assert(self.bindings() == no_bindings());
        }
        let top: Option<String> = None;
        let first = self.register_unit(&top, &program.items);
        if first.is_err() {
            self.modules = modules;
            self.extra_plain_items = extra_plain_items;
            return first;
        }
        let ghost all = load_state(*program, modules@);
        let mut i: usize = 0;
        assert(modules@.skip(0) =~= modules@);
        while i < modules.len()
            invariant
                0 <= i <= modules@.len(),
                all == load_state(*program, modules@),
                modules@ == loaded.modules@,
                all == modules_state(self.unit(), modules@.skip(i as int)),
                forall|k: int| 0 <= k < modules@.len() ==> struct_sizes_fit(#[trigger] modules@[k].program.items@),
                self.bindings() == no_bindings(),
                self.loader() == old(self).loader(),
            decreases modules@.len() - i,
        {
            let ghost before = self.unit();
            assert(modules@.skip(i as int)[0] == modules@[i as int]);
            assert(modules@.skip(i as int).drop_first() =~= modules@.skip(i + 1));
            assert(struct_sizes_fit(modules@[i as int].program.items@));
            let path = Some(modules[i].path.clone());
            let res = self.register_unit(&path, &modules[i].program.items);
            let ghost step = unit_state(before, Some(modules@[i as int].path@), modules@[i as int].program.items@);
            assert(self.unit() == step.0);
            if res.is_err() {
                assert(all == step);
                self.modules = modules;
                self.extra_plain_items = extra_plain_items;
                return res;
            }
            i += 1;
        }
        assert(modules@.skip(modules@.len() as int) =~= Seq::<RequiredModule>::empty());
        self.modules = modules;
        self.extra_plain_items = extra_plain_items;
        assert(self.bindings() == no_bindings());
        self.register_module_bindings();
        Ok(())
    }

    /// Bind the names that the required modules and the extra item imports
    /// bring into scope.
    fn register_module_bindings(&mut self)
        ensures
            final(self).bindings() == ({
                let b = modules_bindings(old(self).bindings(), old(self).modules(), old(self).modules().len() as int);
                Bindings {
                    plain: extra_bindings(b.plain, old(self).extra_plain_items@, old(self).extra_plain_items@.len() as int),
                    ..b
                }
            }),
            final(self).unit() == old(self).unit(),
            final(self).modules() == old(self).modules(),
            final(self).extra_plain_items@ == old(self).extra_plain_items@,
            final(self).loader() == old(self).loader(),
    {
        let mut i: usize = 0;
        while i < self.modules.len()
            invariant
                0 <= i <= self.modules@.len(),
                self.bindings() == modules_bindings(old(self).bindings(), old(self).modules(), i as int),
                self.unit() == old(self).unit(),
                self.modules() == old(self).modules(),
                self.extra_plain_items@ == old(self).extra_plain_items@,
                self.loader() == old(self).loader(),
            decreases self.modules@.len() - i,
        {
            let ghost b0 = self.bindings();
            let m = &self.modules[i];
            match &m.alias {
                Some(a) => {
                    self.aliases.insert(a.clone(), m.path.clone());
                    assert(self.aliases() =~= b0.aliases.insert(a@, m.path@));
                    match &m.item {
                        Some(it) => {
                            self.item_aliases.insert(a.clone(), it.clone());
                            assert(self.item_aliases() =~= b0.item_aliases.insert(a@, it@));
                        },
                        None => {},
                    }
                },
                None => match &m.item {
                    Some(it) => {
                        self.plain_funcs.insert(it.clone(), joined(m.path.as_str(), it.as_str()));
                        assert(self.plain_funcs() =~= b0.plain.insert(it@, join_path(m.path@, it@)));
                    },
                    None => {
                        let items = &m.program.items;
                        let mut j: usize = 0;
                        while j < items.len()
                            invariant
                                0 <= j <= items@.len(),
                                self.plain_funcs() == public_fn_bindings(b0.plain, m.path@, items@.take(j as int)),
                                i < self.modules@.len(),
                                self.modules@ == old(self).modules@,
                                items@ == self.modules@[i as int].program.items@,
                                m.path@ == self.modules@[i as int].path@,
                                self.aliases() == b0.aliases,
                                self.item_aliases() == b0.item_aliases,
                                self.unit() == old(self).unit(),
                                self.extra_plain_items@ == old(self).extra_plain_items@,
                                self.loader() == old(self).loader(),
                            decreases items@.len() - j,
                        {
                            assert(items@.take(j + 1).drop_last() =~= items@.take(j as int));
                            assert(items@.take(j + 1).last() == items@[j as int]);
                            match &items[j].kind {
                                StmtKind::Function(f) => {
                                    if let Some(Visibility::Public) = f.visibility {
                                        let ghost before = self.plain_funcs();
                                        self.plain_funcs.insert(f.name.clone(), joined(m.path.as_str(), f.name.as_str()));
                                        assert(self.plain_funcs() =~= before.insert(f.name@, join_path(m.path@, f.name@)));
                                    }
                                },
                                _ => {},
                            }
                            j += 1;
                        }
                        assert(items@.take(items@.len() as int) =~= items@);
                    },
                },
            }
            assert(self.bindings() == module_binding(b0, self.modules@[i as int]));
            i += 1;
        }
        let ghost b1 = self.bindings();
        let mut k: usize = 0;
        while k < self.extra_plain_items.len()
            invariant
                0 <= k <= self.extra_plain_items@.len(),
                self.bindings() == (Bindings {
                    plain: extra_bindings(b1.plain, self.extra_plain_items@, k as int),
                    ..b1
                }),
                self.extra_plain_items@ == old(self).extra_plain_items@,
                self.unit() == old(self).unit(),
                self.modules() == old(self).modules(),
                self.loader() == old(self).loader(),
            decreases self.extra_plain_items@.len() - k,
        {
            let e = &self.extra_plain_items[k];
            self.plain_funcs.insert(e.1.clone(), joined(e.0.as_str(), e.1.as_str()));
            assert(self.plain_funcs() =~= extra_bindings(b1.plain, self.extra_plain_items@, k + 1));
            k += 1;
        }
    }

    /// The function registered under `fq`, if one is.
    pub fn function(&self, fq: &str) -> (r: Option<&FuncEntry>)
        ensures
            match r {
                Some(e) => self.unit().funcs.contains_key(fq@) && func_view(*e) == self.unit().funcs[fq@],
                None => !self.unit().funcs.contains_key(fq@),
            },
    {
        self.funcs.get(fq)
    }

    /// Whether `name` is registered as public.
    pub fn is_public_name(&self, name: &str) -> (r: bool)
        ensures
            r == self.unit().public.contains(name@),
    {
        self.public_funcs.contains_key(name)
    }

    /// The registered declarations.
    pub fn types(&self) -> (r: &TypeRegistry)
        ensures
            r.view() == self.unit().types,
    {
        &self.types
    }

    /// The module path that alias `name` names.
    pub fn alias(&self, name: &str) -> (r: Option<&String>)
        ensures
            match r {
                Some(p) => self.aliases().contains_key(name@) && p@ == self.aliases()[name@],
                None => !self.aliases().contains_key(name@),
            },
    {
        self.aliases.get(name)
    }

    /// The fully-qualified name that bare name `name` is bound to.
    pub fn plain_func(&self, name: &str) -> (r: Option<&String>)
        ensures
            match r {
                Some(p) => self.plain_funcs().contains_key(name@) && p@ == self.plain_funcs()[name@],
                None => !self.plain_funcs().contains_key(name@),
            },
    {
        self.plain_funcs.get(name)
    }

    /// The one item that alias `name` imports.
    pub fn item_alias(&self, name: &str) -> (r: Option<&String>)
        ensures
            match r {
                Some(p) => self.item_aliases().contains_key(name@) && p@ == self.item_aliases()[name@],
                None => !self.item_aliases().contains_key(name@),
            },
    {
        self.item_aliases.get(name)
    }

    /// The fully-qualified name of the function that `target` calls, from
    /// function `caller_fq` of `module`; `locals` holds the runtime kinds of
    /// the caller's locals.
    pub fn resolve_call_name(
        &self,
        target: &Expr,
        locals: &NameMap<u64>,
        module: Option<&str>,
        caller_fq: &str,
        span: Span,
    ) -> (r: Result<String, InterpretError>)
        ensures
            match call_name_spec(
                self.unit().funcs,
                self.bindings(),
                self.unit().types.structs,
                locals@,
                *target,
                match module {
                    Some(m) => Some(m@),
                    None => None,
                },
                caller_fq@,
            ) {
                Ok(n) => r matches Ok(s) && s@ == n,
                Err(f) => r matches Err(e) && reports_call(f, e, span),
            },
    {
        match target {
            Expr::Variable { name } => {
                let nested = joined(caller_fq, name.as_str());
                if self.funcs.contains_key(nested.as_str()) {
                    return Ok(nested);
                }
                if let Some(mod_path) = module {
                    let fq = joined(mod_path, name.as_str());
                    if self.funcs.contains_key(fq.as_str()) {
                        return Ok(fq);
                    }
                }
                if let Some(plain) = self.plain_funcs.get(name.as_str()) {
                    return Ok(plain.clone());
                }
                Ok(name.clone())
            },
            Expr::Member { base, member } => {
                if let Expr::Variable { name } = &**base {
                    if let Some(path) = self.aliases.get(name.as_str()) {
                        if let Some(item) = self.item_aliases.get(name.as_str()) {
                            if !crate::text::str_eq(item.as_str(), member.as_str()) {
                                let mut m = owned("module '");
                                push_str(&mut m, path.as_str());
                                push_str(&mut m, "' only exports '");
                                push_str(&mut m, item.as_str());
                                push_str(&mut m, "' (not '");
                                push_str(&mut m, member.as_str());
                                push_str(&mut m, "')");
                                return Err(InterpretError::new(m, span, owned("E330")));
                            }
                        }
                        return Ok(joined(path.as_str(), member.as_str()));
                    }
                    if let Some(kind) = locals.get(name.as_str()) {
                        if *kind & 0xff == KIND_STRUCT {
                            let sid = (*kind >> 8u64) as u32;
                            if (sid as usize) < self.types.struct_count() {
                                let method = joined(self.types.struct_name(sid as usize), member.as_str());
                                if self.funcs.contains_key(method.as_str()) {
                                    return Ok(method);
                                }
                            }
                        }
                    }
                }
                Err(InterpretError::unsupported("method call / complex call target", span))
            },
            _ => Err(InterpretError::new(owned("'call' target must be a function name"), span, owned("E329"))),
        }
    }

    /// Whether `alias` names the module `std.loop`.
    pub fn is_std_loop_alias(&self, alias: &str) -> (r: bool)
        ensures
            r == (self.aliases().contains_key(alias@) && self.aliases()[alias@] == "std.loop"@),
    {
        match self.aliases.get(alias) {
            Some(p) => crate::text::str_eq(p.as_str(), "std.loop"),
            None => false,
        }
    }

    /// Register the methods of `imp`.
    fn register_implement(&mut self, module: &Option<String>, imp: &Implement)
        ensures
            final(self).unit() == implement_state(old(self).unit(), opt_view(*module), *imp, imp.functions@.len() as int),
            final(self).aliases() == old(self).aliases(),
            final(self).plain_funcs() == old(self).plain_funcs(),
            final(self).item_aliases() == old(self).item_aliases(),
            final(self).loader() == old(self).loader(),
    {
        let ghost m = opt_view(*module);
        let mut i: usize = 0;
        while i < imp.functions.len()
            invariant
                0 <= i <= imp.functions@.len(),
                m == opt_view(*module),
                self.unit() == implement_state(old(self).unit(), m, *imp, i as int),
                self.aliases() == old(self).aliases(),
                self.plain_funcs() == old(self).plain_funcs(),
                self.item_aliases() == old(self).item_aliases(),
                self.loader() == old(self).loader(),
            decreases imp.functions@.len() - i,
        {
            let f = &imp.functions[i];
            let short = joined(imp.target.as_str(), f.name.as_str());
            let fq = match module {
                Some(p) => joined(p.as_str(), short.as_str()),
                None => short.clone(),
            };
            if let Some(Visibility::Public) = f.visibility {
                self.insert_public(fq.clone());
                self.insert_public(short.clone());
            }
            self.register_function_tree(module, fq, f, true);
            if module.is_some() {
                self.insert_func(short, module, true);
            }
            i += 1;
        }
    }

    /// Register the top-level items of a unit in order; the first failing
    /// declaration is the error.
    fn register_unit(&mut self, module: &Option<String>, items: &Vec<Stmt>) -> (r: Result<(), InterpretError>)
        requires
            struct_sizes_fit(items@),
        ensures
            final(self).unit() == unit_state(old(self).unit(), opt_view(*module), items@).0,
            outcome(unit_state(old(self).unit(), opt_view(*module), items@).1, r),
            final(self).aliases() == old(self).aliases(),
            final(self).plain_funcs() == old(self).plain_funcs(),
            final(self).item_aliases() == old(self).item_aliases(),
            final(self).loader() == old(self).loader(),
    {
        let ghost m = opt_view(*module);
        let ghost all = unit_state(old(self).unit(), m, items@);
        let mut i: usize = 0;
        assert(items@.skip(0) =~= items@);
        while i < items.len()
            invariant
                0 <= i <= items@.len(),
                m == opt_view(*module),
                struct_sizes_fit(items@),
                all == unit_state(old(self).unit(), m, items@),
                all == unit_state(self.unit(), m, items@.skip(i as int)),
                self.aliases() == old(self).aliases(),
                self.plain_funcs() == old(self).plain_funcs(),
                self.item_aliases() == old(self).item_aliases(),
                self.loader() == old(self).loader(),
            decreases items@.len() - i,
        {
            let ghost before = self.unit();
            let ghost step = item_state(before, m, items@[i as int]);
            assert(items@.skip(i as int)[0] == items@[i as int]);
            assert(items@.skip(i as int).drop_first() =~= items@.skip(i + 1));
            let item = &items[i];
            let res: Result<(), InterpretError> = match &item.kind {
                StmtKind::Struct(d) => {
                    assert(struct_size_fits(items@[i as int]));
                    self.types.register_struct(d)
                },
                StmtKind::Enum(d) => self.types.register_enum(d),
                StmtKind::Union(d) => self.types.register_union(d),
                StmtKind::Error(d) => {
                    self.types.register_error(d);
                    Ok(())
                },
                StmtKind::Implement(imp) => {
                    self.register_implement(module, imp);
                    Ok(())
                },
                StmtKind::Function(f) => {
                    let keep = match module {
                        None => true,
                        Some(_) => match f.visibility {
                            Some(Visibility::Public) => true,
                            _ => false,
                        },
                    };
                    if keep {
                        let fq = match module {
                            Some(p) => joined(p.as_str(), f.name.as_str()),
                            None => f.name.clone(),
                        };
                        self.register_function_tree(module, fq, f, false);
                    }
                    Ok(())
                },
                _ => Ok(()),
            };
            assert(self.unit() == step.0);
            assert(outcome(step.1, res));
            if res.is_err() {
                assert(step.1 is Some);
                assert(unit_state(before, m, items@.skip(i as int)) == step);
                return res;
            }
            assert(step.1 is None);
            assert(unit_state(before, m, items@.skip(i as int)) == unit_state(step.0, m, items@.skip(i + 1)));
            i += 1;
        }
        assert(items@.skip(items@.len() as int) =~= Seq::<Stmt>::empty());
        Ok(())
    }

    /// Register `f` and the functions nested in it under `fq`.
    fn register_function_tree(&mut self, module: &Option<String>, fq: String, f: &Function, is_method: bool)
        ensures
            final(self).unit() == tree_state(old(self).unit(), opt_view(*module), fq@, *f, is_method),
            final(self).aliases() == old(self).aliases(),
            final(self).plain_funcs() == old(self).plain_funcs(),
            final(self).item_aliases() == old(self).item_aliases(),
            final(self).loader() == old(self).loader(),
        decreases f,
    {
        let ghost m = opt_view(*module);
        if let Some(Visibility::Public) = f.visibility {
            self.insert_public(fq.clone());
        }
        let ghost st1 = self.unit();
        let mut i: usize = 0;
        while i < f.body.len()
            invariant
                0 <= i <= f.body@.len(),
                m == opt_view(*module),
                self.unit() == nested_state(st1, m, fq@, f.body@.take(i as int)),
                self.aliases() == old(self).aliases(),
                self.plain_funcs() == old(self).plain_funcs(),
                self.item_aliases() == old(self).item_aliases(),
                self.loader() == old(self).loader(),
            decreases f.body@.len() - i,
        {
            let ghost pre = f.body@.take(i as int);
            assert(f.body@.take(i + 1).drop_last() =~= pre);
            assert(f.body@.take(i + 1).last() == f.body@[i as int]);
            match &f.body[i].kind {
                StmtKind::Function(nf) => {
                    assert(decreases_to!(f => f.body));
                    assert(decreases_to!(f.body => f.body@));
                    assert(decreases_to!(f.body@ => f.body@[i as int]));
                    let nested = joined(fq.as_str(), nf.name.as_str());
                    self.register_function_tree(module, nested, nf, false);
                },
                _ => {},
            }
            i += 1;
        }
        assert(f.body@.take(f.body@.len() as int) =~= f.body@);
        self.insert_func(fq, module, is_method);
    }
}

impl Default for Interpreter {
    fn default() -> (r: Self)
        ensures
            r.unit() == empty_unit(),
            r.bindings() == no_bindings(),
            r.modules() == Seq::<RequiredModule>::empty(),
            r.loader().paths() == Seq::<Seq<char>>::empty(),
    {
        Self::new()
    }
}

/// The interpreter as a read-eval session keeps it.
pub struct EvalContext {
    interp: Interpreter,
}

impl EvalContext {
    /// The interpreter this session drives.
    pub closed spec fn interp(&self) -> Interpreter {
        self.interp
    }

    pub fn new() -> (r: Self)
        ensures
            r.interp().unit() == empty_unit(),
            r.interp().bindings() == no_bindings(),
            r.interp().modules() == Seq::<RequiredModule>::empty(),
            r.interp().loader().paths() == Seq::<Seq<char>>::empty(),
    {
        EvalContext { interp: Interpreter::new() }
    }

    /// Add a directory searched for user modules.
    pub fn add_module_search_path(&mut self, path: String)
        ensures
            final(self).interp().loader().paths() == old(self).interp().loader().paths().push(path@),
            final(self).interp().loader().modules() == old(self).interp().loader().modules(),
            final(self).interp().unit() == old(self).interp().unit(),
            final(self).interp().bindings() == old(self).interp().bindings(),
            final(self).interp().modules() == old(self).interp().modules(),
    {
        self.interp.add_module_search_path(path);
    }

    /// Load a checked program with its required modules (does not run it).
    pub fn load_program(&mut self, program: &Program, loaded: LoadedModules) -> (r: Result<(), InterpretError>)
        requires
            struct_sizes_fit(program.items@),
            forall|i: int| 0 <= i < loaded.modules@.len() ==> struct_sizes_fit(#[trigger] loaded.modules@[i].program.items@),
        ensures
            final(self).interp().unit() == load_state(*program, loaded.modules@).0,
            outcome(load_state(*program, loaded.modules@).1, r),
            r is Ok ==> final(self).interp().bindings() == load_bindings(loaded.modules@, loaded.extra_plain_items@),
            r is Err ==> final(self).interp().bindings() == no_bindings(),
            final(self).interp().modules() == loaded.modules@,
            final(self).interp().loader() == old(self).interp().loader(),
    {
        self.interp.load_program(program, loaded)
    }

    /// The interpreter this session drives.
    pub fn interpreter(&self) -> (r: &Interpreter)
        ensures
            *r == self.interp(),
    {
        &self.interp
    }
}

impl Default for EvalContext {
    fn default() -> (r: Self)
        ensures
            r.interp().unit() == empty_unit(),
            r.interp().bindings() == no_bindings(),
            r.interp().modules() == Seq::<RequiredModule>::empty(),
            r.interp().loader().paths() == Seq::<Seq<char>>::empty(),
    {
        Self::new()
    }
}

} // verus!
