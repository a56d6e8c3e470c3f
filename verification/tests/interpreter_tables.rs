use yarrow_core::compiler::error_types::ErrorTables;
use yarrow_core::compiler::modules::RequiredModule;
use yarrow_core::compiler::names::{is_std_intrinsic as compiler_intrinsic, item_name, require_public_export};
use yarrow_core::compiler::require_sites::{compiler_require_sites, interpreter_require_sites, require_parent, require_target};
use yarrow_core::compiler::types::{layout, Ty};
use yarrow_core::diagnostics::Span;
use yarrow_core::interpreter::name_map::NameMap;
use yarrow_core::interpreter::registry::{TypeRegistry, KIND_LIST, KIND_STRUCT};
use yarrow_core::interpreter::machine::is_std_intrinsic as interp_intrinsic;
use yarrow_core::interpreter::{EvalContext, Interpreter, LoadedModules, MemberTy, KIND_ERROR};
use yarrow_core::parser::ast::{
    EnumDecl, EnumMember, ErrorDecl, Expr, Field, Function, Implement, Primitive, Program, Stmt, StmtKind,
    StructDecl, Type, TypeKind, UnionDecl, Visibility,
};
use yarrow_core::token::Location;

fn at() -> Location {
    Location { line: 1, column: 1, offset: 0 }
}

fn prim(p: Primitive) -> Type {
    Type { kind: TypeKind::Primitive(p), location: at() }
}

fn named(n: &str) -> Type {
    Type { kind: TypeKind::Named(n.to_string()), location: at() }
}

fn field(name: &str, ty: Type) -> Field {
    Field { name: name.to_string(), ty, visibility: None }
}

fn item(kind: StmtKind) -> Stmt {
    Stmt::new(kind, Span::new(0, 1))
}

fn func(name: &str, public: bool, body: Vec<Stmt>) -> Function {
    Function {
        name: name.to_string(),
        visibility: if public { Some(Visibility::Public) } else { None },
        params: vec![],
        body,
        returns: vec![],
        is_unsafe: false,
    }
}

fn point_decl() -> StructDecl {
    StructDecl {
        name: "Point".to_string(),
        visibility: None,
        fields: vec![field("x", prim(Primitive::I32)), field("y", prim(Primitive::I64)), field("flag", prim(Primitive::Bool))],
    }
}

#[test]
fn struct_fields_are_laid_out_in_order_with_alignment() {
    let mut reg = TypeRegistry::new();
    reg.register_struct(&point_decl()).unwrap();
    let info = reg.struct_named("Point").unwrap();
    let got: Vec<(String, u64, i32, u32)> =
        info.fields.iter().map(|f| (f.name.clone(), f.kind, f.offset, f.size)).collect();
    assert_eq!(
        got,
        vec![("x".to_string(), 3, 0, 4), ("y".to_string(), 4, 8, 8), ("flag".to_string(), 0, 16, 1)]
    );
    assert_eq!(info.size, 24);

    let empty = StructDecl { name: "Unit".to_string(), visibility: None, fields: vec![] };
    reg.register_struct(&empty).unwrap();
    assert_eq!(reg.struct_named("Unit").unwrap().size, 1);

    let small = StructDecl {
        name: "Pair".to_string(),
        visibility: None,
        fields: vec![field("a", prim(Primitive::U8)), field("b", prim(Primitive::U16))],
    };
    reg.register_struct(&small).unwrap();
    let pair = reg.struct_named("Pair").unwrap();
    assert_eq!(pair.fields[1].offset, 2);
    assert_eq!(pair.size, 4);
}

#[test]
fn struct_fields_can_name_their_own_struct_and_registration_is_idempotent() {
    let mut reg = TypeRegistry::new();
    let node = StructDecl {
        name: "Node".to_string(),
        visibility: None,
        fields: vec![field("next", named("Node")), field("items", Type {
            kind: TypeKind::List { element: Box::new(prim(Primitive::I32)) },
            location: at(),
        })],
    };
    reg.register_struct(&node).unwrap();
    let info = reg.struct_named("Node").unwrap();
    assert_eq!(info.fields[0].kind, KIND_STRUCT);
    assert_eq!(info.fields[1].kind, KIND_LIST | (3 << 8));
    assert_eq!(reg.struct_count(), 1);
    reg.register_struct(&point_decl()).unwrap();
    reg.register_struct(&point_decl()).unwrap();
    assert_eq!(reg.struct_count(), 2);
    assert_eq!(reg.struct_name(1), "Point");
}

#[test]
fn unknown_field_type_is_unsupported() {
    let mut reg = TypeRegistry::new();
    let bad = StructDecl { name: "Bad".to_string(), visibility: None, fields: vec![field("f", named("Nope"))] };
    let err = reg.register_struct(&bad).unwrap_err();
    assert_eq!(err.code, "E393");
    assert_eq!(err.message, "interpreter does not support field type 'Nope' yet");
    assert!(reg.struct_named("Bad").is_none());
    let wide = StructDecl { name: "Wide".to_string(), visibility: None, fields: vec![field("w", prim(Primitive::I128))] };
    let err = reg.register_struct(&wide).unwrap_err();
    assert!(err.message.starts_with("interpreter does not support field type "));
    assert_eq!(err.code, "E393");
}

#[test]
fn enum_members_count_up_from_the_last_value() {
    let mut reg = TypeRegistry::new();
    let color = EnumDecl {
        name: "Color".to_string(),
        underlying: None,
        members: vec![
            EnumMember { name: "Red".to_string(), value: None },
            EnumMember { name: "Green".to_string(), value: Some("5".to_string()) },
            EnumMember { name: "Blue".to_string(), value: None },
        ],
    };
    reg.register_enum(&color).unwrap();
    assert_eq!(reg.enum_value("Color", "Red"), Some(0));
    assert_eq!(reg.enum_value("Color", "Green"), Some(5));
    assert_eq!(reg.enum_value("Color", "Blue"), Some(6));
    assert_eq!(reg.enum_value("Color", "Pink"), None);

    let broken = EnumDecl {
        name: "Broken".to_string(),
        underlying: None,
        members: vec![
            EnumMember { name: "A".to_string(), value: Some("0x10".to_string()) },
            EnumMember { name: "B".to_string(), value: Some("0xZZ".to_string()) },
        ],
    };
    let err = reg.register_enum(&broken).unwrap_err();
    assert_eq!(err.code, "E363");
    assert_eq!(err.message, "invalid integer literal '0xZZ'");
    assert_eq!(reg.enum_value("Broken", "A"), Some(16));
    assert_eq!(reg.type_kind_code(&named("Broken")), Some(4));
}

#[test]
fn union_members_and_unsupported_member_types() {
    let mut reg = TypeRegistry::new();
    let u = UnionDecl {
        name: "Value".to_string(),
        types: vec![prim(Primitive::I32), named("string"), named("Point")],
    };
    reg.register_union(&u).unwrap();
    let info = reg.union_named("Value").unwrap();
    assert_eq!(info.members, vec![MemberTy::Primitive(3), MemberTy::String, MemberTy::Named("Point".to_string())]);
    let arr = Type { kind: TypeKind::Array { element: Box::new(prim(Primitive::I32)), size: Some(2) }, location: at() };
    let bad = UnionDecl { name: "Bad".to_string(), types: vec![prim(Primitive::Bool), arr] };
    let err = reg.register_union(&bad).unwrap_err();
    assert_eq!(err.code, "E393");
    assert!(err.message.starts_with("interpreter does not support union member "));
    assert!(reg.union_named("Bad").is_none());
}

#[test]
fn error_members_get_interned_tags() {
    let mut reg = TypeRegistry::new();
    reg.register_error(&ErrorDecl {
        name: "AppError".to_string(),
        inject: None,
        members: vec!["NOT_FOUND".to_string(), "DENIED".to_string()],
    });
    reg.register_error(&ErrorDecl { name: "Other".to_string(), inject: None, members: vec!["X".to_string()] });
    assert_eq!(reg.error_tag("AppError.NOT_FOUND"), Some(1));
    assert_eq!(reg.error_tag("AppError.DENIED"), Some(2));
    assert_eq!(reg.error_tag("Other.X"), Some(3));
    assert_eq!(reg.intern_error_tag("AppError.DENIED"), 2);
    assert_eq!(reg.intern_error_tag("Fresh.KEY"), 4);
    assert_eq!(reg.error_member_tag(&named("error.DENIED")), Some(2));
    assert_eq!(reg.error_member_tag(&named("Other.X")), Some(3));
    assert_eq!(reg.error_member_tag(&named("Missing.X")), None);
    assert_eq!(reg.error_member_tag(&named("plain")), None);
    assert_eq!(reg.type_kind_code(&named("AppError")), Some(KIND_ERROR));
}

#[test]
fn type_kind_codes_follow_the_compiler_codes() {
    let mut reg = TypeRegistry::new();
    reg.register_struct(&point_decl()).unwrap();
    let list = Type { kind: TypeKind::List { element: Box::new(prim(Primitive::I32)) }, location: at() };
    assert_eq!(reg.type_kind_code(&list), Some(0x20 | (3 << 8)));
    assert_eq!(reg.type_kind_code(&named("Point")), Some(0x40));
    assert_eq!(reg.type_kind_code(&named("u8")), Some(6));
    assert_eq!(reg.type_kind_code(&named("Nothing")), None);
    let arr = Type { kind: TypeKind::Array { element: Box::new(prim(Primitive::U8)), size: Some(4) }, location: at() };
    assert_eq!(reg.type_kind_code(&arr), Some(0x60 | (6 << 8) | (4 << 40)));
    assert_eq!(reg.field_layout(&named("string")).unwrap(), (16, 8, 8));
}

fn sample_program() -> Program {
    let inner = func("inner", false, vec![]);
    let helper = func("helper", false, vec![item(StmtKind::Function(inner))]);
    let method = func("len", true, vec![]);
    Program {
        items: vec![
            item(StmtKind::Struct(point_decl())),
            item(StmtKind::Function(func("main", false, vec![]))),
            item(StmtKind::Function(helper)),
            item(StmtKind::Implement(Implement { target: "Point".to_string(), functions: vec![method] })),
        ],
    }
}

fn sample_modules() -> LoadedModules {
    let math = RequiredModule {
        path: "std.math".to_string(),
        alias: Some("math".to_string()),
        item: None,
        program: Program {
            items: vec![
                item(StmtKind::Function(func("sqrt", true, vec![]))),
                item(StmtKind::Function(func("hidden", false, vec![]))),
            ],
        },
    };
    let util = RequiredModule {
        path: "util".to_string(),
        alias: None,
        item: None,
        program: Program { items: vec![item(StmtKind::Function(func("f", true, vec![])))] },
    };
    LoadedModules { modules: vec![math, util], extra_plain_items: vec![("std.math".to_string(), "sqrt".to_string())] }
}

#[test]
fn loading_registers_functions_methods_and_bindings() {
    let mut interp = Interpreter::new();
    interp.load_program(&sample_program(), sample_modules()).unwrap();
    assert!(interp.function("main").is_some());
    let inner = interp.function("helper::inner").unwrap();
    assert_eq!(inner.fq, "helper::inner");
    assert!(!inner.is_method);
    assert!(interp.function("Point::len").unwrap().is_method);
    assert!(interp.is_public_name("Point::len"));
    let sqrt = interp.function("std.math::sqrt").unwrap();
    assert_eq!(sqrt.module.as_deref(), Some("std.math"));
    assert!(interp.function("std.math::hidden").is_none());
    assert_eq!(interp.alias("math").map(|s| s.as_str()), Some("std.math"));
    assert_eq!(interp.plain_func("f").map(|s| s.as_str()), Some("util::f"));
    assert_eq!(interp.plain_func("sqrt").map(|s| s.as_str()), Some("std.math::sqrt"));
    assert!(interp.types().struct_named("Point").is_some());

    // A second load forgets the first.
    interp.load_program(&Program { items: vec![] }, LoadedModules { modules: vec![], extra_plain_items: vec![] }).unwrap();
    assert!(interp.function("main").is_none());
    assert!(interp.alias("math").is_none());
}

#[test]
fn a_failing_declaration_stops_loading() {
    let mut interp = Interpreter::new();
    let bad = StructDecl { name: "Bad".to_string(), visibility: None, fields: vec![field("f", named("Nope"))] };
    let program = Program {
        items: vec![
            item(StmtKind::Function(func("first", false, vec![]))),
            item(StmtKind::Struct(bad)),
            item(StmtKind::Function(func("later", false, vec![]))),
        ],
    };
    let err = interp.load_program(&program, sample_modules()).unwrap_err();
    assert_eq!(err.code, "E393");
    assert!(interp.function("first").is_some());
    assert!(interp.function("later").is_none());
    assert!(interp.alias("math").is_none());
}

#[test]
fn call_targets_resolve_to_functions() {
    let mut interp = Interpreter::new();
    interp.load_program(&sample_program(), sample_modules()).unwrap();
    let sp = Span::new(3, 7);
    let mut locals: NameMap<u64> = NameMap::new();
    locals.insert("p".to_string(), KIND_STRUCT);
    let var = |n: &str| Expr::Variable { name: n.to_string() };
    let member = |b: &str, m: &str| Expr::Member { base: Box::new(var(b)), member: m.to_string() };
    assert_eq!(interp.resolve_call_name(&var("inner"), &locals, None, "helper", sp).unwrap(), "helper::inner");
    assert_eq!(interp.resolve_call_name(&var("f"), &locals, None, "main", sp).unwrap(), "util::f");
    assert_eq!(interp.resolve_call_name(&var("zzz"), &locals, None, "main", sp).unwrap(), "zzz");
    assert_eq!(interp.resolve_call_name(&member("math", "sqrt"), &locals, None, "main", sp).unwrap(), "std.math::sqrt");
    assert_eq!(interp.resolve_call_name(&member("p", "len"), &locals, None, "main", sp).unwrap(), "Point::len");
    let err = interp.resolve_call_name(&member("q", "len"), &locals, None, "main", sp).unwrap_err();
    assert_eq!(err.code, "E393");
    assert_eq!(err.message, "interpreter does not support method call / complex call target yet");
    let err = interp.resolve_call_name(&Expr::Bool { value: true }, &locals, None, "main", sp).unwrap_err();
    assert_eq!(err.code, "E329");
    assert_eq!(err.span, sp);
}

#[test]
fn an_item_alias_only_exports_its_item() {
    let mut interp = Interpreter::new();
    let m = RequiredModule {
        path: "std.math".to_string(),
        alias: Some("sq".to_string()),
        item: Some("sqrt".to_string()),
        program: Program { items: vec![item(StmtKind::Function(func("sqrt", true, vec![])))] },
    };
    interp
        .load_program(&Program { items: vec![] }, LoadedModules { modules: vec![m], extra_plain_items: vec![] })
        .unwrap();
    let locals: NameMap<u64> = NameMap::new();
    let target = Expr::Member { base: Box::new(Expr::Variable { name: "sq".to_string() }), member: "cos".to_string() };
    let err = interp.resolve_call_name(&target, &locals, None, "main", Span::new(0, 1)).unwrap_err();
    assert_eq!(err.code, "E330");
    assert_eq!(err.message, "module 'std.math' only exports 'sqrt' (not 'cos')");
}

#[test]
fn eval_context_loads_programs() {
    let mut ctx = EvalContext::new();
    ctx.add_module_search_path("lib".to_string());
    ctx.load_program(&sample_program(), sample_modules()).unwrap();
    assert!(ctx.interpreter().function("main").is_some());
    let d = EvalContext::default();
    assert!(d.interpreter().function("main").is_none());
}

#[test]
fn interpreter_and_compiler_lay_out_primitive_structs_alike() {
    let mut reg = TypeRegistry::new();
    let decl = StructDecl {
        name: "Mixed".to_string(),
        visibility: None,
        fields: vec![
            field("a", prim(Primitive::U8)),
            field("b", prim(Primitive::I32)),
            field("c", prim(Primitive::U16)),
            field("d", prim(Primitive::F64)),
            field("e", prim(Primitive::Bool)),
        ],
    };
    reg.register_struct(&decl).unwrap();
    let ours = reg.struct_named("Mixed").unwrap();
    let theirs = layout(
        "Mixed",
        vec![
            ("a".to_string(), Ty::U8),
            ("b".to_string(), Ty::I32),
            ("c".to_string(), Ty::U16),
            ("d".to_string(), Ty::F64),
            ("e".to_string(), Ty::Bool),
        ],
    );
    let a: Vec<i32> = ours.fields.iter().map(|f| f.offset).collect();
    let b: Vec<i32> = theirs.fields.iter().map(|f| f.offset).collect();
    assert_eq!(a, vec![0, 4, 8, 16, 24]);
    assert_eq!(a, b);
    assert_eq!(ours.size, theirs.size);
    assert_eq!(ours.size, 32);
}

#[test]
fn compiler_error_tables_fill_and_inject_members() {
    use_error_tables();
}

fn use_error_tables() {
    let mut t = ErrorTables::new();
    t.declare("Error");
    t.declare("AppError");
    t.declare("NetError");
    let builtin = ErrorDecl { name: "Error".to_string(), inject: None, members: vec!["OUT_OF_MEMORY".to_string()] };
    let app = ErrorDecl {
        name: "AppError".to_string(),
        inject: Some("Error".to_string()),
        members: vec!["NOT_FOUND".to_string()],
    };
    // Injecting from a type that has no members yet is refused.
    let err = t.fill_error_type(&app).unwrap_err();
    assert_eq!(err.code(), "E308");
    assert_eq!(err.message(), "error type 'Error' has no members to inject (declare it before dependents)");
    t.fill_error_type(&builtin).unwrap();
    t.fill_error_type(&app).unwrap();
    assert_eq!(t.error_tag("OUT_OF_MEMORY"), 1);
    assert_eq!(t.error_tag("AppError.NOT_FOUND"), 2);
    assert_eq!(t.lookup_error_type("net.NetError").unwrap(), 2);
    assert_eq!(t.lookup_error_type("Nope").unwrap_err().code(), "E302");
    assert!(t.is_error_type_path("mod.AppError"));
    assert!(!t.is_error_type_path("Point"));
    let named = |n: &str| Type { kind: TypeKind::Named(n.to_string()), location: at() };
    assert_eq!(t.error_member_tag_from_type(&named("AppError.OUT_OF_MEMORY")), Some(1));
    assert_eq!(t.error_member_tag_from_type(&named("AppError.NOT_FOUND")), Some(2));
    assert_eq!(t.error_member_tag_from_type(&named("error.NOT_FOUND")), Some(2));
    assert_eq!(t.error_member_tag_from_type(&named("error.OUT_OF_MEMORY")), Some(1));
    assert!(t.type_is_error(&named("AppError"), Ty::I32));
    assert!(t.type_is_error(&prim(Primitive::Error), Ty::I32));
    assert!(!t.type_is_error(&named("Point"), Ty::I32));
    let dup = ErrorDecl {
        name: "NetError".to_string(),
        inject: None,
        members: vec!["DOWN".to_string(), "DOWN".to_string()],
    };
    let err = t.fill_error_type(&dup).unwrap_err();
    assert_eq!(err.message(), "error type 'NetError' has duplicate member 'DOWN'");
    assert_eq!(t.error_tag("NetError.DOWN"), 3);
    let unknown = ErrorDecl { name: "Ghost".to_string(), inject: None, members: vec![] };
    assert_eq!(t.fill_error_type(&unknown).unwrap_err().message(), "unknown error type 'Ghost'");
}

#[test]
fn item_names_and_intrinsics() {
    assert_eq!(item_name(Some("std.io"), "write"), "std.io::write");
    assert_eq!(item_name(None, "main"), "main");
    assert!(compiler_intrinsic("std.region::create"));
    assert!(compiler_intrinsic("std.map::put"));
    assert!(!compiler_intrinsic("std.io::write"));
    assert!(interp_intrinsic("std.list::len"));
    assert!(!interp_intrinsic("std.region::create"));
}

#[test]
fn only_public_functions_cross_a_require() {
    let mut public: NameMap<()> = NameMap::new();
    public.insert("helpers.text::shout".to_string(), ());
    assert!(require_public_export("main", None, &public).is_ok());
    assert!(require_public_export("Point::len", None, &public).is_ok());
    assert!(require_public_export("helpers.text::shout", None, &public).is_ok());
    assert!(require_public_export("helpers.text::whisper", Some("helpers.text"), &public).is_ok());
    let err = require_public_export("helpers.text::whisper", Some("other"), &public).unwrap_err();
    assert_eq!(err.code(), "E381");
    assert_eq!(err.message(), "'helpers.text::whisper' is not public and cannot be used across 'require'");
    let d = err.diagnostic;
    assert_eq!(d.notes, vec!["only `public` functions are visible to other modules via `require`".to_string()]);
    assert_eq!(d.helps, vec!["mark the function `public`, or call it only from within `helpers.text`".to_string()]);
}

fn require(path: &str, alias: Option<&str>) -> Stmt {
    item(StmtKind::Require { path: path.to_string(), alias: alias.map(|a| a.to_string()) })
}

#[test]
fn require_sites_follow_load_order() {
    let nested = func("deep", false, vec![require("deep.mod", None)]);
    let body = vec![
        require("in.main", Some("m")),
        item(StmtKind::If {
            condition: Expr::Bool { value: true },
            then_branch: vec![require("in.then", None)],
            else_branch: vec![require("in.else", None)],
        }),
        item(StmtKind::Function(nested)),
    ];
    let program = Program {
        items: vec![
            require("top", None),
            item(StmtKind::Function(func("main", false, body))),
            item(StmtKind::Implement(Implement {
                target: "Point".to_string(),
                functions: vec![func("len", false, vec![require("in.method", None)])],
            })),
        ],
    };
    let paths = |v: Vec<(String, Option<String>, Span)>| v.into_iter().map(|s| s.0).collect::<Vec<_>>();
    assert_eq!(
        paths(compiler_require_sites(&program)),
        vec!["top", "in.main", "in.then", "in.else", "in.method"]
    );
    assert_eq!(
        paths(interpreter_require_sites(&program)),
        vec!["top", "in.main", "in.then", "in.else", "deep.mod"]
    );
    let sites = interpreter_require_sites(&program);
    assert_eq!(sites[1].1.as_deref(), Some("m"));
}

#[test]
fn a_required_path_may_name_a_function() {
    let parent = Program { items: vec![item(StmtKind::Function(func("sqrt", true, vec![])))] };
    assert_eq!(require_parent("std.math.sqrt").as_deref(), Some("std.math"));
    assert_eq!(require_parent("plain"), None);
    assert_eq!(require_target("std.math.sqrt", Some(&parent)), ("std.math".to_string(), Some("sqrt".to_string())));
    assert_eq!(require_target("std.math.cos", Some(&parent)), ("std.math.cos".to_string(), None));
    assert_eq!(require_target("std.math.sqrt", None), ("std.math.sqrt".to_string(), None));
    assert_eq!(require_target("plain", Some(&parent)), ("plain".to_string(), None));
}

#[test]
fn std_loop_alias_is_recognised() {
    let mut interp = Interpreter::new();
    let m = RequiredModule {
        path: "std.loop".to_string(),
        alias: Some("lp".to_string()),
        item: None,
        program: Program { items: vec![] },
    };
    interp.load_program(&Program { items: vec![] }, LoadedModules { modules: vec![m], extra_plain_items: vec![] }).unwrap();
    assert!(interp.is_std_loop_alias("lp"));
    assert!(!interp.is_std_loop_alias("other"));
}
