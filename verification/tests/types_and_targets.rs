use yarrow_core::compiler::types::{
    align_of, coercible, common_type, elem_code, elem_ty, error_return, kind_code, layout, primitive_ty,
    resolve, resolve_in, scalar_ty, Ty,
};
use yarrow_core::link::{gnu_link_args, link_route, missing_crt, GnuCrtFiles, LinkError, LinkFlavor};
use yarrow_core::compiler::lowering::{
    collect_strings, float_mod_pow_error, for_source_is_condition, format_stack_tys, format_ty,
    if_merge_ty_from_then, infer_array_count, int_literal_ty, loop_helper_parts, merge_type,
    stack_effect_note, TypeNames,
};
use yarrow_core::diagnostics::Span;
use yarrow_core::interpreter::{
    fallible_payload, int_literal_kind, kind_elem_size, members_compatible, primitive_kind_code,
    primitive_to_kind, InterpretError, MemberTy, KIND_ERROR,
};
use yarrow_core::interpreter::operators::{
    eval_bool_bin, eval_int_bin, int_not, int_pow, wrapping_div, wrapping_rem, IntBinValue,
};
use yarrow_core::interpreter::stack_ops::shuffle_stack;
use yarrow_core::parser::ast::{StackOp, BinOp, Expr, Primitive, Stmt, StmtKind, Type, TypeKind};
use yarrow_core::target::{supported_triple_names, TargetTriple};
use yarrow_core::parser::debug_text::type_debug_text;
use yarrow_core::runtime::{archive_override_key, archive_table_lookup, missing_archive_message};
use yarrow_core::token::Location;

fn loc() -> Location {
    Location::new(1, 1, 0)
}

fn prim(p: Primitive) -> Type {
    Type { kind: TypeKind::Primitive(p), location: loc() }
}

#[test]
fn scalar_codes_round_trip() {
    for t in [Ty::Bool, Ty::I8, Ty::I32, Ty::U64, Ty::Rune, Ty::F32, Ty::F128] {
        let c = t.scalar_code().unwrap();
        assert_eq!(scalar_ty(c), t);
    }
    assert_eq!(Ty::Enum(3).scalar_code(), Some(4));
    assert_eq!(scalar_ty(4), Ty::I64);
    assert_eq!(Ty::String.scalar_code(), None);
}

#[test]
fn element_codes_round_trip() {
    let list = Ty::List { elem: 16 };
    assert_eq!(kind_code(list), 0x20 | (16 << 8));
    assert_eq!(elem_ty(elem_code(list).unwrap()), list);
    let map = Ty::Hashmap { key: 3, value: 16 };
    assert_eq!(kind_code(map), 0x30 | (3 << 8) | (16 << 40));
    assert_eq!(elem_ty(kind_code(map)), map);
    assert_eq!(elem_ty(elem_code(Ty::Struct(7)).unwrap()), Ty::Struct(7));
    assert_eq!(elem_code(Ty::Array { elem: 3, count: 4 }), Some(0x50));
    assert_eq!(kind_code(Ty::Array { elem: 3, count: 4 }), 0x50);
    assert_eq!(kind_code(Ty::Ptr(7)), 0x50);
    assert_eq!(kind_code(Ty::Union(1)), 0x170);
    assert_eq!(kind_code(Ty::Enum(9)), 4);
    assert_eq!(elem_code(Ty::I128), None);
    assert_eq!(elem_code(Ty::U128), None);
    assert_eq!(elem_code(Ty::F128), None);
    assert_eq!(elem_code(Ty::Struct(2)), Some(0x240));
    assert_eq!(elem_ty(0x50), Ty::Ptr(0x50));
    assert_eq!(elem_code(Ty::Void), None);
}

#[test]
fn widths_and_alignment() {
    assert_eq!(Ty::Bool.bits(), 8);
    assert_eq!(Ty::U128.elem_size(), 16);
    assert_eq!(Ty::Void.elem_size(), 0);
    assert_eq!(align_of(Ty::F16), 2);
    assert_eq!(align_of(Ty::String), 8);
    assert!(Ty::I16.is_signed());
    assert!(!Ty::Rune.is_signed());
    assert!(Ty::Enum(0).is_int());
    assert!(Ty::List { elem: 1 }.is_pointer());
}

#[test]
fn struct_layout_aligns_fields() {
    let l = layout(
        "P",
        vec![("a".to_string(), Ty::Bool), ("b".to_string(), Ty::I64), ("c".to_string(), Ty::I16)],
    );
    assert_eq!(l.name, "P");
    let offsets: Vec<i32> = l.fields.iter().map(|f| f.offset).collect();
    assert_eq!(offsets, vec![0, 8, 16]);
    assert_eq!(l.size, 24);
    assert_eq!(l.align, 8);
    let empty = layout("E", vec![]);
    assert_eq!(empty.size, 1);
    assert_eq!(empty.align, 1);
}

#[test]
fn common_types_prefer_wider_then_signed() {
    assert_eq!(common_type(Ty::I32, Ty::I64), Some(Ty::I64));
    assert_eq!(common_type(Ty::U32, Ty::I32), Some(Ty::I32));
    assert_eq!(common_type(Ty::I32, Ty::U32), Some(Ty::I32));
    assert_eq!(common_type(Ty::F32, Ty::I32), None);
    assert_eq!(common_type(Ty::Ptr(4), Ty::I64), Some(Ty::Ptr(4)));
    assert!(coercible(Ty::Bool, Ty::I32));
    assert!(coercible(Ty::I64, Ty::Bool));
    assert!(!coercible(Ty::String, Ty::F64));
}

#[test]
fn resolve_source_types() {
    let named = vec![("Point".to_string(), Ty::Struct(0))];
    assert_eq!(resolve(&prim(Primitive::I32), &named).unwrap(), Ty::I32);
    let p = Type { kind: TypeKind::Named("Point".to_string()), location: loc() };
    assert_eq!(resolve(&p, &named).unwrap(), Ty::Struct(0));
    let arr = Type { kind: TypeKind::Array { element: Box::new(prim(Primitive::U8)), size: Some(4) }, location: loc() };
    assert_eq!(resolve(&arr, &named).unwrap(), Ty::Array { elem: 6, count: 4 });
    let list = Type { kind: TypeKind::List { element: Box::new(prim(Primitive::String)) }, location: loc() };
    assert_eq!(resolve(&list, &named).unwrap(), Ty::List { elem: 16 });
    let unknown = Type { kind: TypeKind::Named("Nope".to_string()), location: loc() };
    let e = resolve(&unknown, &named).unwrap_err();
    assert_eq!(e.code(), "E302");
    assert_eq!(e.message(), "unknown or unsupported type 'Nope'");
    let wide = Type { kind: TypeKind::List { element: Box::new(prim(Primitive::I128)) }, location: loc() };
    assert_eq!(resolve(&wide, &named).unwrap_err().code(), "E303");
    let bad_arr = Type { kind: TypeKind::Array { element: Box::new(p), size: None }, location: loc() };
    let e = resolve(&bad_arr, &named).unwrap_err();
    assert_eq!(e.message(), "array element type Struct(0) is not yet supported");
    assert_eq!(primitive_ty(Primitive::Type), None);
}

#[test]
fn resolve_qualified_error_type() {
    let named = vec![("AppError".to_string(), Ty::Error), ("Point".to_string(), Ty::Struct(0))];
    let q = Type { kind: TypeKind::Named("errors.AppError".to_string()), location: loc() };
    assert_eq!(resolve(&q, &named).unwrap_err().code(), "E302");
    assert_eq!(resolve_in(&q, &named, true).unwrap(), Ty::Error);
    assert_eq!(resolve_in(&q, &named, false).unwrap_err().code(), "E302");
    let tail_only = vec![("Err".to_string(), Ty::Error)];
    let m_err = Type { kind: TypeKind::Named("m.Err".to_string()), location: loc() };
    assert_eq!(resolve(&m_err, &tail_only).unwrap_err().message(), "unknown or unsupported type 'm.Err'");
    let plain = Type { kind: TypeKind::Named("error".to_string()), location: loc() };
    assert_eq!(resolve(&plain, &named).unwrap(), Ty::Error);
    let not_error = Type { kind: TypeKind::Named("geo.Point".to_string()), location: loc() };
    assert_eq!(resolve(&not_error, &named).unwrap_err().code(), "E302");
    assert_eq!(resolve_in(&not_error, &named, true).unwrap_err().code(), "E302");
}

#[test]
fn fallible_returns() {
    assert_eq!(error_return(&[Ty::I32]).unwrap(), None);
    assert_eq!(error_return(&[Ty::I32, Ty::Error]).unwrap(), Some(Ty::I32));
    assert_eq!(error_return(&[Ty::Error]).unwrap(), Some(Ty::Void));
    assert_eq!(error_return(&[Ty::I32, Ty::I64, Ty::Error]).unwrap_err().code(), "E308");
}

#[test]
fn target_triples_classify() {
    let t = TargetTriple::parse(" x86_64-unknown-linux-gnu ").unwrap();
    assert_eq!(t.as_str(), "x86_64-unknown-linux-gnu");
    assert!(t.is_linux_gnu());
    assert_eq!(t.elf_emulation(), Some("elf_x86_64"));
    assert_eq!(t.dynamic_linker_name(), Some("ld-linux-x86-64.so.2"));
    assert_eq!(t.env_key_suffix(), "x86_64_unknown_linux_gnu");
    let m = TargetTriple::parse("aarch64-unknown-linux-musl").unwrap();
    assert!(m.is_linux_musl());
    assert_eq!(m.dynamic_linker_name(), Some("ld-musl-aarch64.so.1"));
    let w = TargetTriple::parse("x86_64-pc-windows-gnu").unwrap();
    assert!(w.is_windows_gnu() && w.is_non_elf_object() && !w.supports_executable_link());
    let d = TargetTriple::parse("aarch64-apple-darwin").unwrap();
    assert!(d.is_apple_darwin());
    let e = TargetTriple::parse("   ").err().unwrap();
    assert_eq!(e.message, "target triple must not be empty");
    assert!(TargetTriple::parse("not a triple at all").err().unwrap().message.starts_with("invalid target triple: "));
    assert_eq!(supported_triple_names().len(), 7);
}

#[test]
fn link_routes_and_arguments() {
    let gnu = TargetTriple::parse("x86_64-unknown-linux-gnu").unwrap();
    assert_eq!(link_route(&gnu, true).unwrap(), LinkFlavor::LinuxGnu);
    assert_eq!(link_route(&gnu, false).err().unwrap().code, "E394");
    let w = TargetTriple::parse("x86_64-pc-windows-gnu").unwrap();
    assert_eq!(link_route(&w, true).err().unwrap().code, "E397");
    let crt = GnuCrtFiles {
        scrt1: "S".to_string(),
        crti: "i".to_string(),
        crtn: "n".to_string(),
        crtbegin: "b".to_string(),
        crtend: "e".to_string(),
        dynamic_linker: "dl".to_string(),
        libgcc_a: None,
        lib_dirs: vec!["/lib".to_string()],
    };
    let args = gnu_link_args("out", "elf_x86_64", "p.o", "rt.a", &crt);
    let expected: Vec<&str> = vec![
        "-o", "out", "-pie", "--eh-frame-hdr", "-m", "elf_x86_64", "-dynamic-linker", "dl", "S", "i", "b", "p.o",
        "--whole-archive", "rt.a", "--no-whole-archive", "-L", "/lib", "-lpthread", "-ldl", "-lm",
        "--push-state", "--as-needed", "-lgcc_s", "--pop-state", "-lc", "e", "n",
    ];
    assert_eq!(args, expected);
    let err = missing_crt("t", &vec!["crt1.o".to_string(), "Scrt1.o".to_string()], false, false);
    assert_eq!(err.message, "missing CRT object for 't' (crt1.o / Scrt1.o)");
    let batch = LinkError::new("E395", "boom".to_string()).with_help("h".to_string()).into_batch(5);
    assert_eq!(batch.len(), 1);
    assert_eq!(batch.iter()[0].helps, vec!["h".to_string()]);
}

#[test]
fn runtime_archive_table_and_names() {
    let table = ";x86_64-unknown-linux-gnu=/a/lib.a;bad;aarch64-unknown-linux-gnu=/b=c.a;";
    assert_eq!(archive_table_lookup(table, "aarch64-unknown-linux-gnu").as_deref(), Some("/b=c.a"));
    assert_eq!(archive_table_lookup(table, "x86_64-unknown-linux-gnu").as_deref(), Some("/a/lib.a"));
    assert_eq!(archive_table_lookup(table, "bad"), None);
    assert_eq!(archive_table_lookup("", "x"), None);
    let t = TargetTriple::parse("aarch64-unknown-linux-musl").unwrap();
    assert_eq!(archive_override_key(&t), "YARROW_RUNTIME_AOT_ARCHIVE_aarch64_unknown_linux_musl");
    assert!(missing_archive_message(&t).starts_with("no runtime archive for 'aarch64-unknown-linux-musl'"));
}

#[test]
fn lowering_decisions() {
    assert_eq!(int_literal_ty(255), Ty::U8);
    assert_eq!(int_literal_ty(256), Ty::U16);
    assert_eq!(int_literal_ty(-129), Ty::I16);
    assert_eq!(int_literal_ty(-5_000_000_000), Ty::I64);
    assert_eq!(merge_type(None, Ty::I8).unwrap(), Ty::I8);
    assert_eq!(merge_type(Some(Ty::I8), Ty::I64).unwrap(), Ty::I64);
    let e = merge_type(Some(Ty::String), Ty::F32).unwrap_err();
    assert_eq!(e.code(), "E345");
    assert_eq!(e.message(), "incompatible element types String and F32");
    assert_eq!(if_merge_ty_from_then(Ty::F32), Ty::F64);
    assert_eq!(if_merge_ty_from_then(Ty::I8), Ty::I8);
    let cmp = Expr::Binary {
        op: BinOp::Lt,
        left: Box::new(Expr::variable("i".to_string())),
        right: Box::new(Expr::Integer { value: "3".to_string() }),
    };
    assert!(for_source_is_condition(&cmp));
    assert!(!for_source_is_condition(&Expr::variable("items".to_string())));
    let member = Expr::Member { base: Box::new(Expr::variable("loop".to_string())), member: "index".to_string() };
    assert_eq!(loop_helper_parts(&member), Some(("loop", "index")));
    let err = float_mod_pow_error(BinOp::Pow, Span::new(1, 2));
    assert_eq!(err.message(), "'^' is integer exponentiation, not defined on floats");
    let arr = infer_array_count(Ty::Array { elem: 3, count: 0 }, &vec![Expr::Bool { value: true }]).unwrap();
    assert_eq!(arr, Ty::Array { elem: 3, count: 1 });
    let bad = infer_array_count(Ty::Array { elem: 3, count: 2 }, &vec![Expr::Bool { value: true }]).unwrap_err();
    assert_eq!(bad.message(), "array initializer has 1 element(s) but the type declares 2");
    let s = |v: &str| Expr::String { value: v.to_string() };
    let stmts = vec![
        Stmt::new(StmtKind::Expr(s("a")), Span::new(0, 1)),
        Stmt::new(
            StmtKind::If { condition: s("b"), then_branch: vec![Stmt::new(StmtKind::Expr(s("a")), Span::new(0, 1))], else_branch: vec![] },
            Span::new(0, 1),
        ),
        Stmt::new(StmtKind::Expr(Expr::List(vec![s("c"), s("b")])), Span::new(0, 1)),
    ];
    let mut out = vec!["z".to_string()];
    collect_strings(&stmts, &mut out);
    assert_eq!(out, vec!["z", "a", "b", "c"]);
}

#[test]
fn interpreter_kinds_and_members() {
    assert_eq!(primitive_kind_code("u16"), Some(7));
    assert_eq!(primitive_kind_code("void"), Some(4));
    assert_eq!(primitive_kind_code("i128"), None);
    assert_eq!(primitive_to_kind(Primitive::Error), Some(KIND_ERROR));
    assert_eq!(kind_elem_size(0x20 | (3 << 8)), 8);
    assert_eq!(kind_elem_size(12), 2);
    assert_eq!(int_literal_kind(-1), 1);
    assert_eq!(int_literal_kind(70000), 8);
    assert!(members_compatible(&MemberTy::Primitive(3), &MemberTy::Primitive(9)));
    assert!(!members_compatible(&MemberTy::Primitive(0), &MemberTy::Primitive(3)));
    assert!(members_compatible(&MemberTy::String, &MemberTy::Primitive(16)));
    assert!(members_compatible(&MemberTy::Named("P".to_string()), &MemberTy::Named("P".to_string())));
    let err_ty = Type { kind: TypeKind::Named("app.AppError".to_string()), location: loc() };
    let union = Type { kind: TypeKind::Union(vec![prim(Primitive::I32), err_ty]), location: loc() };
    let payload = fallible_payload(&vec![union], &vec!["AppError".to_string()]);
    assert_eq!(payload, Some(MemberTy::Primitive(3)));
    assert_eq!(fallible_payload(&vec![prim(Primitive::I32)], &vec![]), None);
    let e = InterpretError::unsupported("regions", Span::new(1, 2)).into_compile_error();
    assert_eq!(e.code(), "E393");
    assert_eq!(e.message(), "interpreter does not support regions yet");
}

fn sample_names() -> TypeNames {
    TypeNames {
        structs: vec!["Point".to_string()],
        unions: vec![],
        enums: vec!["Color".to_string()],
    }
}

#[test]
fn format_ty_writes_types_as_users_do() {
    let names = sample_names();
    assert_eq!(format_ty(Ty::I32, &names), "i32");
    assert_eq!(format_ty(Ty::String, &names), "string");
    let list = Ty::List { elem: elem_code(Ty::I32).unwrap() };
    assert_eq!(format_ty(list, &names), "list<i32>");
    let map = Ty::Hashmap { key: elem_code(Ty::String).unwrap(), value: elem_code(Ty::I64).unwrap() };
    assert_eq!(format_ty(map, &names), "hashmap<string i64>");
    let nested = Ty::List { elem: elem_code(list).unwrap() };
    assert_eq!(format_ty(nested, &names), "list<list<i32>>");
    let u8_code = Ty::U8.scalar_code().unwrap();
    assert_eq!(format_ty(Ty::Array { elem: u8_code, count: 4 }, &names), "array<u8 4>");
    assert_eq!(format_ty(Ty::Array { elem: u8_code, count: 0 }, &names), "array<u8>");
    assert_eq!(format_ty(Ty::Ptr(0x50), &names), "pointer<_>");
    assert_eq!(format_ty(Ty::Ptr(3), &names), "pointer<i32>");
    assert_eq!(format_ty(Ty::Struct(0), &names), "Point");
    assert_eq!(format_ty(Ty::Struct(3), &names), "struct#3");
    assert_eq!(format_ty(Ty::Union(0), &names), "union#0");
    assert_eq!(format_ty(Ty::Enum(0), &names), "Color");
}

#[test]
fn stack_notes_list_types_in_brackets() {
    let names = sample_names();
    assert_eq!(format_stack_tys(&vec![], &names), "[]");
    assert_eq!(format_stack_tys(&vec![Ty::I32, Ty::Bool], &names), "[i32, bool]");
    assert_eq!(
        stack_effect_note(&vec![Ty::I64], &vec![Ty::Bool], &names),
        "stack: [i64] → expected [bool]"
    );
}

#[test]
fn int_pow_wraps_at_64_bits() {
    assert_eq!(int_pow(2, 10), 1024);
    assert_eq!(int_pow(3, 0), 1);
    assert_eq!(int_pow(-2, 3), -8);
    assert_eq!(int_pow(2, 63), i64::MIN);
    assert_eq!(int_pow(2, 64), 0);
    assert_eq!(int_pow(3, 41), 3i64.wrapping_pow(41));
}

#[test]
fn truncating_division_and_remainder() {
    assert_eq!(wrapping_div(-7, 2), -3);
    assert_eq!(wrapping_rem(-7, 2), -1);
    assert_eq!(wrapping_div(7, -2), -3);
    assert_eq!(wrapping_rem(7, -2), 1);
    assert_eq!(wrapping_div(i64::MIN, -1), i64::MIN);
    assert_eq!(wrapping_rem(i64::MIN, -1), 0);
    for (a, b) in [(17i64, 5i64), (-17, 5), (17, -5), (-17, -5), (0, 3)] {
        assert_eq!(wrapping_div(a, b) * b + wrapping_rem(a, b), a);
    }
}

#[test]
fn integer_operators_evaluate_with_wrapping() {
    let sp = Span::new(4, 5);
    assert_eq!(eval_int_bin(BinOp::Plus, i64::MAX, 1, 3, sp).unwrap(), (IntBinValue::Int(i64::MIN), 3));
    assert_eq!(eval_int_bin(BinOp::Minus, 5, 7, 4, sp).unwrap(), (IntBinValue::Int(-2), 4));
    assert_eq!(eval_int_bin(BinOp::Mul, 6, 7, 4, sp).unwrap(), (IntBinValue::Int(42), 4));
    assert_eq!(eval_int_bin(BinOp::Mod, -7, 2, 4, sp).unwrap(), (IntBinValue::Int(-1), 4));
    assert_eq!(eval_int_bin(BinOp::Fdiv, -7, 2, 4, sp).unwrap(), (IntBinValue::Int(-3), 4));
    assert_eq!(eval_int_bin(BinOp::Pow, 2, 10, 4, sp).unwrap(), (IntBinValue::Int(1024), 4));
    assert_eq!(eval_int_bin(BinOp::Lt, 1, 2, 4, sp).unwrap(), (IntBinValue::Bool(true), 0));
    assert_eq!(eval_int_bin(BinOp::Eq, 1, 2, 4, sp).unwrap(), (IntBinValue::Bool(false), 0));
    assert_eq!(eval_int_bin(BinOp::Xor, 6, 3, 4, sp).unwrap(), (IntBinValue::Int(5), 4));
    assert_eq!(eval_int_bin(BinOp::Lshift, 1, 65, 4, sp).unwrap(), (IntBinValue::Int(2), 4));
    assert_eq!(eval_int_bin(BinOp::Rshift, -8, 1, 4, sp).unwrap(), (IntBinValue::Int(-4), 4));
    let err = eval_int_bin(BinOp::Pow, 2, -1, 4, sp).unwrap_err();
    assert_eq!(err.code, "E334");
    assert_eq!(err.message, "negative exponent in integer '^'");
    assert_eq!(err.span, sp);
}

#[test]
fn boolean_operators_and_not() {
    let sp = Span::new(0, 3);
    assert_eq!(eval_bool_bin(BinOp::And, true, false, sp).unwrap(), false);
    assert_eq!(eval_bool_bin(BinOp::Or, true, false, sp).unwrap(), true);
    assert_eq!(eval_bool_bin(BinOp::Xor, true, true, sp).unwrap(), false);
    assert_eq!(eval_bool_bin(BinOp::Eq, false, false, sp).unwrap(), true);
    assert_eq!(eval_bool_bin(BinOp::Ne, false, true, sp).unwrap(), true);
    let err = eval_bool_bin(BinOp::Plus, true, true, sp).unwrap_err();
    assert_eq!(err.message, "invalid bool op Plus");
    assert_eq!(err.code, "E336");
    assert_eq!(int_not(0), -1);
    assert_eq!(int_not(5), -6);
    assert_eq!(int_not(i64::MIN), i64::MAX);
}

#[test]
fn stack_shuffles_move_the_top_values() {
    let sp = Span::new(0, 1);
    let mut s = vec![1, 2, 3, 4];
    shuffle_stack(StackOp::Swap, &mut s, sp).unwrap();
    assert_eq!(s, vec![1, 2, 4, 3]);
    let mut s = vec![1, 2, 3, 4];
    shuffle_stack(StackOp::Rot, &mut s, sp).unwrap();
    assert_eq!(s, vec![1, 3, 4, 2]);
    shuffle_stack(StackOp::Unrot, &mut s, sp).unwrap();
    assert_eq!(s, vec![1, 2, 3, 4]);
    let mut s = vec!["a", "b", "c"];
    shuffle_stack(StackOp::Unrot, &mut s, sp).unwrap();
    assert_eq!(s, vec!["c", "a", "b"]);
    let mut short = vec![1, 2];
    let err = shuffle_stack(StackOp::Rot, &mut short, sp).unwrap_err();
    assert_eq!(err.message, "rot requires 3 values");
    assert_eq!(err.code, "E362");
    assert_eq!(short, vec![1, 2]);
    let mut one = vec![7];
    assert_eq!(shuffle_stack(StackOp::Swap, &mut one, sp).unwrap_err().message, "swap requires 2 values");
}

#[test]
fn small_fields_pack_to_their_alignment() {
    let l = layout("S", vec![("a".to_string(), Ty::U8), ("b".to_string(), Ty::I32)]);
    let offsets: Vec<i32> = l.fields.iter().map(|f| f.offset).collect();
    assert_eq!(offsets, vec![0, 4]);
    assert_eq!(l.size, 8);
    assert_eq!(l.align, 4);
    let many: Vec<(String, Ty)> = (0..200).map(|i| (format!("f{}", i), Ty::U8)).collect();
    let big = layout("Bytes", many);
    assert_eq!(big.size, 200);
    assert_eq!(big.align, 1);
    assert_eq!(big.fields[199].offset, 199);
}

#[test]
fn type_debug_text_matches_derived_debug() {
    let inner = Type { kind: TypeKind::Primitive(Primitive::I32), location: loc() };
    let list = Type { kind: TypeKind::List { element: Box::new(inner) }, location: Location::new(2, 5, 17) };
    assert_eq!(
        type_debug_text(&list),
        "Type { kind: List { element: Type { kind: Primitive(I32), location: Location { line: 1, column: 1, offset: 0 } } }, location: Location { line: 2, column: 5, offset: 17 } }"
    );
    assert_eq!(type_debug_text(&list), format!("{:?}", list));
    let named = Type { kind: TypeKind::Named("a\"b'c\n".to_string()), location: loc() };
    assert_eq!(type_debug_text(&named), format!("{:?}", named));
    let arr = Type {
        kind: TypeKind::Array {
            element: Box::new(Type { kind: TypeKind::Named("Point".to_string()), location: loc() }),
            size: Some(4),
        },
        location: loc(),
    };
    assert_eq!(type_debug_text(&arr), format!("{:?}", arr));
    let uni = Type {
        kind: TypeKind::Union(vec![
            Type { kind: TypeKind::Primitive(Primitive::Bool), location: loc() },
            Type { kind: TypeKind::Named("Err".to_string()), location: loc() },
        ]),
        location: loc(),
    };
    assert_eq!(type_debug_text(&uni), format!("{:?}", uni));
}

#[test]
fn supported_classes_are_accepted_and_compare_equal() {
    let a = TargetTriple::parse("x86_64-unknown-linux-gnu").unwrap();
    let b = TargetTriple::parse(" x86_64-unknown-linux-gnu").unwrap();
    assert!(a.is_supported());
    assert!(a.same_target(&b));
    let c = TargetTriple::parse("aarch64-apple-darwin").unwrap();
    assert!(c.is_supported());
    assert!(!a.same_target(&c));
    let host = TargetTriple::host();
    assert!(host.is_host());
    let e = TargetTriple::parse("riscv64gc-unknown-none-elf").err().unwrap();
    assert!(e.message.starts_with("unsupported AOT target 'riscv64gc-unknown-none-elf' (supported: "));
}

#[test]
fn big_endian_aarch64_is_rejected_not_a_panic() {
    let e = TargetTriple::parse("aarch64_be-unknown-linux-gnu").err().unwrap();
    assert!(e.message.starts_with("unsupported AOT target 'aarch64_be-unknown-linux-gnu' (supported: "));
    let a = TargetTriple::parse("aarch64-unknown-linux-gnu").unwrap();
    assert!(a.is_supported());
    assert_eq!(a.elf_emulation(), Some("aarch64linux"));
    let host = TargetTriple::host();
    assert!(host.same_triple(&host.duplicate()));
    assert!(!a.same_triple(&TargetTriple::parse("x86_64-unknown-linux-gnu").unwrap()));
}
