use yarrow_core::compiler::declarations::{declare_types, program_span, TypeDecls};
use yarrow_core::compiler::types::{lookup_named_type, resolve, resolve_in, Ty};
use yarrow_core::diagnostics::Span;
use yarrow_core::parser::ast::{
    EnumDecl, EnumMember, ErrorDecl, Field, Function, Primitive, Program, Stmt, StmtKind, StructDecl,
    Type, TypeKind, UnionDecl,
};
use yarrow_core::token::Location;

fn at() -> Location {
    Location { line: 1, column: 1, offset: 0 }
}

fn prim(p: Primitive) -> Type {
    Type { kind: TypeKind::Primitive(p), location: at() }
}

fn named(n: &str) -> Type {
    Type { kind: TypeKind::Named(n.to_string()), location: at() }
}

fn field(name: &str, ty: Type) -> Field {
    Field { name: name.to_string(), ty, visibility: None }
}

fn item_at(kind: StmtKind, lo: usize) -> Stmt {
    Stmt::new(kind, Span::new(lo, lo + 1))
}

fn structure(name: &str, fields: Vec<Field>) -> StmtKind {
    StmtKind::Struct(StructDecl { name: name.to_string(), visibility: None, fields })
}

fn member(name: &str, value: Option<&str>) -> EnumMember {
    EnumMember { name: name.to_string(), value: value.map(|v| v.to_string()) }
}

fn enumeration(name: &str, members: Vec<EnumMember>) -> StmtKind {
    StmtKind::Enum(EnumDecl { name: name.to_string(), underlying: None, members })
}

fn union_of(name: &str, types: Vec<Type>) -> StmtKind {
    StmtKind::Union(UnionDecl { name: name.to_string(), types })
}

fn error_type(name: &str, inject: Option<&str>, members: &[&str]) -> StmtKind {
    StmtKind::Error(ErrorDecl {
        name: name.to_string(),
        inject: inject.map(|s| s.to_string()),
        members: members.iter().map(|m| m.to_string()).collect(),
    })
}

fn func(name: &str) -> StmtKind {
    StmtKind::Function(Function {
        name: name.to_string(),
        visibility: None,
        params: vec![],
        body: vec![],
        returns: vec![],
        is_unsafe: false,
    })
}

fn program(kinds: Vec<StmtKind>) -> Program {
    Program { items: kinds.into_iter().enumerate().map(|(i, k)| item_at(k, i * 10)).collect() }
}

fn decls(units: Vec<Program>) -> TypeDecls {
    declare_types(&units).unwrap()
}

#[test]
fn declarations_register_every_kind_of_type() {
    let main = program(vec![
        structure("Point", vec![field("x", prim(Primitive::I32)), field("shape", named("Shape"))]),
        union_of("Shape", vec![prim(Primitive::I64), named("Point")]),
        enumeration("Color", vec![member("Red", None), member("Green", Some("5")), member("Blue", None)]),
    ]);
    let module = program(vec![error_type("AppError", None, &["NotFound", "Denied"])]);
    let d = decls(vec![main, module]);

    assert_eq!(d.structs.len(), 1);
    let point = &d.structs[0];
    assert_eq!(point.name, "Point");
    let fields: Vec<(String, Ty, i32)> = point.fields.iter().map(|f| (f.name.clone(), f.ty, f.offset)).collect();
    assert_eq!(fields, vec![("x".to_string(), Ty::I32, 0), ("shape".to_string(), Ty::Union(0), 8)]);
    assert_eq!((point.size, point.align), (16, 8));

    assert_eq!(d.unions.len(), 1);
    assert_eq!(d.unions[0].name, "Shape");
    assert_eq!(d.unions[0].members, vec![Ty::I64, Ty::Struct(0)]);

    assert_eq!(d.enums.len(), 1);
    assert_eq!(
        d.enums[0].members,
        vec![("Red".to_string(), 0), ("Green".to_string(), 5), ("Blue".to_string(), 6)]
    );
    assert_eq!(d.enum_const("Blue"), Some((0, 6)));
    assert_eq!(d.enum_const("Purple"), None);

    assert_eq!(d.errors.lookup_error_type("AppError").unwrap(), 0);
    let table = d.named_types();
    assert_eq!(lookup_named_type(&table, "Point"), Some(Ty::Struct(0)));
    assert_eq!(lookup_named_type(&table, "Shape"), Some(Ty::Union(0)));
    assert_eq!(lookup_named_type(&table, "AppError"), Some(Ty::Error));
    assert_eq!(lookup_named_type(&table, "Color"), Some(Ty::Enum(0)));
    assert_eq!(resolve_in(&named("lib.AppError"), &table, true).unwrap(), Ty::Error);
    assert_eq!(resolve(&named("lib.AppError"), &table).unwrap_err().code(), "E302");
}

#[test]
fn declarations_first_struct_id_and_last_enum_win() {
    let main = program(vec![
        structure("P", vec![field("a", prim(Primitive::U8))]),
        structure("P", vec![field("a", prim(Primitive::I64)), field("b", prim(Primitive::U8))]),
        enumeration("E", vec![member("A", None)]),
        enumeration("E", vec![member("A", Some("7")), member("B", None)]),
    ]);
    let d = decls(vec![main]);
    assert_eq!(d.structs.len(), 2);
    // The second declaration is laid out at the id of the name, the first one.
    assert_eq!(d.structs[0].size, 16);
    assert_eq!(d.structs[0].fields.len(), 2);
    // The second declaration's own slot keeps its placeholder.
    assert_eq!((d.structs[1].name.as_str(), d.structs[1].size, d.structs[1].align), ("P", 0, 1));
    assert!(d.structs[1].fields.is_empty());
    let table = d.named_types();
    assert_eq!(lookup_named_type(&table, "P"), Some(Ty::Struct(0)));
    assert_eq!(lookup_named_type(&table, "E"), Some(Ty::Enum(1)));
    assert_eq!(d.enum_const("A"), Some((1, 7)));
    assert_eq!(d.enum_const("B"), Some((1, 8)));
}

#[test]
fn declarations_enum_values_saturate_at_i64_max() {
    let main = program(vec![enumeration(
        "Big",
        vec![member("Top", Some("9223372036854775807")), member("Next", None), member("Low", Some("-0x10"))],
    )]);
    let d = decls(vec![main]);
    assert_eq!(
        d.enums[0].members,
        vec![("Top".to_string(), i64::MAX), ("Next".to_string(), i64::MAX), ("Low".to_string(), -16)]
    );
}

#[test]
fn declarations_injected_error_types_copy_tags() {
    let main = program(vec![
        error_type("Child", Some("Base"), &["Extra"]),
        error_type("Base", None, &["Missing"]),
    ]);
    let d = decls(vec![main]);
    let base = d.errors.lookup_error_type("Base").unwrap();
    let child = d.errors.lookup_error_type("Child").unwrap();
    assert_eq!((child, base), (0, 1));
    assert_eq!(d.errors.error_member_tag_from_type(&named("Base.Missing")), Some(1));
    assert_eq!(d.errors.error_member_tag_from_type(&named("Child.Missing")), Some(1));
    assert_eq!(d.errors.error_member_tag_from_type(&named("Child.Extra")), Some(2));
}

#[test]
fn declarations_report_enum_literal_failures() {
    let bad = program(vec![enumeration("E", vec![member("A", Some("12x"))])]);
    let e = declare_types(&vec![bad]).err().unwrap();
    assert_eq!(e.code(), "E363");
    assert_eq!(e.message(), "invalid integer literal '12x'");

    let wide = program(vec![func("main"), enumeration("E", vec![member("A", Some("9223372036854775808"))])]);
    let e = declare_types(&vec![wide]).err().unwrap();
    assert_eq!(e.code(), "E364");
    assert_eq!(e.message(), "enum member 'A' value '9223372036854775808' is out of range");
    assert_eq!(e.span(), Span::new(10, 11));
}

#[test]
fn declarations_report_union_failures() {
    let empty = program(vec![union_of("U", vec![])]);
    let e = declare_types(&vec![empty]).err().unwrap();
    assert_eq!(e.code(), "E346");
    assert_eq!(e.message(), "union 'U' must have at least one member type");

    let dup = program(vec![union_of("U", vec![prim(Primitive::I32), prim(Primitive::U8), prim(Primitive::I32)])]);
    let e = declare_types(&vec![dup]).err().unwrap();
    assert_eq!(e.code(), "E346");
    assert_eq!(e.message(), "union 'U' has duplicate member type 'I32'");

    let unknown = program(vec![structure("S", vec![field("x", named("Nope"))])]);
    let e = declare_types(&vec![unknown]).err().unwrap();
    assert_eq!(e.code(), "E302");
    assert_eq!(e.message(), "unknown or unsupported type 'Nope'");
}

#[test]
fn declarations_report_error_type_failures() {
    let dup = program(vec![error_type("E", None, &["A", "A"])]);
    let e = declare_types(&vec![dup]).err().unwrap();
    assert_eq!(e.code(), "E308");
    assert_eq!(e.message(), "error type 'E' has duplicate member 'A'");
}

#[test]
fn program_span_prefers_main() {
    let p = program(vec![structure("S", vec![]), func("helper"), func("main")]);
    assert_eq!(program_span(&p), Span::new(20, 21));
    let p = program(vec![structure("S", vec![]), func("helper")]);
    assert_eq!(program_span(&p), Span::new(10, 11));
    let p = program(vec![structure("S", vec![])]);
    assert_eq!(program_span(&p), Span::new(0, 1));
    assert_eq!(program_span(&Program { items: vec![] }), Span::default());
}
