use yarrow_core::analysis::{DefIndex, DefKind, TypeIndex};
use yarrow_core::compiler::errors::CompileError;
use yarrow_core::compiler::modules::ModuleLoader;
use yarrow_core::diagnostics::render::render;
use yarrow_core::diagnostics::{explain_code, normalize_code, Diagnostic, DiagnosticBatch, Severity, SourceFile, Span};
use yarrow_core::entry::entry_crt_source;
use yarrow_core::parser::ast::{BinOp, Expr, Mutability, StmtKind, Visibility};
use yarrow_core::parser::parse;
use yarrow_core::project::{RequireStep, RequireWalk};
use yarrow_core::session::{render_batch, CompileOptions, ExecutionMode, OptLevel, Session};
use yarrow_core::text::decimal;
use yarrow_core::token::{Location, Token, TokenKind};

fn tok(kind: TokenKind, lexeme: &str, offset: usize) -> Token {
    Token::new(kind, lexeme.to_string(), Location::new(1, offset + 1, offset))
}

#[test]
fn parse_binary_expression() {
    let tokens = vec![
        tok(TokenKind::Integer, "1", 0),
        tok(TokenKind::Integer, "2", 2),
        tok(TokenKind::Plus, "+", 4),
        tok(TokenKind::Eof, "", 5),
    ];
    let program = parse(tokens).unwrap();
    assert_eq!(program.items.len(), 1);
    match &program.items[0].kind {
        StmtKind::Expr(Expr::Binary { op, left, right }) => {
            assert_eq!(*op, BinOp::Plus);
            assert!(matches!(**left, Expr::Integer { ref value } if value == "1"));
            assert!(matches!(**right, Expr::Integer { ref value } if value == "2"));
        }
        _ => panic!("expected a binary expression statement"),
    }
}

#[test]
fn parse_reports_call_without_target() {
    let tokens = vec![tok(TokenKind::Call, "call", 0), tok(TokenKind::Eof, "", 4)];
    let batch = parse(tokens).unwrap_err();
    assert!(batch.len() >= 1);
    assert_eq!(batch.iter()[0].code, "E211");
}

#[test]
fn parse_function_declaration() {
    let tokens = vec![
        tok(TokenKind::Identifier, "main", 0),
        tok(TokenKind::Function, "function", 5),
        tok(TokenKind::Do, "do", 14),
        tok(TokenKind::End, "end", 17),
        tok(TokenKind::Eof, "", 20),
    ];
    let program = parse(tokens).unwrap();
    assert!(program.has_entry("main"));
    assert!(!program.has_entry("start"));
}

#[test]
fn decimal_text() {
    assert_eq!(decimal(0), "0");
    assert_eq!(decimal(42), "42");
    assert_eq!(decimal(u64::MAX), "18446744073709551615");
}

#[test]
fn compile_error_builders() {
    let e = CompileError::new("bad thing".to_string(), Span::new(3, 7), "E301".to_string());
    assert_eq!(e.code(), "E301");
    assert_eq!(e.message(), "bad thing");
    assert_eq!(e.span().lo, 3);
    assert_eq!(e.span().hi, 7);
    let e = e.with_primary_message("here".to_string()).with_note("n".to_string()).with_help("h".to_string());
    assert_eq!(e.diagnostic.labels[0].message, "here");
    assert_eq!(e.diagnostic.notes, vec!["n".to_string()]);
    assert_eq!(e.diagnostic.helps, vec!["h".to_string()]);
    let at = CompileError::at("x".to_string(), Location::new(2, 5, 10), "E1".to_string());
    assert_eq!(at.span().lo, 10);
    assert_eq!(at.span().hi, 11);
    assert_eq!(at.span().line, 2);
}

#[test]
fn module_loader_prefers_found_source_and_reports_unknown() {
    let mut loader = ModuleLoader::new();
    loader.add_search_path("lib".to_string());
    assert_eq!(loader.search_paths().len(), 1);
    assert_eq!(loader.load("a.b", Some("x".to_string())).unwrap(), "x");
    let err = loader.load("a.b", None).unwrap_err();
    assert_eq!(err.code(), "E380");
    assert_eq!(err.message(), "unknown module 'a.b'");
}

#[test]
fn type_index_picks_innermost_site() {
    let mut idx = TypeIndex::new();
    idx.push_binding(Span::new(0, 20), "outer".to_string(), "i32".to_string());
    idx.push_binding(Span::new(5, 8), "inner".to_string(), "i64".to_string());
    idx.push_signature(Span::new(4, 7), "same_width".to_string(), "()".to_string());
    let p = idx.type_at(6).unwrap();
    assert_eq!(p.name, "inner");
    assert_eq!(p.ty.as_deref(), Some("i64"));
    assert_eq!(idx.type_at(15).unwrap().name, "outer");
    assert!(idx.type_at(25).is_none());
    assert_eq!(idx.probes().len(), 3);
}

#[test]
fn def_index_answers_require_sites() {
    let mut idx = DefIndex::new();
    idx.push_definition(Span::new(0, 4), "main".to_string(), Span::new(0, 4), "a.yar".to_string());
    idx.push_require(Span::new(10, 20), "io".to_string(), Span::new(10, 12), "std.io".to_string(), None);
    let p = idx.definition_at(11).unwrap();
    assert_eq!(p.kind, DefKind::Require);
    assert_eq!(p.path, "std.io");
    assert!(idx.definition_at(5).is_none());
}

#[test]
fn entry_glue_calls_trampoline() {
    let crt = entry_crt_source("");
    assert_eq!(crt.entry_name, "main");
    assert_eq!(crt.link_symbol, "yarrow_entry");
    assert!(crt.source.contains("extern int64_t yarrow_entry(void);"));
    assert!(crt.source.contains("return (int)yarrow_entry();"));
    assert!(crt.source.contains("Yarrow entry function: `main`"));
    let named = entry_crt_source("start");
    assert_eq!(named.entry_name, "start");
    assert!(named.source.contains("Yarrow entry function: `start`"));
}

#[test]
fn explain_lookup_normalizes() {
    assert_eq!(normalize_code("e308"), "E308");
    assert_eq!(explain_code("308").unwrap().code, "E308");
    assert!(explain_code("E9999").is_none());
}

#[test]
fn render_diagnostic_with_label() {
    let file = SourceFile::new("a.yar".to_string(), "let x\nfoo bar\n".to_string());
    let d = Diagnostic::error("E100".to_string(), "bad".to_string())
        .with_primary(Span::at(10, 13, 2, 5), "here".to_string())
        .with_note("a note".to_string());
    let out = render(&d, &file, false);
    let expected = "error[E100]: bad\n  --> a.yar:2:5\n     |\n   2 | foo bar\n     |     ^^^\n     |     here\n     |\n   = note: a note\n";
    assert_eq!(out, expected);
    let colored = render(&d, &file, true);
    assert!(colored.starts_with("\x1b[1;31merror[E100]: bad\x1b[0m\n"));
}

#[test]
fn session_options_and_entry_requirement() {
    let opts = CompileOptions::new("prog.yar".to_string());
    assert_eq!(opts.entry_name, "main");
    assert_eq!(opts.mode, ExecutionMode::Object);
    assert_eq!(opts.opt_level, OptLevel::Off);
    assert_eq!(OptLevel::Size.as_cranelift(), "speed_and_size");
    let session = Session::new(opts);
    let file = SourceFile::new("prog.yar".to_string(), String::new());
    let program = parse(vec![tok(TokenKind::Eof, "", 0)]).unwrap();
    let err = session.require_main_if_needed(&file, &program).unwrap_err();
    let d = &err.batch.iter()[0];
    assert_eq!(d.code, "E360");
    assert_eq!(d.message, "program has no 'main' function");
    assert_eq!(d.path, "prog.yar");
    let text = render_batch(&err.batch, &err.file, false);
    assert!(text.starts_with("error[E360]: program has no 'main' function\n"));
    let refused = session.jit_mode_check("x".to_string()).unwrap_err();
    assert_eq!(refused.batch.iter()[0].code, "E391");
}

#[test]
fn batch_limit_stops_errors() {
    let mut b = DiagnosticBatch::with_limit(1);
    assert!(b.push(Diagnostic::error("E1".to_string(), "a".to_string())));
    assert!(b.is_at_limit());
    assert!(!b.push(Diagnostic::error("E2".to_string(), "b".to_string())));
    let mut warn = Diagnostic::error("W1".to_string(), "w".to_string());
    warn.severity = Severity::Warning;
    assert!(b.push(warn));
    assert_eq!(b.len(), 2);
    let file = SourceFile::new("f.yar".to_string(), String::new());
    let text = render_batch(&b, &file, false);
    assert!(text.ends_with("error: aborting due to 1 previous errors (limit 1)\n"));
}

#[test]
fn render_orders_marks_and_messages() {
    let file = SourceFile::new(
        "t.yar".to_string(),
        "let a = 1;\n\n  foo(bar, baz)\nx\ny\nreturn z\n".to_string(),
    );
    let d = Diagnostic::error("E1".to_string(), "boom".to_string())
        .with_primary(Span::new(14, 17), "called here".to_string())
        .with_label(Span::new(14, 21), "in this call".to_string())
        .with_label(Span::new(39, 40), String::new())
        .with_label(Span::new(4, 5), "defined".to_string());
    let expected = "error[E1]: boom\n  --> t.yar:3:3\n     |\n   1 | let a = 1;\n     |     -\n     |     defined\n     ...\n   3 |   foo(bar, baz)\n     |   ^^^----\n     |   called here\n     |   in this call\n     ...\n   6 | return z\n     |        -\n     |\n";
    assert_eq!(render(&d, &file, false), expected);

    let across = Diagnostic::error("E2".to_string(), "span".to_string())
        .with_label(Span::new(28, 31), "across".to_string());
    let expected = "error[E2]: span\n  --> t.yar:4:1\n     |\n   4 | x\n     | -\n     | across\n   5 | y\n     | -\n     | across\n     |\n";
    assert_eq!(render(&across, &file, false), expected);
}

#[test]
fn line_start_offset_past_last_line_is_source_length() {
    let f = SourceFile::new("p".to_string(), "ab\ncd".to_string());
    assert_eq!(f.line_start_offset(0), 0);
    assert_eq!(f.line_start_offset(1), 0);
    assert_eq!(f.line_start_offset(2), 3);
    assert_eq!(f.line_start_offset(3), 5);
    assert_eq!(f.line_start_offset(9), 5);
}

#[test]
fn struct_fields_keep_their_order_and_visibility() {
    let tokens = vec![
        tok(TokenKind::Identifier, "Point", 0),
        tok(TokenKind::Struct, "struct", 6),
        tok(TokenKind::Identifier, "i32", 13),
        tok(TokenKind::Identifier, "x", 17),
        tok(TokenKind::Identifier, "i64", 19),
        tok(TokenKind::Identifier, "y", 23),
        tok(TokenKind::Public, "public", 25),
        tok(TokenKind::End, "end", 32),
        tok(TokenKind::Eof, "", 35),
    ];
    let program = parse(tokens).unwrap();
    assert_eq!(program.items.len(), 1);
    match &program.items[0].kind {
        StmtKind::Struct(d) => {
            assert_eq!(d.name, "Point");
            assert_eq!(d.visibility, None);
            let names: Vec<&str> = d.fields.iter().map(|f| f.name.as_str()).collect();
            assert_eq!(names, vec!["x", "y"]);
            assert_eq!(d.fields[0].visibility, None);
            assert_eq!(d.fields[1].visibility, Some(Visibility::Public));
            assert_eq!(d.fields[0].ty.location.offset, 13);
            assert_eq!(d.fields[1].ty.location.offset, 19);
        }
        _ => panic!("expected a struct declaration"),
    }
}

#[test]
fn syntax_errors_come_back_as_errors_only() {
    let tokens = vec![tok(TokenKind::Call, "call", 0), tok(TokenKind::Eof, "", 4)];
    let batch = parse(tokens).err().unwrap();
    assert!(batch.len() >= 1);
    assert_eq!(batch.error_count(), batch.len());
}

#[test]
fn batch_gives_back_accepted_pushes_in_order() {
    let mut b = DiagnosticBatch::with_limit(2);
    let mut pushed = Vec::new();
    let mut accepted_codes = Vec::new();
    for (code, warning) in [("E1", false), ("W1", true), ("E2", false), ("E3", false), ("W2", true), ("E4", false)] {
        let mut d = Diagnostic::error(code.to_string(), "m".to_string());
        if warning {
            d.severity = Severity::Warning;
        }
        let ok = b.push(d);
        pushed.push(ok);
        if ok {
            accepted_codes.push(code.to_string());
        }
    }
    assert_eq!(pushed, vec![true, true, true, false, true, false]);
    let seen: Vec<String> = b.iter().iter().map(|d| d.code.clone()).collect();
    assert_eq!(seen, accepted_codes);
    let out: Vec<String> = b.into_diagnostics().into_iter().map(|d| d.code).collect();
    assert_eq!(out, vec!["E1", "W1", "E2", "W2"]);
}

#[test]
fn require_walk_orders_modules_and_reports_cycles() {
    let mut w = RequireWalk::new();
    let span = Span::default();
    assert_eq!(w.enter("main.yar", "a", "a", span).unwrap(), RequireStep::Load);
    assert_eq!(w.enter("a", "b", "b", span).unwrap(), RequireStep::Load);
    let e = w.enter("b", "a", "a", span).err().unwrap();
    assert_eq!(e.diagnostic.code, "E382");
    assert_eq!(e.diagnostic.message, "module dependency cycle involving 'a'");
    assert_eq!(e.diagnostic.helps, vec!["break the cycle by removing or restructuring one `require`".to_string()]);
    w.leave("b");
    w.leave("a");
    assert!(w.loading.is_empty());
    assert_eq!(w.enter("main.yar", "a", "a", span).unwrap(), RequireStep::Skip);
    assert_eq!(w.graph.modules, vec!["b".to_string(), "a".to_string()]);
    assert_eq!(w.graph.edges.len(), 4);
    assert_eq!(w.graph.edges[2].from, "b");
    assert_eq!(w.graph.edges[2].to, "a");
}

#[test]
fn single_literal_program_is_one_expression() {
    let program = parse(vec![tok(TokenKind::True, "true", 0), tok(TokenKind::Eof, "", 4)]).unwrap();
    assert_eq!(program.items.len(), 1);
    match &program.items[0].kind {
        StmtKind::Expr(Expr::Bool { value }) => assert!(*value),
        _ => panic!("expected a boolean expression"),
    }
    let program = parse(vec![tok(TokenKind::String, "hello", 0), tok(TokenKind::Eof, "", 7)]).unwrap();
    match &program.items[0].kind {
        StmtKind::Expr(Expr::String { value }) => assert_eq!(value, "hello"),
        _ => panic!("expected a string expression"),
    }
}

#[test]
fn run_of_structs_parses_to_those_structs_in_order() {
    let tokens = vec![
        tok(TokenKind::Identifier, "A", 0),
        tok(TokenKind::Struct, "struct", 2),
        tok(TokenKind::Identifier, "i32", 9),
        tok(TokenKind::Identifier, "x", 13),
        tok(TokenKind::End, "end", 15),
        tok(TokenKind::Identifier, "B", 19),
        tok(TokenKind::Struct, "struct", 21),
        tok(TokenKind::End, "end", 28),
        tok(TokenKind::Eof, "", 31),
    ];
    let program = parse(tokens).unwrap();
    assert_eq!(program.items.len(), 2);
    let mut names = Vec::new();
    let mut field_counts = Vec::new();
    for item in &program.items {
        match &item.kind {
            StmtKind::Struct(d) => {
                names.push(d.name.clone());
                field_counts.push(d.fields.len());
            }
            _ => panic!("expected struct declarations only"),
        }
    }
    assert_eq!(names, vec!["A".to_string(), "B".to_string()]);
    assert_eq!(field_counts, vec![1, 0]);
}

#[test]
fn run_of_declarations_keeps_kinds_names_and_members() {
    let tokens = vec![
        tok(TokenKind::Identifier, "Color", 0),
        tok(TokenKind::Enum, "enum", 6),
        tok(TokenKind::Identifier, "RED", 11),
        tok(TokenKind::Identifier, "GREEN", 15),
        tok(TokenKind::Integer, "5", 21),
        tok(TokenKind::End, "end", 23),
        tok(TokenKind::Identifier, "Num", 27),
        tok(TokenKind::Union, "union", 31),
        tok(TokenKind::Identifier, "i32", 37),
        tok(TokenKind::Identifier, "bool", 41),
        tok(TokenKind::End, "end", 46),
        tok(TokenKind::Identifier, "Unit", 50),
        tok(TokenKind::Struct, "struct", 55),
        tok(TokenKind::End, "end", 62),
        tok(TokenKind::Eof, "", 65),
    ];
    let program = parse(tokens).unwrap();
    assert_eq!(program.items.len(), 3);
    match &program.items[0].kind {
        StmtKind::Enum(d) => {
            assert_eq!(d.name, "Color");
            assert!(d.underlying.is_none());
            let members: Vec<(String, Option<String>)> =
                d.members.iter().map(|m| (m.name.clone(), m.value.clone())).collect();
            assert_eq!(members, vec![("RED".to_string(), None), ("GREEN".to_string(), Some("5".to_string()))]);
        }
        _ => panic!("expected an enum first"),
    }
    match &program.items[1].kind {
        StmtKind::Union(d) => {
            assert_eq!(d.name, "Num");
            let starts: Vec<usize> = d.types.iter().map(|t| t.location.offset).collect();
            assert_eq!(starts, vec![37, 41]);
        }
        _ => panic!("expected a union second"),
    }
    match &program.items[2].kind {
        StmtKind::Struct(d) => {
            assert_eq!(d.name, "Unit");
            assert!(d.fields.is_empty());
        }
        _ => panic!("expected a struct third"),
    }
}

#[test]
fn variable_declarations_in_a_run_keep_kind_and_type() {
    let tokens = vec![
        tok(TokenKind::Identifier, "count", 0),
        tok(TokenKind::Mutable, "mutable", 6),
        tok(TokenKind::Identifier, "i64", 14),
        tok(TokenKind::Identifier, "limit", 18),
        tok(TokenKind::Const, "const", 24),
        tok(TokenKind::Identifier, "u8", 30),
        tok(TokenKind::Eof, "", 32),
    ];
    let program = parse(tokens).unwrap();
    assert_eq!(program.items.len(), 2);
    let mut seen = Vec::new();
    for item in &program.items {
        match &item.kind {
            StmtKind::VarDecl { name, mutability, ty, value } => {
                assert!(value.is_none());
                seen.push((name.clone(), *mutability, ty.location.offset));
            }
            _ => panic!("expected variable declarations"),
        }
    }
    assert_eq!(
        seen,
        vec![("count".to_string(), Mutability::Mutable, 14), ("limit".to_string(), Mutability::Const, 30)]
    );
}

#[test]
fn operator_words_combine_their_operands() {
    let tokens = vec![
        tok(TokenKind::Integer, "1", 0),
        tok(TokenKind::Integer, "2", 2),
        tok(TokenKind::Plus, "+", 4),
        tok(TokenKind::Eof, "", 5),
    ];
    let program = parse(tokens).unwrap();
    assert_eq!(program.items.len(), 1);
    match &program.items[0].kind {
        StmtKind::Expr(Expr::Binary { op, left, right }) => {
            assert_eq!(*op, BinOp::Plus);
            assert!(matches!(&**left, Expr::Integer { value } if value == "1"));
            assert!(matches!(&**right, Expr::Integer { value } if value == "2"));
        }
        _ => panic!("expected one binary expression"),
    }
    let two = parse(vec![tok(TokenKind::Integer, "7", 0), tok(TokenKind::Identifier, "x", 2), tok(TokenKind::Eof, "", 3)])
        .unwrap();
    match &two.items[0].kind {
        StmtKind::Expr(Expr::Sequence(xs)) => {
            assert_eq!(xs.len(), 2);
            assert!(matches!(&xs[0].0, Expr::Integer { value } if value == "7"));
            assert!(matches!(&xs[1].0, Expr::Variable { name } if name == "x"));
        }
        _ => panic!("expected a sequence of two values"),
    }
}

#[test]
fn if_else_keeps_each_branch_in_place() {
    let tokens = vec![
        tok(TokenKind::Identifier, "c", 0),
        tok(TokenKind::If, "if", 2),
        tok(TokenKind::Integer, "1", 5),
        tok(TokenKind::Else, "else", 7),
        tok(TokenKind::Integer, "2", 12),
        tok(TokenKind::End, "end", 14),
        tok(TokenKind::Eof, "", 17),
    ];
    let program = parse(tokens).unwrap();
    assert_eq!(program.items.len(), 1);
    match &program.items[0].kind {
        StmtKind::If { condition, then_branch, else_branch } => {
            assert!(matches!(condition, Expr::Variable { name } if name == "c"));
            assert_eq!(then_branch.len(), 1);
            assert_eq!(else_branch.len(), 1);
            assert!(matches!(&then_branch[0].kind, StmtKind::Expr(Expr::Integer { value }) if value == "1"));
            assert!(matches!(&else_branch[0].kind, StmtKind::Expr(Expr::Integer { value }) if value == "2"));
        }
        _ => panic!("expected an if statement"),
    }
}

#[test]
fn blocks_and_recovered_errors() {
    let tokens = vec![
        tok(TokenKind::Defer, "defer", 0),
        tok(TokenKind::True, "true", 6),
        tok(TokenKind::End, "end", 11),
        tok(TokenKind::Eof, "", 14),
    ];
    let program = parse(tokens).unwrap();
    match &program.items[0].kind {
        StmtKind::Defer { body } => {
            assert!(matches!(&body[0].kind, StmtKind::Expr(Expr::Bool { value: true })));
        }
        _ => panic!("expected a defer block"),
    }
    // Two separate syntax errors are both reported.
    let tokens = vec![
        tok(TokenKind::Call, "call", 0),
        tok(TokenKind::End, "end", 5),
        tok(TokenKind::Function, "function", 9),
        tok(TokenKind::Eof, "", 17),
    ];
    let batch = parse(tokens).err().unwrap();
    assert!(batch.len() >= 1);
    assert_eq!(batch.error_count(), batch.len());
}

#[test]
fn unlimited_batch_keeps_every_push() {
    let mut b = DiagnosticBatch::unlimited();
    for i in 0..50 {
        let mut d = Diagnostic::error(format!("E{}", i), "m".to_string());
        if i % 3 == 0 {
            d.severity = Severity::Warning;
        }
        assert!(b.push(d));
    }
    assert_eq!(b.len(), 50);
    assert!(!b.is_at_limit());
    let codes: Vec<String> = b.into_diagnostics().into_iter().map(|d| d.code).collect();
    assert_eq!(codes, (0..50).map(|i| format!("E{}", i)).collect::<Vec<_>>());
}
