use spfmt::source_file::{write_assertion, write_hardcoded_symbol, write_source_file, VerbatimRenderer};
use spfmt::tree::{NodeKind, SyntaxNode};
use spfmt::writer::{EncodingError, RendererId, Writer};

fn token(kind: NodeKind, name: &str, start: usize, end: usize) -> SyntaxNode {
    SyntaxNode { kind, kind_name: name.to_string(), start, end, children: Vec::new() }
}

fn node(kind: NodeKind, name: &str, start: usize, end: usize, children: Vec<SyntaxNode>) -> SyntaxNode {
    SyntaxNode { kind, kind_name: name.to_string(), start, end, children }
}

fn assertion_node(src: &str) -> SyntaxNode {
    // keyword, argument list in parentheses, terminator: "assert(...);"
    let open = src.find('(').unwrap();
    let semi = src.rfind(';').unwrap();
    node(
        NodeKind::Assertion,
        "assertion",
        0,
        semi + 1,
        vec![
            token(NodeKind::AssertToken, "assert", 0, open),
            token(NodeKind::FunctionCallArguments, "function_call_arguments", open, semi),
            token(NodeKind::SemicolonToken, ";", semi, semi + 1),
        ],
    )
}

#[test]
fn scenario_assertion_round_trip() {
    let src = b"assert(x > 0);";
    let root = node(NodeKind::Other, "source_file", 0, src.len(), vec![assertion_node("assert(x > 0);")]);
    let mut w = Writer::new(src);
    let r = write_source_file(&root, &mut w, &VerbatimRenderer);
    assert!(r.is_ok());
    assert_eq!(w.output, b"assert(x > 0);\n".to_vec());
    assert!(w.diagnostics.is_empty());
    assert_eq!(w.skip, 0);
}

#[test]
fn scenario_hardcoded_symbol() {
    let src = b"using __intrinsics__.Handle;";
    let decl = node(
        NodeKind::HardcodedSymbol,
        "hardcoded_symbol",
        0,
        28,
        vec![
            token(NodeKind::IntrinsicsHandleToken, "using __intrinsics__.Handle", 0, 27),
            token(NodeKind::SemicolonToken, ";", 27, 28),
        ],
    );
    let root = node(NodeKind::Other, "source_file", 0, src.len(), vec![decl]);
    let mut w = Writer::new(src);
    let r = write_source_file(&root, &mut w, &VerbatimRenderer);
    assert!(r.is_ok());
    assert_eq!(w.output, b"using __intrinsics__.Handle;\n".to_vec());
    assert!(w.diagnostics.is_empty());
}

#[test]
fn scenario_unknown_kind_verbatim() {
    let src = b"#foo bar";
    let root = node(
        NodeKind::Other,
        "source_file",
        0,
        src.len(),
        vec![token(NodeKind::Other, "preproc_oddity", 0, 8)],
    );
    let mut w = Writer::new(src);
    let r = write_source_file(&root, &mut w, &VerbatimRenderer);
    assert!(r.is_ok());
    assert_eq!(w.output, b"#foo bar".to_vec());
    assert!(w.diagnostics.is_empty());
}

#[test]
fn unknown_kind_dispatch_continues() {
    let src = b"#foo bar;";
    let root = node(
        NodeKind::Other,
        "source_file",
        0,
        src.len(),
        vec![
            token(NodeKind::Other, "preproc_oddity", 0, 8),
            token(NodeKind::SemicolonToken, ";", 8, 9),
        ],
    );
    let mut w = Writer::new(src);
    let r = write_source_file(&root, &mut w, &VerbatimRenderer);
    assert!(r.is_ok());
    assert_eq!(w.output, b"#foo bar;".to_vec());
}

#[test]
fn scenario_surprise_in_assertion() {
    let src = b"assert(x > 0);";
    let mut stmt = assertion_node("assert(x > 0);");
    stmt.children.insert(1, token(NodeKind::Other, "weird_token", 6, 6));
    let root = node(NodeKind::Other, "source_file", 0, src.len(), vec![stmt]);
    let mut w = Writer::new(src);
    let r = write_source_file(&root, &mut w, &VerbatimRenderer);
    assert!(r.is_ok());
    assert_eq!(w.output, b"assert(x > 0);\n".to_vec());
    assert_eq!(w.diagnostics.len(), 1);
    assert_eq!(w.diagnostics[0].kind_name, "weird_token");
    assert_eq!(w.diagnostics[0].renderer, RendererId::Assertion);
    assert_eq!(
        w.diagnostics[0].message(),
        "Unexpected kind weird_token in write_assertion."
    );
}

#[test]
fn surprise_output_matches_surprise_free_output() {
    let src = b"assert(ok);";
    let plain = assertion_node("assert(ok);");
    let mut with_surprise = assertion_node("assert(ok);");
    with_surprise.children.insert(2, token(NodeKind::Enum, "enum", 10, 10));

    let mut w1 = Writer::new(src);
    assert!(write_assertion(&plain, &mut w1, &VerbatimRenderer).is_ok());
    let mut w2 = Writer::new(src);
    assert!(write_assertion(&with_surprise, &mut w2, &VerbatimRenderer).is_ok());

    assert_eq!(w1.output, w2.output);
    assert!(w1.diagnostics.is_empty());
    assert_eq!(w2.diagnostics.len(), 1);
    assert_eq!(w2.diagnostics[0].kind_name, "enum");
}

#[test]
fn assertion_static_variant_trailing_newline() {
    let src = b"static_assert(1 == 1);";
    let stmt = node(
        NodeKind::Assertion,
        "assertion",
        0,
        22,
        vec![
            token(NodeKind::StaticAssertToken, "static_assert", 0, 13),
            token(NodeKind::FunctionCallArguments, "function_call_arguments", 13, 21),
            token(NodeKind::SemicolonToken, ";", 21, 22),
        ],
    );
    let mut w = Writer::new(src);
    assert!(write_assertion(&stmt, &mut w, &VerbatimRenderer).is_ok());
    assert_eq!(w.output, b"static_assert(1 == 1);\n".to_vec());
    let breaks = w.output.iter().filter(|&&b| b == 10).count();
    assert_eq!(breaks, 1);
    assert_eq!(*w.output.last().unwrap(), 10u8);
}

#[test]
fn empty_assertion_is_one_line_break() {
    let src = b"";
    let stmt = node(NodeKind::Assertion, "assertion", 0, 0, Vec::new());
    let mut w = Writer::new(src);
    assert!(write_assertion(&stmt, &mut w, &VerbatimRenderer).is_ok());
    assert_eq!(w.output, b"\n".to_vec());
}

#[test]
fn skip_budget_silences_leading_siblings() {
    let src = b"abc";
    let root = node(
        NodeKind::Other,
        "source_file",
        0,
        3,
        vec![
            token(NodeKind::Other, "a", 0, 1),
            token(NodeKind::Other, "b", 1, 2),
            token(NodeKind::Other, "c", 2, 3),
        ],
    );
    let mut w = Writer::new(src);
    w.skip = 2;
    let r = write_source_file(&root, &mut w, &VerbatimRenderer);
    assert!(r.is_ok());
    assert_eq!(w.output, b"c".to_vec());
    assert_eq!(w.skip, 0);
    assert!(w.diagnostics.is_empty());
}

#[test]
fn skip_budget_larger_than_sibling_count() {
    let src = b"ab";
    let root = node(
        NodeKind::Other,
        "source_file",
        0,
        2,
        vec![token(NodeKind::Other, "a", 0, 1), token(NodeKind::Other, "b", 1, 2)],
    );
    let mut w = Writer::new(src);
    w.skip = 5;
    let r = write_source_file(&root, &mut w, &VerbatimRenderer);
    assert!(r.is_ok());
    assert_eq!(w.output, Vec::<u8>::new());
    assert_eq!(w.skip, 3);
}

#[test]
fn invalid_bytes_abort_the_file() {
    let src: &[u8] = &[0x66, 0xff, 0xfe];
    let root = node(
        NodeKind::Other,
        "source_file",
        0,
        3,
        vec![token(NodeKind::Other, "junk", 0, 3)],
    );
    let mut w = Writer::new(src);
    let r = write_source_file(&root, &mut w, &VerbatimRenderer);
    assert_eq!(r, Err(EncodingError::InvalidByteSequence));
    assert!(w.output.is_empty());
}

#[test]
fn invalid_bytes_in_assertion_abort_without_line_break() {
    let src: &[u8] = &[b'a', 0xc0, b';'];
    let stmt = node(
        NodeKind::Assertion,
        "assertion",
        0,
        3,
        vec![
            token(NodeKind::AssertToken, "assert", 0, 2),
            token(NodeKind::SemicolonToken, ";", 2, 3),
        ],
    );
    let mut w = Writer::new(src);
    let r = write_assertion(&stmt, &mut w, &VerbatimRenderer);
    assert_eq!(r, Err(EncodingError::InvalidByteSequence));
    assert!(w.output.is_empty());
}

#[test]
fn hardcoded_symbol_surprise_names_its_renderer() {
    let src = b"using __intrinsics__.Handle;";
    let decl = node(
        NodeKind::HardcodedSymbol,
        "hardcoded_symbol",
        0,
        28,
        vec![
            token(NodeKind::IntrinsicsHandleToken, "using __intrinsics__.Handle", 0, 27),
            token(NodeKind::FunctionCallArguments, "function_call_arguments", 27, 27),
            token(NodeKind::SemicolonToken, ";", 27, 28),
        ],
    );
    let mut w = Writer::new(src);
    let r = write_hardcoded_symbol(&decl, &mut w, &VerbatimRenderer);
    assert!(r.is_ok());
    assert_eq!(w.output, b"using __intrinsics__.Handle;\n".to_vec());
    assert_eq!(w.diagnostics.len(), 1);
    assert_eq!(w.diagnostics[0].kind_name, "function_call_arguments");
    assert_eq!(w.diagnostics[0].renderer, RendererId::HardcodedSymbol);
}

#[test]
fn construct_kinds_are_delegated_and_rendered() {
    let src = b"enum Foo { A, B };int x;";
    let root = node(
        NodeKind::Other,
        "source_file",
        0,
        src.len(),
        vec![
            token(NodeKind::Enum, "enum", 0, 18),
            token(NodeKind::GlobalVariableDeclaration, "global_variable_declaration", 18, 24),
        ],
    );
    let mut w = Writer::new(src);
    let r = write_source_file(&root, &mut w, &VerbatimRenderer);
    assert!(r.is_ok());
    assert_eq!(w.output, b"enum Foo { A, B };int x;".to_vec());
}

#[test]
fn two_statements_in_document_order() {
    let src = b"assert(1);using __intrinsics__.Handle;";
    let stmt = assertion_node("assert(1);");
    let decl = node(
        NodeKind::HardcodedSymbol,
        "hardcoded_symbol",
        10,
        38,
        vec![
            token(NodeKind::IntrinsicsHandleToken, "using __intrinsics__.Handle", 10, 37),
            token(NodeKind::SemicolonToken, ";", 37, 38),
        ],
    );
    let root = node(NodeKind::Other, "source_file", 0, src.len(), vec![stmt, decl]);
    let mut w = Writer::new(src);
    let r = write_source_file(&root, &mut w, &VerbatimRenderer);
    assert!(r.is_ok());
    assert_eq!(w.output, b"assert(1);\nusing __intrinsics__.Handle;\n".to_vec());
}

#[test]
fn comment_in_assertion_is_delegated_not_reported() {
    let src = b"assert(1); /* why */;";
    let stmt = node(
        NodeKind::Assertion,
        "assertion",
        0,
        21,
        vec![
            token(NodeKind::AssertToken, "assert", 0, 6),
            token(NodeKind::FunctionCallArguments, "function_call_arguments", 6, 9),
            token(NodeKind::SemicolonToken, ";", 9, 10),
            token(NodeKind::Comment, "comment", 11, 20),
        ],
    );
    let mut w = Writer::new(src);
    let r = write_assertion(&stmt, &mut w, &VerbatimRenderer);
    assert!(r.is_ok());
    assert_eq!(w.output, b"assert(1);/* why */\n".to_vec());
    assert!(w.diagnostics.is_empty());
}
