use veltro::pipeline::parser::{check_syntax, parse_source, ParseError};
use veltro::pipeline::syntax::SyntaxNode;

#[test]
fn test_parse_error() {
    let result = parse_source("testdata/broken.dart", "class Broken { oops".to_string());
    assert!(matches!(result, Err(ParseError::SyntaxError { .. })));
}

#[test]
fn syntax_error_names_the_file_and_line() {
    let result = parse_source("lib/a.dart", "class A {}\nclass Broken { oops".to_string());
    match result {
        Err(ParseError::SyntaxError { path, line, message }) => {
            assert_eq!(path, "lib/a.dart");
            assert!(line >= 1);
            assert_eq!(message, "Syntax error");
        }
        other => panic!("expected a syntax error, got {:?}", other.map(|f| f.path)),
    }
}

#[test]
fn valid_source_parses_and_keeps_path_and_text() {
    let text = "class A {\n  final int x;\n  A(this.x);\n}\n";
    let parsed = parse_source("lib/a.dart", text.to_string()).unwrap();
    assert_eq!(parsed.path, "lib/a.dart");
    assert_eq!(parsed.source, text);
    assert!(!parsed.tree.has_error);
    assert_eq!(parsed.tree.kind, "source_file");
}

#[test]
fn parse_error_texts() {
    let e = ParseError::SyntaxError { path: "lib/a.dart".to_string(), line: 12, message: "Syntax error".to_string() };
    assert_eq!(e.describe(), "Parse error in lib/a.dart at line 12: Syntax error");
    assert_eq!(ParseError::Io("denied".to_string()).describe(), "IO error: denied");
    assert_eq!(ParseError::LanguageError.describe(), "Failed to initialize Dart parser.");
}

#[test]
fn check_syntax_accepts_a_tree_without_errors() {
    let leaf = SyntaxNode {
        kind: "program".to_string(),
        field: None,
        start: 0,
        end: 0,
        row: 0,
        is_error: false,
        is_missing: false,
        has_error: false,
        children: vec![],
    };
    let r = check_syntax("lib/x.dart", leaf, String::new());
    assert!(r.is_ok());
}

#[test]
fn check_syntax_reports_first_error_row_plus_one() {
    let bad = SyntaxNode {
        kind: "ERROR".to_string(),
        field: None,
        start: 0,
        end: 3,
        row: 4,
        is_error: true,
        is_missing: false,
        has_error: true,
        children: vec![],
    };
    let root = SyntaxNode {
        kind: "program".to_string(),
        field: None,
        start: 0,
        end: 3,
        row: 0,
        is_error: false,
        is_missing: false,
        has_error: true,
        children: vec![bad],
    };
    match check_syntax("lib/x.dart", root, "abc".to_string()) {
        Err(ParseError::SyntaxError { line, .. }) => assert_eq!(line, 5),
        _ => panic!("expected a syntax error"),
    }
}
