use veltro::pipeline::analyzer::{
    analyze, check_has_with_mixin, extract_default_value, parse_annotation_text, AnalyzeError,
};
use veltro::pipeline::parser::{parse_source, ParsedFile};

const SIMPLE: &str = "import 'package:veltro/veltro.dart';\n\npart 'simple.g.dart';\n\n@Veltro()\nclass User with _$User {\n  const factory User({\n    required String id,\n    required String name,\n    int? age,\n  }) = _User;\n}\n";

const NESTED: &str = "part 'nested.g.dart';\n\n@Veltro()\nclass Address with _$Address {\n  const factory Address({required String street}) = _Address;\n}\n\n@Veltro()\nclass Person with _$Person {\n  const factory Person({required String name, required Address address}) = _Person;\n}\n";

const STATE: &str = "part 'state.g.dart';\n\nenum ConnectivityStatus { connected, disconnected }\n\n@Veltro(json: false)\nclass AppState with _$AppState {\n  const factory AppState({\n    @Default(false) bool isLoading,\n    @Default(ConnectivityStatus.disconnected) ConnectivityStatus connectivity,\n    String? error,\n  }) = _AppState;\n}\n";

fn arg(ann: &veltro::ir::AnnotationIR, key: &str) -> Option<String> {
    ann.arguments.get(key).map(|s| s.clone())
}

#[test]
fn test_veltro_defaults_injected() {
    let ann = parse_annotation_text("@Veltro()").unwrap();
    assert_eq!(ann.name, "Veltro");
    assert_eq!(arg(&ann, "json").as_deref(), Some("true"));
    assert_eq!(arg(&ann, "fieldRename").as_deref(), Some("none"));
    assert_eq!(arg(&ann, "includeIfNull").as_deref(), Some("true"));
    assert_eq!(arg(&ann, "copyWith").as_deref(), Some("true"));
}

#[test]
fn test_veltro_json_false_copy_with_false() {
    let ann = parse_annotation_text("@Veltro(json: false, copyWith: false)").unwrap();
    assert_eq!(arg(&ann, "json").as_deref(), Some("false"));
    assert_eq!(arg(&ann, "copyWith").as_deref(), Some("false"));
    assert_eq!(arg(&ann, "fieldRename").as_deref(), Some("none"));
    assert_eq!(arg(&ann, "includeIfNull").as_deref(), Some("true"));
}

#[test]
fn test_veltro_field_rename_snake() {
    let ann = parse_annotation_text("@Veltro(fieldRename: FieldRename.snake)").unwrap();
    assert_eq!(arg(&ann, "fieldRename").as_deref(), Some("snake"));
    assert_eq!(arg(&ann, "json").as_deref(), Some("true"));
}

#[test]
fn test_extract_default_value_bool() {
    assert_eq!(extract_default_value("@Default(false) bool isLoading"), Some("false".to_string()));
    assert_eq!(extract_default_value("@Default(true) bool flag"), Some("true".to_string()));
}

#[test]
fn test_extract_default_value_enum() {
    assert_eq!(
        extract_default_value("@Default(ThemeMode.dark) ThemeMode themeMode"),
        Some("ThemeMode.dark".to_string())
    );
    assert_eq!(
        extract_default_value("@Default(ConnectivityStatus.disconnected) ConnectivityStatus connectivity"),
        Some("ConnectivityStatus.disconnected".to_string())
    );
}

#[test]
fn test_extract_default_value_list() {
    assert_eq!(extract_default_value("@Default([]) List<String> tags"), Some("[]".to_string()));
}

#[test]
fn test_extract_default_value_none() {
    assert_eq!(extract_default_value("required String id"), None);
    assert_eq!(extract_default_value("String? nickname"), None);
}

#[test]
fn annotation_without_arguments_keeps_only_its_name() {
    let ann = parse_annotation_text("@Data()").unwrap();
    assert_eq!(ann.name, "Data");
    assert_eq!(ann.arguments.len(), 0);
    let bare = parse_annotation_text("@IsEnum").unwrap();
    assert_eq!(bare.name, "IsEnum");
}

#[test]
fn text_that_is_not_an_annotation_gives_none() {
    assert!(parse_annotation_text("Veltro()").is_none());
    assert!(parse_annotation_text("").is_none());
    assert!(parse_annotation_text("@()").is_none());
}

#[test]
fn later_argument_overrides_earlier_one() {
    let ann = parse_annotation_text("@Veltro(json: false, json: true)").unwrap();
    assert_eq!(arg(&ann, "json").as_deref(), Some("true"));
}

#[test]
fn default_value_with_nested_parentheses() {
    assert_eq!(
        extract_default_value("@Default(Duration(seconds: 3)) Duration timeout"),
        Some("Duration(seconds: 3)".to_string())
    );
}

#[test]
fn with_mixin_is_detected_in_class_text() {
    assert!(check_has_with_mixin("class User with _$User {}", "_$User"));
    assert!(!check_has_with_mixin("class User {}", "_$User"));
}

#[test]
fn analyze_finds_annotated_class_with_its_fields() {
    let src = "@Veltro(json: false)\nclass AppState with _$AppState {\n  const factory AppState({\n    @Default(false) bool isLoading,\n    required String name,\n    String? error,\n  }) = _AppState;\n}\n";
    let parsed = parse_source("lib/app_state.dart", src.to_string()).unwrap();
    let irs = analyze(&parsed).unwrap();
    assert_eq!(irs.len(), 1);
    let ir = &irs[0];
    assert_eq!(ir.name, "AppState");
    assert!(ir.has_with_mixin);
    assert!(!ir.has_from_json);
    assert_eq!(ir.source_file, "lib/app_state.dart");
    assert_eq!(ir.annotations.len(), 1);
    assert_eq!(ir.annotations[0].name, "Veltro");
    assert_eq!(arg(&ir.annotations[0], "json").as_deref(), Some("false"));
    let names: Vec<&str> = ir.fields.iter().map(|f| f.name.as_str()).collect();
    assert_eq!(names, vec!["isLoading", "name", "error"]);
    assert_eq!(ir.fields[0].default_value, Some("false".to_string()));
    assert!(!ir.fields[0].is_required);
    assert!(ir.fields[1].is_required);
    assert_eq!(ir.fields[1].dart_type, "String");
    assert!(ir.fields[2].is_nullable);
    assert_eq!(ir.fields[2].default_value, None);
}

#[test]
fn analyze_skips_classes_without_annotations() {
    let src = "class Plain {\n  final int x;\n  Plain(this.x);\n}\n";
    let parsed = parse_source("lib/plain.dart", src.to_string()).unwrap();
    let irs = analyze(&parsed).unwrap();
    assert_eq!(irs.len(), 0);
}

#[test]
fn analyze_error_describes_itself() {
    let e = AnalyzeError::UnexpectedStructure("no name".to_string());
    assert_eq!(e.describe(), "Unexpected AST structure: no name");
}

fn parse_file(path: &str, text: &str) -> Result<ParsedFile, veltro::pipeline::parser::ParseError> {
    parse_source(path, text.to_string())
}

#[test]
fn test_parse_simple_dart() {
    let path = "testdata/simple.dart";
    let result = parse_file(path, SIMPLE).unwrap();
    assert_eq!(result.path, path);
    assert!(!result.source.is_empty());
}

#[test]
fn test_analyze_simple() {
    let parsed = parse_file("testdata/simple.dart", SIMPLE).unwrap();
    let irs = analyze(&parsed).unwrap();
    assert_eq!(irs.len(), 1);
    let ir = &irs[0];

    assert_eq!(ir.name, "User");
    assert!(!ir.has_from_json);
    assert!(ir.has_with_mixin);
    assert_eq!(ir.fields.len(), 3);
    assert_eq!(ir.fields[0].name, "id");
    assert_eq!(ir.fields[0].dart_type, "String");
    assert!(ir.fields[0].is_required);
    assert_eq!(ir.annotations.len(), 1);
    assert_eq!(ir.annotations[0].name, "Veltro");
    assert_eq!(arg(&ir.annotations[0], "json").as_deref(), Some("true"));
    assert_eq!(arg(&ir.annotations[0], "fieldRename").as_deref(), Some("none"));
    assert_eq!(arg(&ir.annotations[0], "includeIfNull").as_deref(), Some("true"));
    assert_eq!(arg(&ir.annotations[0], "copyWith").as_deref(), Some("true"));
}

#[test]
fn test_analyze_nested() {
    let parsed = parse_file("testdata/nested.dart", NESTED).unwrap();
    let irs = analyze(&parsed).unwrap();
    assert_eq!(irs.len(), 2);
}

#[test]
fn test_analyze_state() {
    let parsed = parse_file("testdata/state.dart", STATE).unwrap();
    let irs = analyze(&parsed).unwrap();
    assert_eq!(irs.len(), 1);
    let ir = &irs[0];
    assert_eq!(ir.name, "AppState");
    assert!(!ir.has_from_json);
    assert!(ir.has_with_mixin);

    let ann = &ir.annotations[0];
    assert_eq!(ann.name, "Veltro");
    assert_eq!(arg(ann, "json").as_deref(), Some("false"));

    let is_loading = ir.fields.iter().find(|f| f.name == "isLoading").unwrap();
    assert_eq!(is_loading.default_value, Some("false".to_string()));

    let connectivity = ir.fields.iter().find(|f| f.name == "connectivity").unwrap();
    assert_eq!(connectivity.default_value, Some("ConnectivityStatus.disconnected".to_string()));

    let error = ir.fields.iter().find(|f| f.name == "error").unwrap();
    assert_eq!(error.default_value, None);
}
