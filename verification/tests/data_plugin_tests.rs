use veltro::ir::{AnnotationIR, ClassIR, FieldIR, ResolvedKind, StringMap, IR_VERSION};
use veltro::plugin::data_plugin::{generate_dart, DataPlugin};
use veltro::plugin::VeltroPlugin;

fn data_annotation() -> AnnotationIR {
    AnnotationIR { name: "Data".to_string(), arguments: StringMap::new() }
}

fn make_class(name: &str, generics: Vec<String>, fields: Vec<FieldIR>, has_from_json: bool) -> ClassIR {
    ClassIR {
        ir_version: IR_VERSION,
        name: name.to_string(),
        generics,
        fields,
        annotations: vec![data_annotation()],
        source_file: format!("{}.dart", name.to_lowercase()),
        has_with_mixin: true,
        has_from_json,
    }
}

fn make_field(name: &str, dart_type: &str, kind: ResolvedKind, is_generic_param: bool) -> FieldIR {
    FieldIR {
        name: name.to_string(),
        dart_type: dart_type.to_string(),
        generic_args: vec![],
        is_required: true,
        is_nullable: false,
        resolved_kind: kind,
        is_generic_param,
        default_value: None,
    }
}

#[test]
fn test_generate_simple() {
    let ir = make_class("User", vec![], vec![make_field("id", "String", ResolvedKind::External, false)], true);

    let output = generate_dart(&ir);

    assert!(output.contains("mixin _$User {"), "Missing mixin declaration");
    assert!(output.contains("String get id;"), "Missing abstract getter");
    assert!(output.contains("User copyWith("), "Missing copyWith signature in mixin");
    assert!(output.contains("Map<String, dynamic> toJson();"), "Missing toJson signature in mixin");
    assert!(output.contains("class _User with _$User implements User {"), "Missing concrete class");
    assert!(output.contains("@override final String id;"), "Missing @override field");
    assert!(output.contains("factory _User.fromJson("), "Missing fromJson factory");
    assert!(output.contains("User _$UserFromJson("), "Missing top-level helper");
}

#[test]
fn test_generate_no_from_json() {
    let ir = make_class("User", vec![], vec![make_field("id", "String", ResolvedKind::External, false)], false);

    let output = generate_dart(&ir);
    assert!(!output.contains("_$UserFromJson"), "Top-level helper should not be emitted");
    assert!(output.contains("mixin _$User {"), "Missing mixin");
    assert!(output.contains("class _User with _$User implements User {"), "Missing concrete class");
}

#[test]
fn data_plugin_test_generate_annotated_class_field() {
    let ir = make_class(
        "Person",
        vec![],
        vec![make_field("address", "Address", ResolvedKind::AnnotatedClass, false)],
        true,
    );

    let output = generate_dart(&ir);
    assert!(
        output.contains("address: Address.fromJson(json['address'] as Map<String, dynamic>)"),
        "AnnotatedClass fromJson should use .fromJson()"
    );
    assert!(output.contains("'address': address.toJson()"), "AnnotatedClass toJson should use .toJson()");
}

#[test]
fn data_plugin_test_generate_enum_field() {
    let ir = make_class("User", vec![], vec![make_field("status", "Status", ResolvedKind::Enum, false)], true);

    let output = generate_dart(&ir);
    assert!(
        output.contains("Status.values.byName(json['status'] as String)"),
        "Enum fromJson should use .values.byName()"
    );
    assert!(output.contains("'status': status.name"), "Enum toJson should use .name");
}

#[test]
fn data_plugin_test_generate_generic() {
    let ir = make_class(
        "ApiResponse",
        vec!["T".to_string()],
        vec![
            make_field("success", "bool", ResolvedKind::External, false),
            make_field("data", "T", ResolvedKind::External, true),
        ],
        true,
    );

    let output = generate_dart(&ir);
    assert!(output.contains("mixin _$ApiResponse<T>"), "Missing generic mixin");
    assert!(
        output.contains("class _ApiResponse<T> with _$ApiResponse<T> implements ApiResponse<T>"),
        "Missing generic concrete class"
    );
    assert!(output.contains("data: fromJsonT(json['data'])"), "Missing generic fromJson parameter usage");
    assert!(output.contains("ApiResponse<T> _$ApiResponseFromJson<T>"), "Missing generic top-level helper");
}

#[test]
fn data_plugin_handles_data_and_writes_next_to_the_source() {
    let plugin = DataPlugin;
    assert_eq!(plugin.annotation(), "Data");
    let ir = make_class("User", vec![], vec![make_field("id", "String", ResolvedKind::External, false)], false);
    let files = plugin.generate(&ir, &StringMap::new());
    assert_eq!(files.len(), 1);
    assert_eq!(files[0].path, "user.g.dart");
    assert_eq!(files[0].content, generate_dart(&ir));
    assert!(files[0].content.starts_with("\n"));
}
