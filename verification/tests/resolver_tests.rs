use veltro::ir::{AnnotationIR, ClassIR, FieldIR, ResolvedKind, StringMap, IR_VERSION};
use veltro::pipeline::parser::parse_source;
use veltro::pipeline::resolver::resolve;
use veltro::registry::TypeRegistry;

fn make_class(name: &str, generics: Vec<String>, fields: Vec<FieldIR>) -> ClassIR {
    ClassIR {
        ir_version: IR_VERSION,
        name: name.to_string(),
        generics,
        fields,
        annotations: vec![AnnotationIR { name: "Veltro".to_string(), arguments: StringMap::new() }],
        source_file: format!("{}.dart", name.to_lowercase()),
        has_with_mixin: true,
        has_from_json: false,
    }
}

fn make_field(name: &str, dart_type: &str) -> FieldIR {
    FieldIR {
        name: name.to_string(),
        dart_type: dart_type.to_string(),
        generic_args: vec![],
        is_required: true,
        is_nullable: false,
        resolved_kind: ResolvedKind::External,
        is_generic_param: false,
        default_value: None,
    }
}

fn annotated(name: &str, annotation: &str) -> ClassIR {
    let mut c = make_class(name, vec![], vec![]);
    c.annotations = vec![AnnotationIR { name: annotation.to_string(), arguments: StringMap::new() }];
    c
}

#[test]
fn test_resolve_annotated_class() {
    let mut registry = TypeRegistry::new();
    registry.insert("Address".to_string(), ResolvedKind::AnnotatedClass);

    let ir = make_class("Person", vec![], vec![make_field("address", "Address")]);
    let resolved = resolve(ir, &registry);
    assert_eq!(resolved.fields[0].resolved_kind, ResolvedKind::AnnotatedClass);
}

#[test]
fn test_resolve_generic() {
    let registry = TypeRegistry::new();
    let ir = make_class("Box", vec!["T".to_string()], vec![make_field("value", "T")]);
    let resolved = resolve(ir, &registry);
    assert_eq!(resolved.fields[0].resolved_kind, ResolvedKind::External);
    assert!(resolved.fields[0].is_generic_param);
}

#[test]
fn resolve_keeps_everything_but_kinds_and_is_idempotent() {
    let mut registry = TypeRegistry::new();
    registry.insert("Status".to_string(), ResolvedKind::Enum);
    let ir = make_class("User", vec![], vec![make_field("status", "Status"), make_field("id", "String")]);
    let once = resolve(ir, &registry);
    assert_eq!(once.name, "User");
    assert_eq!(once.fields[0].name, "status");
    assert_eq!(once.fields[0].resolved_kind, ResolvedKind::Enum);
    assert_eq!(once.fields[1].resolved_kind, ResolvedKind::External);
    let twice = resolve(once, &registry);
    assert_eq!(twice.fields[0].resolved_kind, ResolvedKind::Enum);
    assert_eq!(twice.fields[1].resolved_kind, ResolvedKind::External);
    assert!(!twice.fields[0].is_generic_param);
}

#[test]
fn registry_get_unknown_is_external_and_insert_overrides() {
    let mut registry = TypeRegistry::new();
    assert_eq!(registry.get("Nope"), ResolvedKind::External);
    registry.insert("A".to_string(), ResolvedKind::AnnotatedClass);
    registry.insert("A".to_string(), ResolvedKind::Enum);
    assert_eq!(registry.get("A"), ResolvedKind::Enum);
}

#[test]
fn registry_build_registers_classes_and_dart_enums() {
    let src = "enum Color { red, green }\n\n@Veltro()\nclass Box with _$Box {\n  const factory Box({required Color color}) = _Box;\n}\n";
    let parsed = parse_source("lib/box.dart", src.to_string()).unwrap();
    let classes = vec![
        annotated("Box", "Veltro"),
        annotated("Mode", "IsEnum"),
        annotated("Color", "Veltro"),
    ];
    let registry = TypeRegistry::build(&classes, &[parsed]);
    assert_eq!(registry.get("Box"), ResolvedKind::AnnotatedClass);
    assert_eq!(registry.get("Mode"), ResolvedKind::Enum);
    // a Dart enum declaration wins over an annotated class of the same name
    assert_eq!(registry.get("Color"), ResolvedKind::Enum);
    assert_eq!(registry.get("String"), ResolvedKind::External);
}

#[test]
fn registry_holds_only_declared_names_and_agreeing_kinds() {
    let parsed = parse_source("lib/empty.dart", "enum Side { left, right }\n".to_string()).unwrap();
    let classes = vec![annotated("Box", "Veltro"), annotated("Box", "Veltro"), annotated("Flag", "IsEnum")];
    let registry = TypeRegistry::build(&classes, &[parsed]);
    assert_eq!(registry.get("Box"), ResolvedKind::AnnotatedClass);
    assert_eq!(registry.get("Flag"), ResolvedKind::Enum);
    assert_eq!(registry.get("Side"), ResolvedKind::Enum);
    assert_eq!(registry.get("Left"), ResolvedKind::External);
    assert_eq!(registry.get("box"), ResolvedKind::External);
}
