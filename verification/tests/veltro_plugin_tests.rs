use veltro::ir::{AnnotationIR, ClassIR, FieldIR, ResolvedKind, StringMap, IR_VERSION};
use veltro::plugin::veltro_plugin::{
    generate_dart, to_json_key, to_snake_case, FieldRename, VeltroCodePlugin, VeltroOptions,
};
use veltro::plugin::{PluginRegistry, VeltroPlugin};

fn veltro_annotation(args: &[(&str, &str)]) -> AnnotationIR {
    let mut arguments = StringMap::new();
    for (k, v) in &[("json", "true"), ("fieldRename", "none"), ("includeIfNull", "true"), ("copyWith", "true")] {
        arguments.insert(k.to_string(), v.to_string());
    }
    for (k, v) in args {
        arguments.insert(k.to_string(), v.to_string());
    }
    AnnotationIR { name: "Veltro".to_string(), arguments }
}

fn make_class(name: &str, generics: Vec<String>, fields: Vec<FieldIR>, ann: AnnotationIR) -> ClassIR {
    ClassIR {
        ir_version: IR_VERSION,
        name: name.to_string(),
        generics,
        fields,
        annotations: vec![ann],
        source_file: format!("{}.dart", name.to_lowercase()),
        has_with_mixin: true,
        has_from_json: false,
    }
}

fn make_field(name: &str, dart_type: &str, kind: ResolvedKind, is_generic_param: bool) -> FieldIR {
    FieldIR {
        name: name.to_string(),
        dart_type: dart_type.to_string(),
        generic_args: vec![],
        is_required: true,
        is_nullable: false,
        resolved_kind: kind,
        is_generic_param,
        default_value: None,
    }
}

fn make_nullable_field(name: &str, dart_type: &str, kind: ResolvedKind) -> FieldIR {
    FieldIR {
        name: name.to_string(),
        dart_type: dart_type.to_string(),
        generic_args: vec![],
        is_required: false,
        is_nullable: true,
        resolved_kind: kind,
        is_generic_param: false,
        default_value: None,
    }
}

fn make_default_field(name: &str, dart_type: &str, default_val: &str) -> FieldIR {
    FieldIR {
        name: name.to_string(),
        dart_type: dart_type.to_string(),
        generic_args: vec![],
        is_required: false,
        is_nullable: false,
        resolved_kind: ResolvedKind::External,
        is_generic_param: false,
        default_value: Some(default_val.to_string()),
    }
}

#[test]
fn test_generate_json_true_default() {
    let ir = make_class("User", vec![], vec![make_field("id", "String", ResolvedKind::External, false)], veltro_annotation(&[]));
    let opts = VeltroOptions::from_arguments(&ir.annotations[0].arguments);
    let output = generate_dart(&ir, &opts);

    assert!(output.contains("mixin _$User {"), "Missing mixin");
    assert!(output.contains("String get id;"), "Missing getter");
    assert!(output.contains("User copyWith("), "Missing copyWith in mixin");
    assert!(output.contains("Map<String, dynamic> toJson();"), "Missing toJson in mixin");
    assert!(output.contains("class _User with _$User implements User {"), "Missing concrete class");
    assert!(output.contains("factory _User.fromJson("), "Missing fromJson factory");
    assert!(output.contains("extension _$UserJsonExtension on User {"), "Missing extension");
    assert!(output.contains("static User fromJson(Map<String, dynamic> json) =>"), "Missing static fromJson");
    assert!(!output.contains("_$UserFromJson"), "Old top-level helper should not be emitted");
}

#[test]
fn test_generate_json_false() {
    let ir = make_class(
        "AppState",
        vec![],
        vec![make_field("count", "int", ResolvedKind::External, false)],
        veltro_annotation(&[("json", "false")]),
    );
    let opts = VeltroOptions::from_arguments(&ir.annotations[0].arguments);
    let output = generate_dart(&ir, &opts);

    assert!(!output.contains("fromJson"), "No fromJson when json: false");
    assert!(!output.contains("toJson"), "No toJson when json: false");
    assert!(!output.contains("extension"), "No extension when json: false");
    assert!(output.contains("mixin _$AppState {"), "Missing mixin");
    assert!(output.contains("AppState copyWith("), "copyWith still generated");
}

#[test]
fn test_generate_copy_with_false() {
    let ir = make_class(
        "IncrementEvent",
        vec![],
        vec![make_field("amount", "int", ResolvedKind::External, false)],
        veltro_annotation(&[("json", "false"), ("copyWith", "false")]),
    );
    let opts = VeltroOptions::from_arguments(&ir.annotations[0].arguments);
    let output = generate_dart(&ir, &opts);

    assert!(!output.contains("copyWith"), "No copyWith when copyWith: false");
    assert!(!output.contains("fromJson"), "No fromJson when json: false");
    assert!(output.contains("mixin _$IncrementEvent {"), "Missing mixin");
    assert!(output.contains("class _IncrementEvent"), "Missing concrete class");
}

#[test]
fn test_generate_field_rename_snake() {
    let ir = make_class(
        "UserDto",
        vec![],
        vec![make_field("userId", "String", ResolvedKind::External, false)],
        veltro_annotation(&[("fieldRename", "snake")]),
    );
    let opts = VeltroOptions::from_arguments(&ir.annotations[0].arguments);
    let output = generate_dart(&ir, &opts);

    assert!(output.contains("json['user_id']"), "fromJson should use snake_case key");
    assert!(output.contains("'user_id': userId"), "toJson should use snake_case key");
}

#[test]
fn test_generate_include_if_null_false() {
    let ir = make_class(
        "UserDto",
        vec![],
        vec![
            make_field("userId", "String", ResolvedKind::External, false),
            make_nullable_field("nickname", "String", ResolvedKind::External),
        ],
        veltro_annotation(&[("includeIfNull", "false")]),
    );
    let opts = VeltroOptions::from_arguments(&ir.annotations[0].arguments);
    let output = generate_dart(&ir, &opts);

    assert!(output.contains("final map = <String, dynamic>"), "Should use if-guard pattern");
    assert!(output.contains("if (nickname != null) map['nickname'] = nickname"), "Nullable field should be guarded");
    assert!(output.contains("'userId': userId"), "Non-nullable field always included");
}

#[test]
fn test_generate_default_value() {
    let fields = vec![
        make_default_field("isLoading", "bool", "false"),
        make_default_field("themeMode", "ThemeMode", "ThemeMode.dark"),
        make_nullable_field("error", "String", ResolvedKind::External),
    ];
    let ir = make_class("AppState", vec![], fields, veltro_annotation(&[("json", "false")]));
    let opts = VeltroOptions::from_arguments(&ir.annotations[0].arguments);
    let output = generate_dart(&ir, &opts);

    assert!(output.contains("this.isLoading = false,"), "@Default(false) → = false");
    assert!(output.contains("this.themeMode = ThemeMode.dark,"), "@Default(ThemeMode.dark) → = ThemeMode.dark");
    assert!(output.contains("this.error,"), "Nullable field without default");
    assert!(!output.contains("required this.isLoading"), "Default field must not be required");
    assert!(!output.contains("required this.themeMode"), "Default field must not be required");
}

#[test]
fn veltro_plugin_test_generate_generic() {
    let ir = make_class(
        "ApiResponse",
        vec!["T".to_string()],
        vec![
            make_field("success", "bool", ResolvedKind::External, false),
            make_field("data", "T", ResolvedKind::External, true),
        ],
        veltro_annotation(&[]),
    );
    let opts = VeltroOptions::from_arguments(&ir.annotations[0].arguments);
    let output = generate_dart(&ir, &opts);

    assert!(output.contains("mixin _$ApiResponse<T>"), "Missing generic mixin");
    assert!(
        output.contains("class _ApiResponse<T> with _$ApiResponse<T> implements ApiResponse<T>"),
        "Missing generic class"
    );
    assert!(output.contains("data: fromJsonT(json['data'])"), "Missing generic fromJson usage");
    assert!(
        output.contains("extension _$ApiResponseJsonExtension<T> on ApiResponse<T>"),
        "Missing generic extension"
    );
    assert!(
        output.contains(
            "static ApiResponse<T> fromJson<T>(Map<String, dynamic> json, T Function(Object?) fromJsonT)"
        ),
        "Missing generic static method"
    );
}

#[test]
fn veltro_plugin_test_generate_annotated_class_field() {
    let ir = make_class(
        "Person",
        vec![],
        vec![make_field("address", "Address", ResolvedKind::AnnotatedClass, false)],
        veltro_annotation(&[]),
    );
    let opts = VeltroOptions::from_arguments(&ir.annotations[0].arguments);
    let output = generate_dart(&ir, &opts);

    assert!(output.contains("address: Address.fromJson(json['address'] as Map<String, dynamic>)"));
    assert!(output.contains("'address': address.toJson()"));
}

#[test]
fn veltro_plugin_test_generate_enum_field() {
    let ir = make_class("User", vec![], vec![make_field("status", "Status", ResolvedKind::Enum, false)], veltro_annotation(&[]));
    let opts = VeltroOptions::from_arguments(&ir.annotations[0].arguments);
    let output = generate_dart(&ir, &opts);

    assert!(output.contains("Status.values.byName(json['status'] as String)"));
    assert!(output.contains("'status': status.name"));
}

#[test]
fn snake_case_splits_and_lowercases() {
    assert_eq!(to_snake_case("userId"), "user_id");
    assert_eq!(to_snake_case("UserID"), "user_i_d");
    assert_eq!(to_snake_case("plain_name"), "plain_name");
    assert_eq!(to_snake_case(""), "");
}

#[test]
fn json_keys_follow_the_rename_rule() {
    assert_eq!(to_json_key("userId", &FieldRename::Unchanged), "userId");
    assert_eq!(to_json_key("userId", &FieldRename::Snake), "user_id");
    assert_eq!(to_json_key("userId", &FieldRename::Kebab), "user-id");
    assert_eq!(to_json_key("userId", &FieldRename::ScreamingSnake), "USER_ID");
    assert_eq!(to_json_key("userId", &FieldRename::Pascal), "UserId");
}

#[test]
fn options_from_arguments_read_flags_and_rename() {
    let ann = veltro_annotation(&[("json", "false"), ("fieldRename", "kebab"), ("includeIfNull", "yes")]);
    let opts = VeltroOptions::from_arguments(&ann.arguments);
    assert!(!opts.json);
    assert_eq!(opts.field_rename, FieldRename::Kebab);
    assert!(opts.include_if_null);
    assert!(opts.create_copy_with);
    let unknown = veltro_annotation(&[("fieldRename", "weird")]);
    assert_eq!(VeltroOptions::from_arguments(&unknown.arguments).field_rename, FieldRename::Unchanged);
}

#[test]
fn plugin_generates_only_for_classes_with_the_mixin() {
    let plugin = VeltroCodePlugin;
    assert_eq!(plugin.annotation(), "Veltro");
    let mut ir = make_class("User", vec![], vec![make_field("id", "String", ResolvedKind::External, false)], veltro_annotation(&[]));
    let files = plugin.generate(&ir, &StringMap::new());
    assert_eq!(files.len(), 1);
    assert_eq!(files[0].path, "user.g.dart");
    ir.has_with_mixin = false;
    assert!(plugin.generate(&ir, &StringMap::new()).is_empty());
}

#[test]
fn default_registry_matches_only_veltro() {
    let registry = PluginRegistry::with_defaults();
    let found = registry.plugins_for("Veltro");
    assert_eq!(found.len(), 1);
    assert_eq!(found[0].annotation(), "Veltro");
    assert!(registry.plugins_for("Data").is_empty());
    assert!(registry.plugins_for("veltro").is_empty());
}

#[test]
fn field_lines_come_in_field_order() {
    let ir = make_class(
        "Pair",
        vec![],
        vec![
            make_field("first", "int", ResolvedKind::External, false),
            make_default_field("second", "String", "'x'"),
        ],
        veltro_annotation(&[]),
    );
    let opts = VeltroOptions::from_arguments(&ir.annotations[0].arguments);
    let output = generate_dart(&ir, &opts);
    let pos = |s: &str| output.find(s).unwrap_or_else(|| panic!("missing {:?}", s));
    assert!(pos("  int get first;\n") < pos("  String get second;\n"));
    assert!(pos("  @override final int first;\n") < pos("  @override final String second;\n"));
    assert!(pos("    required this.first,\n") < pos("    this.second = 'x',\n"));
}

#[test]
fn to_json_form_follows_include_if_null() {
    let fields = vec![make_field("id", "String", ResolvedKind::External, false)];
    let with_nulls = make_class("A", vec![], fields.clone(), veltro_annotation(&[]));
    let opts = VeltroOptions::from_arguments(&with_nulls.annotations[0].arguments);
    let out = generate_dart(&with_nulls, &opts);
    assert!(out.contains("Map<String, dynamic> toJson() => {"));
    assert!(!out.contains("final map = <String, dynamic>{"));
    assert!(out.contains("extension _$"));

    let without_nulls = make_class("A", vec![], fields, veltro_annotation(&[("includeIfNull", "false")]));
    let opts = VeltroOptions::from_arguments(&without_nulls.annotations[0].arguments);
    let out = generate_dart(&without_nulls, &opts);
    assert!(out.contains("final map = <String, dynamic>{"));
    assert!(!out.contains("toJson() => {"));
}

#[test]
fn copy_with_off_leaves_it_out_with_json_on() {
    let ir = make_class(
        "Pair",
        vec!["T".to_string()],
        vec![
            make_field("value", "T", ResolvedKind::External, true),
            make_nullable_field("label", "String", ResolvedKind::External),
        ],
        veltro_annotation(&[("copyWith", "false"), ("fieldRename", "snake")]),
    );
    let opts = VeltroOptions::from_arguments(&ir.annotations[0].arguments);
    let output = generate_dart(&ir, &opts);
    assert!(!output.contains("copyWith"));
    assert!(output.contains("toJson"));
    assert!(output.contains("fromJson"));
    assert!(output.contains("extension _$"));
}

#[test]
fn map_literal_only_without_nulls() {
    let fields = vec![make_field("id", "String", ResolvedKind::External, false)];
    let off = make_class("A", vec![], fields.clone(), veltro_annotation(&[("json", "false"), ("includeIfNull", "false")]));
    let opts = VeltroOptions::from_arguments(&off.annotations[0].arguments);
    assert!(!generate_dart(&off, &opts).contains("final map = <String, dynamic>{"));

    // a field type can bring the text in by itself
    let odd = make_class(
        "B",
        vec![],
        vec![make_field("m", "map = <String, dynamic>{}", ResolvedKind::External, false)],
        veltro_annotation(&[]),
    );
    let opts = VeltroOptions::from_arguments(&odd.annotations[0].arguments);
    assert!(generate_dart(&odd, &opts).contains("final map = <String, dynamic>{"));
}

#[test]
fn renamed_ascii_keys_keep_option_words_out() {
    let ir = make_class(
        "Box",
        vec![],
        vec![make_field("copyItem", "int", ResolvedKind::External, false), make_field("mapWidth", "int", ResolvedKind::External, false)],
        veltro_annotation(&[("copyWith", "false"), ("fieldRename", "pascal")]),
    );
    let opts = VeltroOptions::from_arguments(&ir.annotations[0].arguments);
    let output = generate_dart(&ir, &opts);
    assert!(!output.contains("copyWith"));
    assert!(output.contains("'CopyItem'"));
    assert!(output.contains("Map<String, dynamic> toJson() => {"));
    assert!(!output.contains("final map = <String, dynamic>{"));
}
