use veltro::config::{fill_output_template, BuildConfig};
use veltro::yaml::YamlValue;

fn text(s: &str) -> YamlValue {
    YamlValue::Text(s.to_string())
}

fn mapping(entries: Vec<(&str, YamlValue)>) -> YamlValue {
    YamlValue::Mapping(entries.into_iter().map(|(k, v)| (text(k), v)).collect())
}

fn sample_document() -> YamlValue {
    mapping(vec![(
        "veltro",
        mapping(vec![
            ("generate_for", YamlValue::Sequence(vec![text("lib/models/**.dart"), YamlValue::Null, text("lib/state/*.dart")])),
            ("build_extensions", mapping(vec![("lib/{}.dart", text("lib/gen/{}.g.dart")), ("other", YamlValue::Bool(true))])),
            (
                "builders",
                YamlValue::Sequence(vec![
                    mapping(vec![
                        ("annotation", text("Veltro")),
                        ("options", mapping(vec![("fieldRename", text("snake")), ("json", text("false"))])),
                    ]),
                    mapping(vec![("annotation", text("Data"))]),
                    mapping(vec![("options", mapping(vec![("ignored", text("x"))]))]),
                ]),
            ),
        ]),
    )])
}

#[test]
fn default_config_includes_lib_dart_files() {
    let c = BuildConfig::default();
    assert_eq!(c.include_patterns, vec!["lib/**/*.dart".to_string()]);
    assert_eq!(c.build_extensions.len(), 0);
    assert_eq!(c.plugin_options.len(), 0);
}

#[test]
fn document_without_veltro_section_gives_defaults() {
    let doc = mapping(vec![("targets", mapping(vec![]))]);
    let c = BuildConfig::from_document(&doc);
    assert_eq!(c.include_patterns, vec!["lib/**/*.dart".to_string()]);
    assert_eq!(c.build_extensions.len(), 0);
    let not_a_mapping = YamlValue::Sequence(vec![]);
    let c2 = BuildConfig::from_document(&not_a_mapping);
    assert_eq!(c2.include_patterns, vec!["lib/**/*.dart".to_string()]);
}

#[test]
fn document_sections_are_read() {
    let c = BuildConfig::from_document(&sample_document());
    assert_eq!(c.include_patterns, vec!["lib/models/**.dart".to_string(), "lib/state/*.dart".to_string()]);
    assert_eq!(c.build_extensions.len(), 1);
    assert_eq!(c.build_extensions.get("lib/{}.dart").map(|s| s.as_str()), Some("lib/gen/{}.g.dart"));
    assert_eq!(c.plugin_options.len(), 2);
}

#[test]
fn generate_for_that_is_not_a_sequence_falls_back_to_default() {
    let doc = mapping(vec![("veltro", mapping(vec![("generate_for", text("lib/**"))]))]);
    let c = BuildConfig::from_document(&doc);
    assert_eq!(c.include_patterns, vec!["lib/**/*.dart".to_string()]);
}

#[test]
fn tagged_values_are_looked_through() {
    let doc = mapping(vec![(
        "veltro",
        YamlValue::Tagged(
            "!cfg".to_string(),
            Box::new(mapping(vec![("generate_for", YamlValue::Sequence(vec![text("a.dart")]))])),
        ),
    )]);
    let c = BuildConfig::from_document(&doc);
    assert_eq!(c.include_patterns, vec!["a.dart".to_string()]);
}

#[test]
fn options_for_ignores_case() {
    let c = BuildConfig::from_document(&sample_document());
    let o = c.options_for("VELTRO");
    assert_eq!(o.get("fieldRename").map(|s| s.as_str()), Some("snake"));
    assert_eq!(o.get("json").map(|s| s.as_str()), Some("false"));
    let d = c.options_for("data");
    assert_eq!(d.len(), 0);
    let none = c.options_for("Unknown");
    assert_eq!(none.len(), 0);
    assert_eq!(c.options_for_key("Veltro").len(), 0);
    assert_eq!(c.options_for_key("veltro").len(), 2);
}

#[test]
fn output_path_follows_first_matching_rule() {
    let c = BuildConfig::from_document(&sample_document());
    assert_eq!(c.resolve_output_path("lib/models/user.dart"), "lib/gen/models/user.g.dart");
}

#[test]
fn output_path_falls_back_to_g_dart() {
    let c = BuildConfig::default();
    assert_eq!(c.resolve_output_path("lib/models/user.dart"), "lib/models/user.g.dart");
    let doc = mapping(vec![("veltro", mapping(vec![("build_extensions", mapping(vec![("src/{}.dart", text("out/{}.dart"))]))]))]);
    let c2 = BuildConfig::from_document(&doc);
    assert_eq!(c2.resolve_output_path("lib/a.dart"), "lib/a.g.dart");
}

#[test]
fn invalid_rule_pattern_is_skipped() {
    let doc = mapping(vec![(
        "veltro",
        mapping(vec![("build_extensions", mapping(vec![("lib/({}.dart", text("bad/{}")), ("lib/{}.dart", text("good/{}.g.dart"))]))]),
    )]);
    let c = BuildConfig::from_document(&doc);
    assert_eq!(c.resolve_output_path("lib/x.dart"), "good/x.g.dart");
}

#[test]
fn template_is_filled_with_the_capture() {
    assert_eq!(fill_output_template("gen/{}.g.dart", &Some("a/b".to_string())), "gen/a/b.g.dart");
    assert_eq!(fill_output_template("gen/{}.g.dart", &None), "gen/.g.dart");
    assert_eq!(fill_output_template("fixed.dart", &Some("x".to_string())), "fixed.dart");
}

#[test]
fn yaml_accessors() {
    let doc = sample_document();
    assert!(doc.get("veltro").is_some());
    assert!(doc.get("missing").is_none());
    assert!(doc.as_mapping().is_some());
    assert!(doc.as_sequence().is_none());
    assert_eq!(text("x").as_str().map(|s| s.as_str()), Some("x"));
    assert!(YamlValue::Number("3".to_string()).as_str().is_none());
    // a key that is not a plain string is not found by name
    let tagged_key = YamlValue::Mapping(vec![(YamlValue::Tagged("!t".to_string(), Box::new(text("k"))), text("v"))]);
    assert!(tagged_key.get("k").is_none());
}

#[test]
fn config_is_read_from_yaml_text() {
    let text = "veltro:\n  generate_for:\n    - lib/models/**.dart\n  build_extensions:\n    \"lib/{}.dart\": \"lib/gen/{}.g.dart\"\n  builders:\n    - annotation: Veltro\n      options:\n        fieldRename: snake\n";
    let c = BuildConfig::from_text(text);
    assert_eq!(c.include_patterns, vec!["lib/models/**.dart".to_string()]);
    assert_eq!(c.resolve_output_path("lib/a/b.dart"), "lib/gen/a/b.g.dart");
    assert_eq!(c.options_for("Veltro").get("fieldRename").map(|s| s.as_str()), Some("snake"));
}

#[test]
fn invalid_yaml_text_gives_defaults() {
    let c = BuildConfig::from_text("veltro: [unclosed");
    assert_eq!(c.include_patterns, vec!["lib/**/*.dart".to_string()]);
    let empty = BuildConfig::from_text("");
    assert_eq!(empty.include_patterns, vec!["lib/**/*.dart".to_string()]);
}

#[test]
fn option_keys_are_lowercased() {
    let cfg = BuildConfig::from_text("veltro:\n  builders:\n    - annotation: MyThing\n      options:\n        json: \"false\"\n");
    assert_eq!(cfg.options_for_key("mything").len(), 1);
    assert_eq!(cfg.options_for_key("MyThing").len(), 0);
    assert_eq!(cfg.options_for("MYTHING").len(), 1);
}
