use veltro::cli::{build_report, clean_message};
use veltro::config::BuildConfig;
use veltro::pipeline::parser::parse_source;
use veltro::pipeline::scanner::{is_generated_file, is_source_file, select_sources, ScanError};
use veltro::pipeline::{build_parsed, finish_build, plan_build, write_outputs, BuildResult, PipelineError};
use veltro::plugin::PluginRegistry;
use veltro::watcher::{changed_source_name, plan_events, remove_stale_outputs, ChangeKind, WatchError, WatchEvent};
use dashmap::DashMap;
use veltro::writer::{content_hash, needs_write, record_write, WriteResult};

const USER: &str = "@Veltro()\nclass User with _$User {\n  const factory User({required String id}) = _User;\n}\n";
const STATUS: &str = "enum Status { on, off }\n\n@Veltro(json: false)\nclass Light with _$Light {\n  const factory Light({required Status status}) = _Light;\n}\n";

#[test]
fn plan_build_generates_one_file_per_source() {
    let files = vec![
        parse_source("lib/user.dart", USER.to_string()).unwrap(),
        parse_source("lib/light.dart", STATUS.to_string()).unwrap(),
    ];
    let plan = plan_build(&files, vec![], &BuildConfig::default(), &PluginRegistry::with_defaults());
    assert!(plan.errors.is_empty());
    assert_eq!(plan.outputs.len(), 2);
    assert_eq!(plan.outputs[0].0, "lib/user.g.dart");
    assert_eq!(plan.outputs[1].0, "lib/light.g.dart");
    let user = &plan.outputs[0].1;
    assert!(user.starts_with("// GENERATED CODE - DO NOT MODIFY BY HAND\n\npart of 'user.dart';\n"));
    assert!(user.contains("mixin _$User {"));
    let light = &plan.outputs[1].1;
    assert!(light.contains("part of 'light.dart';"));
    assert!(light.contains("mixin _$Light {"));
    assert!(!light.contains("fromJson"));
}

#[test]
fn plan_build_resolves_enum_fields() {
    let files = vec![parse_source("lib/light.dart", STATUS.replace("json: false", "").to_string()).unwrap()];
    let plan = plan_build(&files, vec![], &BuildConfig::default(), &PluginRegistry::with_defaults());
    assert_eq!(plan.outputs.len(), 1);
    assert!(plan.outputs[0].1.contains("Status.values.byName(json['status'] as String)"));
}

#[test]
fn plan_build_without_classes_plans_nothing_and_keeps_parse_errors() {
    let files = vec![parse_source("lib/plain.dart", "class Plain {}\n".to_string()).unwrap()];
    let errors = vec![("lib/bad.dart".to_string(), "Parse error in lib/bad.dart at line 1: Syntax error".to_string())];
    let plan = plan_build(&files, errors, &BuildConfig::default(), &PluginRegistry::with_defaults());
    assert!(plan.outputs.is_empty());
    assert_eq!(plan.errors.len(), 1);
    assert_eq!(plan.errors[0].0, "lib/bad.dart");
}

#[test]
fn finish_build_counts_every_write() {
    let writes = vec![
        ("a.g.dart".to_string(), "A".to_string(), WriteResult::Written),
        ("b.g.dart".to_string(), "B".to_string(), WriteResult::Skipped),
        ("c.g.dart".to_string(), "C".to_string(), WriteResult::Error("denied".to_string())),
        ("d.g.dart".to_string(), "D".to_string(), WriteResult::Written),
    ];
    let errors = vec![("x.dart".to_string(), "bad".to_string())];
    let r = finish_build(errors, writes, 7);
    assert_eq!(r.files_generated, 2);
    assert_eq!(r.files_skipped, 1);
    assert_eq!(r.files_failed, 2);
    assert_eq!(r.duration_ms, 7);
    assert_eq!(r.generated_content, vec![("a.g.dart".to_string(), "A".to_string()), ("d.g.dart".to_string(), "D".to_string())]);
    assert_eq!(r.errors[1], ("c.g.dart".to_string(), "denied".to_string()));
}

fn result(generated: Vec<(&str, &str)>, skipped: usize, errors: Vec<(&str, &str)>) -> BuildResult {
    BuildResult {
        files_generated: generated.len(),
        files_skipped: skipped,
        files_failed: errors.len(),
        duration_ms: 12,
        errors: errors.into_iter().map(|(a, b)| (a.to_string(), b.to_string())).collect(),
        generated_content: generated.into_iter().map(|(a, b)| (a.to_string(), b.to_string())).collect(),
    }
}

#[test]
fn report_for_an_empty_build() {
    let r = build_report(&result(vec![], 0, vec![]), false);
    assert!(!r.failed);
    assert_eq!(
        r.lines,
        vec![
            "  Scanning...  0 files with @Data() found.\n".to_string(),
            "  Nothing to generate. Add @Data() to a class and re-run.".to_string(),
        ]
    );
}

#[test]
fn report_lists_three_files_then_the_rest() {
    let gen = vec![("lib/a.g.dart", ""), ("lib/b.g.dart", ""), ("lib/c.g.dart", ""), ("lib/d.g.dart", ""), ("lib/e.g.dart", "")];
    let r = build_report(&result(gen, 1, vec![]), false);
    assert!(!r.failed);
    assert_eq!(r.total, 6);
    assert_eq!(r.estimate_ms, 1440);
    assert_eq!(
        r.lines,
        vec![
            "  Generating...\n".to_string(),
            "  ✓ a.g.dart".to_string(),
            "  ✓ b.g.dart".to_string(),
            "  ✓ c.g.dart".to_string(),
            "  ...  (2 more)".to_string(),
            "\n  Done. 6 files · 12ms".to_string(),
        ]
    );
}

#[test]
fn report_with_errors_fails() {
    let r = build_report(&result(vec![("lib/a.g.dart", "")], 0, vec![("lib/b.dart", "boom")]), false);
    assert!(r.failed);
    assert_eq!(
        r.lines,
        vec![
            "  Generating...\n".to_string(),
            "  ✓ a.g.dart".to_string(),
            "  ✗ b.dart  →  boom".to_string(),
            "\n  Done with errors. 1 ok · 1 failed · 12ms".to_string(),
            "  Run with --verbose to see full error details.".to_string(),
        ]
    );
    let verbose = build_report(&result(vec![], 0, vec![("lib/b.dart", "boom")]), true);
    assert_eq!(verbose.lines.last().unwrap(), "\n  Done with errors. 0 ok · 1 failed · 12ms");
}

#[test]
fn clean_messages() {
    assert_eq!(clean_message(0), "  Nothing to clean.");
    assert_eq!(clean_message(3), "  Deleted 3 .g.dart files.");
}

#[test]
fn scanner_keeps_dart_sources_only() {
    assert!(is_source_file("lib/a.dart"));
    assert!(!is_source_file("lib/b.g.dart"));
    assert!(!is_source_file("lib/c.txt"));
    assert!(!is_source_file("lib/.dart"));
    assert!(is_generated_file("lib/b.g.dart"));
    assert!(!is_generated_file("lib/a.dart"));
    let paths: Vec<String> = ["lib/a.dart", "lib/b.g.dart", "lib/c.txt", "lib/sub/d.dart"].iter().map(|s| s.to_string()).collect();
    assert_eq!(select_sources(&paths), vec!["lib/a.dart".to_string(), "lib/sub/d.dart".to_string()]);
}

#[test]
fn error_messages() {
    assert_eq!(ScanError::LibNotFound.message(), "Cannot find 'lib/' directory.");
    assert_eq!(ScanError::Io("x".to_string()).message(), "IO error: x");
    assert_eq!(PipelineError::Scanner(ScanError::LibNotFound).message(), "Scanner error: Cannot find 'lib/' directory.");
    assert_eq!(WatchError::Notify("n".to_string()).message(), "Watcher error: n");
    assert_eq!(WatchError::Io("i".to_string()).message(), "IO error: i");
}

fn event(kind: ChangeKind, paths: &[&str]) -> WatchEvent {
    WatchEvent { kind, paths: paths.iter().map(|s| s.to_string()).collect() }
}

#[test]
fn watch_plan_rebuilds_on_source_changes_only() {
    let plan = plan_events(&vec![event(ChangeKind::Modify, &["lib/a.g.dart", "lib/notes.txt"])]);
    assert!(!plan.rebuild);
    assert!(plan.stale_outputs.is_empty());
    let plan = plan_events(&vec![event(ChangeKind::Access, &["lib/a.dart"]), event(ChangeKind::Create, &["lib/b.dart"])]);
    assert!(plan.rebuild);
    let plan = plan_events(&vec![event(ChangeKind::Any, &["lib/a.dart"])]);
    assert!(plan.rebuild);
}

#[test]
fn watch_plan_lists_outputs_of_removed_sources() {
    let plan = plan_events(&vec![
        event(ChangeKind::Remove, &["lib/a.dart", "lib/x.txt"]),
        event(ChangeKind::Remove, &["lib/sub/b.dart"]),
    ]);
    assert!(!plan.rebuild);
    assert_eq!(plan.stale_outputs, vec!["lib/a.g.dart".to_string(), "lib/sub/b.g.dart".to_string()]);
}

#[test]
fn changed_source_names() {
    assert_eq!(changed_source_name("lib/models/user.g.dart"), "user.dart");
}

#[test]
fn two_classes_of_one_file_share_one_output() {
    let src = "@Veltro()\nclass A with _$A {\n  const factory A({required int x}) = _A;\n}\n\n@Veltro()\nclass B with _$B {\n  const factory B({required int y}) = _B;\n}\n";
    let files = vec![parse_source("lib/ab.dart", src.to_string()).unwrap()];
    let plan = plan_build(&files, vec![], &BuildConfig::default(), &PluginRegistry::with_defaults());
    assert_eq!(plan.outputs.len(), 1);
    let text = &plan.outputs[0].1;
    assert!(text.contains("mixin _$A {"));
    assert!(text.contains("mixin _$B {"));
    assert!(text.find("mixin _$A {").unwrap() < text.find("mixin _$B {").unwrap());
}

#[test]
fn outputs_are_never_taken_for_sources() {
    let files = vec![
        parse_source("lib/user.dart", USER.to_string()).unwrap(),
        parse_source("lib/light.dart", STATUS.to_string()).unwrap(),
    ];
    let plan = plan_build(&files, vec![], &BuildConfig::default(), &PluginRegistry::with_defaults());
    for (path, _) in &plan.outputs {
        assert!(!is_source_file(path));
        assert!(is_generated_file(path));
        let watch = plan_events(&vec![event(ChangeKind::Modify, &[path.as_str()])]);
        assert!(!watch.rebuild);
    }
}

#[test]
fn second_build_skips_every_output() {
    let files = vec![
        parse_source("lib/user.dart", USER.to_string()).unwrap(),
        parse_source("lib/light.dart", STATUS.to_string()).unwrap(),
    ];
    let mut cache: DashMap<String, u64> = DashMap::new();
    let first = plan_build(&files, vec![], &BuildConfig::default(), &PluginRegistry::with_defaults());
    for (path, content) in &first.outputs {
        let h = content_hash(content);
        assert!(needs_write(path, h, &cache));
        record_write(path, h, Ok(()), &mut cache);
    }
    let second = plan_build(&files, vec![], &BuildConfig::default(), &PluginRegistry::with_defaults());
    assert_eq!(second.outputs.len(), 2);
    for (path, content) in &second.outputs {
        assert!(!needs_write(path, content_hash(content), &cache));
    }
}

#[test]
fn class_without_mixin_is_skipped_with_a_warning() {
    let src = "@Veltro()\nclass Bare {\n  const factory Bare({required int x}) = _Bare;\n}\n";
    let files = vec![parse_source("lib/bare.dart", src.to_string()).unwrap()];
    let plan = plan_build(&files, vec![], &BuildConfig::default(), &PluginRegistry::with_defaults());
    assert_eq!(plan.warnings, vec!["  ⚠ Bare skipped — missing `with _$Bare`. Add it to enable generation.".to_string()]);
    assert_eq!(plan.outputs.len(), 1);
    assert!(!plan.outputs[0].1.contains("mixin"));
}

#[test]
fn two_rounds_of_writes_write_then_skip() {
    let files = vec![
        parse_source("lib/user.dart", USER.to_string()).unwrap(),
        parse_source("lib/light.dart", STATUS.to_string()).unwrap(),
    ];
    let mut cache: DashMap<String, u64> = DashMap::new();
    let disk = std::cell::RefCell::new(Vec::<String>::new());
    let write = |p: &str, _c: &str| -> Result<(), String> {
        disk.borrow_mut().push(p.to_string());
        Ok(())
    };
    let first = plan_build(&files, vec![], &BuildConfig::default(), &PluginRegistry::with_defaults());
    let n = first.outputs.len();
    let writes = write_outputs(first.outputs, &mut cache, &write);
    let r1 = finish_build(first.errors, writes, 0);
    assert_eq!(r1.files_generated, n);
    assert_eq!(r1.files_skipped, 0);
    assert!(r1.errors.is_empty());
    assert_eq!(disk.borrow().len(), n);

    let second = plan_build(&files, vec![], &BuildConfig::default(), &PluginRegistry::with_defaults());
    let writes = write_outputs(second.outputs, &mut cache, &write);
    let r2 = finish_build(second.errors, writes, 0);
    assert_eq!(r2.files_generated, 0);
    assert_eq!(r2.files_skipped, n);
    assert_eq!(disk.borrow().len(), n);
}

#[test]
fn failed_writes_are_reported_and_retried() {
    let files = vec![parse_source("lib/user.dart", USER.to_string()).unwrap()];
    let mut cache: DashMap<String, u64> = DashMap::new();
    let plan = plan_build(&files, vec![], &BuildConfig::default(), &PluginRegistry::with_defaults());
    let outputs = plan.outputs.clone();
    let writes = write_outputs(plan.outputs, &mut cache, &|_p: &str, _c: &str| Err("read-only".to_string()));
    let r = finish_build(vec![], writes, 0);
    assert_eq!(r.files_generated, 0);
    assert_eq!(r.files_failed, 1);
    assert_eq!(r.errors[0].1, "read-only");
    let writes = write_outputs(outputs, &mut cache, &|_p: &str, _c: &str| Ok(()));
    assert!(matches!(writes[0].2, WriteResult::Written));
}

#[test]
fn removed_sources_forget_their_existing_outputs() {
    let mut cache: DashMap<String, u64> = DashMap::new();
    record_write("lib/a.g.dart", 1, Ok(()), &mut cache);
    record_write("lib/b.g.dart", 2, Ok(()), &mut cache);
    record_write("lib/c.g.dart", 3, Ok(()), &mut cache);
    let plan = plan_events(&vec![event(ChangeKind::Remove, &["lib/a.dart", "lib/b.dart"])]);
    assert!(!plan.rebuild);
    // only a's output still exists on disk
    let removed = remove_stale_outputs(&plan.stale_outputs, &mut cache, &|p: &str| p == "lib/a.g.dart");
    assert_eq!(removed, vec![true, false]);
    assert!(needs_write("lib/a.g.dart", 1, &cache));
    assert!(!needs_write("lib/b.g.dart", 2, &cache));
    assert!(!needs_write("lib/c.g.dart", 3, &cache));
}

#[test]
fn whole_build_counts_and_second_build_skips() {
    let files = vec![
        parse_source("lib/user.dart", USER.to_string()).unwrap(),
        parse_source("lib/light.dart", STATUS.to_string()).unwrap(),
    ];
    let mut cache: DashMap<String, u64> = DashMap::new();
    let write = |_p: &str, _c: &str| -> Result<(), String> { Ok(()) };
    let cfg = BuildConfig::default();
    let plugins = PluginRegistry::with_defaults();
    let parse_errors = vec![("lib/broken.dart".to_string(), "bad".to_string())];
    let (r1, _) = build_parsed(&files, parse_errors, &cfg, &plugins, &mut cache, &write, 7);
    assert_eq!(r1.files_generated, 2);
    assert_eq!(r1.files_skipped, 0);
    assert_eq!(r1.files_failed, 1);
    assert_eq!(r1.duration_ms, 7);
    assert!(r1.generated_content.iter().all(|(p, _)| p.ends_with(".g.dart")));
    let (r2, _) = build_parsed(&files, vec![], &cfg, &plugins, &mut cache, &write, 0);
    assert_eq!(r2.files_generated, 0);
    assert_eq!(r2.files_skipped, 2);
    assert!(r2.errors.is_empty());
}
