//! The build pipeline: scan, parse, analyze, resolve, generate.
pub mod analyzer;
pub mod syntax;
pub mod parser;
pub mod resolver;
pub mod scanner;

use vstd::prelude::*;
use crate::config::{annotation_options, BuildConfig, OptionsView};
use crate::ir::{pairs_view, AnnotationSpec, ClassIR, ClassSpec, StringMap};
use crate::path::{
    ends_in_name, file_name, file_name_exec, lemma_generated_file_name, with_extension, with_extension_exec,
};
use crate::plugin::veltro_plugin::{missing_mixin_text, missing_mixin_warning};
use crate::plugin::{deref_plugins, file_views, plugins_matching, GeneratedFileSpec, Plugin, PluginRegistry, VeltroPlugin};
use crate::registry::{registry_of, TypeRegistry};
use crate::text::{concat, ends_with, lemma_concat_append, owned, str_eq, string_of, views};
use crate::writer::{
    cache_contents, is_unchanged, lemma_batch_rewrite_skipped, record_all, text_hash, write_if_changed, WriteResult,
};
use dashmap::DashMap;
use crate::pipeline::analyzer::{analyze, class_views, classes_in, lemma_classes_in_source};
use crate::pipeline::parser::ParsedFile;
use crate::pipeline::resolver::{resolve, resolved_class};
use crate::pipeline::scanner::{is_source_path, lemma_generated_paths_distinct, scan_error_message, ScanError};
use crate::watcher::{lemma_generated_path_ignored, triggers_rebuild, ChangeKind};

verus! {

// ───────────────────────────── errors ─────────────────────────────

/// Errors that can occur in the pipeline.
#[derive(Debug)]
pub enum PipelineError {
    /// Error during scanning.
    Scanner(ScanError),
}

impl PipelineError {
    /// The message shown for this error.
    pub fn message(&self) -> (r: String)
        ensures
            r@ == (match *self {
                PipelineError::Scanner(e) => "Scanner error: "@ + scan_error_message(e),
            }),
    {
        match self {
            PipelineError::Scanner(e) => {
                let mut s = owned("Scanner error: ");
                let m = e.message();
                s.append(m.as_str());
                s
            },
        }
    }
}

// ───────────────────────────── analysis ─────────────────────────────

/// The classes found in the files, in order, and a `(path, message)` error for each
/// file whose analysis failed.
pub open spec fn analysis_of(files: Seq<ParsedFile>) -> (Seq<ClassSpec>, Seq<(Seq<char>, Seq<char>)>)
    decreases files.len(),
{
    if files.len() == 0 {
        (seq![], seq![])
    } else {
        let prev = analysis_of(files.drop_last());
        let f = files.last();
        match classes_in(f.source@, f.path@, f.tree, None, 0) {
            Ok(found) => (prev.0 + found, prev.1),
            Err(m) => (prev.0, prev.1.push((f.path@, "Unexpected AST structure: "@ + m))),
        }
    }
}

/// Each class with its field kinds resolved against `entries`.
pub open spec fn resolve_each(classes: Seq<ClassSpec>, entries: Seq<(Seq<char>, crate::ir::ResolvedKind)>) -> Seq<ClassSpec> {
    classes.map_values(|c: ClassSpec| resolved_class(c, entries))
}

/// The classes of the files with their field kinds resolved against the registry
/// built from all of them.
pub open spec fn resolved_classes(files: Seq<ParsedFile>) -> Seq<ClassSpec> {
    let classes = analysis_of(files).0;
    resolve_each(classes, registry_of(classes, files))
}

/// Analyzes every file, collecting the classes found and the errors.
fn analyze_all(files: &Vec<ParsedFile>) -> (r: (Vec<ClassIR>, Vec<(String, String)>))
    ensures
        class_views(r.0@) == analysis_of(files@).0,
        pairs_view(r.1@) == analysis_of(files@).1,
{
    let mut classes: Vec<ClassIR> = Vec::new();
    let mut errors: Vec<(String, String)> = Vec::new();
    let mut i: usize = 0;
    assert(files@.take(0) =~= Seq::<ParsedFile>::empty());
    while i < files.len()
        invariant
            i <= files.len(),
            class_views(classes@) == analysis_of(files@.take(i as int)).0,
            pairs_view(errors@) == analysis_of(files@.take(i as int)).1,
        decreases files.len() - i,
    {
        assert(files@.take(i as int + 1).drop_last() =~= files@.take(i as int));
        assert(files@.take(i as int + 1).last() == files@[i as int]);
        let f = &files[i];
        match analyze(f) {
            Ok(found) => {
                let ghost before = classes@;
                let mut found = found;
                let ghost added = found@;
                classes.append(&mut found);
                assert(class_views(classes@) =~= class_views(before) + class_views(added));
            },
            Err(e) => {
                let ghost before = errors@;
                let msg = e.describe();
                let p = owned(f.path.as_str());
                errors.push((p, msg));
                assert(pairs_view(errors@) =~= pairs_view(before).push((f.path@, msg@)));
            },
        }
        i = i + 1;
    }
    assert(files@.take(files@.len() as int) =~= files@);
    (classes, errors)
}

/// Resolves every class against the registry, keeping the order.
fn resolve_all(classes: Vec<ClassIR>, registry: &TypeRegistry) -> (r: Vec<ClassIR>)
    ensures
        class_views(r@) == resolve_each(class_views(classes@), registry@),
{
    let ghost all = class_views(classes@);
    let n = classes.len();
    let mut rest = classes;
    let mut out: Vec<ClassIR> = Vec::new();
    let mut k: usize = 0;
    while rest.len() > 0
        invariant
            k + rest@.len() == all.len(),
            all.len() == n,
            out@.len() == k,
            class_views(rest@) == all.skip(k as int),
            class_views(out@) == resolve_each(all.take(k as int), registry@),
        decreases rest@.len(),
    {
        let ghost before_rest = rest@;
        let ghost before_out = out@;
        let c = rest.remove(0);
        assert(c@ == all[k as int]) by {
            assert(class_views(before_rest)[0] == all.skip(k as int)[0]);
        }
        let rc = resolve(c, registry);
        out.push(rc);
        assert(class_views(rest@) =~= all.skip(k as int + 1)) by {
            assert(rest@ == before_rest.remove(0));
            assert forall|j: int| 0 <= j < rest@.len() implies #[trigger] class_views(rest@)[j] == all.skip(
                k as int + 1,
            )[j] by {
                assert(rest@[j] == before_rest[j + 1]);
                assert(class_views(before_rest)[j + 1] == all.skip(k as int)[j + 1]);
            }
        }
        assert(class_views(out@) =~= resolve_each(all.take(k as int + 1), registry@)) by {
            assert(k < all.len());
            assert(out@ == before_out.push(rc));
            assert forall|j: int| 0 <= j < k + 1 implies #[trigger] class_views(out@)[j] == resolve_each(
                all.take(k as int + 1),
                registry@,
            )[j] by {
                if j < k {
                    assert(out@[j] == before_out[j]);
                    assert(class_views(before_out)[j] == resolve_each(all.take(k as int), registry@)[j]);
                }
            }
        }
        k = k + 1;
    }
    assert(all.take(all.len() as int) =~= all);
    out
}

// ───────────────────────────── generation ─────────────────────────────

/// The contents of generated files, in order.
pub open spec fn contents_of(files: Seq<GeneratedFileSpec>) -> Seq<Seq<char>> {
    files.map_values(|f: GeneratedFileSpec| f.content)
}

/// The contents of the files a plugin generates for a class.
#[verifier::opaque]
pub open spec fn plugin_output(p: Plugin, c: ClassSpec, opts: Seq<(Seq<char>, Seq<char>)>) -> Seq<Seq<char>> {
    contents_of(p.spec_generate(c, opts))
}

/// The bodies that the plugins generate for a class, plugin by plugin.
pub open spec fn plugin_bodies(ps: Seq<Plugin>, c: ClassSpec, opts: Seq<(Seq<char>, Seq<char>)>) -> Seq<Seq<char>>
    decreases ps.len(),
{
    if ps.len() == 0 {
        seq![]
    } else {
        plugin_bodies(ps.drop_last(), c, opts) + plugin_output(ps.last(), c, opts)
    }
}

/// The bodies generated for a class, annotation by annotation, by the plugins that
/// handle each annotation, with the options configured for it.
pub open spec fn annotation_bodies(
    plugins: Seq<Plugin>,
    options: OptionsView,
    c: ClassSpec,
    anns: Seq<AnnotationSpec>,
) -> Seq<Seq<char>>
    decreases anns.len(),
{
    if anns.len() == 0 {
        seq![]
    } else {
        annotation_bodies(plugins, options, c, anns.drop_last()) + plugin_bodies(
            plugins_matching(plugins, anns.last().name),
            c,
            annotation_options(options, anns.last().name),
        )
    }
}

/// The bodies generated for the classes of one source file, class by class.
pub open spec fn source_bodies(plugins: Seq<Plugin>, options: OptionsView, classes: Seq<ClassSpec>, source: Seq<char>) -> Seq<
    Seq<char>,
>
    decreases classes.len(),
{
    if classes.len() == 0 {
        seq![]
    } else {
        let prev = source_bodies(plugins, options, classes.drop_last(), source);
        if classes.last().source_file == source {
            prev + annotation_bodies(plugins, options, classes.last(), classes.last().annotations)
        } else {
            prev
        }
    }
}

/// The header of a generated file: a do-not-edit notice and the `part of`
/// directive naming the source file.
pub open spec fn file_header(source: Seq<char>) -> Seq<char> {
    let name = match file_name(source) {
        Some(n) => n,
        None => seq![],
    };
    "// GENERATED CODE - DO NOT MODIFY BY HAND\n\npart of '"@ + name + "';\n"@
}

/// The text of the generated file of a source file: the header, then the bodies of
/// its classes.
pub open spec fn generated_text(plugins: Seq<Plugin>, options: OptionsView, classes: Seq<ClassSpec>, source: Seq<char>) -> Seq<
    char,
> {
    file_header(source) + concat(source_bodies(plugins, options, classes, source))
}

/// The source files of the classes, each once, in order of first appearance.
pub open spec fn source_order(classes: Seq<ClassSpec>) -> Seq<Seq<char>>
    decreases classes.len(),
{
    if classes.len() == 0 {
        seq![]
    } else {
        let prev = source_order(classes.drop_last());
        if prev.contains(classes.last().source_file) {
            prev
        } else {
            prev.push(classes.last().source_file)
        }
    }
}

/// One `(output path, text)` per source file of the classes, in order of first
/// appearance: the source path with the extension `g.dart`, and the generated text.
pub open spec fn build_outputs(plugins: Seq<Plugin>, options: OptionsView, classes: Seq<ClassSpec>) -> Seq<
    (Seq<char>, Seq<char>),
> {
    source_order(classes).map_values(
        |s: Seq<char>| (with_extension(s, "g.dart"@), generated_text(plugins, options, classes, s)),
    )
}

/// Every output of a build is a generated file: the scanner never takes it for a
/// Dart source, and no change to it starts a rebuild in watch mode.
pub proof fn lemma_outputs_are_never_sources(
    plugins: Seq<Plugin>,
    options: OptionsView,
    classes: Seq<ClassSpec>,
    kind: ChangeKind,
)
    ensures
        forall|i: int|
            0 <= i < build_outputs(plugins, options, classes).len() ==> !is_source_path(
                #[trigger] build_outputs(plugins, options, classes)[i].0,
            ) && !triggers_rebuild(kind, build_outputs(plugins, options, classes)[i].0),
{
    assert forall|i: int| 0 <= i < build_outputs(plugins, options, classes).len() implies !is_source_path(
        #[trigger] build_outputs(plugins, options, classes)[i].0,
    ) && !triggers_rebuild(kind, build_outputs(plugins, options, classes)[i].0) by {
        lemma_generated_path_ignored(source_order(classes)[i], kind);
    }
}

/// Each source file with annotated classes gets exactly one output: the sources are
/// listed once each, every class's source is among them, and nothing else is.
pub proof fn lemma_one_output_per_source(classes: Seq<ClassSpec>)
    ensures
        source_order(classes).no_duplicates(),
        forall|i: int| 0 <= i < classes.len() ==> source_order(classes).contains(#[trigger] classes[i].source_file),
        forall|j: int|
            0 <= j < source_order(classes).len() ==> exists|i: int|
                0 <= i < classes.len() && classes[i].source_file == #[trigger] source_order(classes)[j],
    decreases classes.len(),
{
    if classes.len() > 0 {
        let init = classes.drop_last();
        lemma_one_output_per_source(init);
        let prev = source_order(init);
        let last = classes.last();
        assert forall|i: int| 0 <= i < classes.len() implies source_order(classes).contains(
            #[trigger] classes[i].source_file,
        ) by {
            if i < classes.len() - 1 {
                assert(init[i] == classes[i]);
                assert(prev.contains(init[i].source_file));
                if !prev.contains(last.source_file) {
                    let w = choose|w: int| 0 <= w < prev.len() && prev[w] == init[i].source_file;
                    assert(prev.push(last.source_file)[w] == prev[w]);
                }
            } else {
                if !prev.contains(last.source_file) {
                    assert(prev.push(last.source_file)[prev.len() as int] == last.source_file);
                }
            }
        }
        assert forall|j: int| 0 <= j < source_order(classes).len() implies exists|i: int|
            0 <= i < classes.len() && classes[i].source_file == #[trigger] source_order(classes)[j] by {
            if j < prev.len() {
                assert(source_order(classes)[j] == prev[j]);
                let i = choose|i: int| 0 <= i < init.len() && init[i].source_file == #[trigger] prev[j];
                assert(classes[i] == init[i]);
            } else {
                assert(source_order(classes)[j] == last.source_file);
                assert(classes[classes.len() - 1] == last);
            }
        }
    }
}

/// The output paths of a build over Dart sources are distinct (for source paths that
/// end with their file names, as the scanner gives them).
pub proof fn lemma_output_paths_distinct(plugins: Seq<Plugin>, options: OptionsView, classes: Seq<ClassSpec>)
    requires
        forall|i: int|
            0 <= i < classes.len() ==> is_source_path(#[trigger] classes[i].source_file) && ends_in_name(
                classes[i].source_file,
            ),
    ensures
        forall|i: int, j: int|
            0 <= i < j < build_outputs(plugins, options, classes).len() ==> #[trigger] build_outputs(
                plugins,
                options,
                classes,
            )[i].0 != #[trigger] build_outputs(plugins, options, classes)[j].0,
{
    lemma_one_output_per_source(classes);
    let order = source_order(classes);
    assert forall|i: int, j: int|
        0 <= i < j < build_outputs(plugins, options, classes).len() implies #[trigger] build_outputs(
        plugins,
        options,
        classes,
    )[i].0 != #[trigger] build_outputs(plugins, options, classes)[j].0 by {
        let a = choose|a: int| 0 <= a < classes.len() && classes[a].source_file == #[trigger] order[i];
        let b = choose|b: int| 0 <= b < classes.len() && classes[b].source_file == #[trigger] order[j];
        assert(is_source_path(classes[a].source_file) && ends_in_name(classes[a].source_file));
        assert(is_source_path(classes[b].source_file) && ends_in_name(classes[b].source_file));
        assert(order[i] != order[j]);
        lemma_generated_paths_distinct(order[i], order[j]);
    }
}

/// Rewriting the outputs of a build over Dart sources skips them all.
proof fn lemma_outputs_rewrite_skipped(
    plugins: Seq<Plugin>,
    options: OptionsView,
    classes: Seq<ClassSpec>,
    contents: Map<Seq<char>, u64>,
)
    requires
        forall|i: int|
            0 <= i < classes.len() ==> is_source_path(#[trigger] classes[i].source_file) && ends_in_name(
                classes[i].source_file,
            ),
    ensures
        forall|i: int|
            0 <= i < build_outputs(plugins, options, classes).len() ==> is_unchanged(
                record_all(contents, build_outputs(plugins, options, classes)),
                #[trigger] build_outputs(plugins, options, classes)[i].0,
                text_hash(build_outputs(plugins, options, classes)[i].1),
            ),
{
    lemma_output_paths_distinct(plugins, options, classes);
    lemma_batch_rewrite_skipped(contents, build_outputs(plugins, options, classes));
}

/// Every class that analysis finds comes from one of the files.
proof fn lemma_analysis_sources(files: Seq<ParsedFile>)
    ensures
        forall|k: int|
            0 <= k < analysis_of(files).0.len() ==> exists|f: int|
                0 <= f < files.len() && files[f].path@ == (#[trigger] analysis_of(files).0[k]).source_file,
    decreases files.len(),
{
    if files.len() > 0 {
        let init = files.drop_last();
        lemma_analysis_sources(init);
        let last = files.last();
        lemma_classes_in_source(last.source@, last.path@, last.tree, None, 0);
        let prev = analysis_of(init).0;
        assert forall|k: int| 0 <= k < analysis_of(files).0.len() implies exists|f: int|
            0 <= f < files.len() && files[f].path@ == (#[trigger] analysis_of(files).0[k]).source_file by {
            let all = analysis_of(files).0;
            if k < prev.len() {
                assert(all[k] == prev[k]);
                let f = choose|f: int| 0 <= f < init.len() && init[f].path@ == (#[trigger] prev[k]).source_file;
                assert(files[f] == init[f]);
            } else {
                let found = classes_in(last.source@, last.path@, last.tree, None, 0)->Ok_0;
                assert(all == prev + found);
                assert(all[k] == found[k - prev.len()]);
                assert(files[files.len() - 1] == last);
            }
        }
    }
}

/// Building the same Dart sources a second time, after the first build wrote all
/// its outputs, writes nothing: every output is skipped as unchanged. (The source
/// paths are those the scanner gives: Dart files, ending with their file names.)
pub proof fn lemma_second_build_skips_all(
    files: Seq<ParsedFile>,
    plugins: Seq<Plugin>,
    options: OptionsView,
    contents: Map<Seq<char>, u64>,
)
    requires
        forall|i: int| 0 <= i < files.len() ==> is_source_path(#[trigger] files[i].path@) && ends_in_name(files[i].path@),
    ensures
        forall|i: int|
            0 <= i < build_outputs(plugins, options, resolved_classes(files)).len() ==> is_unchanged(
                record_all(contents, build_outputs(plugins, options, resolved_classes(files))),
                #[trigger] build_outputs(plugins, options, resolved_classes(files))[i].0,
                text_hash(build_outputs(plugins, options, resolved_classes(files))[i].1),
            ),
{
    lemma_analysis_sources(files);
    let classes = analysis_of(files).0;
    let rs = resolved_classes(files);
    assert forall|i: int| 0 <= i < rs.len() implies is_source_path(#[trigger] rs[i].source_file) && ends_in_name(
        rs[i].source_file,
    ) by {
        assert(rs[i].source_file == classes[i].source_file);
        let f = choose|f: int| 0 <= f < files.len() && files[f].path@ == (#[trigger] classes[i]).source_file;
        assert(is_source_path(files[f].path@) && ends_in_name(files[f].path@));
    }
    lemma_outputs_rewrite_skipped(plugins, options, rs, contents);
}

/// Appends the contents of the files a plugin generates for a class.
fn append_plugin_bodies(out: &mut String, p: &Plugin, c: &ClassIR, opts: &StringMap)
    ensures
        final(out)@ == old(out)@ + concat(plugin_output(*p, c@, opts@)),
{
    let files = p.generate(c, opts);
    proof {
        reveal(plugin_output);
    }
    let ghost cs = contents_of(file_views(files@));
    let mut k: usize = 0;
    assert(cs.take(0) =~= Seq::<Seq<char>>::empty());
    while k < files.len()
        invariant
            k <= files.len(),
            cs == contents_of(file_views(files@)),
            cs.len() == files@.len(),
            out@ == old(out)@ + concat(cs.take(k as int)),
        decreases files.len() - k,
    {
        assert(cs.take(k as int + 1).drop_last() =~= cs.take(k as int));
        assert(cs[k as int] == files@[k as int].content@);
        out.append(files[k].content.as_str());
        k = k + 1;
    }
    assert(cs.take(cs.len() as int) =~= cs);
}

/// Appends the bodies generated for a class under one annotation name.
fn append_annotation_bodies(out: &mut String, plugins: &PluginRegistry, config: &BuildConfig, c: &ClassIR, name: &str)
    ensures
        final(out)@ == old(out)@ + concat(
            plugin_bodies(plugins_matching(plugins@, name@), c@, annotation_options(config@.plugin_options, name@)),
        ),
{
    let ps = plugins.plugins_for(name);
    let opts = config.options_for(name);
    let ghost matched = deref_plugins(ps@);
    let mut j: usize = 0;
    assert(matched.take(0) =~= Seq::<Plugin>::empty());
    while j < ps.len()
        invariant
            j <= ps.len(),
            matched == deref_plugins(ps@),
            matched.len() == ps@.len(),
            out@ == old(out)@ + concat(plugin_bodies(matched.take(j as int), c@, opts@)),
        decreases ps.len() - j,
    {
        let ghost before = out@;
        append_plugin_bodies(out, ps[j], c, &opts);
        proof {
            assert(matched.take(j as int + 1).drop_last() =~= matched.take(j as int));
            assert(matched[j as int] == *ps@[j as int]);
            lemma_concat_append(
                plugin_bodies(matched.take(j as int), c@, opts@),
                plugin_output(matched[j as int], c@, opts@),
            );
        }
        j = j + 1;
    }
    assert(matched.take(matched.len() as int) =~= matched);
}

/// Appends the bodies generated for a class, annotation by annotation.
fn append_class_bodies(out: &mut String, plugins: &PluginRegistry, config: &BuildConfig, c: &ClassIR)
    ensures
        final(out)@ == old(out)@ + concat(annotation_bodies(plugins@, config@.plugin_options, c@, c@.annotations)),
{
    let ghost anns = c@.annotations;
    let mut k: usize = 0;
    assert(anns.take(0) =~= Seq::<AnnotationSpec>::empty());
    while k < c.annotations.len()
        invariant
            k <= c.annotations.len(),
            anns == c@.annotations,
            anns.len() == c.annotations@.len(),
            out@ == old(out)@ + concat(annotation_bodies(plugins@, config@.plugin_options, c@, anns.take(k as int))),
        decreases c.annotations.len() - k,
    {
        assert(anns[k as int] == c.annotations@[k as int]@);
        append_annotation_bodies(out, plugins, config, c, c.annotations[k].name.as_str());
        proof {
            assert(anns.take(k as int + 1).drop_last() =~= anns.take(k as int));
            lemma_concat_append(
                annotation_bodies(plugins@, config@.plugin_options, c@, anns.take(k as int)),
                plugin_bodies(
                    plugins_matching(plugins@, anns[k as int].name),
                    c@,
                    annotation_options(config@.plugin_options, anns[k as int].name),
                ),
            );
        }
        k = k + 1;
    }
    assert(anns.take(anns.len() as int) =~= anns);
}

/// The text of the generated file of `source`.
pub fn generate_source(plugins: &PluginRegistry, config: &BuildConfig, classes: &Vec<ClassIR>, source: &str) -> (r: String)
    ensures
        r@ == generated_text(plugins@, config@.plugin_options, class_views(classes@), source@),
{
    let mut out = owned("// GENERATED CODE - DO NOT MODIFY BY HAND\n\npart of '");
    let p = crate::text::chars_of(source);
    match file_name_exec(&p) {
        Some(n) => {
            let s = string_of(&n);
            out.append(s.as_str());
        },
        None => {},
    }
    out.append("';\n");
    let ghost header = out@;
    assert(header == file_header(source@)) by {
        if file_name(source@) is None {
            assert(header =~= "// GENERATED CODE - DO NOT MODIFY BY HAND\n\npart of '"@ + Seq::<char>::empty()
                + "';\n"@);
        }
    }
    let ghost cs = class_views(classes@);
    let mut i: usize = 0;
    assert(cs.take(0) =~= Seq::<ClassSpec>::empty());
    while i < classes.len()
        invariant
            i <= classes.len(),
            cs == class_views(classes@),
            cs.len() == classes@.len(),
            out@ == header + concat(source_bodies(plugins@, config@.plugin_options, cs.take(i as int), source@)),
        decreases classes.len() - i,
    {
        assert(cs.take(i as int + 1).drop_last() =~= cs.take(i as int));
        assert(cs.take(i as int + 1).last() == classes@[i as int]@);
        let c = &classes[i];
        if str_eq(c.source_file.as_str(), source) {
            let ghost before = out@;
            append_class_bodies(&mut out, plugins, config, c);
            proof {
                lemma_concat_append(
                    source_bodies(plugins@, config@.plugin_options, cs.take(i as int), source@),
                    annotation_bodies(plugins@, config@.plugin_options, c@, c@.annotations),
                );
            }
        }
        i = i + 1;
    }
    assert(cs.take(cs.len() as int) =~= cs);
    out
}

/// Whether `v` holds `s`.
fn contains_text(v: &Vec<String>, s: &str) -> (r: bool)
    ensures
        r == views(v@).contains(s@),
{
    let mut i: usize = 0;
    while i < v.len()
        invariant
            i <= v.len(),
            forall|j: int| 0 <= j < i ==> views(v@)[j] != s@,
        decreases v.len() - i,
    {
        if str_eq(v[i].as_str(), s) {
            assert(views(v@)[i as int] == s@);
            return true;
        }
        i = i + 1;
    }
    false
}

/// The source files of the classes, each once, in order of first appearance.
pub fn sources_in_order(classes: &Vec<ClassIR>) -> (r: Vec<String>)
    ensures
        views(r@) == source_order(class_views(classes@)),
{
    let ghost cs = class_views(classes@);
    let mut out: Vec<String> = Vec::new();
    let mut i: usize = 0;
    assert(cs.take(0) =~= Seq::<ClassSpec>::empty());
    while i < classes.len()
        invariant
            i <= classes.len(),
            cs == class_views(classes@),
            cs.len() == classes@.len(),
            views(out@) == source_order(cs.take(i as int)),
        decreases classes.len() - i,
    {
        assert(cs.take(i as int + 1).drop_last() =~= cs.take(i as int));
        assert(cs.take(i as int + 1).last() == classes@[i as int]@);
        let src = classes[i].source_file.as_str();
        if !contains_text(&out, src) {
            let ghost before = out@;
            out.push(owned(src));
            assert(views(out@) =~= views(before).push(src@));
        }
        i = i + 1;
    }
    assert(cs.take(cs.len() as int) =~= cs);
    out
}

/// The warnings of the plugins run on a class: the `@Veltro` plugin warns on each
/// run for a class that lacks its mixin (and then generates nothing).
pub open spec fn plugin_warnings(ps: Seq<Plugin>, c: ClassSpec) -> Seq<Seq<char>>
    decreases ps.len(),
{
    if ps.len() == 0 {
        seq![]
    } else {
        plugin_warnings(ps.drop_last(), c) + if ps.last() is Veltro && !c.has_with_mixin {
            seq![missing_mixin_text(c.name)]
        } else {
            seq![]
        }
    }
}

/// The warnings for a class, annotation by annotation.
pub open spec fn annotation_warnings(plugins: Seq<Plugin>, c: ClassSpec, anns: Seq<AnnotationSpec>) -> Seq<Seq<char>>
    decreases anns.len(),
{
    if anns.len() == 0 {
        seq![]
    } else {
        annotation_warnings(plugins, c, anns.drop_last()) + plugin_warnings(plugins_matching(plugins, anns.last().name), c)
    }
}

/// The warnings of a build, class by class.
pub open spec fn build_warnings(plugins: Seq<Plugin>, classes: Seq<ClassSpec>) -> Seq<Seq<char>>
    decreases classes.len(),
{
    if classes.len() == 0 {
        seq![]
    } else {
        build_warnings(plugins, classes.drop_last()) + annotation_warnings(
            plugins,
            classes.last(),
            classes.last().annotations,
        )
    }
}

/// Appends the warnings for a class under one annotation name.
fn push_annotation_warnings(out: &mut Vec<String>, plugins: &PluginRegistry, c: &ClassIR, name: &str)
    ensures
        views(final(out)@) == views(old(out)@) + plugin_warnings(plugins_matching(plugins@, name@), c@),
{
    let ps = plugins.plugins_for(name);
    let ghost matched = deref_plugins(ps@);
    let ghost start = views(out@);
    let mut j: usize = 0;
    assert(matched.take(0) =~= Seq::<Plugin>::empty());
    while j < ps.len()
        invariant
            j <= ps.len(),
            matched == deref_plugins(ps@),
            matched.len() == ps@.len(),
            views(out@) == start + plugin_warnings(matched.take(j as int), c@),
        decreases ps.len() - j,
    {
        assert(matched.take(j as int + 1).drop_last() =~= matched.take(j as int));
        assert(matched[j as int] == *ps@[j as int]);
        let ghost before = views(out@);
        match ps[j] {
            Plugin::Veltro(_) => match missing_mixin_warning(c) {
                Some(w) => {
                    out.push(w);
                    assert(views(out@) =~= before + seq![missing_mixin_text(c@.name)]);
                },
                None => {
                    assert(plugin_warnings(matched.take(j as int + 1), c@) =~= plugin_warnings(
                        matched.take(j as int),
                        c@,
                    ));
                },
            },
            _ => {
                assert(plugin_warnings(matched.take(j as int + 1), c@) =~= plugin_warnings(
                    matched.take(j as int),
                    c@,
                ));
            },
        }
        j = j + 1;
    }
    assert(matched.take(matched.len() as int) =~= matched);
}

/// The warnings of the plugins run on the classes, in order.
pub fn collect_warnings(plugins: &PluginRegistry, classes: &Vec<ClassIR>) -> (r: Vec<String>)
    ensures
        views(r@) == build_warnings(plugins@, class_views(classes@)),
{
    let ghost cs = class_views(classes@);
    let mut out: Vec<String> = Vec::new();
    let mut i: usize = 0;
    assert(cs.take(0) =~= Seq::<ClassSpec>::empty());
    while i < classes.len()
        invariant
            i <= classes.len(),
            cs == class_views(classes@),
            cs.len() == classes@.len(),
            views(out@) == build_warnings(plugins@, cs.take(i as int)),
        decreases classes.len() - i,
    {
        assert(cs.take(i as int + 1).drop_last() =~= cs.take(i as int));
        assert(cs.take(i as int + 1).last() == classes@[i as int]@);
        let c = &classes[i];
        let ghost anns = c@.annotations;
        let ghost start = views(out@);
        let mut k: usize = 0;
        assert(anns.take(0) =~= Seq::<AnnotationSpec>::empty());
        while k < c.annotations.len()
            invariant
                k <= c.annotations.len(),
                anns == c@.annotations,
                anns.len() == c.annotations@.len(),
                views(out@) == start + annotation_warnings(plugins@, c@, anns.take(k as int)),
            decreases c.annotations.len() - k,
        {
            assert(anns[k as int] == c.annotations@[k as int]@);
            assert(anns.take(k as int + 1).drop_last() =~= anns.take(k as int));
            push_annotation_warnings(&mut out, plugins, c, c.annotations[k].name.as_str());
            k = k + 1;
        }
        assert(anns.take(anns.len() as int) =~= anns);
        i = i + 1;
    }
    assert(cs.take(cs.len() as int) =~= cs);
    out
}

/// What a build has to write, and what went wrong before writing.
#[derive(Debug)]
pub struct BuildPlan {
    /// `(output path, text)` for each source file with annotated classes.
    pub outputs: Vec<(String, String)>,
    /// `(path, message)` for each file that could not be parsed or analyzed.
    pub errors: Vec<(String, String)>,
    /// Warnings of the plugins, such as classes skipped for lacking their mixin.
    pub warnings: Vec<String>,
}

/// Plans a build of the parsed files: analyzes them, registers the types found,
/// resolves the field kinds, and generates one output per source file with
/// annotated classes, together with the warnings of the plugins. `parse_errors` are
/// the files that could not be parsed; they come first among the errors.
pub fn plan_build(
    files: &Vec<ParsedFile>,
    parse_errors: Vec<(String, String)>,
    config: &BuildConfig,
    plugins: &PluginRegistry,
) -> (r: BuildPlan)
    ensures
        pairs_view(r.outputs@) == build_outputs(plugins@, config@.plugin_options, resolved_classes(files@)),
        pairs_view(r.errors@) == pairs_view(parse_errors@) + analysis_of(files@).1,
        views(r.warnings@) == build_warnings(plugins@, resolved_classes(files@)),
{
    let (classes, analysis_errors) = analyze_all(files);
    let mut errors = parse_errors;
    let ghost e0 = errors@;
    let mut more = analysis_errors;
    let ghost e1 = more@;
    errors.append(&mut more);
    assert(pairs_view(errors@) =~= pairs_view(e0) + pairs_view(e1));
    let ghost cs = class_views(classes@);
    let registry = TypeRegistry::build(classes.as_slice(), files.as_slice());
    assert(classes@.map_values(|c: ClassIR| c@) =~= cs);
    let resolved = resolve_all(classes, &registry);
    let ghost rs = class_views(resolved@);
    assert(rs == resolved_classes(files@));
    let warnings = collect_warnings(plugins, &resolved);
    let sources = sources_in_order(&resolved);
    let mut outputs: Vec<(String, String)> = Vec::new();
    let mut i: usize = 0;
    while i < sources.len()
        invariant
            i <= sources.len(),
            rs == class_views(resolved@),
            views(sources@) == source_order(rs),
            pairs_view(outputs@) == build_outputs(plugins@, config@.plugin_options, rs).take(i as int),
        decreases sources.len() - i,
    {
        let s = sources[i].as_str();
        assert(views(sources@)[i as int] == s@);
        let path = with_extension_exec(s, "g.dart");
        let text = generate_source(plugins, config, &resolved, s);
        let ghost before = outputs@;
        outputs.push((path, text));
        assert(pairs_view(outputs@) =~= build_outputs(plugins@, config@.plugin_options, rs).take(i as int + 1)) by {
            assert(pairs_view(outputs@) == pairs_view(before).push((path@, text@)));
        }
        i = i + 1;
    }
    assert(build_outputs(plugins@, config@.plugin_options, rs).take(sources.len() as int) =~= build_outputs(
        plugins@,
        config@.plugin_options,
        rs,
    ));
    BuildPlan { outputs, errors, warnings }
}

// ───────────────────────────── results ─────────────────────────────

/// Result of a build run.
#[derive(Debug)]
pub struct BuildResult {
    /// Number of files written.
    pub files_generated: usize,
    /// Number of files skipped because their content had not changed.
    pub files_skipped: usize,
    /// Number of files that failed somewhere in the process.
    pub files_failed: usize,
    /// Total duration of the build in milliseconds.
    pub duration_ms: u128,
    /// The errors met, as `(file path, message)`.
    pub errors: Vec<(String, String)>,
    /// The files written, as `(output path, content)`.
    pub generated_content: Vec<(String, String)>,
}

/// An output written (or not) by the build: path, content and what the write did.
pub type WriteOutcome = (String, String, WriteResult);

/// How many of the writes wrote their file.
pub open spec fn count_written(w: Seq<WriteOutcome>) -> nat
    decreases w.len(),
{
    if w.len() == 0 {
        0
    } else {
        count_written(w.drop_last()) + if w.last().2 is Written {
            1nat
        } else {
            0nat
        }
    }
}

/// How many of the writes were skipped.
pub open spec fn count_skipped(w: Seq<WriteOutcome>) -> nat
    decreases w.len(),
{
    if w.len() == 0 {
        0
    } else {
        count_skipped(w.drop_last()) + if w.last().2 is Skipped {
            1nat
        } else {
            0nat
        }
    }
}

/// `(path, content)` of the files written, in order.
pub open spec fn written_files(w: Seq<WriteOutcome>) -> Seq<(Seq<char>, Seq<char>)>
    decreases w.len(),
{
    if w.len() == 0 {
        seq![]
    } else if w.last().2 is Written {
        written_files(w.drop_last()).push((w.last().0@, w.last().1@))
    } else {
        written_files(w.drop_last())
    }
}

/// `(path, message)` of the writes that failed, in order.
pub open spec fn write_errors(w: Seq<WriteOutcome>) -> Seq<(Seq<char>, Seq<char>)>
    decreases w.len(),
{
    if w.len() == 0 {
        seq![]
    } else {
        match w.last().2 {
            WriteResult::Error(m) => write_errors(w.drop_last()).push((w.last().0@, m@)),
            _ => write_errors(w.drop_last()),
        }
    }
}

/// Every write is counted once: as written, skipped or failed.
pub proof fn lemma_every_write_counted(w: Seq<WriteOutcome>)
    ensures
        count_written(w) + count_skipped(w) + write_errors(w).len() == w.len(),
        written_files(w).len() == count_written(w),
    decreases w.len(),
{
    if w.len() > 0 {
        lemma_every_write_counted(w.drop_last());
    }
}

/// The result of a build from the errors met before writing and the outcome of
/// every write, in order: counts of written and skipped files, the files written,
/// and all errors (those of the writes last), `files_failed` being their number.
pub fn finish_build(errors: Vec<(String, String)>, writes: Vec<WriteOutcome>, duration_ms: u128) -> (r: BuildResult)
    ensures
        r.files_generated == count_written(writes@),
        r.files_skipped == count_skipped(writes@),
        pairs_view(r.generated_content@) == written_files(writes@),
        pairs_view(r.errors@) == pairs_view(errors@) + write_errors(writes@),
        r.files_failed == r.errors@.len(),
        r.duration_ms == duration_ms,
{
    let ghost w = writes@;
    let ghost e0 = pairs_view(errors@);
    let mut errors = errors;
    let mut generated: Vec<(String, String)> = Vec::new();
    let mut written: usize = 0;
    let mut skipped: usize = 0;
    let n = writes.len();
    let mut rest = writes;
    let mut k: usize = 0;
    while rest.len() > 0
        invariant
            w.len() == n,
            k + rest@.len() == w.len(),
            rest@ == w.skip(k as int),
            written == count_written(w.take(k as int)),
            skipped == count_skipped(w.take(k as int)),
            written <= k,
            skipped <= k,
            pairs_view(generated@) == written_files(w.take(k as int)),
            pairs_view(errors@) == e0 + write_errors(w.take(k as int)),
        decreases rest@.len(),
    {
        proof {
            lemma_every_write_counted(w.take(k as int));
        }
        let ghost before_rest = rest@;
        let (path, content, outcome) = rest.remove(0);
        assert(before_rest[0] == w[k as int]);
        assert(rest@ =~= w.skip(k as int + 1));
        assert(w.take(k as int + 1).drop_last() =~= w.take(k as int));
        assert(w.take(k as int + 1).last() == w[k as int]);
        match outcome {
            WriteResult::Written => {
                let ghost before = generated@;
                written = written + 1;
                generated.push((path, content));
                assert(pairs_view(generated@) =~= pairs_view(before).push((w[k as int].0@, w[k as int].1@)));
            },
            WriteResult::Skipped => {
                skipped = skipped + 1;
            },
            WriteResult::Error(m) => {
                let ghost before = errors@;
                errors.push((path, m));
                assert(pairs_view(errors@) =~= pairs_view(before).push((w[k as int].0@, w[k as int].2->Error_0@)));
            },
        }
        k = k + 1;
    }
    assert(w.take(w.len() as int) =~= w);
    let failed = errors.len();
    BuildResult {
        files_generated: written,
        files_skipped: skipped,
        files_failed: failed,
        duration_ms,
        errors,
        generated_content: generated,
    }
}

// ───────────────────────────── writing ─────────────────────────────

/// What the cache records after one write: the hash of the content where the file
/// was written, nothing new otherwise.
pub open spec fn after_write(contents: Map<Seq<char>, u64>, o: WriteOutcome) -> Map<Seq<char>, u64> {
    if o.2 is Written {
        contents.insert(o.0@, text_hash(o.1@))
    } else {
        contents
    }
}

/// What the cache records after the writes, in order.
pub open spec fn replay(contents: Map<Seq<char>, u64>, ws: Seq<WriteOutcome>) -> Map<Seq<char>, u64>
    decreases ws.len(),
{
    if ws.len() == 0 {
        contents
    } else {
        after_write(replay(contents, ws.drop_last()), ws.last())
    }
}

/// A write was skipped exactly when the cache recorded its content for its path.
pub open spec fn write_step_ok(before: Map<Seq<char>, u64>, o: WriteOutcome) -> bool {
    is_unchanged(before, o.0@, text_hash(o.1@)) <==> o.2 is Skipped
}

/// Every write of the sequence decided as `write_if_changed` does, against the
/// cache as the writes before it left it.
pub open spec fn writes_ok(contents: Map<Seq<char>, u64>, ws: Seq<WriteOutcome>) -> bool {
    forall|i: int| 0 <= i < ws.len() ==> write_step_ok(replay(contents, ws.take(i)), #[trigger] ws[i])
}

/// What a write reports is what `write` answered when it was handed the output's
/// path and content: `Written` where it succeeded, `Error(e)` where it failed with
/// `e`. (A skipped write reports nothing of `write`.)
pub open spec fn reported_by<F: Fn(&str, &str) -> Result<(), String>>(write: F, o: WriteOutcome) -> bool {
    match o.2 {
        WriteResult::Written => exists|p: &str, c: &str|
            p@ == o.0@ && c@ == o.1@ && #[trigger] call_ensures(write, (p, c), Ok(())),
        WriteResult::Error(e) => exists|p: &str, c: &str|
            p@ == o.0@ && c@ == o.1@ && #[trigger] call_ensures(write, (p, c), Err(e)),
        WriteResult::Skipped => true,
    }
}

/// Writes one output with `write` unless the cache shows it unchanged.
fn write_step<F>(path: String, content: String, cache: &mut DashMap<String, u64>, write: &F) -> (o: WriteOutcome) where
    F: Fn(&str, &str) -> Result<(), String>,

    requires
        forall|p: &str, c: &str| call_requires(*write, (p, c)),
    ensures
        o.0@ == path@,
        o.1@ == content@,
        write_step_ok(cache_contents(*old(cache)), o),
        cache_contents(*final(cache)) == after_write(cache_contents(*old(cache)), o),
        reported_by(*write, o),
{
    let p = path.as_str();
    let c = content.as_str();
    let result = write_if_changed(p, c, cache, write);
    let ghost res = result;
    proof {
        match res {
            WriteResult::Written => {
                assert(call_ensures(*write, (p, c), Ok(())));
            },
            WriteResult::Error(e) => {
                assert(call_ensures(*write, (p, c), Err(e)));
            },
            WriteResult::Skipped => {},
        }
    }
    (path, content, result)
}

/// One more write decided against the cache the earlier ones left keeps the writes
/// decided that way.
proof fn lemma_writes_ok_push(c0: Map<Seq<char>, u64>, ws: Seq<WriteOutcome>, o: WriteOutcome)
    requires
        writes_ok(c0, ws),
        write_step_ok(replay(c0, ws), o),
    ensures
        writes_ok(c0, ws.push(o)),
        replay(c0, ws.push(o)) == after_write(replay(c0, ws), o),
{
    let w2 = ws.push(o);
    assert(w2.drop_last() =~= ws);
    assert forall|i: int| 0 <= i < w2.len() implies write_step_ok(replay(c0, w2.take(i)), #[trigger] w2[i]) by {
        if i < ws.len() {
            assert(w2.take(i) =~= ws.take(i));
            assert(w2[i] == ws[i]);
        } else {
            assert(w2.take(i) =~= ws);
        }
    }
}

/// Writes every planned output with `write`, unless the cache shows it unchanged,
/// in order, and returns what happened to each. The cache ends up recording the
/// hash of every file written.
#[verifier::spinoff_prover]
#[verifier::rlimit(30)]
pub fn write_outputs<F>(outputs: Vec<(String, String)>, cache: &mut DashMap<String, u64>, write: &F) -> (r: Vec<
    WriteOutcome,
>) where F: Fn(&str, &str) -> Result<(), String>
    requires
        forall|p: &str, c: &str| call_requires(*write, (p, c)),
    ensures
        r@.len() == outputs@.len(),
        forall|i: int| 0 <= i < r@.len() ==> (#[trigger] r@[i]).0@ == outputs@[i].0@ && r@[i].1@ == outputs@[i].1@,
        writes_ok(cache_contents(*old(cache)), r@),
        cache_contents(*final(cache)) == replay(cache_contents(*old(cache)), r@),
        forall|i: int| 0 <= i < r@.len() ==> reported_by(*write, #[trigger] r@[i]),
{
    let ghost c0 = cache_contents(*old(cache));
    let ghost outs = outputs@;
    let n = outputs.len();
    let mut r: Vec<WriteOutcome> = Vec::new();
    let mut rest = outputs;
    let mut k: usize = 0;
    while rest.len() > 0
        invariant
            outs.len() == n,
            k + rest@.len() == outs.len(),
            rest@ == outs.skip(k as int),
            r@.len() == k,
            forall|i: int| 0 <= i < k ==> (#[trigger] r@[i]).0@ == outs[i].0@ && r@[i].1@ == outs[i].1@,
            writes_ok(c0, r@),
            cache_contents(*cache) == replay(c0, r@),
            forall|i: int| 0 <= i < r@.len() ==> reported_by(*write, #[trigger] r@[i]),
            forall|p: &str, c: &str| call_requires(*write, (p, c)),
        decreases rest@.len(),
    {
        let ghost before_rest = rest@;
        let (path, content) = rest.remove(0);
        assert(before_rest[0] == outs[k as int]);
        assert(rest@ =~= outs.skip(k as int + 1));
        let o = write_step(path, content, cache, write);
        let ghost r0 = r@;
        r.push(o);
        proof {
            lemma_writes_ok_push(c0, r0, o);
            assert(r@ == r0.push(o));
            assert forall|i: int| 0 <= i < r@.len() implies reported_by(*write, #[trigger] r@[i]) by {
                if i < k {
                    assert(r@[i] == r0[i]);
                }
            }
        }
        k = k + 1;
    }
    assert(outs.skip(k as int).len() == 0);
    r
}

/// After writes that all succeeded, for outputs with distinct paths, the cache
/// records the content of every output.
pub proof fn lemma_writes_recorded(c0: Map<Seq<char>, u64>, ws: Seq<WriteOutcome>)
    requires
        writes_ok(c0, ws),
        forall|i: int| 0 <= i < ws.len() ==> !((#[trigger] ws[i]).2 is Error),
        forall|i: int, j: int| 0 <= i < j < ws.len() ==> (#[trigger] ws[i]).0@ != (#[trigger] ws[j]).0@,
    ensures
        forall|i: int| 0 <= i < ws.len() ==> is_unchanged(replay(c0, ws), (#[trigger] ws[i]).0@, text_hash(ws[i].1@)),
    decreases ws.len(),
{
    if ws.len() > 0 {
        let init = ws.drop_last();
        let n = ws.len() - 1;
        assert forall|i: int| 0 <= i < init.len() implies write_step_ok(replay(c0, init.take(i)), #[trigger] init[i]) by {
            assert(init.take(i) =~= ws.take(i));
            assert(init[i] == ws[i]);
            assert(write_step_ok(replay(c0, ws.take(i)), ws[i]));
        }
        assert forall|i: int| 0 <= i < init.len() implies !((#[trigger] init[i]).2 is Error) by {
            assert(init[i] == ws[i]);
        }
        assert forall|i: int, j: int| 0 <= i < j < init.len() implies (#[trigger] init[i]).0@ != (
        #[trigger] init[j]).0@ by {
            assert(init[i] == ws[i] && init[j] == ws[j]);
        }
        lemma_writes_recorded(c0, init);
        assert(ws.take(n) =~= init);
        assert(write_step_ok(replay(c0, ws.take(n)), ws[n]));
        assert(!(ws[n].2 is Error));
        assert forall|i: int| 0 <= i < ws.len() implies is_unchanged(replay(c0, ws), (#[trigger] ws[i]).0@, text_hash(
            ws[i].1@,
        )) by {
            if i < n {
                assert(init[i] == ws[i]);
                assert(ws[i].0@ != ws[n].0@);
            }
        }
    }
}

/// Writes of outputs that the cache all records are all skipped, and leave the
/// cache as it was.
pub proof fn lemma_recorded_writes_skipped(c: Map<Seq<char>, u64>, ws: Seq<WriteOutcome>)
    requires
        writes_ok(c, ws),
        forall|i: int| 0 <= i < ws.len() ==> is_unchanged(c, (#[trigger] ws[i]).0@, text_hash(ws[i].1@)),
    ensures
        forall|i: int| 0 <= i < ws.len() ==> (#[trigger] ws[i]).2 is Skipped,
        replay(c, ws) == c,
        count_skipped(ws) == ws.len(),
        count_written(ws) == 0,
    decreases ws.len(),
{
    if ws.len() > 0 {
        let init = ws.drop_last();
        let n = ws.len() - 1;
        assert forall|i: int| 0 <= i < init.len() implies write_step_ok(replay(c, init.take(i)), #[trigger] init[i]) by {
            assert(init.take(i) =~= ws.take(i));
            assert(init[i] == ws[i]);
            assert(write_step_ok(replay(c, ws.take(i)), ws[i]));
        }
        assert forall|i: int| 0 <= i < init.len() implies is_unchanged(c, (#[trigger] init[i]).0@, text_hash(init[i].1@)) by {
            assert(init[i] == ws[i]);
        }
        lemma_recorded_writes_skipped(c, init);
        assert(ws.take(n) =~= init);
        assert(write_step_ok(replay(c, ws.take(n)), ws[n]));
        assert(is_unchanged(c, ws[n].0@, text_hash(ws[n].1@)));
        assert forall|i: int| 0 <= i < ws.len() implies (#[trigger] ws[i]).2 is Skipped by {
            if i < n {
                assert(init[i] == ws[i]);
            }
        }
    }
}

/// Writing the same outputs a second time, after a first round of writes that all
/// succeeded, skips every file: the second round writes none and skips all, and the
/// cache is left as the first round left it. (The outputs' paths are distinct, as
/// a build plans them.)
pub proof fn lemma_second_round_skips_all(c0: Map<Seq<char>, u64>, first: Seq<WriteOutcome>, second: Seq<WriteOutcome>)
    requires
        writes_ok(c0, first),
        forall|i: int| 0 <= i < first.len() ==> !((#[trigger] first[i]).2 is Error),
        forall|i: int, j: int| 0 <= i < j < first.len() ==> (#[trigger] first[i]).0@ != (#[trigger] first[j]).0@,
        second.len() == first.len(),
        forall|i: int| 0 <= i < second.len() ==> (#[trigger] second[i]).0@ == first[i].0@ && second[i].1@ == first[i].1@,
        writes_ok(replay(c0, first), second),
    ensures
        forall|i: int| 0 <= i < second.len() ==> (#[trigger] second[i]).2 is Skipped,
        count_written(second) == 0,
        count_skipped(second) == second.len(),
        replay(replay(c0, first), second) == replay(c0, first),
{
    lemma_writes_recorded(c0, first);
    assert forall|i: int| 0 <= i < second.len() implies is_unchanged(
        replay(c0, first),
        (#[trigger] second[i]).0@,
        text_hash(second[i].1@),
    ) by {
        assert(is_unchanged(replay(c0, first), first[i].0@, text_hash(first[i].1@)));
    }
    lemma_recorded_writes_skipped(replay(c0, first), second);
}

/// The cache after the writes records only what it recorded before and the paths
/// written.
proof fn lemma_replay_dom(c0: Map<Seq<char>, u64>, ws: Seq<WriteOutcome>, p: Seq<char>)
    ensures
        replay(c0, ws).dom().contains(p) ==> c0.dom().contains(p) || exists|j: int|
            0 <= j < ws.len() && (#[trigger] ws[j]).0@ == p,
    decreases ws.len(),
{
    if ws.len() > 0 {
        let init = ws.drop_last();
        lemma_replay_dom(c0, init, p);
        if replay(c0, init).dom().contains(p) && !c0.dom().contains(p) {
            let j = choose|j: int| 0 <= j < init.len() && (#[trigger] init[j]).0@ == p;
            assert(ws[j] == init[j]);
        }
        if replay(c0, ws).dom().contains(p) && !replay(c0, init).dom().contains(p) {
            assert(ws[ws.len() - 1].0@ == p);
        }
    }
}

/// Writes that were all written count as written, none as skipped.
proof fn lemma_all_written_counts(ws: Seq<WriteOutcome>)
    requires
        forall|i: int| 0 <= i < ws.len() ==> (#[trigger] ws[i]).2 is Written,
    ensures
        count_written(ws) == ws.len(),
        count_skipped(ws) == 0,
    decreases ws.len(),
{
    if ws.len() > 0 {
        let init = ws.drop_last();
        assert forall|i: int| 0 <= i < init.len() implies (#[trigger] init[i]).2 is Written by {
            assert(init[i] == ws[i]);
        }
        lemma_all_written_counts(init);
        assert(ws[ws.len() - 1].2 is Written);
    }
}

/// A first round of writes, against an empty cache, of outputs with distinct paths
/// that all succeeded writes every file.
pub proof fn lemma_first_round_writes_all(ws: Seq<WriteOutcome>)
    requires
        writes_ok(Map::empty(), ws),
        forall|i: int| 0 <= i < ws.len() ==> !((#[trigger] ws[i]).2 is Error),
        forall|i: int, j: int| 0 <= i < j < ws.len() ==> (#[trigger] ws[i]).0@ != (#[trigger] ws[j]).0@,
    ensures
        forall|i: int| 0 <= i < ws.len() ==> (#[trigger] ws[i]).2 is Written,
        count_written(ws) == ws.len(),
        count_skipped(ws) == 0,
{
    assert forall|i: int| 0 <= i < ws.len() implies (#[trigger] ws[i]).2 is Written by {
        let before = replay(Map::empty(), ws.take(i));
        lemma_replay_dom(Map::empty(), ws.take(i), ws[i].0@);
        if before.dom().contains(ws[i].0@) {
            let j = choose|j: int| 0 <= j < ws.take(i).len() && (#[trigger] ws.take(i)[j]).0@ == ws[i].0@;
            assert(ws.take(i)[j] == ws[j]);
        }
        assert(write_step_ok(before, ws[i]));
    }
    lemma_all_written_counts(ws);
}

/// Each file written is one of the writes, with its path and content.
proof fn lemma_written_files_from(ws: Seq<WriteOutcome>)
    ensures
        forall|k: int|
            0 <= k < written_files(ws).len() ==> exists|j: int|
                0 <= j < ws.len() && (#[trigger] written_files(ws)[k]) == (ws[j].0@, ws[j].1@),
    decreases ws.len(),
{
    if ws.len() > 0 {
        let init = ws.drop_last();
        lemma_written_files_from(init);
        assert forall|k: int| 0 <= k < written_files(ws).len() implies exists|j: int|
            0 <= j < ws.len() && (#[trigger] written_files(ws)[k]) == (ws[j].0@, ws[j].1@) by {
            if k < written_files(init).len() {
                assert(written_files(ws)[k] == written_files(init)[k]);
                let j = choose|j: int| 0 <= j < init.len() && (#[trigger] written_files(init)[k]) == (init[j].0@, init[j].1@);
                assert(ws[j] == init[j]);
            } else {
                assert(ws[ws.len() - 1] == ws.last());
            }
        }
    }
}

/// The counts of a whole build: when the planned outputs of the parsed Dart sources
/// are written in order (as `write_outputs` reports them), every source file that
/// yields at least one class is counted once, as written, skipped or failed; the
/// sources counted are exactly those, each once; and, for Dart sources, every file
/// written is a `.g.dart` file. (`finish_build` turns these counts into the build's result.)
pub proof fn lemma_build_counts(
    files: Seq<ParsedFile>,
    plugins: Seq<Plugin>,
    options: OptionsView,
    ws: Seq<WriteOutcome>,
)
    requires
        ws.len() == build_outputs(plugins, options, resolved_classes(files)).len(),
        forall|i: int|
            0 <= i < ws.len() ==> (#[trigger] ws[i]).0@ == build_outputs(plugins, options, resolved_classes(files))[i].0
                && ws[i].1@ == build_outputs(plugins, options, resolved_classes(files))[i].1,
    ensures
        count_written(ws) + count_skipped(ws) + write_errors(ws).len() == source_order(resolved_classes(files)).len(),
        source_order(resolved_classes(files)).no_duplicates(),
        forall|i: int|
            0 <= i < resolved_classes(files).len() ==> source_order(resolved_classes(files)).contains(
                #[trigger] resolved_classes(files)[i].source_file,
            ),
        forall|j: int|
            0 <= j < source_order(resolved_classes(files)).len() ==> exists|i: int|
                0 <= i < resolved_classes(files).len() && resolved_classes(files)[i].source_file
                    == #[trigger] source_order(resolved_classes(files))[j],
        written_files(ws).len() == count_written(ws),
        (forall|i: int| 0 <= i < files.len() ==> is_source_path(#[trigger] files[i].path@)) ==> forall|k: int|
            0 <= k < written_files(ws).len() ==> ends_with(#[trigger] written_files(ws)[k].0, ".g.dart"@),
{
    let rs = resolved_classes(files);
    let classes = analysis_of(files).0;
    let outs = build_outputs(plugins, options, rs);
    lemma_every_write_counted(ws);
    lemma_one_output_per_source(rs);
    lemma_analysis_sources(files);
    lemma_written_files_from(ws);
    reveal_strlit(".g.dart");
    if forall|i: int| 0 <= i < files.len() ==> is_source_path(#[trigger] files[i].path@) {
    assert forall|k: int| 0 <= k < written_files(ws).len() implies ends_with(#[trigger] written_files(ws)[k].0, ".g.dart"@) by {
        let j = choose|j: int| 0 <= j < ws.len() && (#[trigger] written_files(ws)[k]) == (ws[j].0@, ws[j].1@);
        let src = source_order(rs)[j];
        assert(outs[j].0 == with_extension(src, "g.dart"@));
        let i = choose|i: int| 0 <= i < rs.len() && rs[i].source_file == #[trigger] source_order(rs)[j];
        assert(rs[i].source_file == classes[i].source_file);
        let f = choose|f: int| 0 <= f < files.len() && files[f].path@ == (#[trigger] classes[i]).source_file;
        assert(is_source_path(files[f].path@));
        assert(file_name(src) is Some);
        lemma_generated_file_name(src);
        let q = with_extension(src, "g.dart"@);
        let pre = src.subrange(0, crate::path::name_start(src)) + crate::path::file_stem(file_name(src)->0);
        assert(q == pre + ".g.dart"@);
        assert(q.subrange(q.len() - 7, q.len() as int) =~= ".g.dart"@);
    }
    }
}

/// The classes found in Dart sources come from those sources: each has the path of
/// one of the files as its source.
proof fn lemma_resolved_sources(files: Seq<ParsedFile>)
    requires
        forall|i: int| 0 <= i < files.len() ==> is_source_path(#[trigger] files[i].path@) && ends_in_name(files[i].path@),
    ensures
        forall|i: int|
            0 <= i < resolved_classes(files).len() ==> is_source_path(#[trigger] resolved_classes(files)[i].source_file)
                && ends_in_name(resolved_classes(files)[i].source_file),
{
    lemma_analysis_sources(files);
    let classes = analysis_of(files).0;
    let rs = resolved_classes(files);
    assert forall|i: int| 0 <= i < rs.len() implies is_source_path(#[trigger] rs[i].source_file) && ends_in_name(
        rs[i].source_file,
    ) by {
        assert(rs[i].source_file == classes[i].source_file);
        let f = choose|f: int| 0 <= f < files.len() && files[f].path@ == (#[trigger] classes[i]).source_file;
        assert(is_source_path(files[f].path@) && ends_in_name(files[f].path@));
    }
}

/// What the writes of a build's outputs do on a cache that records them all, and on
/// an empty cache when every write succeeds.
proof fn lemma_build_rounds<F: Fn(&str, &str) -> Result<(), String>>(
    files: Seq<ParsedFile>,
    plugins: Seq<Plugin>,
    options: OptionsView,
    c0: Map<Seq<char>, u64>,
    ws: Seq<WriteOutcome>,
    write: F,
)
    requires
        writes_ok(c0, ws),
        forall|i: int| 0 <= i < ws.len() ==> reported_by(write, #[trigger] ws[i]),
        ws.len() == build_outputs(plugins, options, resolved_classes(files)).len(),
        forall|i: int|
            0 <= i < ws.len() ==> (#[trigger] ws[i]).0@ == build_outputs(plugins, options, resolved_classes(files))[i].0
                && ws[i].1@ == build_outputs(plugins, options, resolved_classes(files))[i].1,
    ensures
        (forall|k: int|
            0 <= k < build_outputs(plugins, options, resolved_classes(files)).len() ==> is_unchanged(
                c0,
                #[trigger] build_outputs(plugins, options, resolved_classes(files))[k].0,
                text_hash(build_outputs(plugins, options, resolved_classes(files))[k].1),
            )) ==> count_written(ws) == 0 && count_skipped(ws) == ws.len() && replay(c0, ws) == c0,
        (c0 == Map::<Seq<char>, u64>::empty() && (forall|p: &str, c: &str, res: Result<(), String>|
            #[trigger] call_ensures(write, (p, c), res) ==> res is Ok) && (forall|i: int|
            0 <= i < files.len() ==> is_source_path(#[trigger] files[i].path@) && ends_in_name(files[i].path@)))
            ==> count_written(ws) == ws.len() && count_skipped(ws) == 0,
{
    let rs = resolved_classes(files);
    let outs = build_outputs(plugins, options, rs);
    if forall|k: int| 0 <= k < outs.len() ==> is_unchanged(c0, #[trigger] outs[k].0, text_hash(outs[k].1)) {
        assert forall|k: int| 0 <= k < ws.len() implies is_unchanged(c0, (#[trigger] ws[k]).0@, text_hash(ws[k].1@)) by {
            assert(is_unchanged(c0, outs[k].0, text_hash(outs[k].1)));
        }
        lemma_recorded_writes_skipped(c0, ws);
    }
    if c0 == Map::<Seq<char>, u64>::empty() && (forall|p: &str, c: &str, res: Result<(), String>|
        #[trigger] call_ensures(write, (p, c), res) ==> res is Ok) && (forall|i: int|
        0 <= i < files.len() ==> is_source_path(#[trigger] files[i].path@) && ends_in_name(files[i].path@)) {
        lemma_resolved_sources(files);
        lemma_output_paths_distinct(plugins, options, rs);
        assert forall|i: int| 0 <= i < ws.len() implies !((#[trigger] ws[i]).2 is Error) by {
            assert(reported_by(write, ws[i]));
        }
        assert forall|i: int, j: int| 0 <= i < j < ws.len() implies (#[trigger] ws[i]).0@ != (#[trigger] ws[j]).0@ by {
            assert(outs[i].0 != outs[j].0);
        }
        lemma_first_round_writes_all(ws);
    }
}

/// Builds the parsed files: plans the outputs, writes them with `write` unless the
/// cache shows them unchanged, and sums up the build; returns the result and the
/// plugins' warnings. Every source file with classes is counted once, as written,
/// skipped or failed, next to the files that could not be parsed or analyzed. A
/// build whose outputs the cache all records writes nothing and skips them all; a
/// first build, on an empty cache, whose writes all succeed writes them all.
#[verifier::spinoff_prover]
#[verifier::rlimit(40)]
pub fn build_parsed<F>(
    files: &Vec<ParsedFile>,
    parse_errors: Vec<(String, String)>,
    config: &BuildConfig,
    plugins: &PluginRegistry,
    cache: &mut DashMap<String, u64>,
    write: &F,
    duration_ms: u128,
) -> (r: (BuildResult, Vec<String>)) where F: Fn(&str, &str) -> Result<(), String>
    requires
        forall|p: &str, c: &str| call_requires(*write, (p, c)),
    ensures
        views(r.1@) == build_warnings(plugins@, resolved_classes(files@)),
        r.0.files_failed == r.0.errors@.len(),
        r.0.files_generated == r.0.generated_content@.len(),
        r.0.duration_ms == duration_ms,
        r.0.files_generated + r.0.files_skipped + r.0.errors@.len() == parse_errors@.len() + analysis_of(files@).1.len()
            + source_order(resolved_classes(files@)).len(),
        pairs_view(r.0.errors@).take((parse_errors@.len() + analysis_of(files@).1.len()) as int) == pairs_view(parse_errors@)
            + analysis_of(files@).1,
        (forall|i: int| 0 <= i < files@.len() ==> is_source_path(#[trigger] files@[i].path@)) ==> forall|k: int|
            0 <= k < r.0.generated_content@.len() ==> ends_with(#[trigger] r.0.generated_content@[k].0@, ".g.dart"@),
        (forall|k: int|
            0 <= k < build_outputs(plugins@, config@.plugin_options, resolved_classes(files@)).len() ==> is_unchanged(
                cache_contents(*old(cache)),
                #[trigger] build_outputs(plugins@, config@.plugin_options, resolved_classes(files@))[k].0,
                text_hash(build_outputs(plugins@, config@.plugin_options, resolved_classes(files@))[k].1),
            )) ==> r.0.files_generated == 0 && r.0.files_skipped == source_order(resolved_classes(files@)).len()
            && cache_contents(*final(cache)) == cache_contents(*old(cache)),
        (cache_contents(*old(cache)) == Map::<Seq<char>, u64>::empty() && (forall|p: &str, c: &str, res: Result<(), String>|
            #[trigger] call_ensures(*write, (p, c), res) ==> res is Ok) && (forall|i: int|
            0 <= i < files@.len() ==> is_source_path(#[trigger] files@[i].path@) && ends_in_name(files@[i].path@)))
            ==> r.0.files_generated == source_order(resolved_classes(files@)).len() && r.0.files_skipped == 0,
{
    let ghost rs = resolved_classes(files@);
    let ghost outs = build_outputs(plugins@, config@.plugin_options, rs);
    let ghost c0 = cache_contents(*cache);
    let plan = plan_build(files, parse_errors, config, plugins);
    let ghost e0 = pairs_view(plan.errors@);
    let ghost planned = plan.outputs@;
    let ws = write_outputs(plan.outputs, cache, write);
    let ghost pe = parse_errors@;
    proof {
        assert(pairs_view(planned) == outs);
        assert forall|i: int| 0 <= i < ws@.len() implies (#[trigger] ws@[i]).0@ == outs[i].0 && ws@[i].1@ == outs[i].1 by {
            assert(pairs_view(planned)[i] == (planned[i].0@, planned[i].1@));
        }
        lemma_build_counts(files@, plugins@, config@.plugin_options, ws@);
        lemma_build_rounds(files@, plugins@, config@.plugin_options, c0, ws@, *write);
    }
    let r = finish_build(plan.errors, ws, duration_ms);
    proof {
        assert(pairs_view(r.errors@).take(e0.len() as int) =~= e0);
        assert(pairs_view(r.errors@).len() == r.errors@.len());
        assert(e0.len() == parse_errors@.len() + analysis_of(files@).1.len());
        assert(pairs_view(r.generated_content@).len() == r.generated_content@.len());
        if forall|i: int| 0 <= i < files@.len() ==> is_source_path(#[trigger] files@[i].path@) {
            assert forall|k: int| 0 <= k < r.generated_content@.len() implies ends_with(
                #[trigger] r.generated_content@[k].0@,
                ".g.dart"@,
            ) by {
                assert(pairs_view(r.generated_content@)[k] == (r.generated_content@[k].0@, r.generated_content@[k].1@));
                assert(written_files(ws@)[k].0 == r.generated_content@[k].0@);
            }
        }
    }
    (r, plan.warnings)
}

} // verus!
