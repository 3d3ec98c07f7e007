//! Code-generation plugins, each handling one annotation.
use vstd::prelude::*;
use crate::ir::{annotation_views, AnnotationIR, AnnotationSpec, ClassIR, ClassSpec, StringMap};
use crate::path::{with_extension, with_extension_exec};
use crate::text::str_eq;
use crate::plugin::veltro_plugin::VeltroCodePlugin;
use crate::plugin::data_plugin::DataPlugin;

pub mod common;
pub mod veltro_plugin;
pub mod data_plugin;
pub mod word_absence;
pub mod field_code;

verus! {

/// A file produced by a plugin.
#[derive(Debug)]
pub struct GeneratedFile {
    /// Path of the output file, e.g. "lib/models/user.g.dart".
    pub path: String,
    /// The generated class body (without file header).
    pub content: String,
}

/// Mathematical model of a generated file.
pub struct GeneratedFileSpec {
    pub path: Seq<char>,
    pub content: Seq<char>,
}

impl View for GeneratedFile {
    type V = GeneratedFileSpec;

    open spec fn view(&self) -> GeneratedFileSpec {
        GeneratedFileSpec { path: self.path@, content: self.content@ }
    }
}

/// Models of a sequence of generated files.
pub open spec fn file_views(s: Seq<GeneratedFile>) -> Seq<GeneratedFileSpec> {
    s.map_values(|f: GeneratedFile| f@)
}

/// The output file of a class: its source file with the extension `g.dart`.
pub open spec fn output_path(c: ClassSpec) -> Seq<char> {
    with_extension(c.source_file, "g.dart"@)
}

/// The output file of a class.
pub fn output_path_exec(ir: &ClassIR) -> (r: String)
    ensures
        r@ == output_path(ir@),
{
    with_extension_exec(ir.source_file.as_str(), "g.dart")
}

/// The first annotation called `name`.
pub open spec fn first_annotation(anns: Seq<AnnotationSpec>, name: Seq<char>) -> Option<AnnotationSpec>
    decreases anns.len(),
{
    if anns.len() == 0 {
        None
    } else if anns[0].name == name {
        Some(anns[0])
    } else {
        first_annotation(anns.drop_first(), name)
    }
}

/// Index of the first annotation called `name`.
pub fn find_annotation(anns: &Vec<AnnotationIR>, name: &str) -> (r: Option<usize>)
    ensures
        r matches Some(i) ==> i < anns@.len() && first_annotation(annotation_views(anns@), name@) == Some(
            anns@[i as int]@,
        ),
        r is None ==> first_annotation(annotation_views(anns@), name@) is None,
{
    let ghost all = annotation_views(anns@);
    let mut i: usize = 0;
    assert(all.subrange(0, all.len() as int) == all);
    while i < anns.len()
        invariant
            i <= anns.len(),
            all == annotation_views(anns@),
            first_annotation(all, name@) == first_annotation(all.subrange(i as int, all.len() as int), name@),
        decreases anns.len() - i,
    {
        let ghost rest = all.subrange(i as int, all.len() as int);
        assert(rest[0] == anns@[i as int]@);
        assert(rest.drop_first() == all.subrange(i + 1, all.len() as int));
        if str_eq(anns[i].name.as_str(), name) {
            return Some(i);
        }
        i = i + 1;
    }
    None
}

/// The contract every plugin meets.
pub trait VeltroPlugin {
    /// Annotation name the plugin handles.
    spec fn spec_annotation(&self) -> Seq<char>;

    /// Files the plugin produces for a class and its build options.
    spec fn spec_generate(&self, ir: ClassSpec, options: Seq<(Seq<char>, Seq<char>)>) -> Seq<GeneratedFileSpec>;

    /// Annotation name without `@` or `()`, e.g. "Veltro".
    fn annotation(&self) -> (r: &str)
        ensures
            r@ == self.spec_annotation(),
    ;

    /// Generates the files for one annotated class; `options` come from the build
    /// configuration of this plugin's annotation.
    fn generate(&self, ir: &ClassIR, options: &StringMap) -> (r: Vec<GeneratedFile>)
        ensures
            file_views(r@) == self.spec_generate(ir@, options@),
    ;
}

/// A built-in plugin.
#[derive(Clone, Copy, Debug, PartialEq, Eq, Structural)]
pub enum Plugin {
    Veltro(VeltroCodePlugin),
    Data(DataPlugin),
}

impl VeltroPlugin for Plugin {
    open spec fn spec_annotation(&self) -> Seq<char> {
        match self {
            Plugin::Veltro(p) => p.spec_annotation(),
            Plugin::Data(p) => p.spec_annotation(),
        }
    }

    open spec fn spec_generate(&self, ir: ClassSpec, options: Seq<(Seq<char>, Seq<char>)>) -> Seq<GeneratedFileSpec> {
        match self {
            Plugin::Veltro(p) => p.spec_generate(ir, options),
            Plugin::Data(p) => p.spec_generate(ir, options),
        }
    }

    fn annotation(&self) -> (r: &str) {
        match self {
            Plugin::Veltro(p) => p.annotation(),
            Plugin::Data(p) => p.annotation(),
        }
    }

    fn generate(&self, ir: &ClassIR, options: &StringMap) -> (r: Vec<GeneratedFile>) {
        match self {
            Plugin::Veltro(p) => p.generate(ir, options),
            Plugin::Data(p) => p.generate(ir, options),
        }
    }
}

/// The plugins of `plugins` that handle `annotation`, in order.
pub open spec fn plugins_matching(plugins: Seq<Plugin>, annotation: Seq<char>) -> Seq<Plugin>
    decreases plugins.len(),
{
    if plugins.len() == 0 {
        Seq::empty()
    } else {
        plugins_matching(plugins.drop_last(), annotation) + if plugins.last().spec_annotation() == annotation {
            seq![plugins.last()]
        } else {
            Seq::empty()
        }
    }
}

/// Holds all registered plugins, matched by annotation name.
pub struct PluginRegistry {
    plugins: Vec<Plugin>,
}

impl View for PluginRegistry {
    type V = Seq<Plugin>;

    closed spec fn view(&self) -> Seq<Plugin> {
        self.plugins@
    }
}

/// The values behind a sequence of plugin references.
pub open spec fn deref_plugins(s: Seq<&Plugin>) -> Seq<Plugin> {
    s.map_values(|p: &Plugin| *p)
}

impl PluginRegistry {
    /// A registry with the built-in `@Veltro` plugin.
    pub fn with_defaults() -> (r: Self)
        ensures
            r@ == seq![Plugin::Veltro(VeltroCodePlugin)],
    {
        let mut plugins: Vec<Plugin> = Vec::new();
        plugins.push(Plugin::Veltro(VeltroCodePlugin));
        let r = PluginRegistry { plugins };
        assert(r@ =~= seq![Plugin::Veltro(VeltroCodePlugin)]);
        r
    }

    /// All plugins that handle the annotation name, in registration order.
    pub fn plugins_for(&self, annotation: &str) -> (r: Vec<&Plugin>)
        ensures
            deref_plugins(r@) == plugins_matching(self@, annotation@),
    {
        let mut out: Vec<&Plugin> = Vec::new();
        let mut i: usize = 0;
        while i < self.plugins.len()
            invariant
                i <= self.plugins.len(),
                deref_plugins(out@) == plugins_matching(self@.take(i as int), annotation@),
            decreases self.plugins.len() - i,
        {
            let p = &self.plugins[i];
            let ghost before = out@;
            assert(self@.take(i + 1).drop_last() =~= self@.take(i as int));
            if str_eq(p.annotation(), annotation) {
                out.push(p);
                assert(deref_plugins(out@) =~= deref_plugins(before).push(*p));
            }
            i = i + 1;
        }
        assert(self@.take(self.plugins.len() as int) =~= self@);
        out
    }
}

} // verus!
