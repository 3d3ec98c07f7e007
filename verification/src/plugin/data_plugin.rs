//! The `@Data()` plugin: like `@Veltro()` with every option on, plain JSON keys, and
//! a top-level `_$NameFromJson` helper when the class declares `fromJson`.
use vstd::prelude::*;
use crate::ir::{ClassIR, ClassSpec, FieldIR, FieldSpec, ResolvedKind, StringMap};
use crate::plugin::common::{concat_fields, generics_decl, generics_decl_exec, get_type_string, over_fields, over_generics, type_string};
use crate::plugin::veltro_plugin::{
    class_tail, class_tail_exec, copy_with_impl, copy_with_impl_exec, field_decl, field_decl_exec, generic_arg,
    generic_args_exec, generic_param, generic_params_exec, json_value, json_value_exec, mixin_section,
    mixin_section_exec, FieldRename, VeltroOptions,
};
use crate::plugin::{file_views, output_path, output_path_exec, GeneratedFile, GeneratedFileSpec, VeltroPlugin};
use crate::text::append_str;

verus! {

/// The plugin handling `@Data()`.
#[derive(Clone, Copy, Debug, PartialEq, Eq, Structural)]
pub struct DataPlugin;

/// The options this plugin always uses.
pub open spec fn data_options() -> VeltroOptions {
    VeltroOptions { json: true, field_rename: FieldRename::Unchanged, include_if_null: true, create_copy_with: true }
}

/// The `fromJson` argument for one field, keyed by the field name.
pub open spec fn data_from_json_field(f: FieldSpec) -> Seq<char> {
    if f.is_generic_param {
        f.name + ": fromJson"@ + f.dart_type + "(json['"@ + f.name + "'])"@
    } else {
        match f.resolved_kind {
            ResolvedKind::AnnotatedClass => f.name + ": "@ + f.dart_type + ".fromJson(json['"@ + f.name
                + "'] as Map<String, dynamic>)"@,
            ResolvedKind::Enum => f.name + ": "@ + f.dart_type + ".values.byName(json['"@ + f.name + "'] as String)"@,
            ResolvedKind::External => f.name + ": json['"@ + f.name + "'] as "@ + type_string(f),
        }
    }
}

/// Constructor parameter: `required` or plain.
pub open spec fn data_ctor_param() -> spec_fn(FieldSpec) -> Seq<char> {
    |f: FieldSpec|
        if f.is_required {
            "    required this."@ + f.name + ",\n"@
        } else {
            "    this."@ + f.name + ",\n"@
        }
}

/// Argument line of the `fromJson` factory.
pub open spec fn data_from_json_line() -> spec_fn(FieldSpec) -> Seq<char> {
    |f: FieldSpec| "    "@ + data_from_json_field(f) + ",\n"@
}

/// Map entry of `toJson`.
pub open spec fn data_to_json_entry() -> spec_fn(FieldSpec) -> Seq<char> {
    |f: FieldSpec| "    '"@ + f.name + "': "@ + json_value(f) + ",\n"@
}

/// Head of the implementation class, its fields and its constructor.
pub open spec fn data_head(c: ClassSpec) -> Seq<char> {
    let gd = generics_decl(c);
    "\nclass _"@ + c.name + gd + " with _$"@ + c.name + gd + " implements "@ + c.name + gd + " {\n"@
        + over_fields(c.fields, field_decl()) + "\n"@ + "  const _"@ + c.name + "({\n"@ + over_fields(
        c.fields,
        data_ctor_param(),
    ) + "  });\n"@
}

/// The `fromJson` factory.
pub open spec fn data_factory(c: ClassSpec) -> Seq<char> {
    "\n  factory _"@ + c.name + ".fromJson(Map<String, dynamic> json"@ + over_generics(c.generics, generic_param())
        + ") => _"@ + c.name + "(\n"@ + over_fields(c.fields, data_from_json_line()) + "  );\n"@
}

/// The implemented `toJson`.
pub open spec fn data_to_json(c: ClassSpec) -> Seq<char> {
    "\n  @override\n  Map<String, dynamic> toJson() => {\n"@ + over_fields(c.fields, data_to_json_entry()) + "  };\n"@
}

/// The top-level `_$NameFromJson` helper, emitted when the class declares `fromJson`.
pub open spec fn data_helper(c: ClassSpec) -> Seq<char> {
    if c.has_from_json {
        let gd = generics_decl(c);
        "\n"@ + c.name + gd + " _$"@ + c.name + "FromJson"@ + gd + "(Map<String, dynamic> json"@ + over_generics(
            c.generics,
            generic_param(),
        ) + ") =>\n  _"@ + c.name + ".fromJson(json"@ + over_generics(c.generics, generic_arg()) + ");\n"@
    } else {
        Seq::empty()
    }
}

/// The whole body generated for one class.
pub open spec fn data_dart(c: ClassSpec) -> Seq<char> {
    "\n"@ + mixin_section(c, data_options()) + data_head(c) + data_factory(c) + copy_with_impl(c) + data_to_json(c)
        + class_tail(c) + data_helper(c)
}

/// What the `@Data` plugin produces for a class: nothing without the `with _$Name`
/// mixin, else one file next to the source.
pub open spec fn data_generate(c: ClassSpec) -> Seq<GeneratedFileSpec> {
    if !c.has_with_mixin {
        Seq::empty()
    } else {
        seq![GeneratedFileSpec { path: output_path(c), content: data_dart(c) }]
    }
}

/// The `fromJson` argument for one field.
pub fn generate_from_json_field(field: &FieldIR) -> (r: String)
    ensures
        r@ == data_from_json_field(field@),
{
    let n = field.name.as_str();
    let t = field.dart_type.as_str();
    let mut s = String::new();
    if field.is_generic_param {
        append_str(&mut s, n);
        append_str(&mut s, ": fromJson");
        append_str(&mut s, t);
        append_str(&mut s, "(json['");
        append_str(&mut s, n);
        append_str(&mut s, "'])");
    } else {
        match field.resolved_kind {
            ResolvedKind::AnnotatedClass => {
                append_str(&mut s, n);
                append_str(&mut s, ": ");
                append_str(&mut s, t);
                append_str(&mut s, ".fromJson(json['");
                append_str(&mut s, n);
                append_str(&mut s, "'] as Map<String, dynamic>)");
            },
            ResolvedKind::Enum => {
                append_str(&mut s, n);
                append_str(&mut s, ": ");
                append_str(&mut s, t);
                append_str(&mut s, ".values.byName(json['");
                append_str(&mut s, n);
                append_str(&mut s, "'] as String)");
            },
            ResolvedKind::External => {
                let ts = get_type_string(field);
                append_str(&mut s, n);
                append_str(&mut s, ": json['");
                append_str(&mut s, n);
                append_str(&mut s, "'] as ");
                append_str(&mut s, ts.as_str());
            },
        }
    }
    assert(s@ =~= data_from_json_field(field@));
    s
}

fn data_ctor_param_exec(f: &FieldIR, _unit: &()) -> (r: String)
    ensures
        r@ == data_ctor_param()(f@),
{
    let mut s = String::new();
    if f.is_required {
        append_str(&mut s, "    required this.");
    } else {
        append_str(&mut s, "    this.");
    }
    append_str(&mut s, f.name.as_str());
    append_str(&mut s, ",\n");
    assert(s@ =~= data_ctor_param()(f@));
    s
}

fn data_from_json_line_exec(f: &FieldIR, _unit: &()) -> (r: String)
    ensures
        r@ == data_from_json_line()(f@),
{
    let mut s = String::new();
    append_str(&mut s, "    ");
    let l = generate_from_json_field(f);
    append_str(&mut s, l.as_str());
    append_str(&mut s, ",\n");
    assert(s@ =~= data_from_json_line()(f@));
    s
}

fn data_to_json_entry_exec(f: &FieldIR, _unit: &()) -> (r: String)
    ensures
        r@ == data_to_json_entry()(f@),
{
    let v = json_value_exec(f, false);
    let mut s = String::new();
    append_str(&mut s, "    '");
    append_str(&mut s, f.name.as_str());
    append_str(&mut s, "': ");
    append_str(&mut s, v.as_str());
    append_str(&mut s, ",\n");
    assert(s@ =~= data_to_json_entry()(f@));
    s
}

fn data_head_exec(ir: &ClassIR) -> (r: String)
    ensures
        r@ == data_head(ir@),
{
    let gd = generics_decl_exec(ir);
    let g = gd.as_str();
    let n = ir.name.as_str();
    let decls = concat_fields(&ir.fields, &(), field_decl_exec, Ghost(field_decl()));
    let params = concat_fields(&ir.fields, &(), data_ctor_param_exec, Ghost(data_ctor_param()));
    let mut code = String::new();
    append_str(&mut code, "\nclass _");
    append_str(&mut code, n);
    append_str(&mut code, g);
    append_str(&mut code, " with _$");
    append_str(&mut code, n);
    append_str(&mut code, g);
    append_str(&mut code, " implements ");
    append_str(&mut code, n);
    append_str(&mut code, g);
    append_str(&mut code, " {\n");
    append_str(&mut code, decls.as_str());
    append_str(&mut code, "\n");
    append_str(&mut code, "  const _");
    append_str(&mut code, n);
    append_str(&mut code, "({\n");
    append_str(&mut code, params.as_str());
    append_str(&mut code, "  });\n");
    assert(code@ =~= data_head(ir@));
    code
}

fn data_factory_exec(ir: &ClassIR) -> (r: String)
    ensures
        r@ == data_factory(ir@),
{
    let n = ir.name.as_str();
    let fjp = generic_params_exec(ir);
    let lines = concat_fields(&ir.fields, &(), data_from_json_line_exec, Ghost(data_from_json_line()));
    let mut code = String::new();
    append_str(&mut code, "\n  factory _");
    append_str(&mut code, n);
    append_str(&mut code, ".fromJson(Map<String, dynamic> json");
    append_str(&mut code, fjp.as_str());
    append_str(&mut code, ") => _");
    append_str(&mut code, n);
    append_str(&mut code, "(\n");
    append_str(&mut code, lines.as_str());
    append_str(&mut code, "  );\n");
    assert(code@ =~= data_factory(ir@));
    code
}

fn data_to_json_exec(ir: &ClassIR) -> (r: String)
    ensures
        r@ == data_to_json(ir@),
{
    let entries = concat_fields(&ir.fields, &(), data_to_json_entry_exec, Ghost(data_to_json_entry()));
    let mut code = String::new();
    append_str(&mut code, "\n  @override\n  Map<String, dynamic> toJson() => {\n");
    append_str(&mut code, entries.as_str());
    append_str(&mut code, "  };\n");
    assert(code@ =~= data_to_json(ir@));
    code
}

fn data_helper_exec(ir: &ClassIR) -> (r: String)
    ensures
        r@ == data_helper(ir@),
{
    let mut code = String::new();
    if ir.has_from_json {
        let gd = generics_decl_exec(ir);
        let g = gd.as_str();
        let n = ir.name.as_str();
        let fjp = generic_params_exec(ir);
        let args = generic_args_exec(ir);
        append_str(&mut code, "\n");
        append_str(&mut code, n);
        append_str(&mut code, g);
        append_str(&mut code, " _$");
        append_str(&mut code, n);
        append_str(&mut code, "FromJson");
        append_str(&mut code, g);
        append_str(&mut code, "(Map<String, dynamic> json");
        append_str(&mut code, fjp.as_str());
        append_str(&mut code, ") =>\n  _");
        append_str(&mut code, n);
        append_str(&mut code, ".fromJson(json");
        append_str(&mut code, args.as_str());
        append_str(&mut code, ");\n");
    }
    assert(code@ =~= data_helper(ir@));
    code
}

/// Generates the Dart body for one class.
pub fn generate_dart(ir: &ClassIR) -> (r: String)
    ensures
        r@ == data_dart(ir@),
{
    let opts = VeltroOptions {
        json: true,
        field_rename: FieldRename::Unchanged,
        include_if_null: true,
        create_copy_with: true,
    };
    let mixin = mixin_section_exec(ir, &opts);
    let head = data_head_exec(ir);
    let factory = data_factory_exec(ir);
    let copy_with = copy_with_impl_exec(ir);
    let to_json = data_to_json_exec(ir);
    let tail = class_tail_exec(ir);
    let helper = data_helper_exec(ir);
    let mut code = String::new();
    append_str(&mut code, "\n");
    append_str(&mut code, mixin.as_str());
    append_str(&mut code, head.as_str());
    append_str(&mut code, factory.as_str());
    append_str(&mut code, copy_with.as_str());
    append_str(&mut code, to_json.as_str());
    append_str(&mut code, tail.as_str());
    append_str(&mut code, helper.as_str());
    assert(opts == data_options());
    assert(code@ =~= data_dart(ir@));
    code
}

impl VeltroPlugin for DataPlugin {
    open spec fn spec_annotation(&self) -> Seq<char> {
        "Data"@
    }

    open spec fn spec_generate(&self, ir: ClassSpec, options: Seq<(Seq<char>, Seq<char>)>) -> Seq<GeneratedFileSpec> {
        data_generate(ir)
    }

    fn annotation(&self) -> (r: &str) {
        "Data"
    }

    fn generate(&self, ir: &ClassIR, _options: &StringMap) -> (r: Vec<GeneratedFile>) {
        let mut out: Vec<GeneratedFile> = Vec::new();
        if !ir.has_with_mixin {
            assert(file_views(out@) =~= data_generate(ir@));
            return out;
        }
        let path = output_path_exec(ir);
        let content = generate_dart(ir);
        out.push(GeneratedFile { path, content });
        assert(file_views(out@) =~= data_generate(ir@));
        out
    }
}

} // verus!
