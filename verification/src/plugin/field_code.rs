//! What the generated code says of each field, written out as the Dart text it
//! holds: how `operator ==` compares it, how `toJson` encodes it and `fromJson`
//! decodes it again, and how the constructors take it.
use vstd::prelude::*;
use crate::ir::{ClassSpec, FieldSpec, ResolvedKind};
use crate::plugin::common::{generics_decl, over_fields, over_generics, type_string};
use crate::plugin::data_plugin::{
    data_ctor_param, data_dart, data_factory, data_from_json_field, data_from_json_line, data_head, data_options,
    data_to_json, data_to_json_entry,
};
use crate::plugin::veltro_plugin::{
    class_head, class_tail, copy_with_impl, dart_after_head, eq_conjunct, field_name, from_json_field, from_json_line,
    copy_with_arg, copy_with_impl_param, copy_with_param, ctor_param, field_decl, generic_param, getter_line, to_json_entry, to_json_optional_entry, to_json_required_entry, to_string_entry, from_json_factory, json_extension, json_key,
    lemma_part_inside, lemma_veltro_dart_split, mixin_section, to_json_impl, veltro_dart, VeltroOptions,
};
use crate::text::{concat, contains, join, trim_end_char, lemma_contains_at, lemma_find_from_bounds, matches_at};

verus! {

// ───────────────────────────── where texts lie ─────────────────────────────

/// A text holds itself wherever it is put.
proof fn lemma_in_middle(a: Seq<char>, x: Seq<char>, b: Seq<char>)
    ensures
        contains(a + x + b, x),
{
    assert((a + x + b).subrange(a.len() as int, (a.len() + x.len()) as int) =~= x);
    lemma_contains_at(a + x + b, x, a.len() as int);
}

/// What a part of a text holds, the text holds.
proof fn lemma_contains_trans(s: Seq<char>, x: Seq<char>, p: Seq<char>)
    requires
        contains(s, x),
        contains(x, p),
    ensures
        contains(s, p),
{
    lemma_find_from_bounds(s, x, 0);
    lemma_find_from_bounds(x, p, 0);
    let i = crate::text::find(s, x)->0;
    let j = crate::text::find(x, p)->0;
    assert(s.subrange(i + j, i + j + p.len()) =~= x.subrange(j, j + p.len()));
    lemma_contains_at(s, p, i + j);
}

/// Each field's piece lies in the concatenation of the pieces.
proof fn lemma_piece(fields: Seq<FieldSpec>, piece: spec_fn(FieldSpec) -> Seq<char>, i: int)
    requires
        0 <= i < fields.len(),
    ensures
        contains(over_fields(fields, piece), piece(fields[i])),
{
    lemma_part_inside(Seq::empty(), fields.map_values(piece), Seq::empty(), i);
    assert(Seq::<char>::empty() + over_fields(fields, piece) + Seq::<char>::empty() =~= over_fields(fields, piece));
}

/// The parts of the code generated for `@Veltro`: the mixin, the class head and the
/// class tail always, and with `json` on the `fromJson` factory and `toJson`.
#[verifier::spinoff_prover]
#[verifier::rlimit(60)]
proof fn lemma_veltro_parts(c: ClassSpec, o: VeltroOptions)
    ensures
        contains(veltro_dart(c, o), mixin_section(c, o)),
        contains(veltro_dart(c, o), class_head(c)),
        contains(veltro_dart(c, o), class_tail(c)),
        o.json ==> contains(veltro_dart(c, o), from_json_factory(c, o)),
        o.json ==> contains(veltro_dart(c, o), to_json_impl(c, o)),
{
    lemma_veltro_dart_split(c, o);
    let d = veltro_dart(c, o);
    let m = mixin_section(c, o);
    let h = class_head(c);
    let fj = if o.json {
        from_json_factory(c, o)
    } else {
        Seq::empty()
    };
    let cw = if o.create_copy_with {
        copy_with_impl(c)
    } else {
        Seq::empty()
    };
    let tj = if o.json {
        to_json_impl(c, o)
    } else {
        Seq::empty()
    };
    let t = class_tail(c);
    let ext = if o.json {
        json_extension(c)
    } else {
        Seq::empty()
    };
    assert(dart_after_head(c, o) =~= fj + cw + tj + t + ext);
    let rest = fj + cw + tj + t + ext;
    assert(d =~= "\n"@ + m + (h + rest));
    lemma_in_middle("\n"@, m, h + rest);
    assert(d =~= ("\n"@ + m) + h + rest);
    lemma_in_middle("\n"@ + m, h, rest);
    assert(d =~= ("\n"@ + m + h + fj + cw + tj) + t + ext);
    lemma_in_middle("\n"@ + m + h + fj + cw + tj, t, ext);
    if o.json {
        assert(d =~= ("\n"@ + m + h) + fj + (cw + tj + t + ext));
        lemma_in_middle("\n"@ + m + h, fj, cw + tj + t + ext);
        assert(d =~= ("\n"@ + m + h + fj + cw) + tj + (t + ext));
        lemma_in_middle("\n"@ + m + h + fj + cw, tj, t + ext);
    }
}

/// The parts of the code generated for `@Data`.
#[verifier::spinoff_prover]
#[verifier::rlimit(60)]
proof fn lemma_data_parts(c: ClassSpec)
    ensures
        contains(data_dart(c), data_head(c)),
        contains(data_dart(c), data_factory(c)),
        contains(data_dart(c), data_to_json(c)),
        contains(data_dart(c), class_tail(c)),
{
    let d = data_dart(c);
    let m = "\n"@ + mixin_section(c, data_options());
    let h = data_head(c);
    let f = data_factory(c);
    let cw = copy_with_impl(c);
    let tj = data_to_json(c);
    let t = class_tail(c);
    let hp = crate::plugin::data_plugin::data_helper(c);
    assert(d =~= m + h + (f + cw + tj + t + hp));
    lemma_in_middle(m, h, f + cw + tj + t + hp);
    assert(d =~= (m + h) + f + (cw + tj + t + hp));
    lemma_in_middle(m + h, f, cw + tj + t + hp);
    assert(d =~= (m + h + f + cw) + tj + (t + hp));
    lemma_in_middle(m + h + f + cw, tj, t + hp);
    assert(d =~= (m + h + f + cw + tj) + t + hp);
    lemma_in_middle(m + h + f + cw + tj, t, hp);
}

/// Each part of a joined text lies in it.
proof fn lemma_join_part(parts: Seq<Seq<char>>, sep: Seq<char>, i: int)
    requires
        0 <= i < parts.len(),
    ensures
        contains(join(parts, sep), parts[i]),
    decreases parts.len(),
{
    if parts.len() == 1 {
        lemma_in_middle(Seq::empty(), parts[0], Seq::empty());
        assert(Seq::<char>::empty() + parts[0] + Seq::<char>::empty() =~= parts[0]);
    } else {
        let init = parts.drop_last();
        if i < parts.len() - 1 {
            lemma_join_part(init, sep, i);
            assert(init[i] == parts[i]);
            lemma_in_middle(Seq::empty(), join(init, sep), sep + parts.last());
            assert(Seq::<char>::empty() + join(init, sep) + (sep + parts.last()) =~= join(parts, sep));
            lemma_contains_trans(join(parts, sep), join(init, sep), parts[i]);
        } else {
            lemma_in_middle(join(init, sep) + sep, parts.last(), Seq::empty());
            assert(join(init, sep) + sep + parts.last() + Seq::<char>::empty() =~= join(parts, sep));
        }
    }
}

/// What the tail of the class (`operator ==`, `hashCode`, `toString`) says of each
/// field.
#[verifier::spinoff_prover]
#[verifier::rlimit(40)]
proof fn lemma_tail_fields(c: ClassSpec, i: int)
    requires
        0 <= i < c.fields.len(),
    ensures
        contains(class_tail(c), " && other."@ + c.fields[i].name + " == "@ + c.fields[i].name),
        contains(class_tail(c), c.fields[i].name + ": $"@ + c.fields[i].name),
        contains(class_tail(c), c.fields[i].name),
{
    let f = c.fields[i];
    let t = class_tail(c);
    let eqs = over_fields(c.fields, eq_conjunct());
    let l1 = "\n  @override\n  bool operator ==(Object other) =>\n    identical(this, other) ||\n    (other is _"@ + c.name
        + generics_decl(c);
    let names = join(c.fields.map_values(field_name()), ", "@);
    let entries = join(c.fields.map_values(to_string_entry()), ", "@);
    let l2 = ");\n"@ + "\n  @override\n  int get hashCode => Object.hashAll(["@;
    let l3 = "]);\n"@ + "\n  @override\n  String toString() => '"@ + c.name + "("@;
    let l4 = ")';\n}\n"@;
    assert(t =~= l1 + eqs + (l2 + names + l3 + entries + l4));
    lemma_in_middle(l1, eqs, l2 + names + l3 + entries + l4);
    lemma_piece(c.fields, eq_conjunct(), i);
    assert(eq_conjunct()(f) =~= " && other."@ + f.name + " == "@ + f.name);
    lemma_contains_trans(t, eqs, eq_conjunct()(f));
    assert(t =~= (l1 + eqs + l2 + names + l3) + entries + l4);
    lemma_in_middle(l1 + eqs + l2 + names + l3, entries, l4);
    lemma_join_part(c.fields.map_values(to_string_entry()), ", "@, i);
    assert(c.fields.map_values(to_string_entry())[i] =~= f.name + ": $"@ + f.name);
    lemma_contains_trans(t, entries, f.name + ": $"@ + f.name);
    assert(t =~= (l1 + eqs + l2) + names + (l3 + entries + l4));
    lemma_in_middle(l1 + eqs + l2, names, l3 + entries + l4);
    lemma_join_part(c.fields.map_values(field_name()), ", "@, i);
    lemma_contains_trans(t, names, f.name);
}

/// `operator ==` compares every field of the other object with the same field of
/// this one (`other.<name> == <name>`), so two objects differing in a field are not
/// equal; `toString` shows every field as `<name>: $<name>`; `hashCode` hashes every
/// field. This holds of the code generated for `@Veltro`, whatever the options, and
/// of that generated for `@Data`.
pub proof fn lemma_value_equality_fields(c: ClassSpec, o: VeltroOptions, i: int)
    requires
        0 <= i < c.fields.len(),
    ensures
        contains(veltro_dart(c, o), " && other."@ + c.fields[i].name + " == "@ + c.fields[i].name),
        contains(veltro_dart(c, o), c.fields[i].name + ": $"@ + c.fields[i].name),
        contains(data_dart(c), " && other."@ + c.fields[i].name + " == "@ + c.fields[i].name),
        contains(data_dart(c), c.fields[i].name + ": $"@ + c.fields[i].name),
{
    let f = c.fields[i];
    lemma_tail_fields(c, i);
    lemma_veltro_parts(c, o);
    lemma_data_parts(c);
    lemma_contains_trans(veltro_dart(c, o), class_tail(c), " && other."@ + f.name + " == "@ + f.name);
    lemma_contains_trans(veltro_dart(c, o), class_tail(c), f.name + ": $"@ + f.name);
    lemma_contains_trans(data_dart(c), class_tail(c), " && other."@ + f.name + " == "@ + f.name);
    lemma_contains_trans(data_dart(c), class_tail(c), f.name + ": $"@ + f.name);
}

/// Where the JSON code of a field lies in the code generated for `@Veltro` with
/// `json` on.
#[verifier::spinoff_prover]
#[verifier::rlimit(40)]
proof fn lemma_json_pieces(c: ClassSpec, o: VeltroOptions, i: int)
    requires
        0 <= i < c.fields.len(),
        o.json,
    ensures
        contains(veltro_dart(c, o), from_json_field(c.fields[i], o.field_rename)),
        o.include_if_null ==> contains(veltro_dart(c, o), to_json_entry(o.field_rename)(c.fields[i])),
        !o.include_if_null ==> contains(veltro_dart(c, o), to_json_required_entry(o.field_rename)(c.fields[i])),
        !o.include_if_null ==> contains(veltro_dart(c, o), to_json_optional_entry(o.field_rename)(c.fields[i])),
{
    let f = c.fields[i];
    let r = o.field_rename;
    let d = veltro_dart(c, o);
    lemma_veltro_parts(c, o);
    let fj = from_json_factory(c, o);
    let lines = over_fields(c.fields, from_json_line(r));
    let pre = "\n  factory _"@ + c.name + ".fromJson(Map<String, dynamic> json"@ + over_generics(c.generics, generic_param())
        + ") => _"@ + c.name + "(\n"@;
    assert(fj =~= pre + lines + "  );\n"@);
    lemma_in_middle(pre, lines, "  );\n"@);
    lemma_piece(c.fields, from_json_line(r), i);
    lemma_contains_trans(fj, lines, from_json_line(r)(f));
    lemma_in_middle("    "@, from_json_field(f, r), ",\n"@);
    assert(from_json_line(r)(f) =~= "    "@ + from_json_field(f, r) + ",\n"@);
    lemma_contains_trans(fj, from_json_line(r)(f), from_json_field(f, r));
    lemma_contains_trans(d, fj, from_json_field(f, r));
    let tj = to_json_impl(c, o);
    if o.include_if_null {
        let es = over_fields(c.fields, to_json_entry(r));
        assert(tj =~= "\n  @override\n  Map<String, dynamic> toJson() => {\n"@ + es + "  };\n"@);
        lemma_in_middle("\n  @override\n  Map<String, dynamic> toJson() => {\n"@, es, "  };\n"@);
        lemma_piece(c.fields, to_json_entry(r), i);
        lemma_contains_trans(tj, es, to_json_entry(r)(f));
        lemma_contains_trans(d, tj, to_json_entry(r)(f));
    } else {
        let l = "\n  @override\n  Map<String, dynamic> toJson() {\n    final map = <String, dynamic>{\n"@;
        let req = over_fields(c.fields, to_json_required_entry(r));
        let opt = over_fields(c.fields, to_json_optional_entry(r));
        assert(tj =~= l + req + ("    };\n"@ + opt + "    return map;\n  }\n"@));
        lemma_in_middle(l, req, "    };\n"@ + opt + "    return map;\n  }\n"@);
        lemma_piece(c.fields, to_json_required_entry(r), i);
        lemma_contains_trans(tj, req, to_json_required_entry(r)(f));
        lemma_contains_trans(d, tj, to_json_required_entry(r)(f));
        assert(tj =~= (l + req + "    };\n"@) + opt + "    return map;\n  }\n"@);
        lemma_in_middle(l + req + "    };\n"@, opt, "    return map;\n  }\n"@);
        lemma_piece(c.fields, to_json_optional_entry(r), i);
        lemma_contains_trans(tj, opt, to_json_optional_entry(r)(f));
        lemma_contains_trans(d, tj, to_json_optional_entry(r)(f));
    }
}

/// Where the JSON code of a field lies in the code generated for `@Data`.
#[verifier::spinoff_prover]
#[verifier::rlimit(40)]
proof fn lemma_data_json_pieces(c: ClassSpec, i: int)
    requires
        0 <= i < c.fields.len(),
    ensures
        contains(data_dart(c), data_from_json_field(c.fields[i])),
        contains(data_dart(c), data_to_json_entry()(c.fields[i])),
{
    let f = c.fields[i];
    let d = data_dart(c);
    lemma_data_parts(c);
    let fj = data_factory(c);
    let lines = over_fields(c.fields, data_from_json_line());
    let pre = "\n  factory _"@ + c.name + ".fromJson(Map<String, dynamic> json"@ + over_generics(c.generics, generic_param())
        + ") => _"@ + c.name + "(\n"@;
    assert(fj =~= pre + lines + "  );\n"@);
    lemma_in_middle(pre, lines, "  );\n"@);
    lemma_piece(c.fields, data_from_json_line(), i);
    lemma_contains_trans(fj, lines, data_from_json_line()(f));
    lemma_in_middle("    "@, data_from_json_field(f), ",\n"@);
    assert(data_from_json_line()(f) =~= "    "@ + data_from_json_field(f) + ",\n"@);
    lemma_contains_trans(fj, data_from_json_line()(f), data_from_json_field(f));
    lemma_contains_trans(d, fj, data_from_json_field(f));
    let tj = data_to_json(c);
    let es = over_fields(c.fields, data_to_json_entry());
    assert(tj =~= "\n  @override\n  Map<String, dynamic> toJson() => {\n"@ + es + "  };\n"@);
    lemma_in_middle("\n  @override\n  Map<String, dynamic> toJson() => {\n"@, es, "  };\n"@);
    lemma_piece(c.fields, data_to_json_entry(), i);
    lemma_contains_trans(tj, es, data_to_json_entry()(f));
    lemma_contains_trans(d, tj, data_to_json_entry()(f));
}

/// An enum field goes to JSON as its `name` and comes back through `values.byName`
/// from the same key: `toJson` writes `<name>.name` (`<name>?.name` when the field
/// is nullable) under the field's JSON key, as a map entry or, when null values are
/// left out, as a guarded assignment; `fromJson` reads that key with
/// `<Type>.values.byName(json['<key>'] as String)`, giving `null` for a nullable
/// field whose key is null. The `@Data` code writes `<name>.name` and reads it back
/// with `values.byName` under the field's name.
#[verifier::spinoff_prover]
#[verifier::rlimit(40)]
pub proof fn lemma_enum_json_round_trip(c: ClassSpec, o: VeltroOptions, i: int)
    requires
        0 <= i < c.fields.len(),
        c.fields[i].resolved_kind == ResolvedKind::Enum,
        o.json,
    ensures
        o.include_if_null && c.fields[i].is_nullable ==> contains(
            veltro_dart(c, o),
            "    '"@ + json_key(c.fields[i].name, o.field_rename) + "': "@ + c.fields[i].name + "?.name"@ + ",\n"@,
        ),
        o.include_if_null && !c.fields[i].is_nullable ==> contains(
            veltro_dart(c, o),
            "    '"@ + json_key(c.fields[i].name, o.field_rename) + "': "@ + c.fields[i].name + ".name"@ + ",\n"@,
        ),
        !o.include_if_null && c.fields[i].is_nullable ==> contains(
            veltro_dart(c, o),
            "    if ("@ + c.fields[i].name + " != null) map['"@ + json_key(c.fields[i].name, o.field_rename) + "'] = "@
                + c.fields[i].name + "?.name"@ + ";\n"@,
        ),
        !o.include_if_null && !c.fields[i].is_nullable ==> contains(
            veltro_dart(c, o),
            "      '"@ + json_key(c.fields[i].name, o.field_rename) + "': "@ + c.fields[i].name + ".name"@ + ",\n"@,
        ),
        !c.fields[i].is_generic_param && c.fields[i].is_nullable ==> contains(
            veltro_dart(c, o),
            c.fields[i].name + ": json['"@ + json_key(c.fields[i].name, o.field_rename) + "'] != null ? "@
                + c.fields[i].dart_type + ".values.byName(json['"@ + json_key(c.fields[i].name, o.field_rename)
                + "'] as String) : null"@,
        ),
        !c.fields[i].is_generic_param && !c.fields[i].is_nullable ==> contains(
            veltro_dart(c, o),
            c.fields[i].name + ": "@ + c.fields[i].dart_type + ".values.byName(json['"@ + json_key(
                c.fields[i].name,
                o.field_rename,
            ) + "'] as String)"@,
        ),
        contains(
            data_dart(c),
            "    '"@ + c.fields[i].name + "': "@ + c.fields[i].name + ".name"@ + ",\n"@,
        ),
        !c.fields[i].is_generic_param ==> contains(
            data_dart(c),
            c.fields[i].name + ": "@ + c.fields[i].dart_type + ".values.byName(json['"@ + c.fields[i].name
                + "'] as String)"@,
        ),
{
    let f = c.fields[i];
    let r = o.field_rename;
    let k = json_key(f.name, r);
    let n = f.name;
    lemma_json_pieces(c, o, i);
    lemma_data_json_pieces(c, i);
    if o.include_if_null {
        if f.is_nullable {
            assert(to_json_entry(r)(f) =~= "    '"@ + k + "': "@ + n + "?.name"@ + ",\n"@);
        } else {
            assert(to_json_entry(r)(f) =~= "    '"@ + k + "': "@ + n + ".name"@ + ",\n"@);
        }
    } else {
        if f.is_nullable {
            assert(to_json_optional_entry(r)(f) =~= "    if ("@ + n + " != null) map['"@ + k + "'] = "@ + n + "?.name"@ + ";\n"@);
        } else {
            assert(to_json_required_entry(r)(f) =~= "      '"@ + k + "': "@ + n + ".name"@ + ",\n"@);
        }
    }
    if !f.is_generic_param {
        if f.is_nullable {
            assert(from_json_field(f, r) =~= n + ": json['"@ + k + "'] != null ? "@ + f.dart_type
                + ".values.byName(json['"@ + k + "'] as String) : null"@);
        } else {
            assert(from_json_field(f, r) =~= n + ": "@ + f.dart_type + ".values.byName(json['"@ + k + "'] as String)"@);
        }
        assert(data_from_json_field(f) =~= n + ": "@ + f.dart_type + ".values.byName(json['"@ + n + "'] as String)"@);
    }
    assert(data_to_json_entry()(f) =~= "    '"@ + n + "': "@ + n + ".name"@ + ",\n"@);
}

/// A field of an annotated class type goes to JSON through its own `toJson` and comes
/// back through the type's `fromJson` from the same key: `toJson` writes
/// `<name>.toJson()` (`<name>?.toJson()` when the field is nullable) under the
/// field's JSON key; `fromJson` reads that key with
/// `<Type>.fromJson(json['<key>'] as Map<String, dynamic>)`, and for a nullable field
/// only when the key is not null (`json['<key>'] != null ? ... : null`), so a present
/// value is decoded and a missing one gives `null`. The `@Data` code writes
/// `<name>.toJson()` and reads it back with `<Type>.fromJson` under the field's name.
#[verifier::spinoff_prover]
#[verifier::rlimit(80)]
pub proof fn lemma_class_json_round_trip(c: ClassSpec, o: VeltroOptions, i: int)
    requires
        0 <= i < c.fields.len(),
        c.fields[i].resolved_kind == ResolvedKind::AnnotatedClass,
        o.json,
    ensures
        o.include_if_null && c.fields[i].is_nullable ==> contains(
            veltro_dart(c, o),
            "    '"@ + json_key(c.fields[i].name, o.field_rename) + "': "@ + c.fields[i].name + "?.toJson()"@ + ",\n"@,
        ),
        o.include_if_null && !c.fields[i].is_nullable ==> contains(
            veltro_dart(c, o),
            "    '"@ + json_key(c.fields[i].name, o.field_rename) + "': "@ + c.fields[i].name + ".toJson()"@ + ",\n"@,
        ),
        !o.include_if_null && c.fields[i].is_nullable ==> contains(
            veltro_dart(c, o),
            "    if ("@ + c.fields[i].name + " != null) map['"@ + json_key(c.fields[i].name, o.field_rename) + "'] = "@
                + c.fields[i].name + "?.toJson()"@ + ";\n"@,
        ),
        !o.include_if_null && !c.fields[i].is_nullable ==> contains(
            veltro_dart(c, o),
            "      '"@ + json_key(c.fields[i].name, o.field_rename) + "': "@ + c.fields[i].name + ".toJson()"@ + ",\n"@,
        ),
        !c.fields[i].is_generic_param && c.fields[i].is_nullable ==> contains(
            veltro_dart(c, o),
            c.fields[i].name + ": json['"@ + json_key(c.fields[i].name, o.field_rename) + "'] != null ? "@
                + c.fields[i].dart_type + ".fromJson(json['"@ + json_key(c.fields[i].name, o.field_rename)
                + "'] as Map<String, dynamic>) : null"@,
        ),
        !c.fields[i].is_generic_param && !c.fields[i].is_nullable ==> contains(
            veltro_dart(c, o),
            c.fields[i].name + ": "@ + c.fields[i].dart_type + ".fromJson(json['"@ + json_key(
                c.fields[i].name,
                o.field_rename,
            ) + "'] as Map<String, dynamic>)"@,
        ),
        contains(
            data_dart(c),
            "    '"@ + c.fields[i].name + "': "@ + c.fields[i].name + ".toJson()"@ + ",\n"@,
        ),
        !c.fields[i].is_generic_param ==> contains(
            data_dart(c),
            c.fields[i].name + ": "@ + c.fields[i].dart_type + ".fromJson(json['"@ + c.fields[i].name
                + "'] as Map<String, dynamic>)"@,
        ),
{
    let f = c.fields[i];
    let r = o.field_rename;
    let k = json_key(f.name, r);
    let n = f.name;
    lemma_json_pieces(c, o, i);
    lemma_data_json_pieces(c, i);
    if o.include_if_null {
        if f.is_nullable {
            assert(to_json_entry(r)(f) =~= "    '"@ + k + "': "@ + n + "?.toJson()"@ + ",\n"@) by {
                assert(crate::plugin::veltro_plugin::json_value_nullable(f) == n + "?.toJson()"@);
            }
        } else {
            assert(to_json_entry(r)(f) =~= "    '"@ + k + "': "@ + n + ".toJson()"@ + ",\n"@) by {
                assert(crate::plugin::veltro_plugin::json_value(f) == n + ".toJson()"@);
            }
        }
    } else {
        if f.is_nullable {
            assert(to_json_optional_entry(r)(f) =~= "    if ("@ + n + " != null) map['"@ + k + "'] = "@ + n + "?.toJson()"@
                + ";\n"@) by {
                assert(crate::plugin::veltro_plugin::json_value_nullable(f) == n + "?.toJson()"@);
            }
        } else {
            assert(to_json_required_entry(r)(f) =~= "      '"@ + k + "': "@ + n + ".toJson()"@ + ",\n"@) by {
                assert(crate::plugin::veltro_plugin::json_value(f) == n + ".toJson()"@);
            }
        }
    }
    if !f.is_generic_param {
        if f.is_nullable {
            assert(from_json_field(f, r) =~= n + ": json['"@ + k + "'] != null ? "@ + f.dart_type + ".fromJson(json['"@ + k
                + "'] as Map<String, dynamic>) : null"@);
        } else {
            assert(from_json_field(f, r) =~= n + ": "@ + f.dart_type + ".fromJson(json['"@ + k
                + "'] as Map<String, dynamic>)"@);
        }
        assert(data_from_json_field(f) =~= n + ": "@ + f.dart_type + ".fromJson(json['"@ + n
            + "'] as Map<String, dynamic>)"@);
    }
    assert(data_to_json_entry()(f) =~= "    '"@ + n + "': "@ + n + ".toJson()"@ + ",\n"@) by {
        assert(crate::plugin::veltro_plugin::json_value(f) == n + ".toJson()"@);
    }
}

/// Where a field's declaration and constructor parameter lie in a class head made of
/// the given pieces.
#[verifier::spinoff_prover]
#[verifier::rlimit(40)]
proof fn lemma_head_pieces(c: ClassSpec, i: int, ctor: spec_fn(FieldSpec) -> Seq<char>, head: Seq<char>)
    requires
        0 <= i < c.fields.len(),
        head == "\nclass _"@ + c.name + generics_decl(c) + " with _$"@ + c.name + generics_decl(c) + " implements "@
            + c.name + generics_decl(c) + " {\n"@ + over_fields(c.fields, field_decl()) + "\n"@ + "  const _"@ + c.name
            + "({\n"@ + over_fields(c.fields, ctor) + "  });\n"@,
    ensures
        contains(head, field_decl()(c.fields[i])),
        contains(head, ctor(c.fields[i])),
{
    let gd = generics_decl(c);
    let a = "\nclass _"@ + c.name + gd + " with _$"@ + c.name + gd + " implements "@ + c.name + gd + " {\n"@;
    let d = over_fields(c.fields, field_decl());
    let b = "\n"@ + "  const _"@ + c.name + "({\n"@;
    let p = over_fields(c.fields, ctor);
    assert(head =~= a + d + (b + p + "  });\n"@));
    lemma_in_middle(a, d, b + p + "  });\n"@);
    lemma_piece(c.fields, field_decl(), i);
    lemma_contains_trans(head, d, field_decl()(c.fields[i]));
    assert(head =~= (a + d + b) + p + "  });\n"@);
    lemma_in_middle(a + d + b, p, "  });\n"@);
    lemma_piece(c.fields, ctor, i);
    lemma_contains_trans(head, p, ctor(c.fields[i]));
}

/// The constructor takes every field as a named parameter that sets it: a field with
/// a default value as `this.<name> = <default>,`, a required field as
/// `required this.<name>,`, any other as `this.<name>,` (in the `@Data` code, which
/// has no defaults, `required` exactly on the required fields); and the class
/// declares every field as `@override final <Type> <name>;`.
#[verifier::spinoff_prover]
#[verifier::rlimit(40)]
pub proof fn lemma_constructor_fields(c: ClassSpec, o: VeltroOptions, i: int)
    requires
        0 <= i < c.fields.len(),
    ensures
        c.fields[i].default_value matches Some(d) ==> contains(
            veltro_dart(c, o),
            "    this."@ + c.fields[i].name + " = "@ + d + ",\n"@,
        ),
        c.fields[i].default_value is None && c.fields[i].is_required ==> contains(
            veltro_dart(c, o),
            "    required this."@ + c.fields[i].name + ",\n"@,
        ),
        c.fields[i].default_value is None && !c.fields[i].is_required ==> contains(
            veltro_dart(c, o),
            "    this."@ + c.fields[i].name + ",\n"@,
        ),
        c.fields[i].is_required ==> contains(data_dart(c), "    required this."@ + c.fields[i].name + ",\n"@),
        !c.fields[i].is_required ==> contains(data_dart(c), "    this."@ + c.fields[i].name + ",\n"@),
        contains(veltro_dart(c, o), "  @override final "@ + type_string(c.fields[i]) + " "@ + c.fields[i].name + ";\n"@),
        contains(data_dart(c), "  @override final "@ + type_string(c.fields[i]) + " "@ + c.fields[i].name + ";\n"@),
{
    let f = c.fields[i];
    let n = f.name;
    lemma_veltro_parts(c, o);
    lemma_data_parts(c);
    lemma_head_pieces(c, i, ctor_param(), class_head(c));
    lemma_head_pieces(c, i, data_ctor_param(), data_head(c));
    lemma_contains_trans(veltro_dart(c, o), class_head(c), ctor_param()(f));
    lemma_contains_trans(veltro_dart(c, o), class_head(c), field_decl()(f));
    lemma_contains_trans(data_dart(c), data_head(c), data_ctor_param()(f));
    lemma_contains_trans(data_dart(c), data_head(c), field_decl()(f));
    assert(field_decl()(f) =~= "  @override final "@ + type_string(f) + " "@ + n + ";\n"@);
    match f.default_value {
        Some(d) => {
            assert(ctor_param()(f) =~= "    this."@ + n + " = "@ + d + ",\n"@);
        },
        None => {
            if f.is_required {
                assert(ctor_param()(f) =~= "    required this."@ + n + ",\n"@);
            } else {
                assert(ctor_param()(f) =~= "    this."@ + n + ",\n"@);
            }
        },
    }
    if f.is_required {
        assert(data_ctor_param()(f) =~= "    required this."@ + n + ",\n"@);
    } else {
        assert(data_ctor_param()(f) =~= "    this."@ + n + ",\n"@);
    }
}

/// The mixin declares a getter `<Type> get <name>;` for every field, and the
/// implemented `copyWith` (generated when the option is on, always for `@Data`)
/// passes every field as `<name>: <name> ?? this.<name>`: the new value when one is
/// given, the current one otherwise.
#[verifier::spinoff_prover]
#[verifier::rlimit(40)]
pub proof fn lemma_getters_and_copy_with(c: ClassSpec, o: VeltroOptions, i: int)
    requires
        0 <= i < c.fields.len(),
    ensures
        contains(veltro_dart(c, o), "  "@ + type_string(c.fields[i]) + " get "@ + c.fields[i].name + ";\n"@),
        o.create_copy_with ==> contains(
            veltro_dart(c, o),
            "    "@ + c.fields[i].name + ": "@ + c.fields[i].name + " ?? this."@ + c.fields[i].name + ",\n"@,
        ),
        contains(
            data_dart(c),
            "    "@ + c.fields[i].name + ": "@ + c.fields[i].name + " ?? this."@ + c.fields[i].name + ",\n"@,
        ),
{
    let f = c.fields[i];
    let n = f.name;
    crate::plugin::veltro_plugin::lemma_field_lines(c, o, i);
    assert(getter_line()(f) =~= "  "@ + type_string(f) + " get "@ + n + ";\n"@);
    let cwi = copy_with_impl(c);
    let args = over_fields(c.fields, copy_with_arg());
    let a = "\n  @override\n  "@ + c.name + generics_decl(c) + " copyWith({\n"@ + over_fields(
        c.fields,
        crate::plugin::veltro_plugin::copy_with_impl_param(),
    ) + "  }) => _"@ + c.name + "(\n"@;
    assert(cwi =~= a + args + "  );\n"@);
    lemma_in_middle(a, args, "  );\n"@);
    lemma_piece(c.fields, copy_with_arg(), i);
    lemma_contains_trans(cwi, args, copy_with_arg()(f));
    assert(copy_with_arg()(f) =~= "    "@ + n + ": "@ + n + " ?? this."@ + n + ",\n"@);
    lemma_copy_with_in(c, o);
    if o.create_copy_with {
        lemma_contains_trans(veltro_dart(c, o), cwi, copy_with_arg()(f));
    }
    lemma_contains_trans(data_dart(c), cwi, copy_with_arg()(f));
}

/// The implemented `copyWith` lies in the generated code when the option is on, and
/// always in that of `@Data`.
#[verifier::spinoff_prover]
#[verifier::rlimit(60)]
proof fn lemma_copy_with_in(c: ClassSpec, o: VeltroOptions)
    ensures
        o.create_copy_with ==> contains(veltro_dart(c, o), copy_with_impl(c)),
        contains(data_dart(c), copy_with_impl(c)),
{
    lemma_veltro_dart_split(c, o);
    let m = mixin_section(c, o);
    let h = class_head(c);
    let fj = if o.json {
        from_json_factory(c, o)
    } else {
        Seq::empty()
    };
    let cw = copy_with_impl(c);
    let tj = if o.json {
        to_json_impl(c, o)
    } else {
        Seq::empty()
    };
    let ext = if o.json {
        json_extension(c)
    } else {
        Seq::empty()
    };
    if o.create_copy_with {
        assert(dart_after_head(c, o) =~= fj + cw + tj + class_tail(c) + ext);
        assert(veltro_dart(c, o) =~= ("\n"@ + m + h + fj) + cw + (tj + class_tail(c) + ext));
        lemma_in_middle("\n"@ + m + h + fj, cw, tj + class_tail(c) + ext);
    }
    let dm = "\n"@ + mixin_section(c, data_options()) + data_head(c) + data_factory(c);
    let rest = data_to_json(c) + class_tail(c) + crate::plugin::data_plugin::data_helper(c);
    assert(data_dart(c) =~= dm + cw + rest);
    lemma_in_middle(dm, cw, rest);
}

/// `operator ==`, `hashCode` and `toString` as wholes: `operator ==` holds for an
/// object of the same class whose every field equals this one's, in field order;
/// `hashCode` hashes the list of all fields; `toString` shows the class name and
/// every field as `<name>: $<name>`, separated by `, `. This holds of the code
/// generated for `@Veltro`, whatever the options, and of that for `@Data`.
#[verifier::spinoff_prover]
#[verifier::rlimit(60)]
pub proof fn lemma_value_members(c: ClassSpec, o: VeltroOptions)
    ensures
        contains(
            veltro_dart(c, o),
            "    (other is _"@ + c.name + generics_decl(c) + concat(
                c.fields.map_values(|f: FieldSpec| " && other."@ + f.name + " == "@ + f.name),
            ) + ");\n"@,
        ),
        contains(
            veltro_dart(c, o),
            "\n  @override\n  int get hashCode => Object.hashAll(["@ + join(
                c.fields.map_values(|f: FieldSpec| f.name),
                ", "@,
            ) + "]);\n"@,
        ),
        contains(
            veltro_dart(c, o),
            "\n  @override\n  String toString() => '"@ + c.name + "("@ + join(
                c.fields.map_values(|f: FieldSpec| f.name + ": $"@ + f.name),
                ", "@,
            ) + ")';\n}\n"@,
        ),
        contains(
            data_dart(c),
            "    (other is _"@ + c.name + generics_decl(c) + concat(
                c.fields.map_values(|f: FieldSpec| " && other."@ + f.name + " == "@ + f.name),
            ) + ");\n"@,
        ),
        contains(
            data_dart(c),
            "\n  @override\n  int get hashCode => Object.hashAll(["@ + join(
                c.fields.map_values(|f: FieldSpec| f.name),
                ", "@,
            ) + "]);\n"@,
        ),
        contains(
            data_dart(c),
            "\n  @override\n  String toString() => '"@ + c.name + "("@ + join(
                c.fields.map_values(|f: FieldSpec| f.name + ": $"@ + f.name),
                ", "@,
            ) + ")';\n}\n"@,
        ),
{
    let t = class_tail(c);
    let gd = generics_decl(c);
    let eqs = c.fields.map_values(|f: FieldSpec| " && other."@ + f.name + " == "@ + f.name);
    assert(eqs =~= c.fields.map_values(eq_conjunct()));
    let names = c.fields.map_values(|f: FieldSpec| f.name);
    assert(names =~= c.fields.map_values(field_name()));
    let entries = c.fields.map_values(|f: FieldSpec| f.name + ": $"@ + f.name);
    assert(entries =~= c.fields.map_values(to_string_entry()));
    reveal_strlit("\n  @override\n  bool operator ==(Object other) =>\n    identical(this, other) ||\n    (other is _");
    reveal_strlit("\n  @override\n  bool operator ==(Object other) =>\n    identical(this, other) ||\n");
    reveal_strlit("    (other is _");
    let l0 = "\n  @override\n  bool operator ==(Object other) =>\n    identical(this, other) ||\n"@;
    assert("\n  @override\n  bool operator ==(Object other) =>\n    identical(this, other) ||\n    (other is _"@ =~= l0
        + "    (other is _"@);
    let eqx = "    (other is _"@ + c.name + gd + concat(eqs) + ");\n"@;
    let hx = "\n  @override\n  int get hashCode => Object.hashAll(["@ + join(names, ", "@) + "]);\n"@;
    let sx = "\n  @override\n  String toString() => '"@ + c.name + "("@ + join(entries, ", "@) + ")';\n}\n"@;
    assert(t =~= l0 + eqx + (hx + sx));
    lemma_in_middle(l0, eqx, hx + sx);
    assert(t =~= (l0 + eqx) + hx + sx);
    lemma_in_middle(l0 + eqx, hx, sx);
    assert(t =~= (l0 + eqx + hx) + sx + Seq::<char>::empty());
    lemma_in_middle(l0 + eqx + hx, sx, Seq::empty());
    lemma_veltro_parts(c, o);
    lemma_data_parts(c);
    lemma_contains_trans(veltro_dart(c, o), t, eqx);
    lemma_contains_trans(veltro_dart(c, o), t, hx);
    lemma_contains_trans(veltro_dart(c, o), t, sx);
    lemma_contains_trans(data_dart(c), t, eqx);
    lemma_contains_trans(data_dart(c), t, hx);
    lemma_contains_trans(data_dart(c), t, sx);
}

/// A field of any other type goes to JSON as it is and comes back by a cast from the
/// same key: `toJson` writes `<name>` under the field's JSON key (guarded by
/// `!= null` when null values are left out and the field is nullable); `fromJson`
/// reads `json['<key>'] as <Type>`, with the type's `?` for a nullable field.
#[verifier::spinoff_prover]
#[verifier::rlimit(60)]
pub proof fn lemma_plain_json_round_trip(c: ClassSpec, o: VeltroOptions, i: int)
    requires
        0 <= i < c.fields.len(),
        c.fields[i].resolved_kind == ResolvedKind::External,
        o.json,
    ensures
        o.include_if_null ==> contains(
            veltro_dart(c, o),
            "    '"@ + json_key(c.fields[i].name, o.field_rename) + "': "@ + c.fields[i].name + ",\n"@,
        ),
        !o.include_if_null && c.fields[i].is_nullable ==> contains(
            veltro_dart(c, o),
            "    if ("@ + c.fields[i].name + " != null) map['"@ + json_key(c.fields[i].name, o.field_rename) + "'] = "@
                + c.fields[i].name + ";\n"@,
        ),
        !o.include_if_null && !c.fields[i].is_nullable ==> contains(
            veltro_dart(c, o),
            "      '"@ + json_key(c.fields[i].name, o.field_rename) + "': "@ + c.fields[i].name + ",\n"@,
        ),
        !c.fields[i].is_generic_param ==> contains(
            veltro_dart(c, o),
            c.fields[i].name + ": json['"@ + json_key(c.fields[i].name, o.field_rename) + "'] as "@ + type_string(
                c.fields[i],
            ),
        ),
        contains(data_dart(c), "    '"@ + c.fields[i].name + "': "@ + c.fields[i].name + ",\n"@),
        !c.fields[i].is_generic_param ==> contains(
            data_dart(c),
            c.fields[i].name + ": json['"@ + c.fields[i].name + "'] as "@ + type_string(c.fields[i]),
        ),
{
    let f = c.fields[i];
    let r = o.field_rename;
    let k = json_key(f.name, r);
    let n = f.name;
    lemma_json_pieces(c, o, i);
    lemma_data_json_pieces(c, i);
    if o.include_if_null {
        assert(to_json_entry(r)(f) =~= "    '"@ + k + "': "@ + n + ",\n"@);
    } else if f.is_nullable {
        assert(to_json_optional_entry(r)(f) =~= "    if ("@ + n + " != null) map['"@ + k + "'] = "@ + n + ";\n"@);
    } else {
        assert(to_json_required_entry(r)(f) =~= "      '"@ + k + "': "@ + n + ",\n"@);
    }
    if !f.is_generic_param {
        assert(from_json_field(f, r) =~= n + ": json['"@ + k + "'] as "@ + type_string(f));
        assert(data_from_json_field(f) =~= n + ": json['"@ + n + "'] as "@ + type_string(f));
    }
    assert(data_to_json_entry()(f) =~= "    '"@ + n + "': "@ + n + ",\n"@);
}

/// A field whose type is a type parameter `T` is read back with the `fromJsonT`
/// function the factory takes: `<name>: fromJsonT(json['<key>'])`.
#[verifier::spinoff_prover]
#[verifier::rlimit(40)]
pub proof fn lemma_type_parameter_field(c: ClassSpec, o: VeltroOptions, i: int)
    requires
        0 <= i < c.fields.len(),
        c.fields[i].is_generic_param,
        o.json,
    ensures
        contains(
            veltro_dart(c, o),
            c.fields[i].name + ": fromJson"@ + c.fields[i].dart_type + "(json['"@ + json_key(
                c.fields[i].name,
                o.field_rename,
            ) + "'])"@,
        ),
        contains(data_dart(c), c.fields[i].name + ": fromJson"@ + c.fields[i].dart_type + "(json['"@ + c.fields[i].name + "'])"@),
{
    let f = c.fields[i];
    lemma_json_pieces(c, o, i);
    lemma_data_json_pieces(c, i);
}

/// With `copyWith` on, both the declared and the implemented `copyWith` take every
/// field as an optional parameter of the field's type made nullable
/// (`<Type>? <name>`, a trailing `?` of the type not doubled).
#[verifier::spinoff_prover]
#[verifier::rlimit(60)]
pub proof fn lemma_copy_with_params(c: ClassSpec, o: VeltroOptions, i: int)
    requires
        0 <= i < c.fields.len(),
        o.create_copy_with,
    ensures
        contains(veltro_dart(c, o), trim_end_char(type_string(c.fields[i]), '?') + "? "@ + c.fields[i].name + ", "@),
        contains(
            veltro_dart(c, o),
            "    "@ + trim_end_char(type_string(c.fields[i]), '?') + "? "@ + c.fields[i].name + ",\n"@,
        ),
{
    let f = c.fields[i];
    let gd = generics_decl(c);
    let m = mixin_section(c, o);
    let ps = over_fields(c.fields, copy_with_param());
    let a = "\nmixin _$"@ + c.name + gd + " {\n"@ + over_fields(c.fields, getter_line()) + "\n"@ + "  "@ + c.name + gd
        + " copyWith({"@;
    let b = "});\n"@ + (if o.json {
        "  Map<String, dynamic> toJson();\n"@
    } else {
        Seq::empty()
    }) + "\n  @override\n  String toString();\n}\n"@;
    assert(m =~= a + ps + b);
    lemma_in_middle(a, ps, b);
    lemma_piece(c.fields, copy_with_param(), i);
    lemma_contains_trans(m, ps, copy_with_param()(f));
    lemma_veltro_parts(c, o);
    lemma_contains_trans(veltro_dart(c, o), m, copy_with_param()(f));
    let cwi = copy_with_impl(c);
    let ips = over_fields(c.fields, copy_with_impl_param());
    let a2 = "\n  @override\n  "@ + c.name + gd + " copyWith({\n"@;
    let b2 = "  }) => _"@ + c.name + "(\n"@ + over_fields(c.fields, copy_with_arg()) + "  );\n"@;
    assert(cwi =~= a2 + ips + b2);
    lemma_in_middle(a2, ips, b2);
    lemma_piece(c.fields, copy_with_impl_param(), i);
    lemma_contains_trans(cwi, ips, copy_with_impl_param()(f));
    lemma_copy_with_in(c, o);
    lemma_contains_trans(veltro_dart(c, o), cwi, copy_with_impl_param()(f));
}

}
