//! Resolution of field types against the type registry.
use vstd::prelude::*;
use crate::ir::{field_views, ClassIR, ClassSpec, FieldIR, FieldSpec, ResolvedKind};
use crate::registry::{kind_of, TypeRegistry};
use crate::text::{str_eq, views};

verus! {

/// A field after resolution: a type parameter of the class stays external and is
/// marked generic; any other type gets the kind the registry holds for its name.
pub open spec fn resolved_field(f: FieldSpec, generics: Seq<Seq<char>>, entries: Seq<(Seq<char>, ResolvedKind)>) -> FieldSpec {
    if generics.contains(f.dart_type) {
        FieldSpec { resolved_kind: ResolvedKind::External, is_generic_param: true, ..f }
    } else {
        FieldSpec { resolved_kind: kind_of(entries, f.dart_type), is_generic_param: false, ..f }
    }
}

/// A class after resolution: every field resolved, everything else unchanged.
pub open spec fn resolved_class(c: ClassSpec, entries: Seq<(Seq<char>, ResolvedKind)>) -> ClassSpec {
    ClassSpec { fields: c.fields.map_values(|f: FieldSpec| resolved_field(f, c.generics, entries)), ..c }
}

/// Resolving a class twice against the same registry gives what resolving it once
/// gave: resolution changes only the kinds of fields, which it does not read.
pub proof fn lemma_resolve_idempotent(c: ClassSpec, entries: Seq<(Seq<char>, ResolvedKind)>)
    ensures
        resolved_class(resolved_class(c, entries), entries) == resolved_class(c, entries),
{
    let once = resolved_class(c, entries);
    let twice = resolved_class(once, entries);
    assert(twice.fields =~= once.fields) by {
        assert forall|i: int| 0 <= i < once.fields.len() implies #[trigger] twice.fields[i] == once.fields[i] by {
            let f = c.fields[i];
            assert(once.fields[i] == resolved_field(f, c.generics, entries));
            assert(once.fields[i].dart_type == f.dart_type);
        }
    }
}

fn contains_string(v: &Vec<String>, s: &str) -> (r: bool)
    ensures
        r == views(v@).contains(s@),
{
    let mut i: usize = 0;
    while i < v.len()
        invariant
            i <= v.len(),
            forall|j: int| 0 <= j < i ==> views(v@)[j] != s@,
        decreases v.len() - i,
    {
        if str_eq(v[i].as_str(), s) {
            assert(views(v@)[i as int] == s@);
            return true;
        }
        i = i + 1;
    }
    false
}

/// Resolves the kinds of the field types of a class.
pub fn resolve(ir: ClassIR, registry: &TypeRegistry) -> (r: ClassIR)
    ensures
        r@ == resolved_class(ir@, registry@),
{
    let ClassIR { ir_version, name, generics, fields, annotations, source_file, has_with_mixin, has_from_json } = ir;
    let ghost given_fields = field_views(fields@);
    let ghost gv = views(generics@);
    let mut rest = fields;
    let mut out: Vec<FieldIR> = Vec::new();
    let ghost n = rest@.len();
    while rest.len() > 0
        invariant
            given_fields.len() == n,
            out@.len() + rest@.len() == n,
            field_views(rest@) == given_fields.skip(out@.len() as int),
            field_views(out@) == given_fields.take(out@.len() as int).map_values(
                |f: FieldSpec| resolved_field(f, gv, registry@),
            ),
            gv == views(generics@),
        decreases rest@.len(),
    {
        let ghost k: int = out@.len() as int;
        let ghost before = rest@;
        let mut f = rest.remove(0);
        assert(f == before[0]);
        assert(field_views(before)[0] == given_fields.skip(k as int)[0]);
        assert(f@ == given_fields[k as int]);
        if contains_string(&generics, f.dart_type.as_str()) {
            f.resolved_kind = ResolvedKind::External;
            f.is_generic_param = true;
        } else {
            f.resolved_kind = registry.get(f.dart_type.as_str());
            f.is_generic_param = false;
        }
        let ghost fv = f@;
        assert(fv == resolved_field(given_fields[k as int], gv, registry@));
        let ghost out0 = out@;
        out.push(f);
        assert forall|j: int| 0 <= j < rest@.len() implies field_views(rest@)[j] == given_fields.skip(k + 1 as int)[j] by {
            assert(rest@[j] == before[j + 1]);
            assert(field_views(before)[j + 1] == given_fields.skip(k as int)[j + 1]);
        }
        assert(field_views(rest@) =~= given_fields.skip(out@.len() as int));
        assert forall|j: int| 0 <= j < out@.len() implies field_views(out@)[j] == given_fields.take(k + 1 as int).map_values(
            |f: FieldSpec| resolved_field(f, gv, registry@),
        )[j] by {
            if j < k {
                assert(out@[j] == out0[j]);
                assert(field_views(out0)[j] == given_fields.take(k as int).map_values(
                    |f: FieldSpec| resolved_field(f, gv, registry@),
                )[j]);
            }
        }
        assert(field_views(out@) =~= given_fields.take(out@.len() as int).map_values(
            |f: FieldSpec| resolved_field(f, gv, registry@),
        ));
    }
    let r = ClassIR { ir_version, name, generics, fields: out, annotations, source_file, has_with_mixin, has_from_json };
    assert(r@.fields =~= resolved_class(ir@, registry@).fields);
    r
}

} // verus!
