//! Pieces of generated Dart text shared by the plugins.
use vstd::prelude::*;
use crate::ir::{ClassIR, ClassSpec, FieldIR, FieldSpec, field_views};
use crate::text::{append_str, concat, join, join_strings, lemma_concat_take_step, views};

verus! {

/// Concatenation of `piece(f)` over the fields, in order.
pub open spec fn over_fields(fields: Seq<FieldSpec>, piece: spec_fn(FieldSpec) -> Seq<char>) -> Seq<char> {
    concat(fields.map_values(piece))
}

/// Concatenation of `piece(g)` over the generic parameters, in order.
pub open spec fn over_generics(generics: Seq<Seq<char>>, piece: spec_fn(Seq<char>) -> Seq<char>) -> Seq<char> {
    concat(generics.map_values(piece))
}

/// Runs `f` on every field and concatenates the results.
pub fn concat_fields<C, F: Fn(&FieldIR, &C) -> String>(
    fields: &Vec<FieldIR>,
    ctx: &C,
    f: F,
    Ghost(piece): Ghost<spec_fn(FieldSpec) -> Seq<char>>,
) -> (r: String)
    requires
        forall|x: &FieldIR| #[trigger] f.requires((x, ctx)),
        forall|x: &FieldIR, s: String| f.ensures((x, ctx), s) ==> s@ == piece(x@),
    ensures
        r@ == over_fields(field_views(fields@), piece),
{
    let ghost parts = field_views(fields@).map_values(piece);
    let mut out = String::new();
    let mut i: usize = 0;
    while i < fields.len()
        invariant
            i <= fields.len(),
            parts == field_views(fields@).map_values(piece),
            out@ == concat(parts.take(i as int)),
            forall|x: &FieldIR| #[trigger] f.requires((x, ctx)),
            forall|x: &FieldIR, s: String| f.ensures((x, ctx), s) ==> s@ == piece(x@),
        decreases fields.len() - i,
    {
        let s = f(&fields[i], ctx);
        append_str(&mut out, s.as_str());
        proof {
            lemma_concat_take_step(parts, i as int);
        }
        i = i + 1;
    }
    assert(parts.take(fields.len() as int) == parts);
    out
}

/// Runs `f` on every generic parameter and concatenates the results.
pub fn concat_generics<F: Fn(&String) -> String>(
    generics: &Vec<String>,
    f: F,
    Ghost(piece): Ghost<spec_fn(Seq<char>) -> Seq<char>>,
) -> (r: String)
    requires
        forall|x: &String| #[trigger] f.requires((x,)),
        forall|x: &String, s: String| f.ensures((x,), s) ==> s@ == piece(x@),
    ensures
        r@ == over_generics(views(generics@), piece),
{
    let ghost parts = views(generics@).map_values(piece);
    let mut out = String::new();
    let mut i: usize = 0;
    while i < generics.len()
        invariant
            i <= generics.len(),
            parts == views(generics@).map_values(piece),
            out@ == concat(parts.take(i as int)),
            forall|x: &String| #[trigger] f.requires((x,)),
            forall|x: &String, s: String| f.ensures((x,), s) ==> s@ == piece(x@),
        decreases generics.len() - i,
    {
        let s = f(&generics[i]);
        append_str(&mut out, s.as_str());
        proof {
            lemma_concat_take_step(parts, i as int);
        }
        i = i + 1;
    }
    assert(parts.take(generics.len() as int) == parts);
    out
}

/// Runs `f` on every field and collects the results.
pub fn map_fields<C, F: Fn(&FieldIR, &C) -> String>(
    fields: &Vec<FieldIR>,
    ctx: &C,
    f: F,
    Ghost(piece): Ghost<spec_fn(FieldSpec) -> Seq<char>>,
) -> (r: Vec<String>)
    requires
        forall|x: &FieldIR| #[trigger] f.requires((x, ctx)),
        forall|x: &FieldIR, s: String| f.ensures((x, ctx), s) ==> s@ == piece(x@),
    ensures
        views(r@) == field_views(fields@).map_values(piece),
{
    let mut out: Vec<String> = Vec::new();
    let mut i: usize = 0;
    while i < fields.len()
        invariant
            i <= fields.len(),
            views(out@) == field_views(fields@).map_values(piece).take(i as int),
            out@.len() == i,
            forall|x: &FieldIR| #[trigger] f.requires((x, ctx)),
            forall|x: &FieldIR, s: String| f.ensures((x, ctx), s) ==> s@ == piece(x@),
        decreases fields.len() - i,
    {
        let s = f(&fields[i], ctx);
        let ghost before = out@;
        out.push(s);
        assert(s@ == piece(fields@[i as int]@));
        assert(views(out@) =~= field_views(fields@).map_values(piece).take(i + 1)) by {
            assert(out@ == before.push(s));
            assert forall|j: int| 0 <= j < i implies views(out@)[j] == views(before)[j] by {
                assert(out@[j] == before[j]);
            }
        }
        i = i + 1;
    }
    assert(field_views(fields@).map_values(piece).take(fields.len() as int) =~= field_views(fields@).map_values(piece));
    out
}

/// Dart spelling of a field's type: name, type arguments, `?` when nullable.
pub open spec fn type_string(f: FieldSpec) -> Seq<char> {
    f.dart_type + (if f.generic_args.len() > 0 {
        "<"@ + join(f.generic_args, ", "@) + ">"@
    } else {
        Seq::empty()
    }) + (if f.is_nullable {
        "?"@
    } else {
        Seq::empty()
    })
}

/// Type-parameter list of a class, e.g. `<K, V>`, or nothing.
pub open spec fn generics_decl(c: ClassSpec) -> Seq<char> {
    if c.generics.len() == 0 {
        Seq::empty()
    } else {
        "<"@ + join(c.generics, ", "@) + ">"@
    }
}

/// Dart spelling of a field's type.
pub fn get_type_string(f: &FieldIR) -> (r: String)
    ensures
        r@ == type_string(f@),
{
    let mut s = String::new();
    append_str(&mut s, f.dart_type.as_str());
    if f.generic_args.len() > 0 {
        append_str(&mut s, "<");
        let j = join_strings(&f.generic_args, ", ");
        append_str(&mut s, j.as_str());
        append_str(&mut s, ">");
    }
    if f.is_nullable {
        append_str(&mut s, "?");
    }
    assert(s@ =~= type_string(f@));
    s
}

/// Type-parameter list of a class.
pub fn generics_decl_exec(c: &ClassIR) -> (r: String)
    ensures
        r@ == generics_decl(c@),
{
    let mut s = String::new();
    if c.generics.len() > 0 {
        append_str(&mut s, "<");
        let j = join_strings(&c.generics, ", ");
        append_str(&mut s, j.as_str());
        append_str(&mut s, ">");
    }
    assert(s@ =~= generics_decl(c@));
    s
}

} // verus!
