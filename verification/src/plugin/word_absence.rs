//! Which words the code generated for `@Veltro` can hold: with `json` off it holds
//! no `toJson`, `fromJson` or `extension`, with `copyWith` off no `copyWith`, and
//! with null values included no `final map = <String, dynamic>{`, as long as the
//! names, types and default values of the class hold none of these words (no `>{`
//! for the last).
//!
//! The argument: an occurrence of a word cannot reach across a character that
//! cannot stand next to the rest of it (for a word of letters, any character that
//! is no letter). Every name the class supplies is written between such
//! characters, and the fixed text around the names holds a marker of none of the
//! words: `J` marks `toJson` and `fromJson`, `xt` marks `extension`, `W` marks
//! `copyWith`, and `>{` marks itself, which the map literal holds.
use vstd::prelude::*;
use crate::ir::{ClassSpec, FieldSpec, ResolvedKind};
use crate::plugin::common::{generics_decl, over_fields, over_generics, type_string};
use crate::plugin::veltro_plugin::{
    class_head, class_tail, copy_with_arg, copy_with_impl, copy_with_impl_param, copy_with_param, ctor_param,
    dart_after_head, eq_conjunct, field_decl, field_name, from_json_factory, from_json_field, from_json_line,
    generic_arg, generic_param, getter_line, json_extension, json_key, json_value, json_value_nullable,
    lemma_from_json_present, lemma_option_members, lemma_to_json_form, lemma_veltro_dart_split, mixin_section,
    to_json_entry, to_json_impl, to_json_optional_entry, to_json_required_entry, to_string_entry, veltro_dart,
    ascii_json_key, ascii_snake, ascii_snake_upto, is_ascii_lower_name, lemma_ascii_snake_idempotent, FieldRename, VeltroOptions,
};
use crate::text::{
    ascii_lower, ascii_upper, contains, find, is_ascii_text, join, lemma_contains_at, lemma_find_from_bounds, matches_at, replace,
    trim_end_char,
};

verus! {

// ───────────────────────────── occurrences and barriers ─────────────────────────────

/// `w` occurs somewhere in `s`.
pub open spec fn occurs(s: Seq<char>, w: Seq<char>) -> bool {
    exists|i: int| #[trigger] matches_at(s, w, i)
}

/// An ASCII letter.
pub open spec fn is_letter(c: char) -> bool {
    ('a' as u32 <= c as u32 && c as u32 <= 'z' as u32) || ('A' as u32 <= c as u32 && c as u32 <= 'Z' as u32)
}

/// A non-empty word of ASCII letters.
pub open spec fn is_word(w: Seq<char>) -> bool {
    w.len() > 0 && forall|k: int| 0 <= k < w.len() ==> is_letter(#[trigger] w[k])
}

/// `contains` is having an occurrence.
proof fn lemma_contains_occurs(s: Seq<char>, w: Seq<char>)
    ensures
        contains(s, w) <==> occurs(s, w),
{
    lemma_find_from_bounds(s, w, 0);
    if occurs(s, w) {
        let i = choose|i: int| #[trigger] matches_at(s, w, i);
        lemma_contains_at(s, w, i);
    }
}

/// An occurrence in a part is an occurrence in the whole.
proof fn lemma_occurs_in_part(a: Seq<char>, b: Seq<char>, w: Seq<char>)
    ensures
        occurs(a, w) ==> occurs(a + b, w),
        occurs(b, w) ==> occurs(a + b, w),
{
    if occurs(a, w) {
        let i = choose|i: int| #[trigger] matches_at(a, w, i);
        assert((a + b).subrange(i, i + w.len()) =~= a.subrange(i, i + w.len()));
        assert(matches_at(a + b, w, i));
    }
    if occurs(b, w) {
        let i = choose|i: int| #[trigger] matches_at(b, w, i);
        assert((a + b).subrange(a.len() + i, a.len() + i + w.len()) =~= b.subrange(i, i + w.len()));
        assert(matches_at(a + b, w, a.len() + i));
    }
}

/// An occurrence of `w`, which holds `m`, holds an occurrence of `m`.
proof fn lemma_occurs_through(s: Seq<char>, w: Seq<char>, m: Seq<char>)
    requires
        occurs(s, w),
        occurs(w, m),
    ensures
        occurs(s, m),
{
    let i = choose|i: int| #[trigger] matches_at(s, w, i);
    let k = choose|k: int| #[trigger] matches_at(w, m, k);
    assert(s.subrange(i + k, i + k + m.len()) =~= w.subrange(k, k + m.len()));
    assert(matches_at(s, m, i + k));
}

/// `c` cannot be followed by the rest of an occurrence of `w`: it is no character
/// of `w` but perhaps its last.
#[verifier::opaque]
pub open spec fn left_safe(c: char, w: Seq<char>) -> bool {
    forall|k: int| 0 <= k < w.len() - 1 ==> w[k] != c
}

/// `c` cannot follow the start of an occurrence of `w`: it is no character of `w`
/// but perhaps its first.
#[verifier::opaque]
pub open spec fn right_safe(c: char, w: Seq<char>) -> bool {
    forall|k: int| 1 <= k < w.len() ==> w[k] != c
}

/// An occurrence cannot reach across a safe junction: where `a` ends with a
/// character that no more of `w` can follow, or `b` starts with one that cannot
/// follow the start of `w`, an occurrence in `a + b` lies in one of them.
proof fn lemma_junction(a: Seq<char>, b: Seq<char>, w: Seq<char>)
    requires
        w.len() > 0,
        (a.len() > 0 && left_safe(a.last(), w)) || (b.len() > 0 && right_safe(b[0], w)),
    ensures
        occurs(a + b, w) ==> occurs(a, w) || occurs(b, w),
{
    reveal(left_safe);
    reveal(right_safe);
    if occurs(a + b, w) {
        let s = a + b;
        let n = w.len();
        let i = choose|i: int| #[trigger] matches_at(s, w, i);
        if i + n <= a.len() {
            assert(a.subrange(i, i + n) =~= s.subrange(i, i + n));
            assert(matches_at(a, w, i));
        } else if i >= a.len() {
            assert(b.subrange(i - a.len(), i - a.len() + n) =~= s.subrange(i, i + n));
            assert(matches_at(b, w, i - a.len()));
        } else {
            let k1 = a.len() - 1 - i;
            assert(s.subrange(i, i + n)[k1] == s[a.len() - 1]);
            let k2 = a.len() - i;
            assert(s.subrange(i, i + n)[k2] == s[a.len() as int]);
        }
    }
}

/// Text without `w` that is empty or ends with a character that no more of `w` can
/// follow.
pub open spec fn closed_text(s: Seq<char>, w: Seq<char>) -> bool {
    !occurs(s, w) && (s.len() == 0 || left_safe(s.last(), w))
}

/// Closed text that is not empty and starts with a character that cannot follow
/// the start of `w`.
pub open spec fn guarded(s: Seq<char>, w: Seq<char>) -> bool {
    closed_text(s, w) && s.len() > 0 && right_safe(s[0], w)
}

/// Closed texts stay closed when put together.
proof fn lemma_cat(a: Seq<char>, b: Seq<char>, w: Seq<char>)
    requires
        w.len() > 0,
        closed_text(a, w),
        closed_text(b, w),
    ensures
        closed_text(a + b, w),
        a.len() > 0 && right_safe(a[0], w) ==> guarded(a + b, w),
{
    if a.len() == 0 {
        assert(a + b =~= b);
    } else {
        lemma_junction(a, b, w);
        assert((a + b)[0] == a[0]);
        if b.len() > 0 {
            assert((a + b).last() == b.last());
        } else {
            assert(a + b =~= a);
        }
    }
}

/// Text without `w` followed by guarded text is closed, and not empty.
proof fn lemma_then(u: Seq<char>, r: Seq<char>, w: Seq<char>)
    requires
        w.len() > 0,
        !occurs(u, w),
        guarded(r, w),
    ensures
        closed_text(u + r, w),
        (u + r).len() > 0,
{
    lemma_junction(u, r, w);
    assert((u + r).last() == r.last());
}

/// Texts without `w` joined at a safe junction hold no `w`.
proof fn lemma_free_cat(a: Seq<char>, b: Seq<char>, w: Seq<char>)
    requires
        w.len() > 0,
        !occurs(a, w),
        !occurs(b, w),
        (a.len() > 0 && left_safe(a.last(), w)) || (b.len() > 0 && right_safe(b[0], w)),
    ensures
        !occurs(a + b, w),
{
    lemma_junction(a, b, w);
}

/// The markers: each of the words holds one of them, and the fixed text around the
/// names holds none, but where a lemma says otherwise.
pub open spec fn is_marker(m: Seq<char>) -> bool {
    m == "J"@ || m == "W"@ || m == "xt"@ || m == "ma"@ || m == ">{"@
}

/// `w` holds the marker `m`, and every character that is no letter is safe next to
/// it, but `>` before it and `{` after it.
pub open spec fn word_marked(w: Seq<char>, m: Seq<char>) -> bool {
    &&& w.len() > 0
    &&& is_marker(m)
    &&& occurs(w, m)
    &&& forall|c: char| !is_letter(c) && c != '>' ==> #[trigger] left_safe(c, w)
    &&& forall|c: char| !is_letter(c) && c != '{' ==> #[trigger] right_safe(c, w)
}

/// Text does not hold the marker `m`.
pub open spec fn lacks_marker(l: Seq<char>, m: Seq<char>) -> bool {
    &&& m == "J"@ ==> forall|i: int| 0 <= i < l.len() ==> l[i] != 'J'
    &&& m == "xt"@ ==> forall|i: int| 0 <= i < l.len() - 1 ==> !(#[trigger] l[i] == 'x' && l[i + 1] == 't')
    &&& m == "W"@ ==> forall|i: int| 0 <= i < l.len() ==> l[i] != 'W'
    &&& m == "ma"@ ==> forall|i: int| 0 <= i < l.len() - 1 ==> !(#[trigger] l[i] == 'm' && l[i + 1] == 'a')
    &&& m == ">{"@ ==> forall|i: int| 0 <= i < l.len() - 1 ==> !(#[trigger] l[i] == '>' && l[i + 1] == '{')
}

/// Text without the marker holds no `w`.
proof fn lemma_no_marker(l: Seq<char>, w: Seq<char>, m: Seq<char>)
    requires
        word_marked(w, m),
        lacks_marker(l, m),
    ensures
        !occurs(l, w),
{
    reveal_strlit("J");
    reveal_strlit("W");
    reveal_strlit("xt");
    reveal_strlit("ma");
    reveal_strlit(">{");
    if occurs(l, w) {
        lemma_occurs_through(l, w, m);
        let i = choose|i: int| #[trigger] matches_at(l, m, i);
        assert(l.subrange(i, i + m.len())[0] == l[i]);
        if m.len() == 2 {
            assert(l.subrange(i, i + m.len())[1] == l[i + 1]);
        }
    }
}

/// Fixed text that starts and ends with a character that is no letter (and is not
/// `{` at its start nor `>` at its end) and does not hold the marker `m` is guarded.
proof fn lemma_lit(l: Seq<char>, w: Seq<char>, m: Seq<char>)
    requires
        word_marked(w, m),
        l.len() > 0,
        !is_letter(l[0]) && l[0] != '{',
        !is_letter(l.last()) && l.last() != '>',
        lacks_marker(l, m),
    ensures
        guarded(l, w),
{
    lemma_no_marker(l, w, m);
    assert(left_safe(l.last(), w));
    assert(right_safe(l[0], w));
}

/// Fixed text that starts with a character that is no letter nor `{` and does not
/// hold the marker, followed by guarded text, is guarded (it may end with any
/// character).
proof fn lemma_open_lit_then(l: Seq<char>, r: Seq<char>, w: Seq<char>, m: Seq<char>)
    requires
        word_marked(w, m),
        l.len() > 0,
        !is_letter(l[0]) && l[0] != '{',
        lacks_marker(l, m),
        guarded(r, w),
    ensures
        guarded(l + r, w),
{
    lemma_no_marker(l, w, m);
    lemma_then(l, r, w);
    assert((l + r)[0] == l[0]);
    assert(right_safe(l[0], w));
}

// ───────────────────────────── names and types ─────────────────────────────

/// Neither a field's name, its type and type arguments, nor its default value holds `w`.
pub open spec fn field_free(f: FieldSpec, w: Seq<char>) -> bool {
    &&& !occurs(f.name, w)
    &&& !occurs(f.dart_type, w)
    &&& forall|j: int| 0 <= j < f.generic_args.len() ==> !occurs(#[trigger] f.generic_args[j], w)
    &&& (f.default_value matches Some(d) ==> !occurs(d, w))
}

/// Neither the class's name, its type parameters nor any of its fields holds `w`.
pub open spec fn class_free(c: ClassSpec, w: Seq<char>) -> bool {
    &&& !occurs(c.name, w)
    &&& forall|j: int| 0 <= j < c.generics.len() ==> !occurs(#[trigger] c.generics[j], w)
    &&& forall|i: int| 0 <= i < c.fields.len() ==> field_free(#[trigger] c.fields[i], w)
}

/// Parts without `w` joined by `, ` and followed by guarded text make closed text.
proof fn lemma_join_then(parts: Seq<Seq<char>>, r: Seq<char>, w: Seq<char>, m: Seq<char>)
    requires
        word_marked(w, m),
        forall|i: int| 0 <= i < parts.len() ==> !occurs(#[trigger] parts[i], w),
        guarded(r, w),
    ensures
        closed_text(join(parts, ", "@) + r, w),
    decreases parts.len(),
{
    let sep = ", "@;
    if parts.len() == 0 {
        assert(join(parts, sep) + r =~= r);
    } else if parts.len() == 1 {
        lemma_then(parts[0], r, w);
    } else {
        let init = parts.drop_last();
        reveal_strlit(", ");
        lemma_lit(sep, w, m);
        lemma_then(parts.last(), r, w);
        let t = parts.last() + r;
        lemma_cat(sep, t, w);
        assert forall|i: int| 0 <= i < init.len() implies !occurs(#[trigger] init[i], w) by {
            assert(init[i] == parts[i]);
        }
        lemma_join_then(init, sep + t, w, m);
        assert(join(parts, sep) + r =~= join(init, sep) + (sep + t));
    }
}

/// A type parameter list followed by guarded text is guarded.
proof fn lemma_generics_then(c: ClassSpec, r: Seq<char>, w: Seq<char>, m: Seq<char>)
    requires
        word_marked(w, m),
        class_free(c, w),
        guarded(r, w),
    ensures
        guarded(generics_decl(c) + r, w),
{
    if c.generics.len() == 0 {
        assert(generics_decl(c) + r =~= r);
    } else {
        reveal_strlit("<");
        reveal_strlit(">");
        lemma_lit("<"@, w, m);
        lemma_open_lit_then(">"@, r, w, m);
        lemma_join_then(c.generics, ">"@ + r, w, m);
        lemma_cat("<"@, join(c.generics, ", "@) + (">"@ + r), w);
        assert(generics_decl(c) + r =~= "<"@ + (join(c.generics, ", "@) + (">"@ + r)));
    }
}

/// A field's type followed by guarded text is closed.
proof fn lemma_type_then(f: FieldSpec, r: Seq<char>, w: Seq<char>, m: Seq<char>)
    requires
        word_marked(w, m),
        field_free(f, w),
        guarded(r, w),
    ensures
        closed_text(type_string(f) + r, w),
{
    reveal_strlit("?");
    reveal_strlit("<");
    reveal_strlit(">");
    let q = if f.is_nullable {
        "?"@
    } else {
        Seq::empty()
    };
    if f.is_nullable {
        lemma_lit("?"@, w, m);
        lemma_cat("?"@, r, w);
    } else {
        assert(q + r =~= r);
    }
    let r1 = q + r;
    let ga = if f.generic_args.len() > 0 {
        "<"@ + join(f.generic_args, ", "@) + ">"@
    } else {
        Seq::empty()
    };
    if f.generic_args.len() > 0 {
        lemma_lit("<"@, w, m);
        lemma_open_lit_then(">"@, r1, w, m);
        lemma_join_then(f.generic_args, ">"@ + r1, w, m);
        lemma_cat("<"@, join(f.generic_args, ", "@) + (">"@ + r1), w);
        assert(ga + r1 =~= "<"@ + (join(f.generic_args, ", "@) + (">"@ + r1)));
    } else {
        assert(ga + r1 =~= r1);
    }
    lemma_then(f.dart_type, ga + r1, w);
    assert(type_string(f) + r =~= f.dart_type + (ga + r1));
}

/// Dropping characters from the end keeps a text that held no `w` free of it.
proof fn lemma_trim_free(s: Seq<char>, ch: char, w: Seq<char>)
    requires
        !occurs(s, w),
    ensures
        !occurs(trim_end_char(s, ch), w),
    decreases s.len(),
{
    if s.len() > 0 && s.last() == ch {
        assert(s =~= s.drop_last() + seq![ch]);
        lemma_occurs_in_part(s.drop_last(), seq![ch], w);
        lemma_trim_free(s.drop_last(), ch, w);
    }
}

/// A field's type holds no `w`, nor does it with its `?` dropped.
proof fn lemma_type_free(f: FieldSpec, w: Seq<char>, m: Seq<char>)
    requires
        word_marked(w, m),
        field_free(f, w),
    ensures
        !occurs(type_string(f), w),
        !occurs(trim_end_char(type_string(f), '?'), w),
{
    reveal_strlit(" ");
    lemma_lit(" "@, w, m);
    lemma_type_then(f, " "@, w, m);
    lemma_occurs_in_part(type_string(f), " "@, w);
    lemma_trim_free(type_string(f), '?', w);
}

// ───────────────────────────── per-field pieces ─────────────────────────────

/// Fixed text as in `lemma_lit` followed by closed text is guarded.
proof fn lemma_lit_then(l: Seq<char>, r: Seq<char>, w: Seq<char>, m: Seq<char>)
    requires
        word_marked(w, m),
        l.len() > 0,
        !is_letter(l[0]) && l[0] != '{',
        !is_letter(l.last()) && l.last() != '>',
        lacks_marker(l, m),
        closed_text(r, w),
    ensures
        guarded(l + r, w),
{
    lemma_lit(l, w, m);
    lemma_cat(l, r, w);
}

/// A name followed by fixed text as in `lemma_lit` is closed.
proof fn lemma_name_lit(n: Seq<char>, l: Seq<char>, w: Seq<char>, m: Seq<char>)
    requires
        word_marked(w, m),
        !occurs(n, w),
        l.len() > 0,
        !is_letter(l[0]) && l[0] != '{',
        !is_letter(l.last()) && l.last() != '>',
        lacks_marker(l, m),
    ensures
        closed_text(n + l, w),
{
    lemma_lit(l, w, m);
    lemma_then(n, l, w);
}

proof fn lemma_getter_line(f: FieldSpec, w: Seq<char>, m: Seq<char>)
    requires
        word_marked(w, m),
        field_free(f, w),
    ensures
        guarded(getter_line()(f), w),
{
    reveal_strlit(";\n");
    reveal_strlit(" get ");
    reveal_strlit("  ");
    lemma_name_lit(f.name, ";\n"@, w, m);
    lemma_lit_then(" get "@, f.name + ";\n"@, w, m);
    lemma_type_then(f, " get "@ + (f.name + ";\n"@), w, m);
    lemma_lit_then("  "@, type_string(f) + (" get "@ + (f.name + ";\n"@)), w, m);
    assert(getter_line()(f) =~= "  "@ + (type_string(f) + (" get "@ + (f.name + ";\n"@))));
}

proof fn lemma_field_decl(f: FieldSpec, w: Seq<char>, m: Seq<char>)
    requires
        word_marked(w, m),
        field_free(f, w),
    ensures
        guarded(field_decl()(f), w),
{
    reveal_strlit(";\n");
    reveal_strlit(" ");
    reveal_strlit("  @override final ");
    lemma_name_lit(f.name, ";\n"@, w, m);
    lemma_lit_then(" "@, f.name + ";\n"@, w, m);
    lemma_type_then(f, " "@ + (f.name + ";\n"@), w, m);
    lemma_lit_then("  @override final "@, type_string(f) + (" "@ + (f.name + ";\n"@)), w, m);
    assert(field_decl()(f) =~= "  @override final "@ + (type_string(f) + (" "@ + (f.name + ";\n"@))));
}

proof fn lemma_ctor_param(f: FieldSpec, w: Seq<char>, m: Seq<char>)
    requires
        word_marked(w, m),
        field_free(f, w),
    ensures
        guarded(ctor_param()(f), w),
{
    reveal_strlit(",\n");
    reveal_strlit(" = ");
    reveal_strlit("    this.");
    reveal_strlit("    required this.");
    lemma_name_lit(f.name, ",\n"@, w, m);
    match f.default_value {
        Some(d) => {
            lemma_name_lit(d, ",\n"@, w, m);
            lemma_lit_then(" = "@, d + ",\n"@, w, m);
            lemma_then(f.name, " = "@ + (d + ",\n"@), w);
            lemma_lit_then("    this."@, f.name + (" = "@ + (d + ",\n"@)), w, m);
            assert(ctor_param()(f) =~= "    this."@ + (f.name + (" = "@ + (d + ",\n"@))));
        },
        None => {
            if f.is_required {
                lemma_lit_then("    required this."@, f.name + ",\n"@, w, m);
                assert(ctor_param()(f) =~= "    required this."@ + (f.name + ",\n"@));
            } else {
                lemma_lit_then("    this."@, f.name + ",\n"@, w, m);
                assert(ctor_param()(f) =~= "    this."@ + (f.name + ",\n"@));
            }
        },
    }
}

proof fn lemma_copy_with_param(f: FieldSpec, w: Seq<char>, m: Seq<char>)
    requires
        word_marked(w, m),
        field_free(f, w),
    ensures
        closed_text(copy_with_param()(f), w),
{
    reveal_strlit(", ");
    reveal_strlit("? ");
    let t = trim_end_char(type_string(f), '?');
    lemma_type_free(f, w, m);
    lemma_name_lit(f.name, ", "@, w, m);
    lemma_lit_then("? "@, f.name + ", "@, w, m);
    lemma_then(t, "? "@ + (f.name + ", "@), w);
    assert(copy_with_param()(f) =~= t + ("? "@ + (f.name + ", "@)));
}

proof fn lemma_copy_with_impl_param(f: FieldSpec, w: Seq<char>, m: Seq<char>)
    requires
        word_marked(w, m),
        field_free(f, w),
    ensures
        guarded(copy_with_impl_param()(f), w),
{
    reveal_strlit(",\n");
    reveal_strlit("? ");
    reveal_strlit("    ");
    let t = trim_end_char(type_string(f), '?');
    lemma_type_free(f, w, m);
    lemma_name_lit(f.name, ",\n"@, w, m);
    lemma_lit_then("? "@, f.name + ",\n"@, w, m);
    lemma_then(t, "? "@ + (f.name + ",\n"@), w);
    lemma_lit_then("    "@, t + ("? "@ + (f.name + ",\n"@)), w, m);
    assert(copy_with_impl_param()(f) =~= "    "@ + (t + ("? "@ + (f.name + ",\n"@))));
}

proof fn lemma_copy_with_arg(f: FieldSpec, w: Seq<char>, m: Seq<char>)
    requires
        word_marked(w, m),
        field_free(f, w),
    ensures
        guarded(copy_with_arg()(f), w),
{
    reveal_strlit(",\n");
    reveal_strlit(" ?? this.");
    reveal_strlit(": ");
    reveal_strlit("    ");
    let n = f.name;
    lemma_name_lit(n, ",\n"@, w, m);
    lemma_lit_then(" ?? this."@, n + ",\n"@, w, m);
    lemma_then(n, " ?? this."@ + (n + ",\n"@), w);
    lemma_lit_then(": "@, n + (" ?? this."@ + (n + ",\n"@)), w, m);
    lemma_then(n, ": "@ + (n + (" ?? this."@ + (n + ",\n"@))), w);
    lemma_lit_then("    "@, n + (": "@ + (n + (" ?? this."@ + (n + ",\n"@)))), w, m);
    assert(copy_with_arg()(f) =~= "    "@ + (n + (": "@ + (n + (" ?? this."@ + (n + ",\n"@))))));
}

/// The pieces of closed text over the fields make closed text.
proof fn lemma_over_closed(fields: Seq<FieldSpec>, piece: spec_fn(FieldSpec) -> Seq<char>, w: Seq<char>)
    requires
        w.len() > 0,
        forall|i: int| 0 <= i < fields.len() ==> closed_text(#[trigger] piece(fields[i]), w),
    ensures
        closed_text(over_fields(fields, piece), w),
    decreases fields.len(),
{
    if fields.len() == 0 {
        assert(fields.map_values(piece).len() == 0);
    } else {
        let init = fields.drop_last();
        assert(fields.map_values(piece).drop_last() =~= init.map_values(piece));
        assert(fields.map_values(piece).last() == piece(fields.last()));
        assert forall|i: int| 0 <= i < init.len() implies closed_text(#[trigger] piece(init[i]), w) by {
            assert(init[i] == fields[i]);
        }
        lemma_over_closed(init, piece, w);
        assert(closed_text(piece(fields[fields.len() - 1]), w));
        lemma_cat(over_fields(init, piece), piece(fields.last()), w);
    }
}

/// The `operator ==` conjuncts followed by guarded text are guarded.
proof fn lemma_eq_then(fields: Seq<FieldSpec>, r: Seq<char>, w: Seq<char>, m: Seq<char>)
    requires
        word_marked(w, m),
        forall|i: int| 0 <= i < fields.len() ==> field_free(#[trigger] fields[i], w),
        guarded(r, w),
    ensures
        guarded(over_fields(fields, eq_conjunct()) + r, w),
    decreases fields.len(),
{
    if fields.len() == 0 {
        assert(fields.map_values(eq_conjunct()).len() == 0);
        assert(over_fields(fields, eq_conjunct()) + r =~= r);
    } else {
        reveal_strlit(" && other.");
        reveal_strlit(" == ");
        let init = fields.drop_last();
        let n = fields.last().name;
        assert(field_free(fields[fields.len() - 1], w));
        assert(fields.map_values(eq_conjunct()).drop_last() =~= init.map_values(eq_conjunct()));
        assert(fields.map_values(eq_conjunct()).last() == eq_conjunct()(fields.last()));
        lemma_then(n, r, w);
        lemma_lit_then(" == "@, n + r, w, m);
        lemma_then(n, " == "@ + (n + r), w);
        lemma_lit_then(" && other."@, n + (" == "@ + (n + r)), w, m);
        let t = " && other."@ + (n + (" == "@ + (n + r)));
        assert(eq_conjunct()(fields.last()) + r =~= t);
        assert forall|i: int| 0 <= i < init.len() implies field_free(#[trigger] init[i], w) by {
            assert(init[i] == fields[i]);
        }
        lemma_eq_then(init, t, w, m);
        assert(over_fields(fields, eq_conjunct()) + r =~= over_fields(init, eq_conjunct()) + t);
    }
}

// ───────────────────────────── sections ─────────────────────────────

#[verifier::spinoff_prover]
#[verifier::rlimit(100)]
proof fn lemma_mixin(c: ClassSpec, o: VeltroOptions, w: Seq<char>, m: Seq<char>)
    requires
        word_marked(w, m),
        class_free(c, w),
        o.json ==> m == "W"@ || m == "ma"@ || m == ">{"@,
        o.create_copy_with ==> m != "W"@,
    ensures
        guarded(mixin_section(c, o), w),
{
    lemma_w_marker();
    lemma_json_markers(m);
    reveal_strlit("  Map<String, dynamic> toJson();\n");
    reveal_strlit("\n  @override\n  String toString();\n}\n");
    reveal_strlit("});\n");
    reveal_strlit(" copyWith({");
    reveal_strlit("  ");
    reveal_strlit("\n");
    reveal_strlit(" {\n");
    reveal_strlit("\nmixin _$");
    let gd = generics_decl(c);
    let z = "\n  @override\n  String toString();\n}\n"@;
    lemma_lit(z, w, m);
    let cw = if o.create_copy_with {
        "  "@ + c.name + gd + " copyWith({"@ + over_fields(c.fields, copy_with_param()) + "});\n"@
    } else {
        Seq::empty()
    };
    if o.create_copy_with {
        assert forall|i: int| 0 <= i < c.fields.len() implies closed_text(#[trigger] copy_with_param()(c.fields[i]), w) by {
            lemma_copy_with_param(c.fields[i], w, m);
        }
        lemma_over_closed(c.fields, copy_with_param(), w);
        let p = over_fields(c.fields, copy_with_param());
        lemma_lit("});\n"@, w, m);
        lemma_cat(p, "});\n"@, w);
        lemma_lit_then(" copyWith({"@, p + "});\n"@, w, m);
        lemma_generics_then(c, " copyWith({"@ + (p + "});\n"@), w, m);
        lemma_then(c.name, gd + (" copyWith({"@ + (p + "});\n"@)), w);
        lemma_lit_then("  "@, c.name + (gd + (" copyWith({"@ + (p + "});\n"@))), w, m);
        assert(cw =~= "  "@ + (c.name + (gd + (" copyWith({"@ + (p + "});\n"@)))));
    }
    let js = if o.json {
        "  Map<String, dynamic> toJson();\n"@
    } else {
        Seq::empty()
    };
    if o.json {
        lemma_lit(js, w, m);
    }
    lemma_cat(js, z, w);
    lemma_cat(cw, js + z, w);
    lemma_lit_then("\n"@, cw + (js + z), w, m);
    assert forall|i: int| 0 <= i < c.fields.len() implies closed_text(#[trigger] getter_line()(c.fields[i]), w) by {
        lemma_getter_line(c.fields[i], w, m);
    }
    lemma_over_closed(c.fields, getter_line(), w);
    let g = over_fields(c.fields, getter_line());
    let x = "\n"@ + (cw + (js + z));
    lemma_cat(g, x, w);
    lemma_lit_then(" {\n"@, g + x, w, m);
    lemma_generics_then(c, " {\n"@ + (g + x), w, m);
    lemma_then(c.name, gd + (" {\n"@ + (g + x)), w);
    lemma_lit_then("\nmixin _$"@, c.name + (gd + (" {\n"@ + (g + x))), w, m);
    assert(mixin_section(c, o) =~= "\nmixin _$"@ + (c.name + (gd + (" {\n"@ + (g + x)))));
}

#[verifier::spinoff_prover]
#[verifier::rlimit(100)]
proof fn lemma_class_head(c: ClassSpec, w: Seq<char>, m: Seq<char>)
    requires
        word_marked(w, m),
        class_free(c, w),
    ensures
        guarded(class_head(c), w),
{
    reveal_strlit("  });\n");
    reveal_strlit("({\n");
    reveal_strlit("  const _");
    reveal_strlit("\n");
    reveal_strlit(" {\n");
    reveal_strlit(" implements ");
    reveal_strlit(" with _$");
    reveal_strlit("\nclass _");
    let gd = generics_decl(c);
    let n = c.name;
    assert forall|i: int| 0 <= i < c.fields.len() implies closed_text(#[trigger] ctor_param()(c.fields[i]), w) by {
        lemma_ctor_param(c.fields[i], w, m);
    }
    lemma_over_closed(c.fields, ctor_param(), w);
    assert forall|i: int| 0 <= i < c.fields.len() implies closed_text(#[trigger] field_decl()(c.fields[i]), w) by {
        lemma_field_decl(c.fields[i], w, m);
    }
    lemma_over_closed(c.fields, field_decl(), w);
    let p = over_fields(c.fields, ctor_param());
    let d = over_fields(c.fields, field_decl());
    lemma_lit("  });\n"@, w, m);
    lemma_cat(p, "  });\n"@, w);
    let t1 = "({\n"@ + (p + "  });\n"@);
    lemma_lit_then("({\n"@, p + "  });\n"@, w, m);
    lemma_then(n, t1, w);
    let t2 = "\n"@ + ("  const _"@ + (n + t1));
    lemma_lit_then("  const _"@, n + t1, w, m);
    lemma_lit_then("\n"@, "  const _"@ + (n + t1), w, m);
    lemma_cat(d, t2, w);
    let t3 = " {\n"@ + (d + t2);
    lemma_lit_then(" {\n"@, d + t2, w, m);
    lemma_generics_then(c, t3, w, m);
    lemma_then(n, gd + t3, w);
    let t4 = " implements "@ + (n + (gd + t3));
    lemma_lit_then(" implements "@, n + (gd + t3), w, m);
    lemma_generics_then(c, t4, w, m);
    lemma_then(n, gd + t4, w);
    let t5 = " with _$"@ + (n + (gd + t4));
    lemma_lit_then(" with _$"@, n + (gd + t4), w, m);
    lemma_generics_then(c, t5, w, m);
    lemma_then(n, gd + t5, w);
    lemma_lit_then("\nclass _"@, n + (gd + t5), w, m);
    assert(class_head(c) =~= "\nclass _"@ + (n + (gd + t5)));
}

#[verifier::spinoff_prover]
#[verifier::rlimit(100)]
proof fn lemma_copy_with_impl(c: ClassSpec, w: Seq<char>, m: Seq<char>)
    requires
        word_marked(w, m),
        class_free(c, w),
        m != "W"@,
    ensures
        guarded(copy_with_impl(c), w),
{
    reveal_strlit("  );\n");
    reveal_strlit("(\n");
    reveal_strlit("  }) => _");
    reveal_strlit(" copyWith({\n");
    reveal_strlit("\n  @override\n  ");
    let gd = generics_decl(c);
    let n = c.name;
    assert forall|i: int| 0 <= i < c.fields.len() implies closed_text(#[trigger] copy_with_arg()(c.fields[i]), w) by {
        lemma_copy_with_arg(c.fields[i], w, m);
    }
    lemma_over_closed(c.fields, copy_with_arg(), w);
    assert forall|i: int|
        0 <= i < c.fields.len() implies closed_text(#[trigger] copy_with_impl_param()(c.fields[i]), w) by {
        lemma_copy_with_impl_param(c.fields[i], w, m);
    }
    lemma_over_closed(c.fields, copy_with_impl_param(), w);
    let a = over_fields(c.fields, copy_with_arg());
    let ip = over_fields(c.fields, copy_with_impl_param());
    lemma_lit("  );\n"@, w, m);
    lemma_cat(a, "  );\n"@, w);
    let t1 = "(\n"@ + (a + "  );\n"@);
    lemma_lit_then("(\n"@, a + "  );\n"@, w, m);
    lemma_then(n, t1, w);
    let t2 = "  }) => _"@ + (n + t1);
    lemma_lit_then("  }) => _"@, n + t1, w, m);
    lemma_cat(ip, t2, w);
    let t3 = " copyWith({\n"@ + (ip + t2);
    lemma_lit_then(" copyWith({\n"@, ip + t2, w, m);
    lemma_generics_then(c, t3, w, m);
    lemma_then(n, gd + t3, w);
    lemma_lit_then("\n  @override\n  "@, n + (gd + t3), w, m);
    assert(copy_with_impl(c) =~= "\n  @override\n  "@ + (n + (gd + t3)));
}

#[verifier::spinoff_prover]
#[verifier::rlimit(100)]
proof fn lemma_class_tail(c: ClassSpec, w: Seq<char>, m: Seq<char>)
    requires
        word_marked(w, m),
        class_free(c, w),
    ensures
        guarded(class_tail(c), w),
{
    reveal_strlit(")';\n}\n");
    reveal_strlit("(");
    reveal_strlit("\n  @override\n  String toString() => '");
    reveal_strlit("]);\n");
    reveal_strlit("\n  @override\n  int get hashCode => Object.hashAll([");
    reveal_strlit(");\n");
    reveal_strlit("\n  @override\n  bool operator ==(Object other) =>\n    identical(this, other) ||\n    (other is _");
    reveal_strlit(": $");
    let gd = generics_decl(c);
    let n = c.name;
    let entries = c.fields.map_values(to_string_entry());
    let names = c.fields.map_values(field_name());
    lemma_lit(": $"@, w, m);
    assert forall|i: int| 0 <= i < entries.len() implies !occurs(#[trigger] entries[i], w) by {
        let f = c.fields[i];
        assert(field_free(f, w));
        lemma_free_cat(": $"@, f.name, w);
        lemma_free_cat(f.name, ": $"@ + f.name, w);
        assert(entries[i] =~= f.name + (": $"@ + f.name));
    }
    assert forall|i: int| 0 <= i < names.len() implies !occurs(#[trigger] names[i], w) by {
        assert(field_free(c.fields[i], w));
    }
    lemma_lit(")';\n}\n"@, w, m);
    lemma_join_then(entries, ")';\n}\n"@, w, m);
    let t1 = "("@ + (join(entries, ", "@) + ")';\n}\n"@);
    lemma_lit_then("("@, join(entries, ", "@) + ")';\n}\n"@, w, m);
    lemma_then(n, t1, w);
    let l3 = "\n  @override\n  String toString() => '"@;
    let t2 = l3 + (n + t1);
    lemma_lit_then(l3, n + t1, w, m);
    lemma_lit_then("]);\n"@, t2, w, m);
    lemma_join_then(names, "]);\n"@ + t2, w, m);
    let l2 = "\n  @override\n  int get hashCode => Object.hashAll(["@;
    let t3 = l2 + (join(names, ", "@) + ("]);\n"@ + t2));
    lemma_lit_then(l2, join(names, ", "@) + ("]);\n"@ + t2), w, m);
    lemma_lit_then(");\n"@, t3, w, m);
    lemma_eq_then(c.fields, ");\n"@ + t3, w, m);
    let t4 = over_fields(c.fields, eq_conjunct()) + (");\n"@ + t3);
    lemma_generics_then(c, t4, w, m);
    lemma_then(n, gd + t4, w);
    let l1 = "\n  @override\n  bool operator ==(Object other) =>\n    identical(this, other) ||\n    (other is _"@;
    lemma_lit_then(l1, n + (gd + t4), w, m);
    assert(class_tail(c) =~= l1 + (n + (gd + t4)));
}

// ───────────────────────────── the whole text ─────────────────────────────

/// With `json` off, the generated code holds `w` only where the class's names and
/// types do (or, for `w` marked by `W`, where `copyWith` is on).
#[verifier::spinoff_prover]
#[verifier::rlimit(60)]
proof fn lemma_dart_without(c: ClassSpec, o: VeltroOptions, w: Seq<char>, m: Seq<char>)
    requires
        word_marked(w, m),
        class_free(c, w),
        !o.json,
        o.create_copy_with ==> m != "W"@,
    ensures
        !contains(veltro_dart(c, o), w),
{
    reveal_strlit("\n");
    lemma_mixin(c, o, w, m);
    lemma_class_head(c, w, m);
    lemma_class_tail(c, w, m);
    let cwi = if o.create_copy_with {
        copy_with_impl(c)
    } else {
        Seq::empty()
    };
    if o.create_copy_with {
        lemma_copy_with_impl(c, w, m);
    }
    let mx = mixin_section(c, o);
    let h = class_head(c);
    let t = class_tail(c);
    lemma_cat(cwi, t, w);
    lemma_cat(h, cwi + t, w);
    lemma_cat(mx, h + (cwi + t), w);
    lemma_lit_then("\n"@, mx + (h + (cwi + t)), w, m);
    assert(veltro_dart(c, o) =~= "\n"@ + (mx + (h + (cwi + t))));
    lemma_contains_occurs(veltro_dart(c, o), w);
}

/// The marked words.
proof fn lemma_marked_words()
    ensures
        word_marked("toJson"@, "J"@),
        word_marked("fromJson"@, "J"@),
        word_marked("extension"@, "xt"@),
        word_marked("copyWith"@, "W"@),
        json_word("copyWith"@, "W"@),
        json_word("map"@, "ma"@),
        json_word(">{"@, ">{"@),
{
    reveal_strlit("map");
    reveal_strlit("ma");
    assert("map"@.subrange(0, 2) =~= "ma"@);
    assert(matches_at("map"@, "ma"@, 0));
    reveal_strlit("toJson");
    reveal_strlit("fromJson");
    reveal_strlit("extension");
    reveal_strlit("copyWith");
    reveal_strlit("J");
    reveal_strlit("W");
    reveal_strlit("xt");
    reveal_strlit(">{");
    assert("toJson"@.subrange(2, 3) =~= "J"@);
    assert(matches_at("toJson"@, "J"@, 2));
    assert("fromJson"@.subrange(4, 5) =~= "J"@);
    assert(matches_at("fromJson"@, "J"@, 4));
    assert("extension"@.subrange(1, 3) =~= "xt"@);
    assert(matches_at("extension"@, "xt"@, 1));
    assert("copyWith"@.subrange(4, 5) =~= "W"@);
    assert(matches_at("copyWith"@, "W"@, 4));
    assert(">{"@.subrange(0, 2) =~= ">{"@);
    assert(matches_at(">{"@, ">{"@, 0));
    lemma_letter_word_safe("toJson"@);
    lemma_letter_word_safe("fromJson"@);
    lemma_letter_word_safe("extension"@);
    lemma_letter_word_safe("copyWith"@);
    lemma_letter_word_safe("map"@);
    reveal(left_safe);
    reveal(right_safe);
}

/// Next to a word of letters every character that is no letter is safe.
proof fn lemma_letter_word_safe(w: Seq<char>)
    requires
        is_word(w),
    ensures
        forall|c: char| !is_letter(c) ==> #[trigger] left_safe(c, w),
        forall|c: char| !is_letter(c) ==> #[trigger] right_safe(c, w),
{
    reveal(left_safe);
    reveal(right_safe);
    assert forall|c: char| !is_letter(c) implies #[trigger] left_safe(c, w) by {
        assert forall|k: int| 0 <= k < w.len() - 1 implies w[k] != c by {
            assert(is_letter(w[k]));
        }
    }
    assert forall|c: char| !is_letter(c) implies #[trigger] right_safe(c, w) by {
        assert forall|k: int| 1 <= k < w.len() implies w[k] != c by {
            assert(is_letter(w[k]));
        }
    }
}

// ───────────────────────────── the JSON parts ─────────────────────────────

/// A word that the JSON parts can hold only where the class's names, types and
/// keys do: it holds the marker `W`, `ma` or `>{`, `n` cannot be followed by more of
/// it, and `J` cannot follow its start.
pub open spec fn json_word(w: Seq<char>, m: Seq<char>) -> bool {
    &&& word_marked(w, m)
    &&& (m == "W"@ || m == "ma"@ || m == ">{"@)
    &&& left_safe('n', w)
    &&& right_safe('J', w)
}

/// The markers of the JSON words are neither of the others.
proof fn lemma_json_markers(m: Seq<char>)
    ensures
        (m == "W"@ || m == "ma"@ || m == ">{"@) ==> m != "J"@ && m != "xt"@,
        "W"@ != "ma"@,
        "W"@ != ">{"@,
        "ma"@ != ">{"@,
{
    reveal_strlit("J");
    reveal_strlit("W");
    reveal_strlit("xt");
    reveal_strlit("ma");
    reveal_strlit(">{");
    assert("W"@[0] != "J"@[0]);
    assert("ma"@[0] != "xt"@[0]);
    assert(">{"@[0] != "xt"@[0]);
    assert(">{"@[0] != "ma"@[0]);
}

/// Text ending in `fromJson` followed by a name and guarded text is guarded.
proof fn lemma_from_json_name(l: Seq<char>, g: Seq<char>, r: Seq<char>, w: Seq<char>, m: Seq<char>)
    requires
        json_word(w, m),
        lacks_marker(l, m),
        l.len() > 0,
        !is_letter(l[0]) && l[0] != '{',
        l.last() == 'n',
        !occurs(g, w),
        guarded(r, w),
    ensures
        guarded(l + (g + r), w),
{
    lemma_no_marker(l, w, m);
    lemma_then(g, r, w);
    lemma_junction(l, g + r, w);
    assert((l + (g + r)).last() == r.last());
    assert((l + (g + r))[0] == l[0]);
    assert(right_safe(l[0], w));
}

/// The `fromJson` parameters of the type parameters, followed by guarded text, are
/// guarded.
proof fn lemma_generic_params_then(gs: Seq<Seq<char>>, r: Seq<char>, arg: bool, w: Seq<char>, m: Seq<char>)
    requires
        json_word(w, m),
        forall|j: int| 0 <= j < gs.len() ==> !occurs(#[trigger] gs[j], w),
        guarded(r, w),
    ensures
        guarded(
            over_generics(gs, if arg {
                generic_arg()
            } else {
                generic_param()
            }) + r,
            w,
        ),
    decreases gs.len(),
{
    let piece = if arg {
        generic_arg()
    } else {
        generic_param()
    };
    if gs.len() == 0 {
        assert(gs.map_values(piece).len() == 0);
        assert(over_generics(gs, piece) + r =~= r);
    } else {
        reveal_strlit(", fromJson");
        reveal_strlit(", ");
        reveal_strlit(" Function(Object?) fromJson");
        lemma_json_markers(m);
        let init = gs.drop_last();
        let g = gs.last();
        assert(!occurs(gs[gs.len() - 1], w));
        assert(gs.map_values(piece).drop_last() =~= init.map_values(piece));
        assert(gs.map_values(piece).last() == piece(g));
        let t = if arg {
            lemma_from_json_name(", fromJson"@, g, r, w, m);
            ", fromJson"@ + (g + r)
        } else {
            lemma_from_json_name(" Function(Object?) fromJson"@, g, r, w, m);
            lemma_then(g, " Function(Object?) fromJson"@ + (g + r), w);
            lemma_lit_then(", "@, g + (" Function(Object?) fromJson"@ + (g + r)), w, m);
            ", "@ + (g + (" Function(Object?) fromJson"@ + (g + r)))
        };
        assert(piece(g) + r =~= t);
        assert forall|j: int| 0 <= j < init.len() implies !occurs(#[trigger] init[j], w) by {
            assert(init[j] == gs[j]);
        }
        lemma_generic_params_then(init, t, arg, w, m);
        assert(over_generics(gs, piece) + r =~= over_generics(init, piece) + t);
    }
}

/// The marker `W` is neither of the other markers.
proof fn lemma_w_marker()
    ensures
        "W"@ != "J"@,
        "W"@ != "xt"@,
{
    reveal_strlit("J");
    reveal_strlit("W");
    reveal_strlit("xt");
    assert("W"@[0] != "J"@[0]);
}

/// The `fromJson` argument of a type-parameter field, after the name.
#[verifier::spinoff_prover]
#[verifier::rlimit(60)]
proof fn lemma_fjf_generic(f: FieldSpec, rename: FieldRename, w: Seq<char>, m: Seq<char>) -> (body: Seq<char>)
    requires
        json_word(w, m),
        field_free(f, w),
        !occurs(json_key(f.name, rename), w),
        f.is_generic_param,
    ensures
        guarded(body, w),
        from_json_field(f, rename) + ",\n"@ == f.name + body,
{
    lemma_json_markers(m);
    reveal_strlit(",\n");
    reveal_strlit(": fromJson");
    reveal_strlit("(json['");
    reveal_strlit("'])");
    let k = json_key(f.name, rename);
    let dt = f.dart_type;
    let r0 = ",\n"@;
    lemma_lit(r0, w, m);
    lemma_lit_then("'])"@, r0, w, m);
    lemma_then(k, "'])"@ + r0, w);
    lemma_lit_then("(json['"@, k + ("'])"@ + r0), w, m);
    let t3 = "(json['"@ + (k + ("'])"@ + r0));
    lemma_from_json_name(": fromJson"@, dt, t3, w, m);
    let body = ": fromJson"@ + (dt + t3);
    assert(from_json_field(f, rename) + r0 =~= f.name + body);
    body
}

/// The `fromJson` argument of a field of an annotated class type, after the name.
#[verifier::spinoff_prover]
#[verifier::rlimit(100)]
proof fn lemma_fjf_class(f: FieldSpec, rename: FieldRename, w: Seq<char>, m: Seq<char>) -> (body: Seq<char>)
    requires
        json_word(w, m),
        field_free(f, w),
        !occurs(json_key(f.name, rename), w),
        !f.is_generic_param && f.resolved_kind == ResolvedKind::AnnotatedClass,
    ensures
        guarded(body, w),
        from_json_field(f, rename) + ",\n"@ == f.name + body,
{
    lemma_json_markers(m);
    reveal_strlit(",\n");
    reveal_strlit("'] as Map<String, dynamic>) : null");
    reveal_strlit("'] as Map<String, dynamic>)");
    reveal_strlit(".fromJson(json['");
    reveal_strlit("'] != null ? ");
    reveal_strlit(": json['");
    reveal_strlit(": ");
    let k = json_key(f.name, rename);
    let dt = f.dart_type;
    let r0 = ",\n"@;
    lemma_lit(r0, w, m);
    if f.is_nullable {
        let l1 = "'] as Map<String, dynamic>) : null"@;
        lemma_open_lit_then(l1, r0, w, m);
        lemma_then(k, l1 + r0, w);
        lemma_lit_then(".fromJson(json['"@, k + (l1 + r0), w, m);
        let t3 = ".fromJson(json['"@ + (k + (l1 + r0));
        lemma_then(dt, t3, w);
        lemma_lit_then("'] != null ? "@, dt + t3, w, m);
        let t5 = "'] != null ? "@ + (dt + t3);
        lemma_then(k, t5, w);
        lemma_lit_then(": json['"@, k + t5, w, m);
        let body = ": json['"@ + (k + t5);
        assert(from_json_field(f, rename) + r0 =~= f.name + body);
        body
    } else {
        let l1 = "'] as Map<String, dynamic>)"@;
        lemma_lit_then(l1, r0, w, m);
        lemma_then(k, l1 + r0, w);
        lemma_lit_then(".fromJson(json['"@, k + (l1 + r0), w, m);
        let t3 = ".fromJson(json['"@ + (k + (l1 + r0));
        lemma_then(dt, t3, w);
        lemma_lit_then(": "@, dt + t3, w, m);
        let body = ": "@ + (dt + t3);
        assert(from_json_field(f, rename) + r0 =~= f.name + body);
        body
    }
}

/// The `fromJson` argument of an enum field, after the name.
#[verifier::spinoff_prover]
#[verifier::rlimit(60)]
proof fn lemma_fjf_enum(f: FieldSpec, rename: FieldRename, w: Seq<char>, m: Seq<char>) -> (body: Seq<char>)
    requires
        json_word(w, m),
        field_free(f, w),
        !occurs(json_key(f.name, rename), w),
        !f.is_generic_param && f.resolved_kind == ResolvedKind::Enum,
    ensures
        guarded(body, w),
        from_json_field(f, rename) + ",\n"@ == f.name + body,
{
    lemma_json_markers(m);
    reveal_strlit(",\n");
    reveal_strlit("'] as String) : null");
    reveal_strlit("'] as String)");
    reveal_strlit(".values.byName(json['");
    reveal_strlit("'] != null ? ");
    reveal_strlit(": json['");
    reveal_strlit(": ");
    let k = json_key(f.name, rename);
    let dt = f.dart_type;
    let r0 = ",\n"@;
    lemma_lit(r0, w, m);
    if f.is_nullable {
        let l1 = "'] as String) : null"@;
        lemma_open_lit_then(l1, r0, w, m);
        lemma_then(k, l1 + r0, w);
        lemma_lit_then(".values.byName(json['"@, k + (l1 + r0), w, m);
        let t3 = ".values.byName(json['"@ + (k + (l1 + r0));
        lemma_then(dt, t3, w);
        lemma_lit_then("'] != null ? "@, dt + t3, w, m);
        let t5 = "'] != null ? "@ + (dt + t3);
        lemma_then(k, t5, w);
        lemma_lit_then(": json['"@, k + t5, w, m);
        let body = ": json['"@ + (k + t5);
        assert(from_json_field(f, rename) + r0 =~= f.name + body);
        body
    } else {
        let l1 = "'] as String)"@;
        lemma_lit_then(l1, r0, w, m);
        lemma_then(k, l1 + r0, w);
        lemma_lit_then(".values.byName(json['"@, k + (l1 + r0), w, m);
        let t3 = ".values.byName(json['"@ + (k + (l1 + r0));
        lemma_then(dt, t3, w);
        lemma_lit_then(": "@, dt + t3, w, m);
        let body = ": "@ + (dt + t3);
        assert(from_json_field(f, rename) + r0 =~= f.name + body);
        body
    }
}

/// The `fromJson` argument of a field of any other type, after the name.
#[verifier::spinoff_prover]
#[verifier::rlimit(60)]
proof fn lemma_fjf_external(f: FieldSpec, rename: FieldRename, w: Seq<char>, m: Seq<char>) -> (body: Seq<char>)
    requires
        json_word(w, m),
        field_free(f, w),
        !occurs(json_key(f.name, rename), w),
        !f.is_generic_param && f.resolved_kind == ResolvedKind::External,
    ensures
        guarded(body, w),
        from_json_field(f, rename) + ",\n"@ == f.name + body,
{
    lemma_json_markers(m);
    reveal_strlit(",\n");
    reveal_strlit("'] as ");
    reveal_strlit(": json['");
    let k = json_key(f.name, rename);
    let dt = f.dart_type;
    let r0 = ",\n"@;
    lemma_lit(r0, w, m);
    lemma_type_then(f, r0, w, m);
    lemma_lit_then("'] as "@, type_string(f) + r0, w, m);
    lemma_then(k, "'] as "@ + (type_string(f) + r0), w);
    lemma_lit_then(": json['"@, k + ("'] as "@ + (type_string(f) + r0)), w, m);
    let body = ": json['"@ + (k + ("'] as "@ + (type_string(f) + r0)));
    assert(from_json_field(f, rename) + r0 =~= f.name + body);
    body
}

/// The `fromJson` argument line of a field whose name, type and JSON key hold no
/// `w` is guarded.
proof fn lemma_from_json_line(f: FieldSpec, rename: FieldRename, w: Seq<char>, m: Seq<char>)
    requires
        json_word(w, m),
        field_free(f, w),
        !occurs(json_key(f.name, rename), w),
    ensures
        guarded(from_json_line(rename)(f), w),
{
    lemma_json_markers(m);
    reveal_strlit("    ");
    let body = if f.is_generic_param {
        lemma_fjf_generic(f, rename, w, m)
    } else {
        match f.resolved_kind {
            ResolvedKind::AnnotatedClass => lemma_fjf_class(f, rename, w, m),
            ResolvedKind::Enum => lemma_fjf_enum(f, rename, w, m),
            ResolvedKind::External => lemma_fjf_external(f, rename, w, m),
        }
    };
    lemma_then(f.name, body, w);
    lemma_lit_then("    "@, f.name + body, w, m);
    assert(from_json_line(rename)(f) =~= "    "@ + (f.name + body));
}

/// A field's JSON value followed by guarded text is closed.
proof fn lemma_value_then(f: FieldSpec, r: Seq<char>, nullable: bool, w: Seq<char>, m: Seq<char>)
    requires
        json_word(w, m),
        field_free(f, w),
        guarded(r, w),
    ensures
        closed_text(
            (if nullable {
                json_value_nullable(f)
            } else {
                json_value(f)
            }) + r,
            w,
        ),
{
    lemma_json_markers(m);
    reveal_strlit(".toJson()");
    reveal_strlit(".name");
    reveal_strlit("?.toJson()");
    reveal_strlit("?.name");
    let n = f.name;
    let v = if nullable {
        json_value_nullable(f)
    } else {
        json_value(f)
    };
    match f.resolved_kind {
        ResolvedKind::AnnotatedClass => {
            let l = if nullable {
                "?.toJson()"@
            } else {
                ".toJson()"@
            };
            lemma_lit_then(l, r, w, m);
            lemma_then(n, l + r, w);
            assert(v + r =~= n + (l + r));
        },
        ResolvedKind::Enum => {
            let l = if nullable {
                "?.name"@
            } else {
                ".name"@
            };
            lemma_open_lit_then(l, r, w, m);
            lemma_then(n, l + r, w);
            assert(v + r =~= n + (l + r));
        },
        ResolvedKind::External => {
            lemma_then(n, r, w);
        },
    }
}

/// The `toJson` entries of a field whose name, type and JSON key hold no `copyWith`
/// are closed.
#[verifier::spinoff_prover]
#[verifier::rlimit(60)]
proof fn lemma_to_json_entries(f: FieldSpec, rename: FieldRename, w: Seq<char>, m: Seq<char>)
    requires
        json_word(w, m),
        field_free(f, w),
        !occurs(json_key(f.name, rename), w),
    ensures
        closed_text(to_json_entry(rename)(f), w),
        m == "W"@ ==> closed_text(to_json_required_entry(rename)(f), w),
        m == "W"@ ==> closed_text(to_json_optional_entry(rename)(f), w),
{
    lemma_json_markers(m);
    reveal_strlit(",\n");
    reveal_strlit(";\n");
    reveal_strlit("': ");
    reveal_strlit("    '");
    reveal_strlit("      '");
    reveal_strlit("    if (");
    reveal_strlit(" != null) map['");
    reveal_strlit("'] = ");
    let k = json_key(f.name, rename);
    let n = f.name;
    lemma_lit(",\n"@, w, m);
    lemma_lit(";\n"@, w, m);
    lemma_value_then(f, ",\n"@, f.is_nullable, w, m);
    let v = if f.is_nullable {
        json_value_nullable(f)
    } else {
        json_value(f)
    };
    lemma_lit_then("': "@, v + ",\n"@, w, m);
    lemma_then(k, "': "@ + (v + ",\n"@), w);
    lemma_lit_then("    '"@, k + ("': "@ + (v + ",\n"@)), w, m);
    assert(to_json_entry(rename)(f) =~= "    '"@ + (k + ("': "@ + (v + ",\n"@))));
    if m != "W"@ {
    } else if !f.is_nullable {
        lemma_lit_then("      '"@, k + ("': "@ + (v + ",\n"@)), w, m);
        assert(to_json_required_entry(rename)(f) =~= "      '"@ + (k + ("': "@ + (v + ",\n"@))));
    } else {
        let vn = json_value_nullable(f);
        lemma_value_then(f, ";\n"@, true, w, m);
        lemma_lit_then("'] = "@, vn + ";\n"@, w, m);
        lemma_then(k, "'] = "@ + (vn + ";\n"@), w);
        lemma_lit_then(" != null) map['"@, k + ("'] = "@ + (vn + ";\n"@)), w, m);
        lemma_then(n, " != null) map['"@ + (k + ("'] = "@ + (vn + ";\n"@))), w);
        lemma_lit_then("    if ("@, n + (" != null) map['"@ + (k + ("'] = "@ + (vn + ";\n"@)))), w, m);
        assert(to_json_optional_entry(rename)(f) =~= "    if ("@ + (n + (" != null) map['"@ + (k + ("'] = "@ + (vn
            + ";\n"@))))));
    }
}

/// No field's JSON key under `rename` holds `w`.
pub open spec fn keys_free(fields: Seq<FieldSpec>, rename: FieldRename, w: Seq<char>) -> bool {
    forall|i: int| 0 <= i < fields.len() ==> !occurs(#[trigger] json_key(fields[i].name, rename), w)
}

/// The `fromJson` factory is guarded for `copyWith`.
#[verifier::spinoff_prover]
#[verifier::rlimit(60)]
proof fn lemma_from_json_factory(c: ClassSpec, o: VeltroOptions, w: Seq<char>, m: Seq<char>)
    requires
        json_word(w, m),
        class_free(c, w),
        keys_free(c.fields, o.field_rename, w),
    ensures
        guarded(from_json_factory(c, o), w),
{
    lemma_json_markers(m);
    reveal_strlit("  );\n");
    reveal_strlit("(\n");
    reveal_strlit(") => _");
    reveal_strlit(".fromJson(Map<String, dynamic> json");
    reveal_strlit("\n  factory _");
    let n = c.name;
    let piece = from_json_line(o.field_rename);
    assert forall|i: int| 0 <= i < c.fields.len() implies closed_text(#[trigger] piece(c.fields[i]), w) by {
        assert(field_free(c.fields[i], w));
        assert(!occurs(json_key(c.fields[i].name, o.field_rename), w));
        lemma_from_json_line(c.fields[i], o.field_rename, w, m);
    }
    lemma_over_closed(c.fields, piece, w);
    let fl = over_fields(c.fields, piece);
    lemma_lit("  );\n"@, w, m);
    lemma_cat(fl, "  );\n"@, w);
    let t2 = "(\n"@ + (fl + "  );\n"@);
    lemma_lit_then("(\n"@, fl + "  );\n"@, w, m);
    lemma_then(n, t2, w);
    let t4 = ") => _"@ + (n + t2);
    lemma_lit_then(") => _"@, n + t2, w, m);
    lemma_generic_params_then(c.generics, t4, false, w, m);
    let t5 = over_generics(c.generics, generic_param()) + t4;
    lemma_open_lit_then(".fromJson(Map<String, dynamic> json"@, t5, w, m);
    let t6 = ".fromJson(Map<String, dynamic> json"@ + t5;
    lemma_then(n, t6, w);
    lemma_lit_then("\n  factory _"@, n + t6, w, m);
    assert(from_json_factory(c, o) =~= "\n  factory _"@ + (n + t6));
}

/// The implemented `toJson` is guarded for `copyWith`.
#[verifier::spinoff_prover]
#[verifier::rlimit(60)]
proof fn lemma_to_json_impl(c: ClassSpec, o: VeltroOptions, w: Seq<char>, m: Seq<char>)
    requires
        json_word(w, m),
        class_free(c, w),
        keys_free(c.fields, o.field_rename, w),
        m == "ma"@ || m == ">{"@ ==> o.include_if_null,
    ensures
        guarded(to_json_impl(c, o), w),
{
    let r = o.field_rename;
    lemma_json_markers(m);
    assert forall|i: int| 0 <= i < c.fields.len() implies closed_text(#[trigger] to_json_entry(r)(c.fields[i]), w) by {
        assert(field_free(c.fields[i], w));
        assert(!occurs(json_key(c.fields[i].name, r), w));
        lemma_to_json_entries(c.fields[i], r, w, m);
    }
    if o.include_if_null {
        reveal_strlit("\n  @override\n  Map<String, dynamic> toJson() => {\n");
        reveal_strlit("  };\n");
        lemma_over_closed(c.fields, to_json_entry(r), w);
        let e = over_fields(c.fields, to_json_entry(r));
        lemma_lit("  };\n"@, w, m);
        lemma_cat(e, "  };\n"@, w);
        lemma_lit_then("\n  @override\n  Map<String, dynamic> toJson() => {\n"@, e + "  };\n"@, w, m);
        assert(to_json_impl(c, o) =~= "\n  @override\n  Map<String, dynamic> toJson() => {\n"@ + (e + "  };\n"@));
    } else {
        let l = "\n  @override\n  Map<String, dynamic> toJson() {\n    final map = <String, dynamic>{\n"@;
        reveal_strlit("\n  @override\n  Map<String, dynamic> toJson() {\n    final map = <String, dynamic>{\n");
        reveal_strlit("    };\n");
        reveal_strlit("    return map;\n  }\n");
        assert forall|i: int| 0 <= i < c.fields.len() implies closed_text(
            #[trigger] to_json_required_entry(r)(c.fields[i]),
            w,
        ) by {
            assert(field_free(c.fields[i], w));
            assert(!occurs(json_key(c.fields[i].name, r), w));
            lemma_to_json_entries(c.fields[i], r, w, m);
        }
        assert forall|i: int| 0 <= i < c.fields.len() implies closed_text(
            #[trigger] to_json_optional_entry(r)(c.fields[i]),
            w,
        ) by {
            assert(field_free(c.fields[i], w));
            assert(!occurs(json_key(c.fields[i].name, r), w));
            lemma_to_json_entries(c.fields[i], r, w, m);
        }
        lemma_over_closed(c.fields, to_json_required_entry(r), w);
        lemma_over_closed(c.fields, to_json_optional_entry(r), w);
        let re = over_fields(c.fields, to_json_required_entry(r));
        let oe = over_fields(c.fields, to_json_optional_entry(r));
        let ret = "    return map;\n  }\n"@;
        lemma_lit(ret, w, m);
        lemma_cat(oe, ret, w);
        lemma_lit_then("    };\n"@, oe + ret, w, m);
        lemma_cat(re, "    };\n"@ + (oe + ret), w);
        lemma_lit_then(l, re + ("    };\n"@ + (oe + ret)), w, m);
        assert(to_json_impl(c, o) =~= l + (re + ("    };\n"@ + (oe + ret))));
    }
}

/// The part of the generic JSON extension after `static` and the name.
#[verifier::spinoff_prover]
#[verifier::rlimit(100)]
proof fn lemma_generic_static_tail(c: ClassSpec, w: Seq<char>, m: Seq<char>) -> (r: Seq<char>)
    requires
        json_word(w, m),
        class_free(c, w),
        c.generics.len() > 0,
    ensures
        guarded(r, w),
        r =~= " fromJson"@ + generics_decl(c) + "(Map<String, dynamic> json"@ + over_generics(c.generics, generic_param())
            + ") =>\n      _"@ + c.name + generics_decl(c) + ".fromJson(json"@ + over_generics(c.generics, generic_arg())
            + ");\n"@ + "}\n"@,
{
    lemma_json_markers(m);
    reveal_strlit("}\n");
    reveal_strlit(");\n");
    reveal_strlit(".fromJson(json");
    reveal_strlit(") =>\n      _");
    reveal_strlit("(Map<String, dynamic> json");
    reveal_strlit(" fromJson");
    let n = c.name;
    let gd = generics_decl(c);
    lemma_lit("}\n"@, w, m);
    lemma_lit_then(");\n"@, "}\n"@, w, m);
    let u1 = ");\n"@ + "}\n"@;
    lemma_generic_params_then(c.generics, u1, true, w, m);
    let u2 = over_generics(c.generics, generic_arg()) + u1;
    lemma_open_lit_then(".fromJson(json"@, u2, w, m);
    let u3 = ".fromJson(json"@ + u2;
    lemma_generics_then(c, u3, w, m);
    lemma_then(n, gd + u3, w);
    lemma_lit_then(") =>\n      _"@, n + (gd + u3), w, m);
    let u6 = ") =>\n      _"@ + (n + (gd + u3));
    lemma_generic_params_then(c.generics, u6, false, w, m);
    let u7 = over_generics(c.generics, generic_param()) + u6;
    lemma_open_lit_then("(Map<String, dynamic> json"@, u7, w, m);
    let u8 = "(Map<String, dynamic> json"@ + u7;
    lemma_generics_then(c, u8, w, m);
    lemma_open_lit_then(" fromJson"@, gd + u8, w, m);
    " fromJson"@ + (gd + u8)
}

/// The JSON extension of a class without type parameters is guarded for `copyWith`.
#[verifier::spinoff_prover]
#[verifier::rlimit(100)]
proof fn lemma_json_extension_plain(c: ClassSpec, w: Seq<char>, m: Seq<char>)
    requires
        json_word(w, m),
        class_free(c, w),
        c.generics.len() == 0,
    ensures
        guarded(json_extension(c), w),
{
    lemma_json_markers(m);
    reveal_strlit(" {\n");
    reveal_strlit("  // ignore: unused_element\n");
    reveal_strlit("  static ");
    reveal_strlit("\nextension _$");
    reveal_strlit("}\n");
    reveal_strlit(".fromJson(json);\n");
    reveal_strlit(" fromJson(Map<String, dynamic> json) =>\n      _");
    reveal_strlit("JsonExtension on ");
    let n = c.name;
    let ign = "  // ignore: unused_element\n"@;
    lemma_lit("}\n"@, w, m);
    lemma_lit_then(".fromJson(json);\n"@, "}\n"@, w, m);
    let t1 = ".fromJson(json);\n"@ + "}\n"@;
    lemma_then(n, t1, w);
    let l3 = " fromJson(Map<String, dynamic> json) =>\n      _"@;
    lemma_lit_then(l3, n + t1, w, m);
    let t3 = l3 + (n + t1);
    lemma_then(n, t3, w);
    lemma_lit_then("  static "@, n + t3, w, m);
    let t5 = "  static "@ + (n + t3);
    lemma_lit_then(ign, t5, w, m);
    lemma_lit_then(" {\n"@, ign + t5, w, m);
    let t7 = " {\n"@ + (ign + t5);
    lemma_then(n, t7, w);
    let je = "JsonExtension on "@;
    lemma_no_marker(je, w, m);
    lemma_free_cat(je, n + t7, w);
    let t9 = je + (n + t7);
    assert(t9.last() == (n + t7).last());
    lemma_junction(n, t9, w);
    assert(t9[0] == 'J');
    assert((n + t9).last() == t9.last());
    lemma_lit_then("\nextension _$"@, n + t9, w, m);
    assert(json_extension(c) =~= "\nextension _$"@ + (n + t9));
}

/// The static part of the generic JSON extension, from `  static ` on.
#[verifier::spinoff_prover]
#[verifier::rlimit(60)]
proof fn lemma_generic_static_part(c: ClassSpec, w: Seq<char>, m: Seq<char>) -> (r: Seq<char>)
    requires
        json_word(w, m),
        class_free(c, w),
        c.generics.len() > 0,
    ensures
        guarded(r, w),
        r =~= "  static "@ + c.name + generics_decl(c) + " fromJson"@ + generics_decl(c) + "(Map<String, dynamic> json"@
            + over_generics(c.generics, generic_param()) + ") =>\n      _"@ + c.name + generics_decl(c) + ".fromJson(json"@
            + over_generics(c.generics, generic_arg()) + ");\n"@ + "}\n"@,
{
    lemma_json_markers(m);
    reveal_strlit("  static ");
    let n = c.name;
    let gd = generics_decl(c);
    let u10 = lemma_generic_static_tail(c, w, m);
    lemma_generics_then(c, u10, w, m);
    lemma_then(n, gd + u10, w);
    lemma_lit_then("  static "@, n + (gd + u10), w, m);
    "  static "@ + (n + (gd + u10))
}

/// The JSON extension of a class with type parameters is guarded.
#[verifier::spinoff_prover]
#[verifier::rlimit(100)]
proof fn lemma_json_extension_generic(c: ClassSpec, w: Seq<char>, m: Seq<char>)
    requires
        json_word(w, m),
        class_free(c, w),
        c.generics.len() > 0,
    ensures
        guarded(json_extension(c), w),
{
    lemma_json_markers(m);
    reveal_strlit(" {\n");
    reveal_strlit("  // ignore: unused_element\n");
    reveal_strlit("\nextension _$");
    reveal_strlit(" on ");
    reveal_strlit("JsonExtension");
    let n = c.name;
    let ign = "  // ignore: unused_element\n"@;
    let gd = generics_decl(c);
    let u13 = lemma_generic_static_part(c, w, m);
    lemma_lit_then(ign, u13, w, m);
    lemma_lit_then(" {\n"@, ign + u13, w, m);
    let u15 = " {\n"@ + (ign + u13);
    lemma_generics_then(c, u15, w, m);
    lemma_then(n, gd + u15, w);
    lemma_lit_then(" on "@, n + (gd + u15), w, m);
    let u18 = " on "@ + (n + (gd + u15));
    lemma_generics_then(c, u18, w, m);
    let u19 = gd + u18;
    let je = "JsonExtension"@;
    lemma_no_marker(je, w, m);
    lemma_free_cat(je, u19, w);
    let u20 = je + u19;
    assert(u20.last() == u19.last());
    lemma_junction(n, u20, w);
    assert(u20[0] == 'J');
    assert((n + u20).last() == u20.last());
    lemma_lit_then("\nextension _$"@, n + u20, w, m);
    assert(json_extension(c) =~= "\nextension _$"@ + (n + u20));
}

/// With `json` on, what follows the class head holds a JSON word only where the
/// class's names, types and JSON keys do.
#[verifier::spinoff_prover]
#[verifier::rlimit(60)]
proof fn lemma_json_after_head(c: ClassSpec, o: VeltroOptions, w: Seq<char>, m: Seq<char>) -> (r: Seq<char>)
    requires
        json_word(w, m),
        class_free(c, w),
        keys_free(c.fields, o.field_rename, w),
        o.json,
        o.create_copy_with ==> m != "W"@,
        m == "ma"@ || m == ">{"@ ==> o.include_if_null,
    ensures
        closed_text(r, w),
        r == from_json_factory(c, o) + ((if o.create_copy_with {
            copy_with_impl(c)
        } else {
            Seq::empty()
        }) + (to_json_impl(c, o) + (class_tail(c) + json_extension(c)))),
{
    lemma_json_markers(m);
    lemma_from_json_factory(c, o, w, m);
    lemma_to_json_impl(c, o, w, m);
    lemma_class_tail(c, w, m);
    if c.generics.len() == 0 {
        lemma_json_extension_plain(c, w, m);
    } else {
        lemma_json_extension_generic(c, w, m);
    }
    let cwi = if o.create_copy_with {
        copy_with_impl(c)
    } else {
        Seq::empty()
    };
    if o.create_copy_with {
        lemma_copy_with_impl(c, w, m);
    }
    let fj = from_json_factory(c, o);
    let tj = to_json_impl(c, o);
    let t = class_tail(c);
    let ext = json_extension(c);
    lemma_cat(t, ext, w);
    lemma_cat(tj, t + ext, w);
    lemma_cat(cwi, tj + (t + ext), w);
    lemma_cat(fj, cwi + (tj + (t + ext)), w);
    fj + (cwi + (tj + (t + ext)))
}

/// With `json` on, the generated code holds a JSON word only where the class's
/// names, types and JSON keys do (for `copyWith` when `copyWith` is off; for `map`
/// when null values are included).
#[verifier::spinoff_prover]
#[verifier::rlimit(100)]
proof fn lemma_json_dart_without(c: ClassSpec, o: VeltroOptions, w: Seq<char>, m: Seq<char>)
    requires
        json_word(w, m),
        class_free(c, w),
        keys_free(c.fields, o.field_rename, w),
        o.json,
        o.create_copy_with ==> m != "W"@,
        m == "ma"@ || m == ">{"@ ==> o.include_if_null,
    ensures
        !contains(veltro_dart(c, o), w),
{
    lemma_json_markers(m);
    reveal_strlit("\n");
    lemma_mixin(c, o, w, m);
    lemma_class_head(c, w, m);
    let rest = lemma_json_after_head(c, o, w, m);
    let mx = mixin_section(c, o);
    let h = class_head(c);
    lemma_cat(h, rest, w);
    lemma_cat(mx, h + rest, w);
    lemma_lit_then("\n"@, mx + (h + rest), w, m);
    lemma_veltro_dart_split(c, o);
    assert(dart_after_head(c, o) =~= rest);
    assert(veltro_dart(c, o) =~= "\n"@ + (mx + (h + rest)));
    lemma_contains_occurs(veltro_dart(c, o), w);
}

/// The members that the options ask for are generated exactly when they ask for
/// them: `toJson`, `fromJson` and the JSON extension appear exactly when `json` is
/// on, and `copyWith` exactly when `copyWith` is on. This holds of every class
/// whose names and types hold none of these words. For a renamed field whose name
/// is not ASCII, the law asks too that its JSON key hold no `copyWith`: such a key
/// comes from std's Unicode case mapping, of which nothing is stated here.
pub proof fn lemma_option_words(c: ClassSpec, o: VeltroOptions)
    requires
        class_free(c, "toJson"@),
        class_free(c, "fromJson"@),
        class_free(c, "extension"@),
        class_free(c, "copyWith"@),
        o.json && o.field_rename != FieldRename::Unchanged ==> forall|i: int|
            0 <= i < c.fields.len() ==> is_ascii_text(c.fields[i].name) || !contains(
                #[trigger] json_key(c.fields[i].name, o.field_rename),
                "copyWith"@,
            ),
    ensures
        contains(veltro_dart(c, o), "toJson"@) <==> o.json,
        contains(veltro_dart(c, o), "fromJson"@) <==> o.json,
        contains(veltro_dart(c, o), "extension _$"@) <==> o.json,
        contains(veltro_dart(c, o), "copyWith"@) <==> o.create_copy_with,
{
    lemma_option_members(c, o);
    lemma_to_json_form(c, o);
    lemma_from_json_present(c, o);
    lemma_marked_words();
    lemma_w_marker();
    if !o.json {
        lemma_dart_without(c, o, "toJson"@, "J"@);
        lemma_dart_without(c, o, "fromJson"@, "J"@);
        lemma_dart_without(c, o, "extension"@, "xt"@);
        let d = veltro_dart(c, o);
        reveal_strlit("extension _$");
        reveal_strlit("extension");
        lemma_contains_occurs(d, "extension _$"@);
        lemma_contains_occurs(d, "extension"@);
        if occurs(d, "extension _$"@) {
            assert("extension _$"@.subrange(0, 9) =~= "extension"@);
            assert(matches_at("extension _$"@, "extension"@, 0));
            lemma_occurs_through(d, "extension _$"@, "extension"@);
        }
        if !o.create_copy_with {
            lemma_dart_without(c, o, "copyWith"@, "W"@);
        }
    } else if !o.create_copy_with {
        assert forall|i: int| 0 <= i < c.fields.len() implies !occurs(
            #[trigger] json_key(c.fields[i].name, o.field_rename),
            "copyWith"@,
        ) by {
            assert(field_free(c.fields[i], "copyWith"@));
            lemma_contains_occurs(json_key(c.fields[i].name, o.field_rename), "copyWith"@);
            if is_ascii_text(c.fields[i].name) {
                lemma_ascii_key_free(c.fields[i].name, o.field_rename);
            }
        }
        lemma_json_markers("W"@);
        lemma_json_dart_without(c, o, "copyWith"@, "W"@);
    }
}

/// `toJson` starts from `final map = <String, dynamic>{` exactly when `json` is on
/// and null values are left out. This holds of every class whose names, types, type
/// arguments and default values hold no `>{`, and, for a renamed field whose name is
/// not ASCII, whose JSON key holds none either (such a key comes from std's Unicode
/// case mapping, of which nothing is stated here). Where such a string holds `>{`,
/// the text can come in whatever the options: a field of type
/// `map = <String, dynamic>{}` brings it, since every field type is written after
/// `@override final `.
#[verifier::spinoff_prover]
#[verifier::rlimit(60)]
pub proof fn lemma_map_literal_words(c: ClassSpec, o: VeltroOptions)
    requires
        class_free(c, ">{"@),
        o.json && o.field_rename != FieldRename::Unchanged ==> forall|i: int|
            0 <= i < c.fields.len() ==> is_ascii_text(c.fields[i].name) || !contains(
                #[trigger] json_key(c.fields[i].name, o.field_rename),
                ">{"@,
            ),
    ensures
        contains(veltro_dart(c, o), "final map = <String, dynamic>{"@) <==> o.json && !o.include_if_null,
{
    let lit = "final map = <String, dynamic>{"@;
    let w = ">{"@;
    let d = veltro_dart(c, o);
    lemma_to_json_form(c, o);
    lemma_marked_words();
    lemma_json_markers(w);
    if !o.json || o.include_if_null {
        if !o.json {
            lemma_dart_without(c, o, w, w);
        } else {
            assert forall|i: int| 0 <= i < c.fields.len() implies !occurs(
                #[trigger] json_key(c.fields[i].name, o.field_rename),
                w,
            ) by {
                assert(field_free(c.fields[i], w));
                lemma_contains_occurs(json_key(c.fields[i].name, o.field_rename), w);
                if is_ascii_text(c.fields[i].name) {
                    lemma_ascii_key_brace_free(c.fields[i].name, o.field_rename);
                }
            }
            lemma_json_dart_without(c, o, w, w);
        }
        reveal_strlit("final map = <String, dynamic>{");
        reveal_strlit(">{");
        lemma_contains_occurs(d, lit);
        lemma_contains_occurs(d, w);
        if occurs(d, lit) {
            assert(lit.subrange(28, 30) =~= w);
            assert(matches_at(lit, w, 28));
            lemma_occurs_through(d, lit, w);
        }
    }
}

// ───────────────────────────── JSON keys of ASCII names ─────────────────────────────

/// Text without the character `x`, which `w` holds, holds no `w`.
proof fn lemma_without_char(s: Seq<char>, w: Seq<char>, x: char)
    requires
        occurs(w, seq![x]),
        forall|i: int| 0 <= i < s.len() ==> s[i] != x,
    ensures
        !occurs(s, w),
{
    if occurs(s, w) {
        lemma_occurs_through(s, w, seq![x]);
        let i = choose|i: int| #[trigger] matches_at(s, seq![x], i);
        assert(s.subrange(i, i + 1)[0] == s[i]);
    }
}

/// Replacing with text that lacks `x`, in text that lacks `x`, gives text that
/// lacks `x`.
proof fn lemma_replace_avoids(s: Seq<char>, from: Seq<char>, to: Seq<char>, x: char)
    requires
        forall|i: int| 0 <= i < s.len() ==> s[i] != x,
        forall|i: int| 0 <= i < to.len() ==> to[i] != x,
    ensures
        forall|i: int| 0 <= i < replace(s, from, to).len() ==> replace(s, from, to)[i] != x,
    decreases s.len(),
{
    if from.len() > 0 {
        match find(s, from) {
            None => {},
            Some(i) => {
                lemma_find_from_bounds(s, from, 0);
                let rest = s.subrange(i + from.len(), s.len() as int);
                lemma_replace_avoids(rest, from, to, x);
                let r = replace(s, from, to);
                let a = s.subrange(0, i);
                assert(r == a + to + replace(rest, from, to));
                assert forall|k: int| 0 <= k < r.len() implies r[k] != x by {
                    if k < a.len() {
                    } else if k < a.len() + to.len() {
                        assert(r[k] == to[k - a.len()]);
                    } else {
                        assert(r[k] == replace(rest, from, to)[k - a.len() - to.len()]);
                    }
                }
            },
        }
    }
}

/// The JSON key of an ASCII name that holds no `copyWith` holds none either, under
/// every rename rule: snake and kebab case hold no `W`, screaming snake case and the
/// capital of Pascal case no `c`.
proof fn lemma_ascii_key_free(name: Seq<char>, rename: FieldRename)
    requires
        is_ascii_text(name),
        !occurs(name, "copyWith"@),
    ensures
        !occurs(json_key(name, rename), "copyWith"@),
{
    let w = "copyWith"@;
    reveal_strlit("copyWith");
    assert(w.subrange(4, 5) =~= seq!['W']);
    assert(matches_at(w, seq!['W'], 4));
    assert(w.subrange(0, 1) =~= seq!['c']);
    assert(matches_at(w, seq!['c'], 0));
    let k = json_key(name, rename);
    assert(k == ascii_json_key(name, rename));
    match rename {
        FieldRename::Unchanged => {},
        FieldRename::Snake => {
            lemma_ascii_snake_idempotent(name);
            let t = ascii_snake(name);
            assert forall|i: int| 0 <= i < t.len() implies t[i] != 'W' by {
                assert(!('A' <= t[i] && t[i] <= 'Z'));
            }
            lemma_without_char(k, w, 'W');
        },
        FieldRename::Kebab => {
            lemma_ascii_snake_idempotent(name);
            let t = ascii_snake(name);
            assert forall|i: int| 0 <= i < t.len() implies t[i] != 'W' by {
                assert(!('A' <= t[i] && t[i] <= 'Z'));
            }
            lemma_replace_avoids(t, seq!['_'], seq!['-'], 'W');
            lemma_without_char(k, w, 'W');
        },
        FieldRename::ScreamingSnake => {
            let t = ascii_snake(name);
            assert forall|i: int| 0 <= i < k.len() implies k[i] != 'c' by {
                assert(k[i] == ascii_upper(t[i]));
            }
            lemma_without_char(k, w, 'c');
        },
        FieldRename::Pascal => {
            if name.len() > 0 {
                let head = seq![ascii_upper(name[0])];
                let rest = name.drop_first();
                assert(k == head + rest);
                assert(name =~= seq![name[0]] + rest);
                lemma_occurs_in_part(seq![name[0]], rest, w);
                if occurs(k, w) {
                    let i = choose|i: int| #[trigger] matches_at(k, w, i);
                    if i == 0 {
                        assert(k.subrange(0, 8)[0] == k[0]);
                        assert(w[0] == 'c');
                    } else {
                        assert(rest.subrange(i - 1, i - 1 + 8) =~= k.subrange(i, i + 8));
                        assert(matches_at(rest, w, i - 1));
                    }
                }
            }
        },
    }
}

/// No `>` right before a `{`.
pub open spec fn lacks_brace_pair(s: Seq<char>) -> bool {
    forall|i: int| 0 <= i < s.len() - 1 ==> !(#[trigger] s[i] == '>' && s[i + 1] == '{')
}

/// Text without `>{` holds no `>{`.
proof fn lemma_brace_pair_free(s: Seq<char>)
    requires
        lacks_brace_pair(s),
    ensures
        !occurs(s, ">{"@),
{
    reveal_strlit(">{");
    if occurs(s, ">{"@) {
        let i = choose|i: int| #[trigger] matches_at(s, ">{"@, i);
        assert(s.subrange(i, i + 2)[0] == s[i]);
        assert(s.subrange(i, i + 2)[1] == s[i + 1]);
    }
}

/// Text with `>{` holds `>{`.
proof fn lemma_brace_pair_found(s: Seq<char>)
    requires
        !occurs(s, ">{"@),
    ensures
        lacks_brace_pair(s),
{
    reveal_strlit(">{");
    assert forall|i: int| 0 <= i < s.len() - 1 implies !(#[trigger] s[i] == '>' && s[i + 1] == '{') by {
        if s[i] == '>' && s[i + 1] == '{' {
            assert(s.subrange(i, i + 2) =~= ">{"@);
            assert(matches_at(s, ">{"@, i));
        }
    }
}

/// Snake case of the first `n` characters of a name without `>{` holds none, and
/// ends with the lowercase of the `n`-th character.
proof fn lemma_snake_brace_pair(name: Seq<char>, n: int)
    requires
        lacks_brace_pair(name),
        0 <= n <= name.len(),
    ensures
        lacks_brace_pair(ascii_snake_upto(name, n)),
        n > 0 ==> ascii_snake_upto(name, n).len() > 0 && ascii_snake_upto(name, n).last() == ascii_lower(name[n - 1]),
    decreases n,
{
    if n > 0 {
        lemma_snake_brace_pair(name, n - 1);
        let prev = ascii_snake_upto(name, n - 1);
        let c = name[n - 1];
        let piece = (if 'A' <= c && c <= 'Z' && n - 1 != 0 {
            seq!['_']
        } else {
            Seq::<char>::empty()
        }).push(ascii_lower(c));
        let all = ascii_snake_upto(name, n);
        assert(all == prev + piece);
        assert forall|i: int| 0 <= i < all.len() - 1 implies !(#[trigger] all[i] == '>' && all[i + 1] == '{') by {
            if i + 1 < prev.len() {
                assert(all[i] == prev[i] && all[i + 1] == prev[i + 1]);
            } else if i + 1 == prev.len() {
                assert(all[i] == prev.last());
                assert(all[i + 1] == piece[0]);
                if all[i] == '>' && all[i + 1] == '{' {
                    assert(name[n - 2] == '>');
                    assert(c == '{');
                }
            } else {
                assert(all[i] == piece[i - prev.len()]);
                assert(all[i + 1] == piece[i + 1 - prev.len()]);
            }
        }
    }
}

/// Replacing with text that neither starts with `{` nor ends with `>` and holds no
/// `>{`, in text without `>{`, leaves no `>{`.
proof fn lemma_replace_brace_pair(s: Seq<char>, from: Seq<char>, to: Seq<char>)
    requires
        lacks_brace_pair(s),
        lacks_brace_pair(to),
        to.len() > 0,
        to[0] != '{',
        to.last() != '>',
    ensures
        lacks_brace_pair(replace(s, from, to)),
    decreases s.len(),
{
    if from.len() > 0 {
        match find(s, from) {
            None => {},
            Some(i) => {
                lemma_find_from_bounds(s, from, 0);
                let rest = s.subrange(i + from.len(), s.len() as int);
                assert forall|j: int| 0 <= j < rest.len() - 1 implies !(#[trigger] rest[j] == '>' && rest[j + 1] == '{') by {
                    assert(rest[j] == s[j + i + from.len()] && rest[j + 1] == s[j + 1 + i + from.len()]);
                }
                lemma_replace_brace_pair(rest, from, to);
                let a = s.subrange(0, i);
                let t = replace(rest, from, to);
                let r = replace(s, from, to);
                assert(r == a + to + t);
                assert forall|k: int| 0 <= k < r.len() - 1 implies !(#[trigger] r[k] == '>' && r[k + 1] == '{') by {
                    if k + 1 < a.len() {
                        assert(r[k] == s[k] && r[k + 1] == s[k + 1]);
                    } else if k + 1 == a.len() {
                        assert(r[k + 1] == to[0]);
                    } else if k + 1 < a.len() + to.len() {
                        assert(r[k] == to[k - a.len()] && r[k + 1] == to[k + 1 - a.len()]);
                    } else if k + 1 == a.len() + to.len() {
                        assert(r[k] == to.last());
                    } else {
                        assert(r[k] == t[k - a.len() - to.len()] && r[k + 1] == t[k + 1 - a.len() - to.len()]);
                    }
                }
            },
        }
    }
}

/// The JSON key of an ASCII name without `>{` holds none, under every rename rule.
proof fn lemma_ascii_key_brace_free(name: Seq<char>, rename: FieldRename)
    requires
        is_ascii_text(name),
        !occurs(name, ">{"@),
    ensures
        !occurs(json_key(name, rename), ">{"@),
{
    lemma_brace_pair_found(name);
    let k = json_key(name, rename);
    assert(k == ascii_json_key(name, rename));
    lemma_snake_brace_pair(name, name.len() as int);
    let t = ascii_snake(name);
    match rename {
        FieldRename::Unchanged => {},
        FieldRename::Snake => {},
        FieldRename::Kebab => {
            lemma_replace_brace_pair(t, seq!['_'], seq!['-']);
        },
        FieldRename::ScreamingSnake => {
            assert forall|i: int| 0 <= i < k.len() - 1 implies !(#[trigger] k[i] == '>' && k[i + 1] == '{') by {
                assert(k[i] == ascii_upper(t[i]) && k[i + 1] == ascii_upper(t[i + 1]));
            }
        },
        FieldRename::Pascal => {
            if name.len() > 0 {
                assert(k == seq![ascii_upper(name[0])] + name.drop_first());
                assert forall|i: int| 0 <= i < k.len() - 1 implies !(#[trigger] k[i] == '>' && k[i + 1] == '{') by {
                    if i == 0 {
                        assert(k[0] == ascii_upper(name[0]) && k[1] == name[1]);
                    } else {
                        assert(k[i] == name[i] && k[i + 1] == name[i + 1]);
                    }
                }
            }
        },
    }
    lemma_brace_pair_free(k);
}

}
