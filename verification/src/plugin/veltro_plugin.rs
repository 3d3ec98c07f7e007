//! The `@Veltro()` plugin: mixin, implementation class, JSON support and `copyWith`.
use vstd::prelude::*;
use crate::ir::{ClassIR, ClassSpec, FieldIR, FieldSpec, ResolvedKind, StringMap};
use crate::plugin::{
    file_views, find_annotation, first_annotation, output_path, output_path_exec, GeneratedFile, GeneratedFileSpec,
    VeltroPlugin,
};
use crate::plugin::common::{
    concat_fields, concat_generics, generics_decl, generics_decl_exec, get_type_string, over_fields,
    over_generics, type_string,
};
use crate::text::{
    append_chars, append_str, ascii_lower, ascii_upper, char_is_uppercase, char_lowercase, char_uppercase, chars_of, concat,
    contains, ends_with, is_ascii_text, is_uppercase, lemma_concat_append, lemma_contains_at, matches_at,
    join, join_strings, lemma_concat_take_step, push_char, replace, replace_exec, str_eq, str_uppercase,
    to_lowercase_char, to_uppercase_char, to_uppercase_str, trim_end_char, trim_end_char_exec, views,
};

verus! {

/// How field names become JSON keys.
#[derive(Clone, Copy, Debug, PartialEq, Eq, Structural)]
pub enum FieldRename {
    Unchanged,
    Snake,
    Kebab,
    ScreamingSnake,
    Pascal,
}

/// Options of one `@Veltro(...)` annotation.
#[derive(Clone, Copy, Debug, PartialEq, Eq, Structural)]
pub struct VeltroOptions {
    pub json: bool,
    pub field_rename: FieldRename,
    pub include_if_null: bool,
    pub create_copy_with: bool,
}

/// A flag argument is on unless it is literally `false`; an absent one is on.
pub open spec fn flag_on(args: Seq<(Seq<char>, Seq<char>)>, key: Seq<char>) -> bool {
    match crate::ir::assoc_get(args, key) {
        Some(v) => v != "false"@,
        None => true,
    }
}

/// The rename rule named by the `fieldRename` argument.
pub open spec fn rename_of(args: Seq<(Seq<char>, Seq<char>)>) -> FieldRename {
    match crate::ir::assoc_get(args, "fieldRename"@) {
        Some(v) => if v == "snake"@ {
            FieldRename::Snake
        } else if v == "kebab"@ {
            FieldRename::Kebab
        } else if v == "screamingSnake"@ {
            FieldRename::ScreamingSnake
        } else if v == "pascal"@ {
            FieldRename::Pascal
        } else {
            FieldRename::Unchanged
        },
        None => FieldRename::Unchanged,
    }
}

/// Options described by annotation arguments.
pub open spec fn options_of(args: Seq<(Seq<char>, Seq<char>)>) -> VeltroOptions {
    VeltroOptions {
        json: flag_on(args, "json"@),
        field_rename: rename_of(args),
        include_if_null: flag_on(args, "includeIfNull"@),
        create_copy_with: flag_on(args, "copyWith"@),
    }
}

fn flag_exec(args: &StringMap, key: &str) -> (r: bool)
    ensures
        r == flag_on(args@, key@),
{
    match args.get(key) {
        Some(v) => !str_eq(v.as_str(), "false"),
        None => true,
    }
}

impl VeltroOptions {
    /// Reads the options from annotation arguments.
    pub fn from_arguments(args: &StringMap) -> (r: Self)
        ensures
            r == options_of(args@),
    {
        let rename = match args.get("fieldRename") {
            Some(v) => {
                let s = v.as_str();
                if str_eq(s, "snake") {
                    FieldRename::Snake
                } else if str_eq(s, "kebab") {
                    FieldRename::Kebab
                } else if str_eq(s, "screamingSnake") {
                    FieldRename::ScreamingSnake
                } else if str_eq(s, "pascal") {
                    FieldRename::Pascal
                } else {
                    FieldRename::Unchanged
                }
            },
            None => FieldRename::Unchanged,
        };
        VeltroOptions {
            json: flag_exec(args, "json"),
            field_rename: rename,
            include_if_null: flag_exec(args, "includeIfNull"),
            create_copy_with: flag_exec(args, "copyWith"),
        }
    }
}

// ───────────────────────────── JSON keys ─────────────────────────────

/// What `to_snake_case` emits for the character `c`; `first` tells whether it
/// opens the name.
pub open spec fn snake_piece(c: char, first: bool) -> Seq<char> {
    (if char_is_uppercase(c) && !first {
        seq!['_']
    } else {
        Seq::empty()
    }).push(char_lowercase(c)[0])
}

/// `to_snake_case` of the first `n` characters of `s`.
pub open spec fn snake_upto(s: Seq<char>, n: int) -> Seq<char>
    decreases n,
{
    if n <= 0 {
        Seq::empty()
    } else {
        snake_upto(s, n - 1) + snake_piece(s[n - 1], n - 1 == 0)
    }
}

/// Every uppercase character after the first gets a `_` in front; every character
/// is lowercased.
pub open spec fn snake_case(s: Seq<char>) -> Seq<char> {
    snake_upto(s, s.len() as int)
}

/// The JSON key of a field under a rename rule: for an ASCII name, as the rule
/// spells it out over ASCII letters; for any other name, through std's case mapping.
pub open spec fn json_key(name: Seq<char>, rename: FieldRename) -> Seq<char> {
    if is_ascii_text(name) {
        ascii_json_key(name, rename)
    } else {
        case_mapped_json_key(name, rename)
    }
}

/// The JSON key of a field under a rename rule, through std's case mapping.
pub open spec fn case_mapped_json_key(name: Seq<char>, rename: FieldRename) -> Seq<char> {
    match rename {
        FieldRename::Unchanged => name,
        FieldRename::Snake => snake_case(name),
        FieldRename::Kebab => replace(snake_case(name), seq!['_'], seq!['-']),
        FieldRename::ScreamingSnake => str_uppercase(snake_case(name)),
        FieldRename::Pascal => if name.len() == 0 {
            Seq::empty()
        } else {
            char_uppercase(name[0]) + name.drop_first()
        },
    }
}

/// `to_snake_case` of the first `n` characters of ASCII text: `_` before each
/// letter `A`..=`Z` but the first character, every letter lowercased.
pub open spec fn ascii_snake_upto(s: Seq<char>, n: int) -> Seq<char>
    decreases n,
{
    if n <= 0 {
        Seq::empty()
    } else {
        ascii_snake_upto(s, n - 1) + (if 'A' <= s[n - 1] && s[n - 1] <= 'Z' && n - 1 != 0 {
            seq!['_']
        } else {
            Seq::empty()
        }).push(ascii_lower(s[n - 1]))
    }
}

/// `to_snake_case` of ASCII text.
pub open spec fn ascii_snake(s: Seq<char>) -> Seq<char> {
    ascii_snake_upto(s, s.len() as int)
}

/// The ASCII lowercase of an ASCII character is ASCII and no uppercase letter.
proof fn lemma_ascii_lower_char(c: char)
    requires
        c < '\u{80}',
    ensures
        ascii_lower(c) < '\u{80}',
        !('A' <= ascii_lower(c) && ascii_lower(c) <= 'Z'),
{
}

/// Snake case of ASCII text up to `n` is ASCII and holds no uppercase letter.
proof fn lemma_ascii_snake_upto_lower(s: Seq<char>, n: int)
    requires
        is_ascii_text(s),
        n <= s.len(),
    ensures
        is_ascii_lower_name(ascii_snake_upto(s, n)),
    decreases n,
{
    if n > 0 {
        lemma_ascii_snake_upto_lower(s, n - 1);
        lemma_ascii_lower_char(s[n - 1]);
        let prev = ascii_snake_upto(s, n - 1);
        let all = ascii_snake_upto(s, n);
        assert forall|j: int| 0 <= j < all.len() implies #[trigger] all[j] < '\u{80}' && !('A' <= all[j] && all[j]
            <= 'Z') by {
            if j < prev.len() {
                assert(all[j] == prev[j]);
            }
        }
    }
}

/// Snake case keeps a name that is ASCII without uppercase letters.
proof fn lemma_ascii_snake_upto_keeps(s: Seq<char>, n: int)
    requires
        is_ascii_lower_name(s),
        0 <= n <= s.len(),
    ensures
        ascii_snake_upto(s, n) == s.take(n),
    decreases n,
{
    if n > 0 {
        lemma_ascii_snake_upto_keeps(s, n - 1);
        assert(s.take(n) =~= s.take(n - 1).push(s[n - 1]));
    } else {
        assert(s.take(0) =~= Seq::<char>::empty());
    }
}

/// On ASCII text, snake case holds no uppercase letter and applying it again
/// changes nothing.
pub proof fn lemma_ascii_snake_idempotent(s: Seq<char>)
    requires
        is_ascii_text(s),
    ensures
        is_ascii_lower_name(ascii_snake(s)),
        ascii_snake(ascii_snake(s)) == ascii_snake(s),
{
    lemma_ascii_snake_upto_lower(s, s.len() as int);
    let t = ascii_snake(s);
    lemma_ascii_snake_upto_keeps(t, t.len() as int);
    assert(t.take(t.len() as int) =~= t);
}

/// Converts a camel-case name to snake case. On ASCII text the result is ASCII,
/// holds no uppercase letter, and is `ascii_snake` of the name; a name with no
/// uppercase letter is kept as it is.
pub fn to_snake_case(s: &str) -> (r: String)
    ensures
        r@ == snake_case(s@),
        is_ascii_lower_name(s@) ==> r@ == s@,
        is_ascii_text(s@) ==> r@ == ascii_snake(s@) && is_ascii_lower_name(r@),
{
    let v = chars_of(s);
    let mut out = String::new();
    let mut i: usize = 0;
    while i < v.len()
        invariant
            i <= v.len(),
            v@ == s@,
            out@ == snake_upto(s@, i as int),
            is_ascii_lower_name(s@) ==> out@ == s@.take(i as int),
            is_ascii_text(s@) ==> out@ == ascii_snake_upto(s@, i as int) && is_ascii_lower_name(out@),
        decreases v.len() - i,
    {
        let c = v[i];
        let ghost before = out@;
        let upper = is_uppercase(c);
        if upper && i > 0 {
            push_char(&mut out, '_');
        }
        let lower = to_lowercase_char(c);
        push_char(&mut out, lower[0]);
        i = i + 1;
        assert(out@ =~= snake_upto(s@, i as int));
        proof {
            if is_ascii_lower_name(s@) {
                assert(s@[i - 1] == c);
                assert(!upper);
                assert(out@ =~= s@.take(i as int));
            }
            if is_ascii_text(s@) {
                assert(s@[i - 1] == c);
                assert(c < '\u{80}');
                assert(lower[0] == ascii_lower(c));
                assert(upper == ('A' <= c && c <= 'Z'));
                assert(out@ =~= ascii_snake_upto(s@, i as int));
                assert forall|j: int| 0 <= j < out@.len() implies #[trigger] out@[j] < '\u{80}' && !('A' <= out@[j]
                    && out@[j] <= 'Z') by {
                    if j < before.len() {
                        assert(out@[j] == before[j]);
                    }
                }
            }
        }
    }
    assert(s@.take(s@.len() as int) =~= s@);
    out
}

/// Whether every character is ASCII and none is an uppercase letter.
pub open spec fn is_ascii_lower_name(s: Seq<char>) -> bool {
    forall|i: int| 0 <= i < s.len() ==> #[trigger] s[i] < '\u{80}' && !('A' <= s[i] && s[i] <= 'Z')
}

/// The JSON key of an ASCII field name under a rename rule.
pub open spec fn ascii_json_key(name: Seq<char>, rename: FieldRename) -> Seq<char> {
    match rename {
        FieldRename::Unchanged => name,
        FieldRename::Snake => ascii_snake(name),
        FieldRename::Kebab => replace(ascii_snake(name), seq!['_'], seq!['-']),
        FieldRename::ScreamingSnake => ascii_snake(name).map_values(|c: char| ascii_upper(c)),
        FieldRename::Pascal => if name.len() == 0 {
            Seq::empty()
        } else {
            seq![ascii_upper(name[0])] + name.drop_first()
        },
    }
}

/// The JSON key of a field.
pub fn to_json_key(field_name: &str, rename: &FieldRename) -> (r: String)
    ensures
        r@ == json_key(field_name@, *rename),
{
    key_by_rule(field_name, rename)
}

/// The JSON key of a field, by std's case mapping and, for an ASCII name, as the
/// rule spells it out.
fn key_by_rule(field_name: &str, rename: &FieldRename) -> (r: String)
    ensures
        r@ == case_mapped_json_key(field_name@, *rename),
        is_ascii_text(field_name@) ==> r@ == ascii_json_key(field_name@, *rename),
{
    match rename {
        FieldRename::Unchanged => {
            let mut r = String::new();
            append_str(&mut r, field_name);
            assert(r@ =~= field_name@);
            r
        },
        FieldRename::Snake => to_snake_case(field_name),
        FieldRename::Kebab => {
            let snake = to_snake_case(field_name);
            let sv = chars_of(snake.as_str());
            let from = vec!['_'];
            let to = vec!['-'];
            let rv = replace_exec(&sv, &from, &to);
            assert(from@ =~= seq!['_']);
            assert(to@ =~= seq!['-']);
            let mut r = String::new();
            append_chars(&mut r, &rv);
            assert(r@ =~= rv@);
            r
        },
        FieldRename::ScreamingSnake => {
            let snake = to_snake_case(field_name);
            proof {
                if is_ascii_text(field_name@) {
                    assert(is_ascii_text(snake@));
                }
            }
            to_uppercase_str(snake.as_str())
        },
        FieldRename::Pascal => {
            let v = chars_of(field_name);
            let mut r = String::new();
            if v.len() > 0 {
                let up = to_uppercase_char(v[0]);
                proof {
                    if is_ascii_text(field_name@) {
                        assert(v@[0] < '\u{80}');
                        assert(up@ == seq![ascii_upper(v@[0])]);
                    }
                }
                append_chars(&mut r, &up);
                let ghost pre = r@;
                let mut i: usize = 1;
                while i < v.len()
                    invariant
                        1 <= i <= v.len(),
                        r@ == pre + v@.subrange(1, i as int),
                    decreases v.len() - i,
                {
                    push_char(&mut r, v[i]);
                    i = i + 1;
                    assert(r@ =~= pre + v@.subrange(1, i as int));
                }
                assert(v@.subrange(1, v@.len() as int) =~= v@.drop_first());
            }
            assert(r@ =~= case_mapped_json_key(field_name@, *rename));
            r
        },
    }
}

// ───────────────────────────── fromJson lines ─────────────────────────────

/// The `fromJson` argument for one field.
pub open spec fn from_json_field(f: FieldSpec, rename: FieldRename) -> Seq<char> {
    let k = json_key(f.name, rename);
    if f.is_generic_param {
        f.name + ": fromJson"@ + f.dart_type + "(json['"@ + k + "'])"@
    } else {
        match f.resolved_kind {
            ResolvedKind::AnnotatedClass => if f.is_nullable {
                f.name + ": json['"@ + k + "'] != null ? "@ + f.dart_type + ".fromJson(json['"@ + k
                    + "'] as Map<String, dynamic>) : null"@
            } else {
                f.name + ": "@ + f.dart_type + ".fromJson(json['"@ + k + "'] as Map<String, dynamic>)"@
            },
            ResolvedKind::Enum => if f.is_nullable {
                f.name + ": json['"@ + k + "'] != null ? "@ + f.dart_type + ".values.byName(json['"@ + k
                    + "'] as String) : null"@
            } else {
                f.name + ": "@ + f.dart_type + ".values.byName(json['"@ + k + "'] as String)"@
            },
            ResolvedKind::External => f.name + ": json['"@ + k + "'] as "@ + type_string(f),
        }
    }
}

/// A text made of `head`, `key` and `tail` starts with `head` and contains `key`.
proof fn lemma_head_key_tail(head: Seq<char>, key: Seq<char>, tail: Seq<char>)
    ensures
        head.is_prefix_of(head + key + tail),
        contains(head + key + tail, key),
{
    let r = head + key + tail;
    assert(r.subrange(0, head.len() as int) =~= head);
    assert(r.subrange(head.len() as int, (head.len() + key.len()) as int) =~= key);
    lemma_contains_at(r, key, head.len() as int);
}

/// A text that is `x` followed by `z` ends with `z`.
proof fn lemma_ends_with_tail(x: Seq<char>, z: Seq<char>)
    ensures
        ends_with(x + z, z),
{
    assert((x + z).subrange(x.len() as int, (x + z).len() as int) =~= z);
}

/// The `fromJson` argument of a field is its name and `: `, then a text that holds
/// `json['<key>']`; for a nullable class or enum field it ends with ` : null`.
#[verifier::spinoff_prover]
#[verifier::rlimit(60)]
proof fn lemma_from_json_field_parts(f: FieldSpec, rename: FieldRename)
    ensures
        exists|x: Seq<char>, tail: Seq<char>|
            from_json_field(f, rename) == f.name + ": "@ + x + ("json['"@ + json_key(f.name, rename) + "']"@) + tail
                && (!f.is_generic_param && f.is_nullable && f.resolved_kind != ResolvedKind::External ==> ends_with(
                tail,
                " : null"@,
            )),
{
    let k = json_key(f.name, rename);
    let key = "json['"@ + k + "']"@;
    let n = f.name;
    let r = from_json_field(f, rename);
    if f.is_generic_param {
        reveal_strlit(": ");
        reveal_strlit(": fromJson");
        reveal_strlit("(json['");
        reveal_strlit("'])");
        reveal_strlit("json['");
        reveal_strlit("']");
        reveal_strlit("fromJson");
        reveal_strlit("(");
        reveal_strlit(")");
        let x = "fromJson"@ + f.dart_type + "("@;
        assert(r =~= n + ": "@ + x + key + ")"@);
    } else {
        match f.resolved_kind {
            ResolvedKind::AnnotatedClass => {
                if f.is_nullable {
                    reveal_strlit(": ");
                    reveal_strlit(": json['");
                    reveal_strlit("json['");
                    reveal_strlit("']");
                    reveal_strlit("'] != null ? ");
                    reveal_strlit(" != null ? ");
                    let tail = " != null ? "@ + f.dart_type + ".fromJson(json['"@ + k
                        + "'] as Map<String, dynamic>) : null"@;
                    assert(r =~= n + ": "@ + Seq::<char>::empty() + key + tail);
                    reveal_strlit("'] as Map<String, dynamic>) : null");
                    reveal_strlit(" : null");
                    let y = " != null ? "@ + f.dart_type + ".fromJson(json['"@ + k + "'] as Map<String, dynamic>)"@;
                    reveal_strlit("'] as Map<String, dynamic>)");
                    assert(tail =~= y + " : null"@);
                    lemma_ends_with_tail(y, " : null"@);
                } else {
                    reveal_strlit(": ");
                    reveal_strlit(".fromJson(json['");
                    reveal_strlit("'] as Map<String, dynamic>)");
                    reveal_strlit(".fromJson(");
                    reveal_strlit("json['");
                    reveal_strlit("']");
                    reveal_strlit(" as Map<String, dynamic>)");
                    let x = f.dart_type + ".fromJson("@;
                    assert(r =~= n + ": "@ + x + key + " as Map<String, dynamic>)"@);
                }
            },
            ResolvedKind::Enum => {
                if f.is_nullable {
                    reveal_strlit(": ");
                    reveal_strlit(": json['");
                    reveal_strlit("json['");
                    reveal_strlit("']");
                    reveal_strlit("'] != null ? ");
                    reveal_strlit(" != null ? ");
                    let tail = " != null ? "@ + f.dart_type + ".values.byName(json['"@ + k + "'] as String) : null"@;
                    assert(r =~= n + ": "@ + Seq::<char>::empty() + key + tail);
                    reveal_strlit("'] as String) : null");
                    reveal_strlit(" : null");
                    reveal_strlit("'] as String)");
                    let y = " != null ? "@ + f.dart_type + ".values.byName(json['"@ + k + "'] as String)"@;
                    assert(tail =~= y + " : null"@);
                    lemma_ends_with_tail(y, " : null"@);
                } else {
                    reveal_strlit(": ");
                    reveal_strlit(".values.byName(json['");
                    reveal_strlit("'] as String)");
                    reveal_strlit(".values.byName(");
                    reveal_strlit("json['");
                    reveal_strlit("']");
                    reveal_strlit(" as String)");
                    let x = f.dart_type + ".values.byName("@;
                    assert(r =~= n + ": "@ + x + key + " as String)"@);
                }
            },
            ResolvedKind::External => {
                reveal_strlit(": ");
                reveal_strlit(": json['");
                reveal_strlit("json['");
                reveal_strlit("']");
                reveal_strlit("'] as ");
                reveal_strlit(" as ");
                let tail = " as "@ + type_string(f);
                assert(r =~= n + ": "@ + Seq::<char>::empty() + key + tail);
            },
        }
    }
}

/// The `fromJson` argument of a field names the field, reads its JSON key, calls
/// `fromJson<Type>` for a type parameter, and falls back to `null` for a nullable
/// class or enum field.
#[verifier::spinoff_prover]
#[verifier::rlimit(60)]
pub proof fn lemma_from_json_field_shape(f: FieldSpec, rename: FieldRename)
    ensures
        (f.name + ": "@).is_prefix_of(from_json_field(f, rename)),
        contains(from_json_field(f, rename), "json['"@ + json_key(f.name, rename) + "']"@),
        f.is_generic_param ==> from_json_field(f, rename) == f.name + ": fromJson"@ + f.dart_type + "(json['"@
            + json_key(f.name, rename) + "'])"@,
        !f.is_generic_param && f.is_nullable && f.resolved_kind != ResolvedKind::External ==> ends_with(
            from_json_field(f, rename),
            " : null"@,
        ),
{
    lemma_from_json_field_parts(f, rename);
    let key = "json['"@ + json_key(f.name, rename) + "']"@;
    let (x, tail) = choose|x: Seq<char>, tail: Seq<char>|
        from_json_field(f, rename) == f.name + ": "@ + x + key + tail && (!f.is_generic_param && f.is_nullable
            && f.resolved_kind != ResolvedKind::External ==> ends_with(tail, " : null"@));
    let head = f.name + ": "@ + x;
    assert(f.name + ": "@ + x + key + tail == head + key + tail);
    lemma_head_key_tail(head, key, tail);
    assert((f.name + ": "@).is_prefix_of(head)) by {
        assert(head.subrange(0, (f.name + ": "@).len() as int) =~= f.name + ": "@);
    }
    assert((f.name + ": "@).is_prefix_of(from_json_field(f, rename))) by {
        let r = from_json_field(f, rename);
        assert(r.subrange(0, (f.name + ": "@).len() as int) =~= f.name + ": "@) by {
            assert(r.subrange(0, head.len() as int) =~= head);
        }
    }
    if !f.is_generic_param && f.is_nullable && f.resolved_kind != ResolvedKind::External {
        let r = from_json_field(f, rename);
        assert(r =~= (head + key) + tail);
        reveal_strlit(" : null");
        assert(r.subrange(r.len() - 7, r.len() as int) =~= tail.subrange(tail.len() - 7, tail.len() as int));
    }
}

/// The `fromJson` argument for one field.
pub fn generate_from_json_field(field: &FieldIR, rename: &FieldRename) -> (r: String)
    ensures
        r@ == from_json_field(field@, *rename),
{
    let key = to_json_key(field.name.as_str(), rename);
    let k = key.as_str();
    let n = field.name.as_str();
    let t = field.dart_type.as_str();
    let mut s = String::new();
    if field.is_generic_param {
        append_str(&mut s, n);
        append_str(&mut s, ": fromJson");
        append_str(&mut s, t);
        append_str(&mut s, "(json['");
        append_str(&mut s, k);
        append_str(&mut s, "'])");
    } else {
        match field.resolved_kind {
            ResolvedKind::AnnotatedClass => {
                if field.is_nullable {
                    append_str(&mut s, n);
                    append_str(&mut s, ": json['");
                    append_str(&mut s, k);
                    append_str(&mut s, "'] != null ? ");
                    append_str(&mut s, t);
                    append_str(&mut s, ".fromJson(json['");
                    append_str(&mut s, k);
                    append_str(&mut s, "'] as Map<String, dynamic>) : null");
                } else {
                    append_str(&mut s, n);
                    append_str(&mut s, ": ");
                    append_str(&mut s, t);
                    append_str(&mut s, ".fromJson(json['");
                    append_str(&mut s, k);
                    append_str(&mut s, "'] as Map<String, dynamic>)");
                }
            },
            ResolvedKind::Enum => {
                if field.is_nullable {
                    append_str(&mut s, n);
                    append_str(&mut s, ": json['");
                    append_str(&mut s, k);
                    append_str(&mut s, "'] != null ? ");
                    append_str(&mut s, t);
                    append_str(&mut s, ".values.byName(json['");
                    append_str(&mut s, k);
                    append_str(&mut s, "'] as String) : null");
                } else {
                    append_str(&mut s, n);
                    append_str(&mut s, ": ");
                    append_str(&mut s, t);
                    append_str(&mut s, ".values.byName(json['");
                    append_str(&mut s, k);
                    append_str(&mut s, "'] as String)");
                }
            },
            ResolvedKind::External => {
                let ts = get_type_string(field);
                append_str(&mut s, n);
                append_str(&mut s, ": json['");
                append_str(&mut s, k);
                append_str(&mut s, "'] as ");
                append_str(&mut s, ts.as_str());
            },
        }
    }
    assert(s@ =~= from_json_field(field@, *rename));
    s
}


// ───────────────────────────── per-field pieces ─────────────────────────────

/// Abstract getter in the mixin.
pub open spec fn getter_line() -> spec_fn(FieldSpec) -> Seq<char> {
    |f: FieldSpec| "  "@ + type_string(f) + " get "@ + f.name + ";\n"@
}

/// Parameter of the abstract `copyWith` in the mixin.
pub open spec fn copy_with_param() -> spec_fn(FieldSpec) -> Seq<char> {
    |f: FieldSpec| trim_end_char(type_string(f), '?') + "? "@ + f.name + ", "@
}

/// Overriding field declaration in the implementation class.
pub open spec fn field_decl() -> spec_fn(FieldSpec) -> Seq<char> {
    |f: FieldSpec| "  @override final "@ + type_string(f) + " "@ + f.name + ";\n"@
}

/// Constructor parameter: default value, `required`, or plain.
pub open spec fn ctor_param() -> spec_fn(FieldSpec) -> Seq<char> {
    |f: FieldSpec|
        match f.default_value {
            Some(d) => "    this."@ + f.name + " = "@ + d + ",\n"@,
            None => if f.is_required {
                "    required this."@ + f.name + ",\n"@
            } else {
                "    this."@ + f.name + ",\n"@
            },
        }
}

/// Argument line of the `fromJson` factory.
pub open spec fn from_json_line(rename: FieldRename) -> spec_fn(FieldSpec) -> Seq<char> {
    |f: FieldSpec| "    "@ + from_json_field(f, rename) + ",\n"@
}

/// Parameter of the implemented `copyWith`.
pub open spec fn copy_with_impl_param() -> spec_fn(FieldSpec) -> Seq<char> {
    |f: FieldSpec| "    "@ + trim_end_char(type_string(f), '?') + "? "@ + f.name + ",\n"@
}

/// Argument of the constructor call in `copyWith`.
pub open spec fn copy_with_arg() -> spec_fn(FieldSpec) -> Seq<char> {
    |f: FieldSpec| "    "@ + f.name + ": "@ + f.name + " ?? this."@ + f.name + ",\n"@
}

/// JSON value of a non-null field.
pub open spec fn json_value(f: FieldSpec) -> Seq<char> {
    match f.resolved_kind {
        ResolvedKind::AnnotatedClass => f.name + ".toJson()"@,
        ResolvedKind::Enum => f.name + ".name"@,
        ResolvedKind::External => f.name,
    }
}

/// JSON value of a nullable field.
pub open spec fn json_value_nullable(f: FieldSpec) -> Seq<char> {
    match f.resolved_kind {
        ResolvedKind::AnnotatedClass => f.name + "?.toJson()"@,
        ResolvedKind::Enum => f.name + "?.name"@,
        ResolvedKind::External => f.name,
    }
}

/// Map entry of `toJson` when null values are included.
pub open spec fn to_json_entry(rename: FieldRename) -> spec_fn(FieldSpec) -> Seq<char> {
    |f: FieldSpec|
        "    '"@ + json_key(f.name, rename) + "': "@ + (if f.is_nullable {
            json_value_nullable(f)
        } else {
            json_value(f)
        }) + ",\n"@
}

/// Map-literal entry of a non-null field when null values are left out.
pub open spec fn to_json_required_entry(rename: FieldRename) -> spec_fn(FieldSpec) -> Seq<char> {
    |f: FieldSpec|
        if f.is_nullable {
            Seq::empty()
        } else {
            "      '"@ + json_key(f.name, rename) + "': "@ + json_value(f) + ",\n"@
        }
}

/// Guarded assignment of a nullable field when null values are left out.
pub open spec fn to_json_optional_entry(rename: FieldRename) -> spec_fn(FieldSpec) -> Seq<char> {
    |f: FieldSpec|
        if f.is_nullable {
            "    if ("@ + f.name + " != null) map['"@ + json_key(f.name, rename) + "'] = "@ + json_value_nullable(f)
                + ";\n"@
        } else {
            Seq::empty()
        }
}

/// Conjunct of `operator ==`.
pub open spec fn eq_conjunct() -> spec_fn(FieldSpec) -> Seq<char> {
    |f: FieldSpec| " && other."@ + f.name + " == "@ + f.name
}

/// The field's name.
pub open spec fn field_name() -> spec_fn(FieldSpec) -> Seq<char> {
    |f: FieldSpec| f.name
}

/// `name: $name` entry of `toString`.
pub open spec fn to_string_entry() -> spec_fn(FieldSpec) -> Seq<char> {
    |f: FieldSpec| f.name + ": $"@ + f.name
}

/// Extra `fromJson` parameter for a type parameter.
pub open spec fn generic_param() -> spec_fn(Seq<char>) -> Seq<char> {
    |g: Seq<char>| ", "@ + g + " Function(Object?) fromJson"@ + g
}

/// Extra `fromJson` argument for a type parameter.
pub open spec fn generic_arg() -> spec_fn(Seq<char>) -> Seq<char> {
    |g: Seq<char>| ", fromJson"@ + g
}

// ───────────────────────────── sections ─────────────────────────────

/// The mixin `_$Name` with getters, `copyWith`, `toJson` and `toString` signatures.
pub open spec fn mixin_section(c: ClassSpec, o: VeltroOptions) -> Seq<char> {
    let gd = generics_decl(c);
    "\nmixin _$"@ + c.name + gd + " {\n"@ + over_fields(c.fields, getter_line()) + "\n"@ + (if o.create_copy_with {
        "  "@ + c.name + gd + " copyWith({"@ + over_fields(c.fields, copy_with_param()) + "});\n"@
    } else {
        Seq::empty()
    }) + (if o.json {
        "  Map<String, dynamic> toJson();\n"@
    } else {
        Seq::empty()
    }) + "\n  @override\n  String toString();\n}\n"@
}

/// Head of the implementation class, its fields and its constructor.
pub open spec fn class_head(c: ClassSpec) -> Seq<char> {
    let gd = generics_decl(c);
    "\nclass _"@ + c.name + gd + " with _$"@ + c.name + gd + " implements "@ + c.name + gd + " {\n"@
        + over_fields(c.fields, field_decl()) + "\n"@ + "  const _"@ + c.name + "({\n"@ + over_fields(
        c.fields,
        ctor_param(),
    ) + "  });\n"@
}

/// The `fromJson` factory.
pub open spec fn from_json_factory(c: ClassSpec, o: VeltroOptions) -> Seq<char> {
    "\n  factory _"@ + c.name + ".fromJson(Map<String, dynamic> json"@ + over_generics(c.generics, generic_param())
        + ") => _"@ + c.name + "(\n"@ + over_fields(c.fields, from_json_line(o.field_rename)) + "  );\n"@
}

/// The implemented `copyWith`.
pub open spec fn copy_with_impl(c: ClassSpec) -> Seq<char> {
    "\n  @override\n  "@ + c.name + generics_decl(c) + " copyWith({\n"@ + over_fields(c.fields, copy_with_impl_param())
        + "  }) => _"@ + c.name + "(\n"@ + over_fields(c.fields, copy_with_arg()) + "  );\n"@
}

/// The implemented `toJson`.
pub open spec fn to_json_impl(c: ClassSpec, o: VeltroOptions) -> Seq<char> {
    if o.include_if_null {
        "\n  @override\n  Map<String, dynamic> toJson() => {\n"@ + over_fields(c.fields, to_json_entry(o.field_rename))
            + "  };\n"@
    } else {
        "\n  @override\n  Map<String, dynamic> toJson() {\n    final map = <String, dynamic>{\n"@ + over_fields(
            c.fields,
            to_json_required_entry(o.field_rename),
        ) + "    };\n"@ + over_fields(c.fields, to_json_optional_entry(o.field_rename)) + "    return map;\n  }\n"@
    }
}

/// `operator ==`, `hashCode` and `toString`, closing the class.
pub open spec fn class_tail(c: ClassSpec) -> Seq<char> {
    "\n  @override\n  bool operator ==(Object other) =>\n    identical(this, other) ||\n    (other is _"@ + c.name
        + generics_decl(c) + over_fields(c.fields, eq_conjunct()) + ");\n"@
        + "\n  @override\n  int get hashCode => Object.hashAll(["@ + join(c.fields.map_values(field_name()), ", "@)
        + "]);\n"@ + "\n  @override\n  String toString() => '"@ + c.name + "("@ + join(
        c.fields.map_values(to_string_entry()),
        ", "@,
    ) + ")';\n}\n"@
}

/// The extension exposing a static `fromJson`.
pub open spec fn json_extension(c: ClassSpec) -> Seq<char> {
    if c.generics.len() == 0 {
        "\nextension _$"@ + c.name + "JsonExtension on "@ + c.name + " {\n"@ + "  // ignore: unused_element\n"@
            + "  static "@ + c.name + " fromJson(Map<String, dynamic> json) =>\n      _"@ + c.name
            + ".fromJson(json);\n"@ + "}\n"@
    } else {
        let gd = generics_decl(c);
        "\nextension _$"@ + c.name + "JsonExtension"@ + gd + " on "@ + c.name + gd + " {\n"@
            + "  // ignore: unused_element\n"@ + "  static "@ + c.name + gd + " fromJson"@ + gd
            + "(Map<String, dynamic> json"@ + over_generics(c.generics, generic_param()) + ") =>\n      _"@ + c.name
            + gd + ".fromJson(json"@ + over_generics(c.generics, generic_arg()) + ");\n"@ + "}\n"@
    }
}

/// The whole body generated for one class.
pub open spec fn veltro_dart(c: ClassSpec, o: VeltroOptions) -> Seq<char> {
    "\n"@ + mixin_section(c, o) + class_head(c) + (if o.json {
        from_json_factory(c, o)
    } else {
        Seq::empty()
    }) + (if o.create_copy_with {
        copy_with_impl(c)
    } else {
        Seq::empty()
    }) + (if o.json {
        to_json_impl(c, o)
    } else {
        Seq::empty()
    }) + class_tail(c) + (if o.json {
        json_extension(c)
    } else {
        Seq::empty()
    })
}

/// The piece of part `i` lies in the concatenation right after the parts before it.
proof fn lemma_part_in_concat(parts: Seq<Seq<char>>, i: int)
    requires
        0 <= i < parts.len(),
    ensures
        matches_at(concat(parts), parts[i], concat(parts.take(i)).len() as int),
{
    let before = parts.take(i);
    let after = parts.skip(i + 1);
    assert(parts =~= before + seq![parts[i]] + after);
    lemma_concat_append(before + seq![parts[i]], after);
    lemma_concat_append(before, seq![parts[i]]);
    assert(seq![parts[i]].drop_last() =~= Seq::<Seq<char>>::empty());
    assert(seq![parts[i]].last() == parts[i]);
    assert(concat(Seq::<Seq<char>>::empty()) =~= Seq::<char>::empty());
    assert(concat(seq![parts[i]]) =~= Seq::<char>::empty() + parts[i]);
    assert(concat(seq![parts[i]]) =~= parts[i]);
    let whole = concat(before) + parts[i] + concat(after);
    assert(whole.subrange(concat(before).len() as int, (concat(before).len() + parts[i].len()) as int) =~= parts[i]);
}

/// What occurs in `b` at `j` occurs in `a + b + c` at `a.len() + j`.
proof fn lemma_matches_inside(a: Seq<char>, b: Seq<char>, c: Seq<char>, pat: Seq<char>, j: int)
    requires
        matches_at(b, pat, j),
    ensures
        matches_at(a + b + c, pat, a.len() + j),
{
    assert((a + b + c).subrange(a.len() + j, a.len() + j + pat.len()) =~= b.subrange(j, j + pat.len()));
}

/// What follows the class head in the generated code.
pub open spec fn dart_after_head(c: ClassSpec, o: VeltroOptions) -> Seq<char> {
    (if o.json {
        from_json_factory(c, o)
    } else {
        Seq::empty()
    }) + (if o.create_copy_with {
        copy_with_impl(c)
    } else {
        Seq::empty()
    }) + (if o.json {
        to_json_impl(c, o)
    } else {
        Seq::empty()
    }) + class_tail(c) + (if o.json {
        json_extension(c)
    } else {
        Seq::empty()
    })
}

/// The generated code is the mixin, then the class head, then the rest.
#[verifier::spinoff_prover]
#[verifier::rlimit(60)]
pub proof fn lemma_veltro_dart_split(c: ClassSpec, o: VeltroOptions)
    ensures
        veltro_dart(c, o) =~= ("\n"@ + mixin_section(c, o)) + class_head(c) + dart_after_head(c, o),
{
}

/// The getters of the fields lie in the mixin.
proof fn lemma_mixin_getters(c: ClassSpec, o: VeltroOptions) -> (r: (Seq<char>, Seq<char>))
    ensures
        mixin_section(c, o) == r.0 + over_fields(c.fields, getter_line()) + r.1,
{
    let gd = generics_decl(c);
    let a = "\nmixin _$"@ + c.name + gd + " {\n"@;
    let b = "\n"@ + (if o.create_copy_with {
        "  "@ + c.name + gd + " copyWith({"@ + over_fields(c.fields, copy_with_param()) + "});\n"@
    } else {
        Seq::empty()
    }) + (if o.json {
        "  Map<String, dynamic> toJson();\n"@
    } else {
        Seq::empty()
    }) + "\n  @override\n  String toString();\n}\n"@;
    assert(mixin_section(c, o) =~= a + over_fields(c.fields, getter_line()) + b);
    (a, b)
}

/// The field declarations lie in the class head.
proof fn lemma_head_decls(c: ClassSpec) -> (r: (Seq<char>, Seq<char>))
    ensures
        class_head(c) == r.0 + over_fields(c.fields, field_decl()) + r.1,
{
    let gd = generics_decl(c);
    let q1 = "\nclass _"@ + c.name + gd + " with _$"@ + c.name + gd + " implements "@ + c.name + gd + " {\n"@;
    let rest = "\n"@ + "  const _"@ + c.name + "({\n"@ + over_fields(c.fields, ctor_param()) + "  });\n"@;
    assert(class_head(c) =~= q1 + over_fields(c.fields, field_decl()) + rest);
    (q1, rest)
}

/// The constructor parameters lie in the class head.
proof fn lemma_head_params(c: ClassSpec) -> (r: (Seq<char>, Seq<char>))
    ensures
        class_head(c) == r.0 + over_fields(c.fields, ctor_param()) + r.1,
{
    let gd = generics_decl(c);
    let pre = "\nclass _"@ + c.name + gd + " with _$"@ + c.name + gd + " implements "@ + c.name + gd + " {\n"@
        + over_fields(c.fields, field_decl()) + "\n"@ + "  const _"@ + c.name + "({\n"@;
    assert(class_head(c) =~= pre + over_fields(c.fields, ctor_param()) + "  });\n"@);
    (pre, "  });\n"@)
}

/// Part `i` of `parts` occurs in any text made of something, the concatenation of
/// `parts`, and something.
pub proof fn lemma_part_inside(a: Seq<char>, parts: Seq<Seq<char>>, b: Seq<char>, i: int)
    requires
        0 <= i < parts.len(),
    ensures
        contains(a + concat(parts) + b, parts[i]),
{
    lemma_part_in_concat(parts, i);
    lemma_matches_inside(a, concat(parts), b, parts[i], concat(parts.take(i)).len() as int);
    lemma_contains_at(a + concat(parts) + b, parts[i], (a.len() + concat(parts.take(i)).len()) as int);
}

/// A part of a text made of three parts lies in the whole text split around it.
proof fn lemma_split_three(x: Seq<char>, y: Seq<char>, z: Seq<char>, a: Seq<char>, mid: Seq<char>, b: Seq<char>)
    requires
        y == a + mid + b,
    ensures
        x + y + z == (x + a) + mid + (b + z),
{
    assert(x + y + z =~= (x + a) + mid + (b + z));
}

/// Every field of a class gets, in the generated code, its getter in the mixin, its
/// `@override final` declaration and its constructor parameter, whatever the options.
#[verifier::spinoff_prover]
#[verifier::rlimit(60)]
pub proof fn lemma_field_lines(c: ClassSpec, o: VeltroOptions, i: int)
    requires
        0 <= i < c.fields.len(),
    ensures
        contains(veltro_dart(c, o), getter_line()(c.fields[i])),
        contains(veltro_dart(c, o), field_decl()(c.fields[i])),
        contains(veltro_dart(c, o), ctor_param()(c.fields[i])),
{
    lemma_veltro_dart_split(c, o);
    let m = mixin_section(c, o);
    let h = class_head(c);
    let t = dart_after_head(c, o);
    let (a1, b1) = lemma_mixin_getters(c, o);
    lemma_split_three("\n"@, m, h + t, a1, over_fields(c.fields, getter_line()), b1);
    assert(veltro_dart(c, o) == "\n"@ + m + (h + t));
    lemma_part_inside("\n"@ + a1, c.fields.map_values(getter_line()), b1 + (h + t), i);
    let (a2, b2) = lemma_head_decls(c);
    lemma_split_three("\n"@ + m, h, t, a2, over_fields(c.fields, field_decl()), b2);
    lemma_part_inside("\n"@ + m + a2, c.fields.map_values(field_decl()), b2 + t, i);
    let (a3, b3) = lemma_head_params(c);
    lemma_split_three("\n"@ + m, h, t, a3, over_fields(c.fields, ctor_param()), b3);
    lemma_part_inside("\n"@ + m + a3, c.fields.map_values(ctor_param()), b3 + t, i);
}

/// In the concatenation of `parts`, part `i` ends no later than part `j` starts,
/// for `i < j`.
proof fn lemma_parts_in_order(parts: Seq<Seq<char>>, i: int, j: int)
    requires
        0 <= i < j <= parts.len(),
    ensures
        concat(parts.take(i)).len() + parts[i].len() <= concat(parts.take(j)).len(),
{
    let one = seq![parts[i]];
    assert(parts.take(i + 1) =~= parts.take(i) + one);
    lemma_concat_append(parts.take(i), one);
    assert(one.drop_last() =~= Seq::<Seq<char>>::empty());
    assert(concat(one) =~= concat(Seq::<Seq<char>>::empty()) + parts[i]);
    assert(concat(Seq::<Seq<char>>::empty()) =~= Seq::<char>::empty());
    assert(parts.take(j) =~= parts.take(i + 1) + parts.subrange(i + 1, j));
    lemma_concat_append(parts.take(i + 1), parts.subrange(i + 1, j));
}

/// Parts `i < j` of `parts` occur in order, without overlap, in any text made of
/// something, the concatenation of `parts`, and something.
proof fn lemma_parts_ordered_inside(a: Seq<char>, parts: Seq<Seq<char>>, b: Seq<char>, i: int, j: int)
    requires
        0 <= i < j < parts.len(),
    ensures
        occurs_before(a + concat(parts) + b, parts[i], parts[j]),
{
    lemma_part_in_concat(parts, i);
    lemma_part_in_concat(parts, j);
    lemma_parts_in_order(parts, i, j);
    let pi = concat(parts.take(i)).len() as int;
    let pj = concat(parts.take(j)).len() as int;
    lemma_matches_inside(a, concat(parts), b, parts[i], pi);
    lemma_matches_inside(a, concat(parts), b, parts[j], pj);
    let t = a + concat(parts) + b;
    assert(matches_at(t, parts[i], a.len() + pi) && matches_at(t, parts[j], a.len() + pj) && a.len() + pi
        + parts[i].len() <= a.len() + pj);
}

/// Whether `x` occurs in `s` and, after the end of that occurrence, `y` occurs.
pub open spec fn occurs_before(s: Seq<char>, x: Seq<char>, y: Seq<char>) -> bool {
    exists|p: int, q: int| #[trigger] matches_at(s, x, p) && #[trigger] matches_at(s, y, q) && p + x.len() <= q
}

/// Each kind of field line comes in field order: for fields `i < j`, the getter of
/// field `i` comes before that of field `j`, and likewise the `@override final`
/// declarations and the constructor parameters, whatever the options.
#[verifier::spinoff_prover]
#[verifier::rlimit(60)]
pub proof fn lemma_field_line_order(c: ClassSpec, o: VeltroOptions, i: int, j: int)
    requires
        0 <= i < j < c.fields.len(),
    ensures
        occurs_before(veltro_dart(c, o), getter_line()(c.fields[i]), getter_line()(c.fields[j])),
        occurs_before(veltro_dart(c, o), field_decl()(c.fields[i]), field_decl()(c.fields[j])),
        occurs_before(veltro_dart(c, o), ctor_param()(c.fields[i]), ctor_param()(c.fields[j])),
{
    lemma_veltro_dart_split(c, o);
    let m = mixin_section(c, o);
    let h = class_head(c);
    let t = dart_after_head(c, o);
    let (a1, b1) = lemma_mixin_getters(c, o);
    lemma_split_three("\n"@, m, h + t, a1, over_fields(c.fields, getter_line()), b1);
    assert(veltro_dart(c, o) == "\n"@ + m + (h + t));
    lemma_parts_ordered_inside("\n"@ + a1, c.fields.map_values(getter_line()), b1 + (h + t), i, j);
    let (a2, b2) = lemma_head_decls(c);
    lemma_split_three("\n"@ + m, h, t, a2, over_fields(c.fields, field_decl()), b2);
    lemma_parts_ordered_inside("\n"@ + m + a2, c.fields.map_values(field_decl()), b2 + t, i, j);
    let (a3, b3) = lemma_head_params(c);
    lemma_split_three("\n"@ + m, h, t, a3, over_fields(c.fields, ctor_param()), b3);
    lemma_parts_ordered_inside("\n"@ + m + a3, c.fields.map_values(ctor_param()), b3 + t, i, j);
}

/// With `json` on, the mixin declares `toJson`; with `copyWith` on, it declares
/// `copyWith`.
#[verifier::spinoff_prover]
#[verifier::rlimit(60)]
pub proof fn lemma_option_members(c: ClassSpec, o: VeltroOptions)
    ensures
        o.json ==> contains(veltro_dart(c, o), "toJson"@),
        o.create_copy_with ==> contains(veltro_dart(c, o), "copyWith"@),
{
    reveal_strlit("toJson");
    reveal_strlit("copyWith");
    reveal_strlit("  Map<String, dynamic> toJson();\n");
    reveal_strlit(" copyWith({");
    lemma_veltro_dart_split(c, o);
    let gd = generics_decl(c);
    let m = mixin_section(c, o);
    let h = class_head(c);
    let t = dart_after_head(c, o);
    let a = "\nmixin _$"@ + c.name + gd + " {\n"@ + over_fields(c.fields, getter_line()) + "\n"@;
    let cw = if o.create_copy_with {
        "  "@ + c.name + gd + " copyWith({"@ + over_fields(c.fields, copy_with_param()) + "});\n"@
    } else {
        Seq::empty()
    };
    let js = if o.json {
        "  Map<String, dynamic> toJson();\n"@
    } else {
        Seq::empty()
    };
    let z = "\n  @override\n  String toString();\n}\n"@;
    assert(m =~= a + cw + js + z);
    if o.json {
        let js_at = "  Map<String, dynamic> toJson();\n"@;
        assert(js_at.subrange(23, 29) =~= "toJson"@);
        lemma_matches_inside("\n"@ + a + cw, js_at, z + h + t, "toJson"@, 23);
        assert(veltro_dart(c, o) =~= ("\n"@ + a + cw) + js_at + (z + h + t));
        lemma_contains_at(veltro_dart(c, o), "toJson"@, (("\n"@ + a + cw).len() + 23) as int);
    }
    if o.create_copy_with {
        let pre = "  "@ + c.name + gd;
        let cw_text = " copyWith({"@;
        assert(cw_text.subrange(1, 9) =~= "copyWith"@);
        let after = over_fields(c.fields, copy_with_param()) + "});\n"@;
        assert(cw =~= pre + cw_text + after);
        lemma_matches_inside("\n"@ + a + pre, cw_text, after + js + z + h + t, "copyWith"@, 1);
        assert(veltro_dart(c, o) =~= ("\n"@ + a + pre) + cw_text + (after + js + z + h + t));
        lemma_contains_at(veltro_dart(c, o), "copyWith"@, (("\n"@ + a + pre).len() + 1) as int);
    }
}

/// With `json` on, the factory `_<Name>.fromJson(...)` is generated.
#[verifier::spinoff_prover]
#[verifier::rlimit(60)]
pub proof fn lemma_from_json_present(c: ClassSpec, o: VeltroOptions)
    ensures
        o.json ==> contains(veltro_dart(c, o), "fromJson"@),
{
    reveal_strlit("fromJson");
    reveal_strlit(".fromJson(Map<String, dynamic> json");
    if o.json {
        let tj = to_json_impl(c, o);
        let tail = class_tail(c);
        let ext = json_extension(c);
        let fj = from_json_factory(c, o);
        let lead = "\n  factory _"@ + c.name;
        let fj_lit = ".fromJson(Map<String, dynamic> json"@;
        let fj_rest = over_generics(c.generics, generic_param()) + ") => _"@ + c.name + "(\n"@ + over_fields(
            c.fields,
            from_json_line(o.field_rename),
        ) + "  );\n"@;
        assert(fj =~= lead + fj_lit + fj_rest);
        let before = "\n"@ + mixin_section(c, o) + class_head(c);
        let after = fj_rest + (if o.create_copy_with {
            copy_with_impl(c)
        } else {
            Seq::empty()
        }) + tj + (tail + ext);
        assert(veltro_dart(c, o) =~= (before + lead) + fj_lit + after);
        assert(fj_lit.subrange(1, 9) =~= "fromJson"@);
        lemma_matches_inside(before + lead, fj_lit, after, "fromJson"@, 1);
        lemma_contains_at(veltro_dart(c, o), "fromJson"@, ((before + lead).len() + 1) as int);
    }
}

/// With `json` on, `toJson` builds its map with a literal `{` ... `}` when null
/// values are included, and otherwise starts from `final map = <String, dynamic>{`
/// and adds the nullable fields after it; the extension `_$<Name>JsonExtension`
/// follows the class.
#[verifier::spinoff_prover]
#[verifier::rlimit(100)]
pub proof fn lemma_to_json_form(c: ClassSpec, o: VeltroOptions)
    ensures
        o.json && !o.include_if_null ==> contains(veltro_dart(c, o), "final map = <String, dynamic>{"@),
        o.json && o.include_if_null ==> contains(veltro_dart(c, o), "Map<String, dynamic> toJson() => {"@),
        o.json ==> contains(veltro_dart(c, o), "extension _$"@),
{
    reveal_strlit("final map = <String, dynamic>{");
    reveal_strlit("Map<String, dynamic> toJson() => {");
    reveal_strlit("extension _$");
    reveal_strlit("\n  @override\n  Map<String, dynamic> toJson() {\n    final map = <String, dynamic>{\n");
    reveal_strlit("\n  @override\n  Map<String, dynamic> toJson() => {\n");
    reveal_strlit("\nextension _$");
    lemma_veltro_dart_split(c, o);
    if o.json {
        let pre = "\n"@ + mixin_section(c, o) + class_head(c) + from_json_factory(c, o) + (if o.create_copy_with {
            copy_with_impl(c)
        } else {
            Seq::empty()
        });
        let tj = to_json_impl(c, o);
        let tail = class_tail(c);
        let ext = json_extension(c);
        assert(veltro_dart(c, o) =~= pre + tj + (tail + ext));
        if o.include_if_null {
            let lit = "\n  @override\n  Map<String, dynamic> toJson() => {\n"@;
            let rest = over_fields(c.fields, to_json_entry(o.field_rename)) + "  };\n"@;
            assert(tj =~= lit + rest);
            assert(lit.subrange(15, 49) =~= "Map<String, dynamic> toJson() => {"@);
            lemma_matches_inside(pre, lit, rest + (tail + ext), "Map<String, dynamic> toJson() => {"@, 15);
            assert(veltro_dart(c, o) =~= pre + lit + (rest + (tail + ext)));
            lemma_contains_at(veltro_dart(c, o), "Map<String, dynamic> toJson() => {"@, (pre.len() + 15) as int);
        } else {
            let lit = "\n  @override\n  Map<String, dynamic> toJson() {\n    final map = <String, dynamic>{\n"@;
            let rest = over_fields(c.fields, to_json_required_entry(o.field_rename)) + "    };\n"@ + over_fields(
                c.fields,
                to_json_optional_entry(o.field_rename),
            ) + "    return map;\n  }\n"@;
            assert(tj =~= lit + rest);
            assert(lit.subrange(51, 81) =~= "final map = <String, dynamic>{"@);
            lemma_matches_inside(pre, lit, rest + (tail + ext), "final map = <String, dynamic>{"@, 51);
            assert(veltro_dart(c, o) =~= pre + lit + (rest + (tail + ext)));
            lemma_contains_at(veltro_dart(c, o), "final map = <String, dynamic>{"@, (pre.len() + 51) as int);
        }
        let head = "\nextension _$"@;
        let ext_rest = ext.subrange(head.len() as int, ext.len() as int);
        assert(ext =~= head + ext_rest);
        assert(head.subrange(1, 13) =~= "extension _$"@);
        lemma_matches_inside(pre + tj + tail, head, ext_rest, "extension _$"@, 1);
        assert(veltro_dart(c, o) =~= (pre + tj + tail) + head + ext_rest);
        lemma_contains_at(veltro_dart(c, o), "extension _$"@, ((pre + tj + tail).len() + 1) as int);
    }
}

pub(crate) fn getter_line_exec(f: &FieldIR, _unit: &()) -> (r: String)
    ensures
        r@ == getter_line()(f@),
{
    let mut s = String::new();
    append_str(&mut s, "  ");
    let t = get_type_string(f);
    append_str(&mut s, t.as_str());
    append_str(&mut s, " get ");
    append_str(&mut s, f.name.as_str());
    append_str(&mut s, ";\n");
    assert(s@ =~= getter_line()(f@));
    s
}

fn copy_with_param_exec(f: &FieldIR, _unit: &()) -> (r: String)
    ensures
        r@ == copy_with_param()(f@),
{
    let t = get_type_string(f);
    let tv = chars_of(t.as_str());
    let tq = trim_end_char_exec(&tv, '?');
    let mut s = String::new();
    append_chars(&mut s, &tq);
    append_str(&mut s, "? ");
    append_str(&mut s, f.name.as_str());
    append_str(&mut s, ", ");
    assert(s@ =~= copy_with_param()(f@));
    s
}

pub(crate) fn field_decl_exec(f: &FieldIR, _unit: &()) -> (r: String)
    ensures
        r@ == field_decl()(f@),
{
    let mut s = String::new();
    append_str(&mut s, "  @override final ");
    let t = get_type_string(f);
    append_str(&mut s, t.as_str());
    append_str(&mut s, " ");
    append_str(&mut s, f.name.as_str());
    append_str(&mut s, ";\n");
    assert(s@ =~= field_decl()(f@));
    s
}

fn ctor_param_exec(f: &FieldIR, _unit: &()) -> (r: String)
    ensures
        r@ == ctor_param()(f@),
{
    let mut s = String::new();
    match &f.default_value {
        Some(d) => {
            append_str(&mut s, "    this.");
            append_str(&mut s, f.name.as_str());
            append_str(&mut s, " = ");
            append_str(&mut s, d.as_str());
            append_str(&mut s, ",\n");
        },
        None => {
            if f.is_required {
                append_str(&mut s, "    required this.");
            } else {
                append_str(&mut s, "    this.");
            }
            append_str(&mut s, f.name.as_str());
            append_str(&mut s, ",\n");
        },
    }
    assert(s@ =~= ctor_param()(f@));
    s
}

fn generic_param_exec(g: &String) -> (r: String)
    ensures
        r@ == generic_param()(g@),
{
    let mut s = String::new();
    append_str(&mut s, ", ");
    append_str(&mut s, g.as_str());
    append_str(&mut s, " Function(Object?) fromJson");
    append_str(&mut s, g.as_str());
    assert(s@ =~= generic_param()(g@));
    s
}

fn generic_arg_exec(g: &String) -> (r: String)
    ensures
        r@ == generic_arg()(g@),
{
    let mut s = String::new();
    append_str(&mut s, ", fromJson");
    append_str(&mut s, g.as_str());
    assert(s@ =~= generic_arg()(g@));
    s
}

fn from_json_line_exec(f: &FieldIR, rename: &FieldRename) -> (r: String)
    ensures
        r@ == from_json_line(*rename)(f@),
{
    let mut s = String::new();
    append_str(&mut s, "    ");
    let l = generate_from_json_field(f, rename);
    append_str(&mut s, l.as_str());
    append_str(&mut s, ",\n");
    assert(s@ =~= from_json_line(*rename)(f@));
    s
}

fn copy_with_impl_param_exec(f: &FieldIR, _unit: &()) -> (r: String)
    ensures
        r@ == copy_with_impl_param()(f@),
{
    let t = get_type_string(f);
    let tv = chars_of(t.as_str());
    let tq = trim_end_char_exec(&tv, '?');
    let mut s = String::new();
    append_str(&mut s, "    ");
    append_chars(&mut s, &tq);
    append_str(&mut s, "? ");
    append_str(&mut s, f.name.as_str());
    append_str(&mut s, ",\n");
    assert(s@ =~= copy_with_impl_param()(f@));
    s
}

fn copy_with_arg_exec(f: &FieldIR, _unit: &()) -> (r: String)
    ensures
        r@ == copy_with_arg()(f@),
{
    let n = f.name.as_str();
    let mut s = String::new();
    append_str(&mut s, "    ");
    append_str(&mut s, n);
    append_str(&mut s, ": ");
    append_str(&mut s, n);
    append_str(&mut s, " ?? this.");
    append_str(&mut s, n);
    append_str(&mut s, ",\n");
    assert(s@ =~= copy_with_arg()(f@));
    s
}

fn to_json_entry_exec(f: &FieldIR, rename: &FieldRename) -> (r: String)
    ensures
        r@ == to_json_entry(*rename)(f@),
{
    let k = to_json_key(f.name.as_str(), rename);
    let v = json_value_exec(f, f.is_nullable);
    let mut s = String::new();
    append_str(&mut s, "    '");
    append_str(&mut s, k.as_str());
    append_str(&mut s, "': ");
    append_str(&mut s, v.as_str());
    append_str(&mut s, ",\n");
    assert(s@ =~= to_json_entry(*rename)(f@));
    s
}

fn to_json_required_entry_exec(f: &FieldIR, rename: &FieldRename) -> (r: String)
    ensures
        r@ == to_json_required_entry(*rename)(f@),
{
    let mut s = String::new();
    if !f.is_nullable {
        let k = to_json_key(f.name.as_str(), rename);
        let v = json_value_exec(f, false);
        append_str(&mut s, "      '");
        append_str(&mut s, k.as_str());
        append_str(&mut s, "': ");
        append_str(&mut s, v.as_str());
        append_str(&mut s, ",\n");
    }
    assert(s@ =~= to_json_required_entry(*rename)(f@));
    s
}

fn to_json_optional_entry_exec(f: &FieldIR, rename: &FieldRename) -> (r: String)
    ensures
        r@ == to_json_optional_entry(*rename)(f@),
{
    let mut s = String::new();
    if f.is_nullable {
        let k = to_json_key(f.name.as_str(), rename);
        let v = json_value_exec(f, true);
        append_str(&mut s, "    if (");
        append_str(&mut s, f.name.as_str());
        append_str(&mut s, " != null) map['");
        append_str(&mut s, k.as_str());
        append_str(&mut s, "'] = ");
        append_str(&mut s, v.as_str());
        append_str(&mut s, ";\n");
    }
    assert(s@ =~= to_json_optional_entry(*rename)(f@));
    s
}

fn eq_conjunct_exec(f: &FieldIR, _unit: &()) -> (r: String)
    ensures
        r@ == eq_conjunct()(f@),
{
    let mut s = String::new();
    append_str(&mut s, " && other.");
    append_str(&mut s, f.name.as_str());
    append_str(&mut s, " == ");
    append_str(&mut s, f.name.as_str());
    assert(s@ =~= eq_conjunct()(f@));
    s
}

fn field_name_exec(f: &FieldIR, _unit: &()) -> (r: String)
    ensures
        r@ == field_name()(f@),
{
    let mut s = String::new();
    append_str(&mut s, f.name.as_str());
    assert(s@ =~= field_name()(f@));
    s
}

fn to_string_entry_exec(f: &FieldIR, _unit: &()) -> (r: String)
    ensures
        r@ == to_string_entry()(f@),
{
    let mut s = String::new();
    append_str(&mut s, f.name.as_str());
    append_str(&mut s, ": $");
    append_str(&mut s, f.name.as_str());
    assert(s@ =~= to_string_entry()(f@));
    s
}

// ───────────────────────────── executable sections ─────────────────────────────

pub(crate) fn mixin_section_exec(ir: &ClassIR, opts: &VeltroOptions) -> (r: String)
    ensures
        r@ == mixin_section(ir@, *opts),
{
    let gd = generics_decl_exec(ir);
    let getters = concat_fields(
        &ir.fields,
        &(),
        getter_line_exec,
        Ghost(getter_line()),
    );
    let mut s = String::new();
    append_str(&mut s, "\nmixin _$");
    append_str(&mut s, ir.name.as_str());
    append_str(&mut s, gd.as_str());
    append_str(&mut s, " {\n");
    append_str(&mut s, getters.as_str());
    append_str(&mut s, "\n");
    if opts.create_copy_with {
        let params = concat_fields(
            &ir.fields,
            &(),
            copy_with_param_exec,
            Ghost(copy_with_param()),
        );
        append_str(&mut s, "  ");
        append_str(&mut s, ir.name.as_str());
        append_str(&mut s, gd.as_str());
        append_str(&mut s, " copyWith({");
        append_str(&mut s, params.as_str());
        append_str(&mut s, "});\n");
    }
    if opts.json {
        append_str(&mut s, "  Map<String, dynamic> toJson();\n");
    }
    append_str(&mut s, "\n  @override\n  String toString();\n}\n");
    assert(s@ =~= mixin_section(ir@, *opts));
    s
}

fn class_head_exec(ir: &ClassIR) -> (r: String)
    ensures
        r@ == class_head(ir@),
{
    let gd = generics_decl_exec(ir);
    let decls = concat_fields(
        &ir.fields,
        &(),
        field_decl_exec,
        Ghost(field_decl()),
    );
    let params = concat_fields(
        &ir.fields,
        &(),
        ctor_param_exec,
        Ghost(ctor_param()),
    );
    let n = ir.name.as_str();
    let mut s = String::new();
    append_str(&mut s, "\nclass _");
    append_str(&mut s, n);
    append_str(&mut s, gd.as_str());
    append_str(&mut s, " with _$");
    append_str(&mut s, n);
    append_str(&mut s, gd.as_str());
    append_str(&mut s, " implements ");
    append_str(&mut s, n);
    append_str(&mut s, gd.as_str());
    append_str(&mut s, " {\n");
    append_str(&mut s, decls.as_str());
    append_str(&mut s, "\n");
    append_str(&mut s, "  const _");
    append_str(&mut s, n);
    append_str(&mut s, "({\n");
    append_str(&mut s, params.as_str());
    append_str(&mut s, "  });\n");
    assert(s@ =~= class_head(ir@));
    s
}

pub(crate) fn generic_params_exec(ir: &ClassIR) -> (r: String)
    ensures
        r@ == over_generics(ir@.generics, generic_param()),
{
    concat_generics(
        &ir.generics,
        generic_param_exec,
        Ghost(generic_param()),
    )
}

pub(crate) fn generic_args_exec(ir: &ClassIR) -> (r: String)
    ensures
        r@ == over_generics(ir@.generics, generic_arg()),
{
    concat_generics(
        &ir.generics,
        generic_arg_exec,
        Ghost(generic_arg()),
    )
}

fn from_json_factory_exec(ir: &ClassIR, opts: &VeltroOptions) -> (r: String)
    ensures
        r@ == from_json_factory(ir@, *opts),
{
    let params = generic_params_exec(ir);
    let rename = opts.field_rename;
    let lines = concat_fields(
        &ir.fields,
        &rename,
        from_json_line_exec,
        Ghost(from_json_line(rename)),
    );
    let n = ir.name.as_str();
    let mut s = String::new();
    append_str(&mut s, "\n  factory _");
    append_str(&mut s, n);
    append_str(&mut s, ".fromJson(Map<String, dynamic> json");
    append_str(&mut s, params.as_str());
    append_str(&mut s, ") => _");
    append_str(&mut s, n);
    append_str(&mut s, "(\n");
    append_str(&mut s, lines.as_str());
    append_str(&mut s, "  );\n");
    assert(s@ =~= from_json_factory(ir@, *opts));
    s
}

pub(crate) fn copy_with_impl_exec(ir: &ClassIR) -> (r: String)
    ensures
        r@ == copy_with_impl(ir@),
{
    let gd = generics_decl_exec(ir);
    let params = concat_fields(
        &ir.fields,
        &(),
        copy_with_impl_param_exec,
        Ghost(copy_with_impl_param()),
    );
    let args = concat_fields(
        &ir.fields,
        &(),
        copy_with_arg_exec,
        Ghost(copy_with_arg()),
    );
    let n = ir.name.as_str();
    let mut s = String::new();
    append_str(&mut s, "\n  @override\n  ");
    append_str(&mut s, n);
    append_str(&mut s, gd.as_str());
    append_str(&mut s, " copyWith({\n");
    append_str(&mut s, params.as_str());
    append_str(&mut s, "  }) => _");
    append_str(&mut s, n);
    append_str(&mut s, "(\n");
    append_str(&mut s, args.as_str());
    append_str(&mut s, "  );\n");
    assert(s@ =~= copy_with_impl(ir@));
    s
}

pub(crate) fn json_value_exec(f: &FieldIR, nullable: bool) -> (r: String)
    ensures
        r@ == if nullable {
            json_value_nullable(f@)
        } else {
            json_value(f@)
        },
{
    let mut s = String::new();
    append_str(&mut s, f.name.as_str());
    match f.resolved_kind {
        ResolvedKind::AnnotatedClass => {
            if nullable {
                append_str(&mut s, "?.toJson()");
            } else {
                append_str(&mut s, ".toJson()");
            }
        },
        ResolvedKind::Enum => {
            if nullable {
                append_str(&mut s, "?.name");
            } else {
                append_str(&mut s, ".name");
            }
        },
        ResolvedKind::External => {},
    }
    assert(s@ =~= if nullable {
        json_value_nullable(f@)
    } else {
        json_value(f@)
    });
    s
}

fn to_json_impl_exec(ir: &ClassIR, opts: &VeltroOptions) -> (r: String)
    ensures
        r@ == to_json_impl(ir@, *opts),
{
    let rename = opts.field_rename;
    let mut s = String::new();
    if opts.include_if_null {
        let entries = concat_fields(
            &ir.fields,
            &rename,
            to_json_entry_exec,
            Ghost(to_json_entry(rename)),
        );
        append_str(&mut s, "\n  @override\n  Map<String, dynamic> toJson() => {\n");
        append_str(&mut s, entries.as_str());
        append_str(&mut s, "  };\n");
    } else {
        let required = concat_fields(
            &ir.fields,
            &rename,
            to_json_required_entry_exec,
            Ghost(to_json_required_entry(rename)),
        );
        let optional = concat_fields(
            &ir.fields,
            &rename,
            to_json_optional_entry_exec,
            Ghost(to_json_optional_entry(rename)),
        );
        append_str(&mut s, "\n  @override\n  Map<String, dynamic> toJson() {\n    final map = <String, dynamic>{\n");
        append_str(&mut s, required.as_str());
        append_str(&mut s, "    };\n");
        append_str(&mut s, optional.as_str());
        append_str(&mut s, "    return map;\n  }\n");
    }
    assert(s@ =~= to_json_impl(ir@, *opts));
    s
}

pub(crate) fn class_tail_exec(ir: &ClassIR) -> (r: String)
    ensures
        r@ == class_tail(ir@),
{
    let gd = generics_decl_exec(ir);
    let conj = concat_fields(
        &ir.fields,
        &(),
        eq_conjunct_exec,
        Ghost(eq_conjunct()),
    );
    let names = crate::plugin::common::map_fields(
        &ir.fields,
        &(),
        field_name_exec,
        Ghost(field_name()),
    );
    let entries = crate::plugin::common::map_fields(
        &ir.fields,
        &(),
        to_string_entry_exec,
        Ghost(to_string_entry()),
    );
    let names_joined = join_strings(&names, ", ");
    let entries_joined = join_strings(&entries, ", ");
    let n = ir.name.as_str();
    let mut s = String::new();
    append_str(
        &mut s,
        "\n  @override\n  bool operator ==(Object other) =>\n    identical(this, other) ||\n    (other is _",
    );
    append_str(&mut s, n);
    append_str(&mut s, gd.as_str());
    append_str(&mut s, conj.as_str());
    append_str(&mut s, ");\n");
    append_str(&mut s, "\n  @override\n  int get hashCode => Object.hashAll([");
    append_str(&mut s, names_joined.as_str());
    append_str(&mut s, "]);\n");
    append_str(&mut s, "\n  @override\n  String toString() => '");
    append_str(&mut s, n);
    append_str(&mut s, "(");
    append_str(&mut s, entries_joined.as_str());
    append_str(&mut s, ")';\n}\n");
    assert(s@ =~= class_tail(ir@));
    s
}

/// The extension exposing a static `fromJson`.
pub fn generate_json_extension(ir: &ClassIR) -> (r: String)
    ensures
        r@ == json_extension(ir@),
{
    let n = ir.name.as_str();
    let mut s = String::new();
    if ir.generics.len() == 0 {
        append_str(&mut s, "\nextension _$");
        append_str(&mut s, n);
        append_str(&mut s, "JsonExtension on ");
        append_str(&mut s, n);
        append_str(&mut s, " {\n");
        append_str(&mut s, "  // ignore: unused_element\n");
        append_str(&mut s, "  static ");
        append_str(&mut s, n);
        append_str(&mut s, " fromJson(Map<String, dynamic> json) =>\n      _");
        append_str(&mut s, n);
        append_str(&mut s, ".fromJson(json);\n");
        append_str(&mut s, "}\n");
    } else {
        let gd = generics_decl_exec(ir);
        let g = gd.as_str();
        let params = generic_params_exec(ir);
        let args = generic_args_exec(ir);
        append_str(&mut s, "\nextension _$");
        append_str(&mut s, n);
        append_str(&mut s, "JsonExtension");
        append_str(&mut s, g);
        append_str(&mut s, " on ");
        append_str(&mut s, n);
        append_str(&mut s, g);
        append_str(&mut s, " {\n");
        append_str(&mut s, "  // ignore: unused_element\n");
        append_str(&mut s, "  static ");
        append_str(&mut s, n);
        append_str(&mut s, g);
        append_str(&mut s, " fromJson");
        append_str(&mut s, g);
        append_str(&mut s, "(Map<String, dynamic> json");
        append_str(&mut s, params.as_str());
        append_str(&mut s, ") =>\n      _");
        append_str(&mut s, n);
        append_str(&mut s, g);
        append_str(&mut s, ".fromJson(json");
        append_str(&mut s, args.as_str());
        append_str(&mut s, ");\n");
        append_str(&mut s, "}\n");
    }
    assert(s@ =~= json_extension(ir@));
    s
}

/// Generates the Dart body for one class under the given options.
pub fn generate_dart(ir: &ClassIR, opts: &VeltroOptions) -> (r: String)
    ensures
        r@ == veltro_dart(ir@, *opts),
{
    let mut code = String::new();
    append_str(&mut code, "\n");
    let m = mixin_section_exec(ir, opts);
    append_str(&mut code, m.as_str());
    let h = class_head_exec(ir);
    append_str(&mut code, h.as_str());
    if opts.json {
        let f = from_json_factory_exec(ir, opts);
        append_str(&mut code, f.as_str());
    }
    if opts.create_copy_with {
        let c = copy_with_impl_exec(ir);
        append_str(&mut code, c.as_str());
    }
    if opts.json {
        let t = to_json_impl_exec(ir, opts);
        append_str(&mut code, t.as_str());
    }
    let tail = class_tail_exec(ir);
    append_str(&mut code, tail.as_str());
    if opts.json {
        let e = generate_json_extension(ir);
        append_str(&mut code, e.as_str());
    }
    assert(code@ =~= veltro_dart(ir@, *opts));
    code
}


// ───────────────────────────── the plugin ─────────────────────────────

/// The plugin handling `@Veltro(...)`.
#[derive(Clone, Copy, Debug, PartialEq, Eq, Structural)]
pub struct VeltroCodePlugin;

/// Options of a class: those of its first `@Veltro` annotation, or the defaults.
pub open spec fn class_options(c: ClassSpec) -> VeltroOptions {
    match first_annotation(c.annotations, "Veltro"@) {
        Some(a) => options_of(a.arguments),
        None => options_of(Seq::empty()),
    }
}

/// What the `@Veltro` plugin produces for a class: nothing without the
/// `with _$Name` mixin, else one file next to the source.
pub open spec fn veltro_generate(c: ClassSpec) -> Seq<GeneratedFileSpec> {
    if !c.has_with_mixin {
        Seq::empty()
    } else {
        seq![GeneratedFileSpec { path: output_path(c), content: veltro_dart(c, class_options(c)) }]
    }
}

/// The warning printed when a class is skipped for lacking its `with _$Name` mixin.
pub open spec fn missing_mixin_text(name: Seq<char>) -> Seq<char> {
    "  ⚠ "@ + name + " skipped — missing `with _$"@ + name + "`. Add it to enable generation."@
}

/// The warning for a class that this plugin skips (one without its mixin), if any.
pub fn missing_mixin_warning(ir: &ClassIR) -> (r: Option<String>)
    ensures
        r is Some <==> !ir.has_with_mixin,
        r matches Some(w) ==> w@ == missing_mixin_text(ir.name@),
{
    if ir.has_with_mixin {
        None
    } else {
        let mut s = String::new();
        append_str(&mut s, "  ⚠ ");
        append_str(&mut s, ir.name.as_str());
        append_str(&mut s, " skipped — missing `with _$");
        append_str(&mut s, ir.name.as_str());
        append_str(&mut s, "`. Add it to enable generation.");
        Some(s)
    }
}

impl VeltroPlugin for VeltroCodePlugin {
    open spec fn spec_annotation(&self) -> Seq<char> {
        "Veltro"@
    }

    open spec fn spec_generate(&self, ir: ClassSpec, options: Seq<(Seq<char>, Seq<char>)>) -> Seq<GeneratedFileSpec> {
        veltro_generate(ir)
    }

    fn annotation(&self) -> (r: &str) {
        "Veltro"
    }

    fn generate(&self, ir: &ClassIR, _options: &StringMap) -> (r: Vec<GeneratedFile>) {
        let mut out: Vec<GeneratedFile> = Vec::new();
        if !ir.has_with_mixin {
            assert(file_views(out@) =~= veltro_generate(ir@));
            return out;
        }
        let opts = match find_annotation(&ir.annotations, "Veltro") {
            Some(i) => VeltroOptions::from_arguments(&ir.annotations[i].arguments),
            None => {
                let empty = StringMap::new();
                VeltroOptions::from_arguments(&empty)
            },
        };
        let path = output_path_exec(ir);
        let content = generate_dart(ir, &opts);
        out.push(GeneratedFile { path, content });
        assert(file_views(out@) =~= veltro_generate(ir@));
        out
    }
}

} // verus!
