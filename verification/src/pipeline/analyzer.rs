//! Extraction of annotated classes from a parsed Dart file.
use vstd::prelude::*;
use crate::ir::{
    annotation_views, assoc_get, assoc_set, field_views, lemma_assoc_set_get, AnnotationIR, AnnotationSpec, ClassIR, ClassSpec, FieldIR, FieldSpec,
    ResolvedKind, StringMap, IR_VERSION,
};
use crate::pipeline::parser::ParsedFile;
use crate::pipeline::syntax::{
    field_child, field_child_exec, kind_is, span_exec, span_of, text_exec, text_of, SyntaxNode,
};
use crate::text::{
    find_from, rfind_upto, chars_of, concat_vec, contains, contains_exec, find, find_exec, matches_at, rfind, rfind_exec, seq_eq,
    slice_vec, split, split_exec, string_of, trim, trim_exec, trim_end_char, trim_end_char_exec, rfind_any_upto,
    rfind_any_upto_exec, owned, str_eq,
};

verus! {

// ───────────────────────────── annotation text ─────────────────────────────

/// Key, value of one `key: value` argument (the value of `fieldRename` keeps only
/// what follows its last `.`), or nothing for a piece without `:`.
pub open spec fn argument_of(piece: Seq<char>) -> Option<(Seq<char>, Seq<char>)> {
    let p = trim(piece);
    match find(p, seq![':']) {
        None => None,
        Some(c) => {
            let key = trim(p.subrange(0, c));
            let raw = trim(p.subrange(c + 1, p.len() as int));
            let value = if key == "fieldRename"@ {
                match rfind(raw, seq!['.']) {
                    Some(d) => raw.subrange(d + 1, raw.len() as int),
                    None => raw,
                }
            } else {
                raw
            };
            Some((key, value))
        },
    }
}

/// Arguments after applying the pieces in order (a later key overrides an earlier one).
pub open spec fn apply_arguments(pieces: Seq<Seq<char>>) -> Seq<(Seq<char>, Seq<char>)>
    decreases pieces.len(),
{
    if pieces.len() == 0 {
        Seq::empty()
    } else {
        let m = apply_arguments(pieces.drop_last());
        match argument_of(pieces.last()) {
            None => m,
            Some(kv) => assoc_set(m, kv.0, kv.1),
        }
    }
}

/// Binds `key` to `value` unless it is bound.
pub open spec fn with_default(m: Seq<(Seq<char>, Seq<char>)>, key: Seq<char>, value: Seq<char>) -> Seq<
    (Seq<char>, Seq<char>),
> {
    if assoc_get(m, key) is Some {
        m
    } else {
        assoc_set(m, key, value)
    }
}

/// The arguments written in `@Veltro(args)`.
pub open spec fn written_arguments(args: Seq<char>) -> Seq<(Seq<char>, Seq<char>)> {
    if trim(args).len() == 0 {
        Seq::empty()
    } else {
        apply_arguments(split(args, ','))
    }
}

/// Arguments of `@Veltro(args)`: the written ones, then the defaults
/// `json: true`, `fieldRename: none`, `includeIfNull: true`, `copyWith: true`.
pub open spec fn veltro_arguments(args: Seq<char>) -> Seq<(Seq<char>, Seq<char>)> {
    let written = written_arguments(args);
    with_default(
        with_default(with_default(with_default(written, "json"@, "true"@), "fieldRename"@, "none"@), "includeIfNull"@, "true"@),
        "copyWith"@,
        "true"@,
    )
}

/// An annotation text gives an annotation exactly when it starts with `@`, names
/// something, and closes any argument list it opens; the annotation bears that
/// name, and only `@Veltro` keeps arguments.
pub proof fn lemma_parse_annotation_shape(text: Seq<char>)
    ensures
        parse_annotation(text) is Some <==> (annotation_parts(text) matches Some(parts) && parts.0.len() > 0),
        annotation_parts(text) is Some ==> text.len() > 0 && text[0] == '@',
        parse_annotation(text) matches Some(a) ==> a.name == (annotation_parts(text)->0).0 && (a.name != "Veltro"@
            ==> a.arguments.len() == 0),
{
}

/// A default only fills a key that is not bound.
pub proof fn lemma_with_default_get(m: Seq<(Seq<char>, Seq<char>)>, key: Seq<char>, value: Seq<char>, k: Seq<char>)
    ensures
        assoc_get(with_default(m, key, value), k) == if k == key && assoc_get(m, key) is None {
            Some(value)
        } else {
            assoc_get(m, k)
        },
{
    if assoc_get(m, key) is None {
        lemma_assoc_set_get(m, key, value, k);
    }
}

/// Every `@Veltro` annotation carries `json`, `fieldRename`, `includeIfNull` and
/// `copyWith`: an argument written in the annotation keeps its value, and one left
/// out takes its default (`true`, `none`, `true`, `true`). Any other written argument
/// is kept as written.
pub proof fn lemma_veltro_defaults(args: Seq<char>, k: Seq<char>)
    ensures
        assoc_get(written_arguments(args), k) matches Some(v) ==> assoc_get(veltro_arguments(args), k) == Some(v),
        assoc_get(written_arguments(args), k) is None ==> assoc_get(veltro_arguments(args), k) == if k == "json"@
            || k == "includeIfNull"@ || k == "copyWith"@ {
            Some("true"@)
        } else if k == "fieldRename"@ {
            Some("none"@)
        } else {
            None
        },
{
    reveal_strlit("json");
    reveal_strlit("fieldRename");
    reveal_strlit("includeIfNull");
    reveal_strlit("copyWith");
    assert("json"@.len() == 4 && "fieldRename"@.len() == 11 && "includeIfNull"@.len() == 13 && "copyWith"@.len() == 8);
    let w = written_arguments(args);
    let m1 = with_default(w, "json"@, "true"@);
    let m2 = with_default(m1, "fieldRename"@, "none"@);
    let m3 = with_default(m2, "includeIfNull"@, "true"@);
    lemma_with_default_get(w, "json"@, "true"@, k);
    lemma_with_default_get(m1, "fieldRename"@, "none"@, k);
    lemma_with_default_get(m2, "includeIfNull"@, "true"@, k);
    lemma_with_default_get(m3, "copyWith"@, "true"@, k);
    lemma_with_default_get(w, "json"@, "true"@, "fieldRename"@);
    lemma_with_default_get(m1, "fieldRename"@, "none"@, "includeIfNull"@);
    lemma_with_default_get(w, "json"@, "true"@, "includeIfNull"@);
    lemma_with_default_get(m2, "includeIfNull"@, "true"@, "copyWith"@);
    lemma_with_default_get(m1, "fieldRename"@, "none"@, "copyWith"@);
    lemma_with_default_get(w, "json"@, "true"@, "copyWith"@);
}

/// A parsed `@Veltro` annotation always binds the four options.
pub proof fn lemma_veltro_options_present(text: Seq<char>)
    ensures
        parse_annotation(text) matches Some(a) ==> (a.name == "Veltro"@ ==> {
            &&& assoc_get(a.arguments, "json"@) is Some
            &&& assoc_get(a.arguments, "fieldRename"@) is Some
            &&& assoc_get(a.arguments, "includeIfNull"@) is Some
            &&& assoc_get(a.arguments, "copyWith"@) is Some
        }),
{
    match annotation_parts(text) {
        Some(parts) => {
            lemma_veltro_defaults(parts.1, "json"@);
            lemma_veltro_defaults(parts.1, "fieldRename"@);
            lemma_veltro_defaults(parts.1, "includeIfNull"@);
            lemma_veltro_defaults(parts.1, "copyWith"@);
        },
        None => {},
    }
}

/// The name and argument text of an annotation, e.g. `@Veltro(json: false)`.
pub open spec fn annotation_parts(text: Seq<char>) -> Option<(Seq<char>, Seq<char>)> {
    if text.len() == 0 || text[0] != '@' {
        None
    } else {
        let w = text.drop_first();
        match find(w, seq!['(']) {
            Some(p) => {
                let after = w.subrange(p + 1, w.len() as int);
                match rfind(after, seq![')']) {
                    Some(c) => Some((trim(w.subrange(0, p)), after.subrange(0, c))),
                    None => None,
                }
            },
            None => Some((trim(w), Seq::empty())),
        }
    }
}

/// The annotation described by `text`: only `@Veltro` keeps arguments.
pub open spec fn parse_annotation(text: Seq<char>) -> Option<AnnotationSpec> {
    match annotation_parts(text) {
        None => None,
        Some(parts) => if parts.0.len() == 0 {
            None
        } else {
            Some(
                AnnotationSpec {
                    name: parts.0,
                    arguments: if parts.0 == "Veltro"@ {
                        veltro_arguments(parts.1)
                    } else {
                        Seq::empty()
                    },
                },
            )
        },
    }
}

fn apply_arguments_exec(pieces: &Vec<Vec<char>>) -> (r: StringMap)
    ensures
        r@ == apply_arguments(pieces@.map_values(|v: Vec<char>| v@)),
{
    let ghost ps = pieces@.map_values(|v: Vec<char>| v@);
    let mut m = StringMap::new();
    let mut i: usize = 0;
    while i < pieces.len()
        invariant
            i <= pieces.len(),
            ps == pieces@.map_values(|v: Vec<char>| v@),
            m@ == apply_arguments(ps.take(i as int)),
        decreases pieces.len() - i,
    {
        assert(ps.take(i + 1).drop_last() =~= ps.take(i as int));
        assert(ps[i as int] == pieces@[i as int]@);
        let piece = &pieces[i];
        let p = trim_exec(piece, 0, piece.len());
        assert(piece@.subrange(0, piece@.len() as int) == piece@);
        let colon = vec![':'];
        assert(colon@ =~= seq![':']);
        let fc = find_exec(&p, &colon);
        proof {
            crate::text::lemma_find_from_bounds(p@, colon@, 0);
        }
        match fc {
            None => {},
            Some(c) => {
                let key = trim_exec(&p, 0, c);
                let raw = trim_exec(&p, c + 1, p.len());
                let fr = chars_of("fieldRename");
                let value = if seq_eq(&key, &fr) {
                    let dot = vec!['.'];
                    assert(dot@ =~= seq!['.']);
                    let found = rfind_exec(&raw, &dot);
                    proof {
                        crate::text::lemma_rfind_upto_bounds(raw@, dot@, raw@.len() - dot@.len());
                    }
                    match found {
                        Some(d) => {
                            assert(rfind_upto(raw@, dot@, raw@.len() - dot@.len()) == Some(d as int));
                            assert(matches_at(raw@, dot@, d as int));
                            assert(d + 1 <= raw.len());
                            slice_vec(&raw, d + 1, raw.len())
                        },
                        None => raw,
                    }
                } else {
                    raw
                };
                m.insert(string_of(&key), string_of(&value));
            },
        }
        i = i + 1;
    }
    assert(ps.take(pieces.len() as int) =~= ps);
    m
}

fn with_default_exec(m: &mut StringMap, key: &str, value: &str)
    ensures
        final(m)@ == with_default(old(m)@, key@, value@),
{
    let k = crate::text::owned(key);
    let v = crate::text::owned(value);
    m.insert_if_absent(k, v);
}

/// Parses annotation text such as `@Veltro(json: false)`.
pub fn parse_annotation_text(text: &str) -> (r: Option<AnnotationIR>)
    ensures
        r matches Some(a) ==> parse_annotation(text@) == Some(a@),
        r is None ==> parse_annotation(text@) is None,
{
    let t = chars_of(text);
    if t.len() == 0 || t[0] != '@' {
        return None;
    }
    let w = slice_vec(&t, 1, t.len());
    assert(w@ =~= t@.drop_first());
    let open = vec!['('];
    assert(open@ =~= seq!['(']);
    let fo = find_exec(&w, &open);
    proof {
        crate::text::lemma_find_from_bounds(w@, open@, 0);
    }
    let (name, args) = match fo {
        Some(p) => {
            let after = slice_vec(&w, p + 1, w.len());
            let close = vec![')'];
            assert(close@ =~= seq![')']);
            let found = rfind_exec(&after, &close);
            proof {
                crate::text::lemma_rfind_upto_bounds(after@, close@, after@.len() - close@.len());
            }
            match found {
                Some(c) => {
                    (trim_exec(&w, 0, p), slice_vec(&after, 0, c))
                },
                None => {
                    return None;
                },
            }
        },
        None => {
            assert(w@.subrange(0, w@.len() as int) == w@);
            (trim_exec(&w, 0, w.len()), Vec::new())
        },
    };
    if name.len() == 0 {
        return None;
    }
    let veltro = chars_of("Veltro");
    let mut arguments = StringMap::new();
    if seq_eq(&name, &veltro) {
        let trimmed = trim_exec(&args, 0, args.len());
        assert(args@.subrange(0, args@.len() as int) == args@);
        if trimmed.len() != 0 {
            let pieces = split_exec(&args, ',');
            arguments = apply_arguments_exec(&pieces);
        }
        with_default_exec(&mut arguments, "json", "true");
        with_default_exec(&mut arguments, "fieldRename", "none");
        with_default_exec(&mut arguments, "includeIfNull", "true");
        with_default_exec(&mut arguments, "copyWith", "true");
    }
    Some(AnnotationIR { name: string_of(&name), arguments })
}

// ───────────────────────────── @Default(...) ─────────────────────────────

/// Index of the bracket closing the one open at depth `depth`, scanning from `i`.
pub open spec fn closing_index(s: Seq<char>, i: int, depth: int) -> Option<int>
    decreases s.len() - i,
{
    if i < 0 || i >= s.len() {
        None
    } else if s[i] == '(' || s[i] == '[' || s[i] == '{' {
        closing_index(s, i + 1, depth + 1)
    } else if s[i] == ')' || s[i] == ']' || s[i] == '}' {
        if depth == 1 {
            Some(i)
        } else {
            closing_index(s, i + 1, depth - 1)
        }
    } else {
        closing_index(s, i + 1, depth)
    }
}

/// The text inside the first `@Default(...)`, trimmed, unless it is empty or unclosed.
pub open spec fn default_value_of(text: Seq<char>) -> Option<Seq<char>> {
    match find(text, "@Default("@) {
        None => None,
        Some(st) => {
            let after = text.subrange(st + "@Default("@.len(), text.len() as int);
            match closing_index(after, 0, 1) {
                None => None,
                Some(e) => if trim(after.subrange(0, e)).len() == 0 {
                    None
                } else {
                    Some(trim(after.subrange(0, e)))
                },
            }
        },
    }
}

proof fn lemma_closing_index_bounds(s: Seq<char>, i: int, depth: int)
    ensures
        closing_index(s, i, depth) matches Some(e) ==> i <= e < s.len(),
    decreases s.len() - i,
{
    if 0 <= i < s.len() {
        if s[i] == '(' || s[i] == '[' || s[i] == '{' {
            lemma_closing_index_bounds(s, i + 1, depth + 1);
        } else if s[i] == ')' || s[i] == ']' || s[i] == '}' {
            if depth != 1 {
                lemma_closing_index_bounds(s, i + 1, depth - 1);
            }
        } else {
            lemma_closing_index_bounds(s, i + 1, depth);
        }
    }
}

/// Extracts the raw value of `@Default(value)`, e.g. "false", "ThemeMode.dark".
pub fn extract_default_value(text: &str) -> (r: Option<String>)
    ensures
        r matches Some(v) ==> default_value_of(text@) == Some(v@),
        r is None ==> default_value_of(text@) is None,
{
    let t = chars_of(text);
    let prefix = chars_of("@Default(");
    let found = find_exec(&t, &prefix);
    proof {
        crate::text::lemma_find_from_bounds(t@, prefix@, 0);
    }
    let start = match found {
        Some(s) => s,
        None => {
            return None;
        },
    };
    assert(find(t@, prefix@) == Some(start as int));
    assert(find_from(t@, prefix@, 0) == Some(start as int));
    assert(matches_at(t@, prefix@, start as int));
    assert(start + prefix@.len() <= t@.len());
    assert(start + prefix.len() <= t.len());
    let after = slice_vec(&t, start + prefix.len(), t.len());
    // `extra` is the bracket depth minus one.
    let mut extra: usize = 0;
    let mut i: usize = 0;
    while i < after.len()
        invariant
            i <= after.len(),
            extra <= i,
            closing_index(after@, 0, 1) == closing_index(after@, i as int, extra + 1),
            find(text@, "@Default("@) == Some(start as int),
            start + "@Default("@.len() <= text@.len(),
            after@ == text@.subrange(start + "@Default("@.len(), text@.len() as int),
        decreases after.len() - i,
    {
        let ch = after[i];
        if ch == '(' || ch == '[' || ch == '{' {
            extra = extra + 1;
        } else if ch == ')' || ch == ']' || ch == '}' {
            if extra == 0 {
                assert(closing_index(after@, i as int, 1) == Some(i as int));
                assert(closing_index(after@, 0, 1) == Some(i as int));
                let v = trim_exec(&after, 0, i);
                if v.len() == 0 {
                    return None;
                } else {
                    return Some(string_of(&v));
                }
            }
            extra = extra - 1;
        }
        i = i + 1;
    }
    None
}

// ───────────────────────────── class text checks ─────────────────────────────

/// The class text declares the mixin: `expected` appears after the first `with`
/// and before the next `{` (or anywhere after `with` when there is no `{`).
pub open spec fn has_with_mixin(class_text: Seq<char>, expected: Seq<char>) -> bool {
    match find(class_text, "with"@) {
        None => false,
        Some(w) => {
            let after = class_text.subrange(w + 4, class_text.len() as int);
            match find(after, seq!['{']) {
                Some(b) => contains(after.subrange(0, b), expected),
                None => contains(after, expected),
            }
        },
    }
}

/// Whether the class text mixes in `expected_mixin` after `with`.
pub fn check_has_with_mixin(class_text: &str, expected_mixin: &str) -> (r: bool)
    ensures
        r == has_with_mixin(class_text@, expected_mixin@),
{
    let t = chars_of(class_text);
    let e = chars_of(expected_mixin);
    let with = chars_of("with");
    proof {
        reveal_strlit("with");
    }
    let found = find_exec(&t, &with);
    proof {
        crate::text::lemma_find_from_bounds(t@, with@, 0);
    }
    match found {
        None => false,
        Some(w) => {
            assert(find_from(t@, with@, 0) == Some(w as int));
            assert(matches_at(t@, with@, w as int));
            assert(w + 4 <= t.len());
            let after = slice_vec(&t, w + 4, t.len());
            let brace = vec!['{'];
            assert(brace@ =~= seq!['{']);
            let fb = find_exec(&after, &brace);
            proof {
                crate::text::lemma_find_from_bounds(after@, brace@, 0);
            }
            match fb {
                Some(b) => {
                    let section = slice_vec(&after, 0, b);
                    contains_exec(&section, &e)
                },
                None => contains_exec(&after, &e),
            }
        },
    }
}


// ───────────────────────────── results ─────────────────────────────

/// Errors that can occur during analysis of the syntax tree.
#[derive(Debug)]
pub enum AnalyzeError {
    UnexpectedStructure(String),
}

impl AnalyzeError {
    /// The message carried by the error.
    pub open spec fn message(&self) -> Seq<char> {
        match self {
            AnalyzeError::UnexpectedStructure(m) => m@,
        }
    }

    /// The text shown for the error.
    pub fn describe(&self) -> (r: String)
        ensures
            r@ == "Unexpected AST structure: "@ + self.message(),
    {
        match self {
            AnalyzeError::UnexpectedStructure(m) => {
                let mut s = owned("Unexpected AST structure: ");
                s.append(m.as_str());
                s
            },
        }
    }
}

/// `a` in front of the sequence in `r`, or the error of `r`.
pub open spec fn prepend<T>(a: Seq<T>, r: Result<Seq<T>, Seq<char>>) -> Result<Seq<T>, Seq<char>> {
    match r {
        Ok(b) => Ok(a + b),
        Err(e) => Err(e),
    }
}

// ───────────────────────────── parameters ─────────────────────────────

/// Whether a kind names a formal parameter.
pub open spec fn is_param_kind(k: Seq<char>) -> bool {
    k == "formal_parameter"@ || k == "normal_formal_parameter"@ || k == "default_formal_parameter"@
}

/// The text ends with `?`.
pub open spec fn ends_with_q(t: Seq<char>) -> bool {
    t.len() > 0 && t.last() == '?'
}

/// Where the text scanned for a parameter starts: after the last `,` or `{` before it.
pub open spec fn param_scan_start(src: Seq<char>, n: SyntaxNode) -> int {
    let st = if n.start < src.len() {
        n.start as int
    } else {
        src.len() as int
    };
    match rfind_any_upto(src, seq![',', '{'], st - 1) {
        Some(i) => i + 1,
        None => 0,
    }
}

/// Type name, nullability and name gathered from the children of a parameter without
/// a `type` field.
pub open spec fn scan_children(src: Seq<char>, cs: Seq<SyntaxNode>, init: (Seq<char>, bool, Seq<char>)) -> (
    Seq<char>,
    bool,
    Seq<char>,
)
    decreases cs.len(),
{
    if cs.len() == 0 {
        init
    } else {
        let acc = scan_children(src, cs.drop_last(), init);
        let c = cs.last();
        let k = c.kind@;
        if k == "type"@ || k == "type_identifier"@ || k == "type_annotation"@ || k == "user_type"@ {
            let t = text_of(src, c);
            (trim(trim_end_char(t, '?')), ends_with_q(t), acc.2)
        } else if k == "identifier"@ && acc.2.len() == 0 {
            (acc.0, acc.1, text_of(src, c))
        } else {
            acc
        }
    }
}

/// Text of the last child of kind `identifier`.
pub open spec fn last_identifier(src: Seq<char>, cs: Seq<SyntaxNode>) -> Option<Seq<char>>
    decreases cs.len(),
{
    if cs.len() == 0 {
        None
    } else if cs.last().kind@ == "identifier"@ {
        Some(text_of(src, cs.last()))
    } else {
        last_identifier(src, cs.drop_last())
    }
}

/// Texts of the children of kind `k`, in order.
pub open spec fn texts_of_kind(src: Seq<char>, cs: Seq<SyntaxNode>, k: Seq<char>) -> Seq<Seq<char>>
    decreases cs.len(),
{
    if cs.len() == 0 {
        Seq::empty()
    } else if cs.last().kind@ == k {
        texts_of_kind(src, cs.drop_last(), k).push(text_of(src, cs.last()))
    } else {
        texts_of_kind(src, cs.drop_last(), k)
    }
}

/// Type name and nullability of a parameter with a `type` field `t`.
pub open spec fn typed_info(src: Seq<char>, t: SyntaxNode) -> (Seq<char>, bool) {
    let tt = text_of(src, t);
    let ty0 = trim(trim_end_char(tt, '?'));
    let ty = match field_child(t, "type"@) {
        Some(u) => match field_child(u, "name"@) {
            Some(tn) => text_of(src, tn),
            None => ty0,
        },
        None => ty0,
    };
    (ty, ends_with_q(tt))
}

/// Type arguments of a parameter with a `type` field `t`.
pub open spec fn type_args_of(src: Seq<char>, t: SyntaxNode) -> Seq<Seq<char>> {
    match field_child(t, "type"@) {
        Some(u) => match field_child(u, "type_arguments"@) {
            Some(ta) => texts_of_kind(src, ta.children@, "type_annotation"@),
            None => Seq::empty(),
        },
        None => Seq::empty(),
    }
}

/// Type arguments of a parameter node (after unwrapping a default parameter).
pub open spec fn parameter_args(src: Seq<char>, sp: SyntaxNode) -> Seq<Seq<char>> {
    match field_child(sp, "type"@) {
        Some(t) => type_args_of(src, t),
        None => Seq::empty(),
    }
}

/// The field described by a formal-parameter node.
pub open spec fn parameter_field(src: Seq<char>, n: SyntaxNode) -> Result<FieldSpec, Seq<char>> {
    let ctx = span_of(src, param_scan_start(src, n), n.end as int);
    let simple = if n.kind@ == "default_formal_parameter"@ {
        field_child(n, "parameter"@)
    } else {
        Some(n)
    };
    match simple {
        None => Err("Missing parameter in default_formal_parameter"@),
        Some(sp) => {
            let name0 = match field_child(sp, "name"@) {
                Some(x) => text_of(src, x),
                None => Seq::empty(),
            };
            let info = match field_child(sp, "type"@) {
                Some(t) => {
                    let ti = typed_info(src, t);
                    (ti.0, ti.1, name0)
                },
                None => scan_children(src, sp.children@, ("dynamic"@, false, name0)),
            };
            let args = parameter_args(src, sp);
            let name = if info.2.len() == 0 {
                match last_identifier(src, sp.children@) {
                    Some(x) => x,
                    None => info.2,
                }
            } else {
                info.2
            };
            let ty = info.0;
            let nullable = info.1 || (ty.len() > 0 && ty != "dynamic"@ && contains(ctx, ty.push('?')));
            if name.len() == 0 {
                Err("Could not parse parameter name: "@ + ctx)
            } else {
                Ok(
                    FieldSpec {
                        name,
                        dart_type: ty,
                        generic_args: args,
                        is_required: contains(ctx, "required"@),
                        is_nullable: nullable,
                        resolved_kind: ResolvedKind::External,
                        is_generic_param: false,
                        default_value: default_value_of(ctx),
                    },
                )
            }
        },
    }
}


fn scan_children_exec(src: &Vec<char>, cs: &Vec<SyntaxNode>, name0: Vec<char>) -> (r: (Vec<char>, bool, Vec<char>))
    ensures
        (r.0@, r.1, r.2@) == scan_children(src@, cs@, ("dynamic"@, false, name0@)),
{
    let mut ty = chars_of("dynamic");
    let mut nullable = false;
    let mut name = name0;
    let ghost init = ("dynamic"@, false, name0@);
    let mut i: usize = 0;
    while i < cs.len()
        invariant
            i <= cs.len(),
            init == ("dynamic"@, false, name0@),
            (ty@, nullable, name@) == scan_children(src@, cs@.take(i as int), init),
        decreases cs.len() - i,
    {
        assert(cs@.take(i + 1).drop_last() =~= cs@.take(i as int));
        assert(cs@.take(i + 1).last() == cs@[i as int]);
        let c = &cs[i];
        if kind_is(c, "type") || kind_is(c, "type_identifier") || kind_is(c, "type_annotation") || kind_is(c, "user_type") {
            let t = text_exec(src, c);
            let tq = trim_end_char_exec(&t, '?');
            ty = trim_exec(&tq, 0, tq.len());
            assert(tq@.subrange(0, tq@.len() as int) == tq@);
            nullable = t.len() > 0 && t[t.len() - 1] == '?';
        } else if kind_is(c, "identifier") && name.len() == 0 {
            name = text_exec(src, c);
        }
        i = i + 1;
    }
    assert(cs@.take(cs.len() as int) =~= cs@);
    (ty, nullable, name)
}

fn last_identifier_exec(src: &Vec<char>, cs: &Vec<SyntaxNode>) -> (r: Option<Vec<char>>)
    ensures
        r matches Some(t) ==> last_identifier(src@, cs@) == Some(t@),
        r is None ==> last_identifier(src@, cs@) is None,
{
    let mut i: usize = cs.len();
    assert(cs@.take(cs.len() as int) =~= cs@);
    while i > 0
        invariant
            i <= cs.len(),
            last_identifier(src@, cs@) == last_identifier(src@, cs@.take(i as int)),
        decreases i,
    {
        assert(cs@.take(i as int).last() == cs@[i - 1]);
        assert(cs@.take(i as int).drop_last() =~= cs@.take(i - 1));
        if kind_is(&cs[i - 1], "identifier") {
            return Some(text_exec(src, &cs[i - 1]));
        }
        i = i - 1;
    }
    None
}

fn texts_of_kind_exec(src: &Vec<char>, cs: &Vec<SyntaxNode>, k: &str) -> (r: Vec<String>)
    ensures
        crate::text::views(r@) == texts_of_kind(src@, cs@, k@),
{
    let mut out: Vec<String> = Vec::new();
    let mut i: usize = 0;
    while i < cs.len()
        invariant
            i <= cs.len(),
            crate::text::views(out@) == texts_of_kind(src@, cs@.take(i as int), k@),
        decreases cs.len() - i,
    {
        assert(cs@.take(i + 1).drop_last() =~= cs@.take(i as int));
        assert(cs@.take(i + 1).last() == cs@[i as int]);
        if kind_is(&cs[i], k) {
            let t = text_exec(src, &cs[i]);
            let ghost before = out@;
            out.push(string_of(&t));
            assert(crate::text::views(out@) =~= crate::text::views(before).push(t@));
        }
        i = i + 1;
    }
    assert(cs@.take(cs.len() as int) =~= cs@);
    out
}

/// The field described by a formal-parameter node.
pub fn parse_parameter(node: &SyntaxNode, src: &Vec<char>) -> (r: Result<FieldIR, AnalyzeError>)
    ensures
        r matches Ok(f) ==> parameter_field(src@, *node) == Ok::<FieldSpec, Seq<char>>(f@),
        r matches Err(e) ==> parameter_field(src@, *node) == Err::<FieldSpec, Seq<char>>(e.message()),
{
    let st = if node.start < src.len() {
        node.start
    } else {
        src.len()
    };
    let seps = vec![',', '{'];
    assert(seps@ =~= seq![',', '{']);
    let scan_start = if st == 0 {
        0
    } else {
        match rfind_any_upto_exec(src, &seps, st - 1) {
            Some(i) => {
                proof {
                    crate::path::lemma_rfind_any_upto_bound(src@, seps@, st - 1);
                }
                i + 1
            },
            None => 0,
        }
    };
    let ctx = span_exec(src, scan_start, node.end);
    let ctx_str = string_of(&ctx);
    let default_value = extract_default_value(ctx_str.as_str());
    let required = chars_of("required");
    let is_required = contains_exec(&ctx, &required);
    let sp: &SyntaxNode = if kind_is(node, "default_formal_parameter") {
        match field_child_exec(node, "parameter") {
            Some(i) => &node.children[i],
            None => {
                return Err(AnalyzeError::UnexpectedStructure(owned("Missing parameter in default_formal_parameter")));
            },
        }
    } else {
        node
    };
    let name0 = match field_child_exec(sp, "name") {
        Some(i) => text_exec(src, &sp.children[i]),
        None => Vec::new(),
    };
    let (ty, nullable, name, args) = match field_child_exec(sp, "type") {
        Some(ti) => {
            let t = &sp.children[ti];
            let tt = text_exec(src, t);
            let tq = trim_end_char_exec(&tt, '?');
            let ty0 = trim_exec(&tq, 0, tq.len());
            assert(tq@.subrange(0, tq@.len() as int) == tq@);
            let nullable = tt.len() > 0 && tt[tt.len() - 1] == '?';
            let (ty, args) = match field_child_exec(t, "type") {
                Some(ui) => {
                    let u = &t.children[ui];
                    let ty = match field_child_exec(u, "name") {
                        Some(ni) => text_exec(src, &u.children[ni]),
                        None => ty0,
                    };
                    let args = match field_child_exec(u, "type_arguments") {
                        Some(ai) => texts_of_kind_exec(src, &u.children[ai].children, "type_annotation"),
                        None => Vec::new(),
                    };
                    (ty, args)
                },
                None => (ty0, Vec::new()),
            };
            (ty, nullable, name0, args)
        },
        None => {
            let (ty, nullable, name) = scan_children_exec(src, &sp.children, name0);
            (ty, nullable, name, Vec::new())
        },
    };
    assert(crate::text::views(args@) =~= parameter_args(src@, *sp));
    let name = if name.len() == 0 {
        match last_identifier_exec(src, &sp.children) {
            Some(x) => x,
            None => name,
        }
    } else {
        name
    };
    let dynamic = chars_of("dynamic");
    let mut nullable = nullable;
    if !nullable && ty.len() > 0 && !seq_eq(&ty, &dynamic) {
        let q = vec!['?'];
        let tyq = concat_vec(&ty, &q);
        assert(tyq@ =~= ty@.push('?'));
        if contains_exec(&ctx, &tyq) {
            nullable = true;
        }
    }
    if name.len() == 0 {
        let mut msg = owned("Could not parse parameter name: ");
        crate::text::append_chars(&mut msg, &ctx);
        return Err(AnalyzeError::UnexpectedStructure(msg));
    }
    let f = FieldIR {
        name: string_of(&name),
        dart_type: string_of(&ty),
        generic_args: args,
        is_required,
        is_nullable: nullable,
        resolved_kind: ResolvedKind::External,
        is_generic_param: false,
        default_value,
    };
    proof {
        let d = default_value_of(ctx@);
        assert(crate::ir::opt_view(f.default_value) == d);
    }
    Ok(f)
}


// ───────────────────────────── parameter lists ─────────────────────────────

/// All fields under a node: a parameter node gives its own field, any other node the
/// fields of its children, in order; the first error wins.
pub open spec fn param_fields(src: Seq<char>, n: SyntaxNode) -> Result<Seq<FieldSpec>, Seq<char>>
    decreases n, 1int, 0int,
{
    if is_param_kind(n.kind@) {
        match parameter_field(src, n) {
            Ok(f) => Ok(seq![f]),
            Err(e) => Err(e),
        }
    } else {
        param_fields_from(src, n, 0)
    }
}

/// Fields under the children of `n` from index `i` on.
pub open spec fn param_fields_from(src: Seq<char>, n: SyntaxNode, i: int) -> Result<Seq<FieldSpec>, Seq<char>>
    decreases n, 0int, n.children@.len() - i,
{
    if i < 0 || i >= n.children@.len() {
        Ok(Seq::empty())
    } else {
        match param_fields(src, n.children@[i]) {
            Err(e) => Err(e),
            Ok(a) => prepend(a, param_fields_from(src, n, i + 1)),
        }
    }
}

/// Collects the fields declared by the parameter nodes under `node`.
pub fn recursive_extract_fields(node: &SyntaxNode, src: &Vec<char>) -> (r: Result<Vec<FieldIR>, AnalyzeError>)
    ensures
        r matches Ok(fs) ==> param_fields(src@, *node) == Ok::<Seq<FieldSpec>, Seq<char>>(field_views(fs@)),
        r matches Err(e) ==> param_fields(src@, *node) == Err::<Seq<FieldSpec>, Seq<char>>(e.message()),
    decreases *node,
{
    if kind_is(node, "formal_parameter") || kind_is(node, "normal_formal_parameter") || kind_is(
        node,
        "default_formal_parameter",
    ) {
        match parse_parameter(node, src) {
            Ok(f) => {
                let mut v: Vec<FieldIR> = Vec::new();
                v.push(f);
                assert(field_views(v@) =~= seq![f@]);
                return Ok(v);
            },
            Err(e) => {
                return Err(e);
            },
        }
    }
    let mut fields: Vec<FieldIR> = Vec::new();
    let mut i: usize = 0;
    while i < node.children.len()
        invariant
            i <= node.children.len(),
            !is_param_kind(node.kind@),
            param_fields(src@, *node) == prepend(field_views(fields@), param_fields_from(src@, *node, i as int)),
        decreases node.children.len() - i,
    {
        match recursive_extract_fields(&node.children[i], src) {
            Ok(fs) => {
                let ghost before = fields@;
                let mut fs = fs;
                let ghost added = field_views(fs@);
                fields.append(&mut fs);
                assert(field_views(fields@) =~= field_views(before) + added);
                proof {
                    let x = param_fields_from(src@, *node, i + 1);
                    assert(param_fields_from(src@, *node, i as int) == prepend(added, x));
                    match x {
                        Ok(b) => {
                            assert(field_views(before) + (added + b) =~= (field_views(before) + added) + b);
                        },
                        Err(_) => {},
                    }
                }
            },
            Err(e) => {
                return Err(e);
            },
        }
        i = i + 1;
    }
    Ok(fields)
}

// ───────────────────────────── constructors ─────────────────────────────

/// Index of the first node of kind `k` in `cs` at or after `i`.
pub open spec fn kind_index_from(cs: Seq<SyntaxNode>, k: Seq<char>, i: int) -> Option<int>
    decreases cs.len() - i,
{
    if i < 0 || i >= cs.len() {
        None
    } else if cs[i].kind@ == k {
        Some(i)
    } else {
        kind_index_from(cs, k, i + 1)
    }
}

/// Fields from a parameter list, as a found result.
pub open spec fn found(r: Result<Seq<FieldSpec>, Seq<char>>) -> Result<Option<Seq<FieldSpec>>, Seq<char>> {
    match r {
        Ok(f) => Ok(Some(f)),
        Err(e) => Err(e),
    }
}

/// The fields of the first factory constructor (other than `Name.fromJson`) found in
/// pre-order under `n`.
pub open spec fn factory_fields(src: Seq<char>, n: SyntaxNode, cname: Seq<char>) -> Result<
    Option<Seq<FieldSpec>>,
    Seq<char>,
>
    decreases n, 1int, 0int,
{
    let t = text_of(src, n);
    if contains(n.kind@, "constructor"@) && contains(t, "factory"@) {
        if contains(t, cname + ".fromJson"@) {
            Ok(None)
        } else {
            match kind_index_from(n.children@, "formal_parameter_list"@, 0) {
                Some(i) => found(param_fields(src, n.children@[i])),
                None => match field_child(n, "parameters"@) {
                    Some(p) => found(param_fields(src, p)),
                    None => factory_fields_from(src, n, cname, 0),
                },
            }
        }
    } else {
        factory_fields_from(src, n, cname, 0)
    }
}

/// `factory_fields` over the children of `n` from index `i` on.
pub open spec fn factory_fields_from(src: Seq<char>, n: SyntaxNode, cname: Seq<char>, i: int) -> Result<
    Option<Seq<FieldSpec>>,
    Seq<char>,
>
    decreases n, 0int, n.children@.len() - i,
{
    if i < 0 || i >= n.children@.len() {
        Ok(None)
    } else {
        match factory_fields(src, n.children@[i], cname) {
            Err(e) => Err(e),
            Ok(Some(f)) => Ok(Some(f)),
            Ok(None) => factory_fields_from(src, n, cname, i + 1),
        }
    }
}

fn kind_index_exec(cs: &Vec<SyntaxNode>, k: &str) -> (r: Option<usize>)
    ensures
        r matches Some(i) ==> i < cs@.len() && kind_index_from(cs@, k@, 0) == Some(i as int),
        r is None ==> kind_index_from(cs@, k@, 0) is None,
{
    let mut i: usize = 0;
    while i < cs.len()
        invariant
            i <= cs.len(),
            kind_index_from(cs@, k@, 0) == kind_index_from(cs@, k@, i as int),
        decreases cs.len() - i,
    {
        if kind_is(&cs[i], k) {
            return Some(i);
        }
        i = i + 1;
    }
    None
}

fn found_exec(r: Result<Vec<FieldIR>, AnalyzeError>) -> (o: Result<Option<Vec<FieldIR>>, AnalyzeError>)
    ensures
        r matches Ok(fs) ==> o matches Ok(Some(g)) && field_views(g@) == field_views(fs@),
        r matches Err(e) ==> o matches Err(e2) && e2.message() == e.message(),
{
    match r {
        Ok(fs) => Ok(Some(fs)),
        Err(e) => Err(e),
    }
}

/// Searches `node` for the parameter list of a factory constructor of `class_name`.
pub fn try_find_fields(node: &SyntaxNode, src: &Vec<char>, class_name: &Vec<char>) -> (r: Result<
    Option<Vec<FieldIR>>,
    AnalyzeError,
>)
    ensures
        r matches Ok(Some(fs)) ==> factory_fields(src@, *node, class_name@) == Ok::<
            Option<Seq<FieldSpec>>,
            Seq<char>,
        >(Some(field_views(fs@))),
        r matches Ok(None) ==> factory_fields(src@, *node, class_name@) == Ok::<Option<Seq<FieldSpec>>, Seq<char>>(
            None,
        ),
        r matches Err(e) ==> factory_fields(src@, *node, class_name@) == Err::<Option<Seq<FieldSpec>>, Seq<char>>(
            e.message(),
        ),
    decreases *node,
{
    let t = text_exec(src, node);
    let kind = chars_of(node.kind.as_str());
    let ctor = chars_of("constructor");
    let factory = chars_of("factory");
    if contains_exec(&kind, &ctor) && contains_exec(&t, &factory) {
        let suffix = chars_of(".fromJson");
        let pat = concat_vec(class_name, &suffix);
        if contains_exec(&t, &pat) {
            return Ok(None);
        }
        match kind_index_exec(&node.children, "formal_parameter_list") {
            Some(i) => {
                return found_exec(recursive_extract_fields(&node.children[i], src));
            },
            None => {},
        }
        match field_child_exec(node, "parameters") {
            Some(i) => {
                return found_exec(recursive_extract_fields(&node.children[i], src));
            },
            None => {},
        }
    }
    let mut i: usize = 0;
    while i < node.children.len()
        invariant
            i <= node.children.len(),
            factory_fields(src@, *node, class_name@) == factory_fields_from(src@, *node, class_name@, i as int),
        decreases node.children.len() - i,
    {
        match try_find_fields(&node.children[i], src, class_name) {
            Ok(Some(fs)) => {
                return Ok(Some(fs));
            },
            Ok(None) => {},
            Err(e) => {
                return Err(e);
            },
        }
        i = i + 1;
    }
    Ok(None)
}


// ───────────────────────────── classes ─────────────────────────────

/// Names of the type parameters among `cs`.
pub open spec fn type_param_names(src: Seq<char>, cs: Seq<SyntaxNode>) -> Seq<Seq<char>>
    decreases cs.len(),
{
    if cs.len() == 0 {
        Seq::empty()
    } else {
        let rest = type_param_names(src, cs.drop_last());
        let c = cs.last();
        if c.kind@ == "type_parameter"@ {
            match field_child(c, "name"@) {
                Some(id) => rest.push(text_of(src, id)),
                None => rest,
            }
        } else {
            rest
        }
    }
}

/// The fields of the first member (from index `i`) that declares a factory constructor.
pub open spec fn member_fields(src: Seq<char>, body: SyntaxNode, cname: Seq<char>, i: int) -> Result<
    Seq<FieldSpec>,
    Seq<char>,
>
    decreases body.children@.len() - i,
{
    if i < 0 || i >= body.children@.len() {
        Ok(Seq::empty())
    } else {
        match factory_fields(src, body.children@[i], cname) {
            Err(e) => Err(e),
            Ok(Some(f)) => Ok(f),
            Ok(None) => member_fields(src, body, cname, i + 1),
        }
    }
}

/// The class described by a class node with its annotations.
pub open spec fn class_of(src: Seq<char>, n: SyntaxNode, path: Seq<char>, anns: Seq<AnnotationSpec>) -> Result<
    ClassSpec,
    Seq<char>,
> {
    match field_child(n, "name"@) {
        None => Err("Class name not found"@),
        Some(nn) => {
            let name = text_of(src, nn);
            let generics = match field_child(n, "type_parameters"@) {
                Some(tp) => type_param_names(src, tp.children@),
                None => Seq::empty(),
            };
            let mixin = has_with_mixin(text_of(src, n), "_$"@ + name);
            match field_child(n, "body"@) {
                None => Err("Class body not found"@),
                Some(body) => {
                    let fields = if mixin {
                        member_fields(src, body, name, 0)
                    } else {
                        Ok(Seq::empty())
                    };
                    match fields {
                        Err(e) => Err(e),
                        Ok(fs) => Ok(
                            ClassSpec {
                                ir_version: IR_VERSION,
                                name,
                                generics,
                                fields: fs,
                                annotations: anns,
                                source_file: path,
                                has_with_mixin: mixin,
                                has_from_json: contains(text_of(src, body), name + ".fromJson"@),
                            },
                        ),
                    }
                },
            }
        },
    }
}

fn type_param_names_exec(src: &Vec<char>, cs: &Vec<SyntaxNode>) -> (r: Vec<String>)
    ensures
        crate::text::views(r@) == type_param_names(src@, cs@),
{
    let mut out: Vec<String> = Vec::new();
    let mut i: usize = 0;
    while i < cs.len()
        invariant
            i <= cs.len(),
            crate::text::views(out@) == type_param_names(src@, cs@.take(i as int)),
        decreases cs.len() - i,
    {
        assert(cs@.take(i + 1).drop_last() =~= cs@.take(i as int));
        assert(cs@.take(i + 1).last() == cs@[i as int]);
        let c = &cs[i];
        if kind_is(c, "type_parameter") {
            match field_child_exec(c, "name") {
                Some(j) => {
                    let t = text_exec(src, &c.children[j]);
                    let ghost before = out@;
                    out.push(string_of(&t));
                    assert(crate::text::views(out@) =~= crate::text::views(before).push(t@));
                },
                None => {},
            }
        }
        i = i + 1;
    }
    assert(cs@.take(cs.len() as int) =~= cs@);
    out
}

fn member_fields_exec(body: &SyntaxNode, src: &Vec<char>, name: &Vec<char>) -> (r: Result<Vec<FieldIR>, AnalyzeError>)
    ensures
        r matches Ok(fs) ==> member_fields(src@, *body, name@, 0) == Ok::<Seq<FieldSpec>, Seq<char>>(field_views(fs@)),
        r matches Err(e) ==> member_fields(src@, *body, name@, 0) == Err::<Seq<FieldSpec>, Seq<char>>(e.message()),
{
    let mut i: usize = 0;
    while i < body.children.len()
        invariant
            i <= body.children.len(),
            member_fields(src@, *body, name@, 0) == member_fields(src@, *body, name@, i as int),
        decreases body.children.len() - i,
    {
        match try_find_fields(&body.children[i], src, name) {
            Ok(Some(fs)) => {
                return Ok(fs);
            },
            Ok(None) => {},
            Err(e) => {
                return Err(e);
            },
        }
        i = i + 1;
    }
    let empty: Vec<FieldIR> = Vec::new();
    assert(field_views(empty@) =~= Seq::<FieldSpec>::empty());
    Ok(empty)
}

/// Builds the class representation of a class node.
pub fn extract_class(node: &SyntaxNode, src: &Vec<char>, path: &String, annotations: Vec<AnnotationIR>) -> (r: Result<
    ClassIR,
    AnalyzeError,
>)
    ensures
        r matches Ok(c) ==> class_of(src@, *node, path@, annotation_views(annotations@)) == Ok::<ClassSpec, Seq<char>>(c@),
        r matches Err(e) ==> class_of(src@, *node, path@, annotation_views(annotations@)) == Err::<ClassSpec, Seq<char>>(
            e.message(),
        ),
{
    let name = match field_child_exec(node, "name") {
        Some(i) => text_exec(src, &node.children[i]),
        None => {
            return Err(AnalyzeError::UnexpectedStructure(owned("Class name not found")));
        },
    };
    let generics = match field_child_exec(node, "type_parameters") {
        Some(i) => type_param_names_exec(src, &node.children[i].children),
        None => Vec::new(),
    };
    assert(crate::text::views(generics@) == match field_child(*node, "type_parameters"@) {
        Some(tp) => type_param_names(src@, tp.children@),
        None => Seq::<Seq<char>>::empty(),
    });
    let prefix = chars_of("_$");
    let expected = concat_vec(&prefix, &name);
    let class_text = text_exec(src, node);
    let mixin = check_has_with_mixin(string_of(&class_text).as_str(), string_of(&expected).as_str());
    let body: &SyntaxNode = match field_child_exec(node, "body") {
        Some(i) => &node.children[i],
        None => {
            return Err(AnalyzeError::UnexpectedStructure(owned("Class body not found")));
        },
    };
    let suffix = chars_of(".fromJson");
    let pat = concat_vec(&name, &suffix);
    let body_text = text_exec(src, body);
    let has_from_json = contains_exec(&body_text, &pat);
    let fields: Vec<FieldIR> = if mixin {
        match member_fields_exec(body, src, &name) {
            Ok(f) => f,
            Err(e) => {
                return Err(e);
            },
        }
    } else {
        Vec::new()
    };
    let c = ClassIR {
        ir_version: IR_VERSION,
        name: string_of(&name),
        generics,
        fields,
        annotations,
        source_file: path.clone(),
        has_with_mixin: mixin,
        has_from_json,
    };
    proof {
        let nn = field_child(*node, "name"@)->Some_0;
        assert(name@ == text_of(src@, nn));
        let b = field_child(*node, "body"@)->Some_0;
        assert(*body == b);
        assert(mixin == has_with_mixin(text_of(src@, *node), "_$"@ + name@));
        assert(has_from_json == contains(text_of(src@, b), name@ + ".fromJson"@));
        assert(c@.fields == (if mixin { member_fields(src@, b, name@, 0)->Ok_0 } else { Seq::<FieldSpec>::empty() }));
        assert(c@.source_file == path@);
        assert(c@.generics == match field_child(*node, "type_parameters"@) {
            Some(tp) => type_param_names(src@, tp.children@),
            None => Seq::<Seq<char>>::empty(),
        });
    }
    Ok(c)
}


// ───────────────────────────── annotations of a class ─────────────────────────────

/// Whether a kind names an annotation.
pub open spec fn is_annotation_kind(k: Seq<char>) -> bool {
    k == "annotation"@ || k == "metadata"@
}

/// Trimmed texts of the annotation nodes among `cs`, in order.
pub open spec fn annotation_texts(src: Seq<char>, cs: Seq<SyntaxNode>) -> Seq<Seq<char>>
    decreases cs.len(),
{
    if cs.len() == 0 {
        Seq::empty()
    } else if is_annotation_kind(cs.last().kind@) {
        annotation_texts(src, cs.drop_last()).push(trim(text_of(src, cs.last())))
    } else {
        annotation_texts(src, cs.drop_last())
    }
}

/// Trimmed texts of the annotation siblings before index `j + 1`, nearest first,
/// stopping at a definition or declaration.
pub open spec fn prev_annotation_texts(src: Seq<char>, cs: Seq<SyntaxNode>, j: int) -> Seq<Seq<char>>
    decreases j + 1,
{
    if j < 0 || j >= cs.len() {
        Seq::empty()
    } else if is_annotation_kind(cs[j].kind@) {
        seq![trim(text_of(src, cs[j]))] + prev_annotation_texts(src, cs, j - 1)
    } else if contains(cs[j].kind@, "definition"@) || contains(cs[j].kind@, "declaration"@) {
        Seq::empty()
    } else {
        prev_annotation_texts(src, cs, j - 1)
    }
}

/// Annotation texts that may belong to a class node: its own annotation children,
/// the annotation siblings before it, and the annotation children of its parent.
pub open spec fn candidate_texts(src: Seq<char>, n: SyntaxNode, parent: Option<SyntaxNode>, idx: int) -> Seq<
    Seq<char>,
> {
    annotation_texts(src, n.children@) + match parent {
        Some(p) => prev_annotation_texts(src, p.children@, idx - 1) + annotation_texts(src, p.children@),
        None => Seq::empty(),
    }
}

/// Names of annotations.
pub open spec fn annotation_names(anns: Seq<AnnotationSpec>) -> Seq<Seq<char>> {
    anns.map_values(|a: AnnotationSpec| a.name)
}

/// The annotations parsed from `texts`, keeping the first of each name.
pub open spec fn distinct_annotations(texts: Seq<Seq<char>>) -> Seq<AnnotationSpec>
    decreases texts.len(),
{
    if texts.len() == 0 {
        Seq::empty()
    } else {
        let acc = distinct_annotations(texts.drop_last());
        match parse_annotation(texts.last()) {
            Some(a) => if annotation_names(acc).contains(a.name) {
                acc
            } else {
                acc.push(a)
            },
            None => acc,
        }
    }
}

/// Models of character vectors.
pub open spec fn vec_views(s: Seq<Vec<char>>) -> Seq<Seq<char>> {
    s.map_values(|v: Vec<char>| v@)
}

fn annotation_texts_exec(src: &Vec<char>, cs: &Vec<SyntaxNode>) -> (r: Vec<Vec<char>>)
    ensures
        vec_views(r@) == annotation_texts(src@, cs@),
{
    let mut out: Vec<Vec<char>> = Vec::new();
    let mut i: usize = 0;
    while i < cs.len()
        invariant
            i <= cs.len(),
            vec_views(out@) == annotation_texts(src@, cs@.take(i as int)),
        decreases cs.len() - i,
    {
        assert(cs@.take(i + 1).drop_last() =~= cs@.take(i as int));
        assert(cs@.take(i + 1).last() == cs@[i as int]);
        if kind_is(&cs[i], "annotation") || kind_is(&cs[i], "metadata") {
            let t = text_exec(src, &cs[i]);
            let tt = trim_exec(&t, 0, t.len());
            assert(t@.subrange(0, t@.len() as int) == t@);
            let ghost before = out@;
            out.push(tt);
            assert(vec_views(out@) =~= vec_views(before).push(tt@));
        }
        i = i + 1;
    }
    assert(cs@.take(cs.len() as int) =~= cs@);
    out
}

fn prev_annotation_texts_exec(src: &Vec<char>, cs: &Vec<SyntaxNode>, idx: usize) -> (r: Vec<Vec<char>>)
    ensures
        vec_views(r@) == prev_annotation_texts(src@, cs@, idx - 1),
{
    let mut out: Vec<Vec<char>> = Vec::new();
    let mut j: usize = if idx <= cs.len() {
        idx
    } else {
        0
    };
    if idx > cs.len() {
        assert(prev_annotation_texts(src@, cs@, idx - 1) =~= Seq::<Seq<char>>::empty());
        assert(vec_views(out@) =~= Seq::<Seq<char>>::empty());
        return out;
    }
    while j > 0
        invariant
            j <= cs.len(),
            prev_annotation_texts(src@, cs@, idx - 1) == vec_views(out@) + prev_annotation_texts(src@, cs@, j - 1),
        decreases j,
    {
        let c = &cs[j - 1];
        let ghost before = out@;
        if kind_is(c, "annotation") || kind_is(c, "metadata") {
            let t = text_exec(src, c);
            let tt = trim_exec(&t, 0, t.len());
            assert(t@.subrange(0, t@.len() as int) == t@);
            out.push(tt);
            assert(vec_views(out@) =~= vec_views(before).push(tt@));
            assert(vec_views(out@) + prev_annotation_texts(src@, cs@, j - 2) =~= vec_views(before) + (seq![tt@]
                + prev_annotation_texts(src@, cs@, j - 2)));
        } else {
            let k = chars_of(c.kind.as_str());
            let d1 = chars_of("definition");
            let d2 = chars_of("declaration");
            if contains_exec(&k, &d1) || contains_exec(&k, &d2) {
                assert(vec_views(out@) + prev_annotation_texts(src@, cs@, j - 1) =~= vec_views(out@));
                return out;
            }
        }
        j = j - 1;
    }
    assert(vec_views(out@) + prev_annotation_texts(src@, cs@, -1) =~= vec_views(out@));
    out
}

fn append_texts(a: &mut Vec<Vec<char>>, b: Vec<Vec<char>>)
    ensures
        vec_views(final(a)@) == vec_views(old(a)@) + vec_views(b@),
{
    let mut b = b;
    let ghost bb = b@;
    a.append(&mut b);
    assert(vec_views(a@) =~= vec_views(old(a)@) + vec_views(bb));
}

fn has_annotation_named(anns: &Vec<AnnotationIR>, name: &String) -> (r: bool)
    ensures
        r == annotation_names(annotation_views(anns@)).contains(name@),
{
    let mut i: usize = 0;
    while i < anns.len()
        invariant
            i <= anns.len(),
            forall|j: int| 0 <= j < i ==> annotation_names(annotation_views(anns@))[j] != name@,
        decreases anns.len() - i,
    {
        if str_eq(anns[i].name.as_str(), name.as_str()) {
            assert(annotation_names(annotation_views(anns@))[i as int] == name@);
            return true;
        }
        i = i + 1;
    }
    false
}

/// Collects the annotations of a class node; `parent` and `index` locate it in the tree.
pub fn collect_annotations(node: &SyntaxNode, parent: Option<&SyntaxNode>, index: usize, src: &Vec<char>) -> (r: Vec<
    AnnotationIR,
>)
    ensures
        annotation_views(r@) == distinct_annotations(candidate_texts(src@, *node, deref_node(parent), index as int)),
{
    let mut texts = annotation_texts_exec(src, &node.children);
    match parent {
        Some(p) => {
            let prev = prev_annotation_texts_exec(src, &p.children, index);
            let own = annotation_texts_exec(src, &p.children);
            let ghost t0 = vec_views(texts@);
            append_texts(&mut texts, prev);
            append_texts(&mut texts, own);
            assert(vec_views(texts@) =~= candidate_texts(src@, *node, deref_node(parent), index as int));
        },
        None => {
            assert(vec_views(texts@) =~= candidate_texts(src@, *node, deref_node(parent), index as int));
        },
    }
    let ghost all = vec_views(texts@);
    let mut anns: Vec<AnnotationIR> = Vec::new();
    let mut i: usize = 0;
    while i < texts.len()
        invariant
            i <= texts.len(),
            all == vec_views(texts@),
            annotation_views(anns@) == distinct_annotations(all.take(i as int)),
        decreases texts.len() - i,
    {
        assert(all.take(i + 1).drop_last() =~= all.take(i as int));
        assert(all.take(i + 1).last() == texts@[i as int]@);
        let t = string_of(&texts[i]);
        match parse_annotation_text(t.as_str()) {
            Some(a) => {
                if !has_annotation_named(&anns, &a.name) {
                    let ghost before = anns@;
                    let ghost av = a@;
                    anns.push(a);
                    assert(annotation_views(anns@) =~= annotation_views(before).push(av));
                }
            },
            None => {},
        }
        i = i + 1;
    }
    assert(all.take(texts.len() as int) =~= all);
    anns
}

/// The value behind an optional node reference.
pub open spec fn deref_node(o: Option<&SyntaxNode>) -> Option<SyntaxNode> {
    match o {
        Some(p) => Some(*p),
        None => None,
    }
}

// ───────────────────────────── traversal ─────────────────────────────

/// Whether a kind names a class.
pub open spec fn is_class_kind(k: Seq<char>) -> bool {
    k == "class_definition"@ || k == "class_declaration"@
}

/// Classes found in pre-order under `n`: every class node with at least one
/// annotation; the first error wins.
pub open spec fn classes_in(src: Seq<char>, path: Seq<char>, n: SyntaxNode, parent: Option<SyntaxNode>, idx: int) -> Result<
    Seq<ClassSpec>,
    Seq<char>,
>
    decreases n, 1int, 0int,
{
    let own: Result<Seq<ClassSpec>, Seq<char>> = if is_class_kind(n.kind@) {
        let anns = distinct_annotations(candidate_texts(src, n, parent, idx));
        if anns.len() > 0 {
            match class_of(src, n, path, anns) {
                Ok(c) => Ok(seq![c]),
                Err(e) => Err(e),
            }
        } else {
            Ok(Seq::empty())
        }
    } else {
        Ok(Seq::empty())
    };
    match own {
        Err(e) => Err(e),
        Ok(a) => prepend(a, classes_in_from(src, path, n, 0)),
    }
}

/// `classes_in` over the children of `n` from index `i` on.
pub open spec fn classes_in_from(src: Seq<char>, path: Seq<char>, n: SyntaxNode, i: int) -> Result<
    Seq<ClassSpec>,
    Seq<char>,
>
    decreases n, 0int, n.children@.len() - i,
{
    if i < 0 || i >= n.children@.len() {
        Ok(Seq::empty())
    } else {
        match classes_in(src, path, n.children@[i], Some(n), i) {
            Err(e) => Err(e),
            Ok(a) => prepend(a, classes_in_from(src, path, n, i + 1)),
        }
    }
}

/// A field as analysis leaves it: not yet resolved (external, not a type parameter).
pub open spec fn unresolved(f: FieldSpec) -> bool {
    f.resolved_kind == ResolvedKind::External && !f.is_generic_param
}

/// Every field read from parameters is unresolved.
pub proof fn lemma_param_fields_unresolved(src: Seq<char>, n: SyntaxNode)
    ensures
        param_fields(src, n) matches Ok(fs) ==> forall|k: int| 0 <= k < fs.len() ==> unresolved(#[trigger] fs[k]),
    decreases n, 1int, 0int,
{
    lemma_param_fields_from_unresolved(src, n, 0);
}

/// `lemma_param_fields_unresolved` over the children of `n` from index `i` on.
pub proof fn lemma_param_fields_from_unresolved(src: Seq<char>, n: SyntaxNode, i: int)
    ensures
        param_fields_from(src, n, i) matches Ok(fs) ==> forall|k: int|
            0 <= k < fs.len() ==> unresolved(#[trigger] fs[k]),
    decreases n, 0int, n.children@.len() - i,
{
    if 0 <= i < n.children@.len() {
        lemma_param_fields_unresolved(src, n.children@[i]);
        lemma_param_fields_from_unresolved(src, n, i + 1);
        match param_fields_from(src, n, i) {
            Ok(fs) => {
                let a = param_fields(src, n.children@[i])->Ok_0;
                let b = param_fields_from(src, n, i + 1)->Ok_0;
                assert(fs == a + b);
                assert forall|k: int| 0 <= k < fs.len() implies unresolved(#[trigger] fs[k]) by {
                    if k < a.len() {
                        assert(fs[k] == a[k]);
                    } else {
                        assert(fs[k] == b[k - a.len()]);
                    }
                }
            },
            Err(_) => {},
        }
    }
}

/// What `kind_index_from` finds lies at or after `i`, within the children.
proof fn lemma_kind_index_bounds(cs: Seq<SyntaxNode>, k: Seq<char>, i: int)
    requires
        0 <= i,
    ensures
        kind_index_from(cs, k, i) matches Some(j) ==> i <= j < cs.len(),
    decreases cs.len() - i,
{
    if i < cs.len() && cs[i].kind@ != k {
        lemma_kind_index_bounds(cs, k, i + 1);
    }
}

/// Every field of a factory constructor is unresolved.
pub proof fn lemma_factory_fields_unresolved(src: Seq<char>, n: SyntaxNode, cname: Seq<char>)
    ensures
        factory_fields(src, n, cname) matches Ok(Some(fs)) ==> forall|k: int|
            0 <= k < fs.len() ==> unresolved(#[trigger] fs[k]),
    decreases n, 1int, 0int,
{
    lemma_factory_fields_from_unresolved(src, n, cname, 0);
    lemma_kind_index_bounds(n.children@, "formal_parameter_list"@, 0);
    match kind_index_from(n.children@, "formal_parameter_list"@, 0) {
        Some(i) => {
            if 0 <= i < n.children@.len() {
                lemma_param_fields_unresolved(src, n.children@[i]);
            }
        },
        None => {},
    }
    match field_child(n, "parameters"@) {
        Some(p) => {
            lemma_param_fields_unresolved(src, p);
        },
        None => {},
    }
}

/// `lemma_factory_fields_unresolved` over the children of `n` from index `i` on.
pub proof fn lemma_factory_fields_from_unresolved(src: Seq<char>, n: SyntaxNode, cname: Seq<char>, i: int)
    ensures
        factory_fields_from(src, n, cname, i) matches Ok(Some(fs)) ==> forall|k: int|
            0 <= k < fs.len() ==> unresolved(#[trigger] fs[k]),
    decreases n, 0int, n.children@.len() - i,
{
    if 0 <= i < n.children@.len() {
        lemma_factory_fields_unresolved(src, n.children@[i], cname);
        lemma_factory_fields_from_unresolved(src, n, cname, i + 1);
    }
}

/// Every field of the members of a class body is unresolved.
pub proof fn lemma_member_fields_unresolved(src: Seq<char>, body: SyntaxNode, cname: Seq<char>, i: int)
    ensures
        member_fields(src, body, cname, i) matches Ok(fs) ==> forall|k: int|
            0 <= k < fs.len() ==> unresolved(#[trigger] fs[k]),
    decreases body.children@.len() - i,
{
    if 0 <= i < body.children@.len() {
        lemma_factory_fields_unresolved(src, body.children@[i], cname);
        lemma_member_fields_unresolved(src, body, cname, i + 1);
    }
}

/// The annotations kept for a class have distinct names.
pub proof fn lemma_distinct_annotations(texts: Seq<Seq<char>>)
    ensures
        annotation_names(distinct_annotations(texts)).no_duplicates(),
    decreases texts.len(),
{
    if texts.len() > 0 {
        lemma_distinct_annotations(texts.drop_last());
        let acc = distinct_annotations(texts.drop_last());
        match parse_annotation(texts.last()) {
            Some(a) => {
                if !annotation_names(acc).contains(a.name) {
                    assert(annotation_names(acc.push(a)) =~= annotation_names(acc).push(a.name));
                }
            },
            None => {},
        }
    }
}

/// What holds of every class that analysis finds in the file `path`: it records the
/// file as its source and the current representation version, it carries at least
/// one annotation and no two of the same name, it has no fields unless it declares
/// its mixin, and its fields are not resolved yet.
pub open spec fn found_class(c: ClassSpec, path: Seq<char>) -> bool {
    &&& c.source_file == path
    &&& c.ir_version == IR_VERSION
    &&& c.annotations.len() > 0
    &&& annotation_names(c.annotations).no_duplicates()
    &&& (!c.has_with_mixin ==> c.fields.len() == 0)
    &&& forall|k: int| 0 <= k < c.fields.len() ==> unresolved(#[trigger] c.fields[k])
}

/// Every class found in a file meets `found_class` for that file.
pub proof fn lemma_classes_in_source(src: Seq<char>, path: Seq<char>, n: SyntaxNode, parent: Option<SyntaxNode>, idx: int)
    ensures
        classes_in(src, path, n, parent, idx) matches Ok(cs) ==> forall|k: int|
            0 <= k < cs.len() ==> found_class(#[trigger] cs[k], path),
    decreases n, 1int, 0int,
{
    lemma_classes_in_from_source(src, path, n, 0);
    match classes_in(src, path, n, parent, idx) {
        Ok(cs) => {
            assert forall|k: int| 0 <= k < cs.len() implies found_class(#[trigger] cs[k], path) by {
                let anns = distinct_annotations(candidate_texts(src, n, parent, idx));
                let own: Seq<ClassSpec> = if is_class_kind(n.kind@) && anns.len() > 0 {
                    seq![class_of(src, n, path, anns)->Ok_0]
                } else {
                    Seq::empty()
                };
                let rest = classes_in_from(src, path, n, 0)->Ok_0;
                assert(cs == own + rest);
                if k < own.len() {
                    assert(cs[k] == own[k]);
                    let c = class_of(src, n, path, anns)->Ok_0;
                    lemma_distinct_annotations(candidate_texts(src, n, parent, idx));
                    let body = field_child(n, "body"@)->0;
                    lemma_member_fields_unresolved(src, body, c.name, 0);
                    assert(found_class(c, path));
                } else {
                    assert(cs[k] == rest[k - own.len()]);
                }
            }
        },
        Err(_) => {},
    }
}

/// `lemma_classes_in_source` over the children of `n` from index `i` on.
pub proof fn lemma_classes_in_from_source(src: Seq<char>, path: Seq<char>, n: SyntaxNode, i: int)
    ensures
        classes_in_from(src, path, n, i) matches Ok(cs) ==> forall|k: int|
            0 <= k < cs.len() ==> found_class(#[trigger] cs[k], path),
    decreases n, 0int, n.children@.len() - i,
{
    if 0 <= i < n.children@.len() {
        lemma_classes_in_source(src, path, n.children@[i], Some(n), i);
        lemma_classes_in_from_source(src, path, n, i + 1);
        match classes_in_from(src, path, n, i) {
            Ok(cs) => {
                let a = classes_in(src, path, n.children@[i], Some(n), i)->Ok_0;
                let b = classes_in_from(src, path, n, i + 1)->Ok_0;
                assert(cs == a + b);
                assert forall|k: int| 0 <= k < cs.len() implies found_class(#[trigger] cs[k], path) by {
                    if k < a.len() {
                        assert(cs[k] == a[k]);
                    } else {
                        assert(cs[k] == b[k - a.len()]);
                    }
                }
            },
            Err(_) => {},
        }
    }
}

/// Every class that `analyze` returns meets `found_class` for the parsed file.
pub proof fn lemma_analyzed_classes(parsed: ParsedFile)
    ensures
        classes_in(parsed.source@, parsed.path@, parsed.tree, None, 0) matches Ok(cs) ==> forall|k: int|
            0 <= k < cs.len() ==> found_class(#[trigger] cs[k], parsed.path@),
{
    lemma_classes_in_source(parsed.source@, parsed.path@, parsed.tree, None, 0);
}

/// Models of a sequence of classes.
pub open spec fn class_views(s: Seq<ClassIR>) -> Seq<ClassSpec> {
    s.map_values(|c: ClassIR| c@)
}

/// Appends to `results` the classes found in pre-order under `node`.
pub fn find_all_annotated_classes(
    node: &SyntaxNode,
    parent: Option<&SyntaxNode>,
    index: usize,
    src: &Vec<char>,
    path: &String,
    results: &mut Vec<ClassIR>,
) -> (r: Result<(), AnalyzeError>)
    ensures
        r is Ok ==> classes_in(src@, path@, *node, deref_node(parent), index as int) == Ok::<Seq<ClassSpec>, Seq<char>>(
            class_views(final(results)@).skip(old(results)@.len() as int),
        ) && final(results)@.len() >= old(results)@.len() && final(results)@.take(old(results)@.len() as int)
            == old(results)@,
        r matches Err(e) ==> classes_in(src@, path@, *node, deref_node(parent), index as int) == Err::<
            Seq<ClassSpec>,
            Seq<char>,
        >(e.message()),
    decreases *node,
{
    let ghost r0 = results@;
    if kind_is(node, "class_definition") || kind_is(node, "class_declaration") {
        let anns = collect_annotations(node, parent, index, src);
        let ghost av = annotation_views(anns@);
        if anns.len() > 0 {
            match extract_class(node, src, path, anns) {
                Ok(c) => {
                    let ghost cv = c@;
                    results.push(c);
                    assert(class_views(results@).skip(r0.len() as int) =~= seq![cv]);
                },
                Err(e) => {
                    return Err(e);
                },
            }
        }
    }
    let ghost r1 = results@;
    assert(results@.take(r0.len() as int) =~= r0);
    assert(r1.len() == r0.len() ==> class_views(r1).skip(r0.len() as int) =~= Seq::<ClassSpec>::empty());
    let mut i: usize = 0;
    while i < node.children.len()
        invariant
            i <= node.children.len(),
            results@.len() >= r0.len(),
            results@.take(r0.len() as int) == r0,
            classes_in(src@, path@, *node, deref_node(parent), index as int) == prepend(
                class_views(results@).skip(r0.len() as int),
                classes_in_from(src@, path@, *node, i as int),
            ),
        decreases node.children.len() - i,
    {
        let ghost before = results@;
        match find_all_annotated_classes(&node.children[i], Some(node), i, src, path, results) {
            Ok(()) => {
                proof {
                    let a = class_views(results@).skip(before.len() as int);
                    assert(classes_in_from(src@, path@, *node, i as int) == prepend(
                        a,
                        classes_in_from(src@, path@, *node, i + 1),
                    ));
                    assert(class_views(results@).skip(r0.len() as int) =~= class_views(before).skip(r0.len() as int)
                        + a) by {
                        assert(results@.take(before.len() as int) == before);
                        assert forall|k: int| 0 <= k < before.len() implies results@[k] == before[k] by {
                            assert(results@.take(before.len() as int)[k] == results@[k]);
                        }
                    }
                    assert(results@.take(r0.len() as int) =~= r0) by {
                        assert forall|k: int| 0 <= k < r0.len() implies results@[k] == r0[k] by {
                            assert(results@.take(before.len() as int)[k] == results@[k]);
                            assert(before.take(r0.len() as int)[k] == before[k]);
                        }
                    }
                    match classes_in_from(src@, path@, *node, i + 1) {
                        Ok(b) => {
                            assert(class_views(before).skip(r0.len() as int) + (a + b) =~= (class_views(before).skip(
                                r0.len() as int,
                            ) + a) + b);
                        },
                        Err(_) => {},
                    }
                }
            },
            Err(e) => {
                return Err(e);
            },
        }
        i = i + 1;
    }
    Ok(())
}

/// Extracts all annotated classes of a parsed file, in pre-order.
pub fn analyze(parsed: &ParsedFile) -> (r: Result<Vec<ClassIR>, AnalyzeError>)
    ensures
        r matches Ok(cs) ==> classes_in(parsed.source@, parsed.path@, parsed.tree, None, 0) == Ok::<
            Seq<ClassSpec>,
            Seq<char>,
        >(class_views(cs@)),
        r matches Err(e) ==> classes_in(parsed.source@, parsed.path@, parsed.tree, None, 0) == Err::<
            Seq<ClassSpec>,
            Seq<char>,
        >(e.message()),
{
    let src = chars_of(parsed.source.as_str());
    let mut results: Vec<ClassIR> = Vec::new();
    match find_all_annotated_classes(&parsed.tree, None, 0, &src, &parsed.path, &mut results) {
        Ok(()) => {
            assert(class_views(results@).skip(0) =~= class_views(results@));
            Ok(results)
        },
        Err(e) => Err(e),
    }
}

} // verus!
