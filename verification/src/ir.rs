//! Intermediate representation of annotated Dart classes.
use vstd::prelude::*;
use crate::text::{chars_of, owned, seq_eq, views};

verus! {

/// Version tag written into every class representation.
pub const IR_VERSION: u32 = 1;

/// The resolved kind of a type, used to determine how to generate code.
#[derive(Clone, Copy, Debug, PartialEq, Eq, Structural)]
pub enum ResolvedKind {
    /// A class annotated with any of the project's annotations.
    AnnotatedClass,
    /// An enum within the project.
    Enum,
    /// An external type or primitive.
    External,
}

impl Default for ResolvedKind {
    fn default() -> (r: Self)
        ensures
            r == ResolvedKind::External,
    {
        ResolvedKind::External
    }
}

/// First value bound to `key` in an association list.
pub open spec fn assoc_get<V>(entries: Seq<(Seq<char>, V)>, key: Seq<char>) -> Option<V>
    decreases entries.len(),
{
    if entries.len() == 0 {
        None
    } else if entries[0].0 == key {
        Some(entries[0].1)
    } else {
        assoc_get(entries.drop_first(), key)
    }
}

/// Association list after binding `key` to `value`: the first entry with that key
/// gets the new value; without such an entry the binding is appended.
pub open spec fn assoc_set<V>(entries: Seq<(Seq<char>, V)>, key: Seq<char>, value: V) -> Seq<(Seq<char>, V)>
    decreases entries.len(),
{
    if entries.len() == 0 {
        seq![(key, value)]
    } else if entries[0].0 == key {
        entries.update(0, (key, value))
    } else {
        seq![entries[0]] + assoc_set(entries.drop_first(), key, value)
    }
}

pub proof fn lemma_assoc_set_get<V>(entries: Seq<(Seq<char>, V)>, key: Seq<char>, value: V, k: Seq<char>)
    ensures
        assoc_get(assoc_set(entries, key, value), k) == if k == key {
            Some(value)
        } else {
            assoc_get(entries, k)
        },
    decreases entries.len(),
{
    let s = assoc_set(entries, key, value);
    if entries.len() == 0 {
        assert(s.drop_first().len() == 0);
    } else if entries[0].0 == key {
        assert(s.drop_first() == entries.drop_first());
    } else {
        assert(s.drop_first() == assoc_set(entries.drop_first(), key, value));
        lemma_assoc_set_get(entries.drop_first(), key, value, k);
    }
}

/// Whether some entry of an association list has key `k`.
pub open spec fn has_key<V>(entries: Seq<(Seq<char>, V)>, k: Seq<char>) -> bool {
    exists|j: int| 0 <= j < entries.len() && #[trigger] entries[j].0 == k
}

/// Binding a key adds no key but that one.
pub proof fn lemma_assoc_set_has_key<V>(entries: Seq<(Seq<char>, V)>, key: Seq<char>, value: V, k: Seq<char>)
    ensures
        has_key(assoc_set(entries, key, value), k) ==> k == key || has_key(entries, k),
    decreases entries.len(),
{
    let s = assoc_set(entries, key, value);
    if has_key(s, k) && k != key {
        let i = choose|i: int| 0 <= i < s.len() && #[trigger] s[i].0 == k;
        if entries.len() == 0 {
        } else if entries[0].0 == key {
            assert(entries[i].0 == k);
        } else if i == 0 {
            assert(entries[0].0 == k);
        } else {
            let rest = entries.drop_first();
            let t = assoc_set(rest, key, value);
            assert(s[i] == t[i - 1]);
            lemma_assoc_set_has_key(rest, key, value, k);
            let j = choose|j: int| 0 <= j < rest.len() && #[trigger] rest[j].0 == k;
            assert(entries[j + 1].0 == k);
        }
    }
}

/// A string-to-string map that keeps its entries in insertion order.
#[derive(Clone, Debug)]
pub struct StringMap {
    entries: Vec<(String, String)>,
}

pub open spec fn pair_view(p: (String, String)) -> (Seq<char>, Seq<char>) {
    (p.0@, p.1@)
}

/// Each pair of strings taken by its view.
pub open spec fn pairs_view(v: Seq<(String, String)>) -> Seq<(Seq<char>, Seq<char>)> {
    v.map_values(|p: (String, String)| pair_view(p))
}

impl View for StringMap {
    type V = Seq<(Seq<char>, Seq<char>)>;

    closed spec fn view(&self) -> Seq<(Seq<char>, Seq<char>)> {
        pairs_view(self.entries@)
    }
}

impl StringMap {
    /// The value bound to `key`, if any.
    pub open spec fn spec_get(&self, key: Seq<char>) -> Option<Seq<char>> {
        assoc_get(self@, key)
    }

    /// An empty map.
    pub fn new() -> (r: Self)
        ensures
            r@ == Seq::<(Seq<char>, Seq<char>)>::empty(),
    {
        let r = StringMap { entries: Vec::new() };
        assert(r@ =~= Seq::<(Seq<char>, Seq<char>)>::empty());
        r
    }

    /// Number of entries.
    pub fn len(&self) -> (r: usize)
        ensures
            r == self@.len(),
    {
        self.entries.len()
    }

    /// Key and value of the `i`-th entry.
    pub fn entry(&self, i: usize) -> (r: (&String, &String))
        requires
            i < self@.len(),
        ensures
            r.0@ == self@[i as int].0,
            r.1@ == self@[i as int].1,
    {
        let e = &self.entries[i];
        (&e.0, &e.1)
    }

    /// Index of the first entry whose key is `key`.
    fn position(&self, key: &Vec<char>) -> (r: Option<usize>)
        ensures
            r matches Some(i) ==> i < self@.len() && self@[i as int].0 == key@ && forall|j: int|
                0 <= j < i ==> self@[j].0 != key@,
            r is None ==> forall|j: int| 0 <= j < self@.len() ==> self@[j].0 != key@,
    {
        let mut i: usize = 0;
        while i < self.entries.len()
            invariant
                i <= self.entries.len(),
                self@.len() == self.entries.len(),
                forall|j: int| 0 <= j < i ==> self@[j].0 != key@,
            decreases self.entries.len() - i,
        {
            let k = chars_of(self.entries[i].0.as_str());
            assert(self@[i as int] == pair_view(self.entries@[i as int]));
            if seq_eq(&k, key) {
                return Some(i);
            }
            i = i + 1;
        }
        None
    }

    /// The value bound to `key`, if any.
    pub fn get(&self, key: &str) -> (r: Option<&String>)
        ensures
            r matches Some(v) ==> self.spec_get(key@) == Some(v@),
            r is None ==> self.spec_get(key@) is None,
    {
        let kv = chars_of(key);
        let p = self.position(&kv);
        proof {
            lemma_assoc_get_position(self@, key@);
        }
        match p {
            Some(i) => {
                assert(self@[i as int] == pair_view(self.entries@[i as int]));
                Some(&self.entries[i].1)
            },
            None => None,
        }
    }

    /// Whether `key` is bound.
    pub fn contains_key(&self, key: &str) -> (r: bool)
        ensures
            r == self.spec_get(key@) is Some,
    {
        self.get(key).is_some()
    }

    /// Binds `key` to `value`, replacing an existing binding of `key`.
    pub fn insert(&mut self, key: String, value: String)
        ensures
            final(self)@ == assoc_set(old(self)@, key@, value@),
    {
        let kv = chars_of(key.as_str());
        let p = self.position(&kv);
        proof {
            lemma_assoc_set_position(old(self)@, key@, value@);
        }
        match p {
            Some(i) => {
                let ghost kk = key@;
                let ghost vv = value@;
                self.entries.set(i, (key, value));
                assert(self@ =~= old(self)@.update(i as int, (kk, vv)));
            },
            None => {
                let ghost kk = key@;
                let ghost vv = value@;
                self.entries.push((key, value));
                assert(self@ =~= old(self)@.push((kk, vv)));
            },
        }
    }

    /// A copy of the map, entry by entry.
    pub fn duplicate(&self) -> (r: Self)
        ensures
            r@ == self@,
    {
        let mut out: Vec<(String, String)> = Vec::new();
        let mut i: usize = 0;
        while i < self.entries.len()
            invariant
                i <= self.entries.len(),
                out@.len() == i,
                pairs_view(out@) == self@.take(i as int),
            decreases self.entries.len() - i,
        {
            let k = owned(self.entries[i].0.as_str());
            let v = owned(self.entries[i].1.as_str());
            let ghost before = out@;
            out.push((k, v));
            assert(pairs_view(out@) =~= self@.take(i as int + 1)) by {
                assert(out@ == before.push((k, v)));
                assert(before.len() == i);
                assert(self@ == pairs_view(self.entries@));
                assert(pairs_view(out@)[i as int] == pair_view((k, v)));
                assert(self@[i as int] == pair_view(self.entries@[i as int]));
                assert forall|j: int| 0 <= j < i implies #[trigger] pairs_view(out@)[j] == self@.take(
                    i as int + 1,
                )[j] by {
                    assert(out@[j] == before[j]);
                    assert(pairs_view(before)[j] == self@.take(i as int)[j]);
                }
            }
            i = i + 1;
        }
        let r = StringMap { entries: out };
        assert(self@.take(self@.len() as int) =~= self@);
        r
    }

    /// Binds `key` to `value` unless `key` is already bound.
    pub fn insert_if_absent(&mut self, key: String, value: String)
        ensures
            old(self).spec_get(key@) is Some ==> final(self)@ == old(self)@,
            old(self).spec_get(key@) is None ==> final(self)@ == assoc_set(old(self)@, key@, value@),
    {
        if !self.contains_key(key.as_str()) {
            self.insert(key, value);
        }
    }
}

/// `assoc_get` finds the first entry with the key.
pub proof fn lemma_assoc_get_position<V>(entries: Seq<(Seq<char>, V)>, key: Seq<char>)
    ensures
        forall|i: int|
            0 <= i < entries.len() && entries[i].0 == key && (forall|j: int| 0 <= j < i ==> entries[j].0 != key)
                ==> assoc_get(entries, key) == Some(entries[i].1),
        (forall|j: int| 0 <= j < entries.len() ==> entries[j].0 != key) ==> assoc_get(entries, key) is None,
    decreases entries.len(),
{
    if entries.len() > 0 {
        lemma_assoc_get_position(entries.drop_first(), key);
        assert forall|i: int|
            0 <= i < entries.len() && entries[i].0 == key && (forall|j: int| 0 <= j < i ==> entries[j].0 != key)
            implies assoc_get(entries, key) == Some(entries[i].1) by {
            if i > 0 {
                assert(entries[0].0 != key);
                assert(entries.drop_first()[i - 1] == entries[i]);
                assert forall|j: int| 0 <= j < i - 1 implies entries.drop_first()[j].0 != key by {
                    assert(entries.drop_first()[j] == entries[j + 1]);
                }
            }
        }
        if forall|j: int| 0 <= j < entries.len() ==> entries[j].0 != key {
            assert(entries[0].0 != key);
            assert forall|j: int| 0 <= j < entries.drop_first().len() implies entries.drop_first()[j].0 != key by {
                assert(entries.drop_first()[j] == entries[j + 1]);
            }
        }
    }
}

/// `assoc_set` replaces the first entry with the key, or appends.
pub proof fn lemma_assoc_set_position<V>(entries: Seq<(Seq<char>, V)>, key: Seq<char>, value: V)
    ensures
        forall|i: int|
            0 <= i < entries.len() && entries[i].0 == key && (forall|j: int| 0 <= j < i ==> entries[j].0 != key)
                ==> assoc_set(entries, key, value) == entries.update(i, (key, value)),
        (forall|j: int| 0 <= j < entries.len() ==> entries[j].0 != key) ==> assoc_set(entries, key, value)
            == entries.push((key, value)),
    decreases entries.len(),
{
    if entries.len() > 0 {
        let rest = entries.drop_first();
        lemma_assoc_set_position(rest, key, value);
        assert forall|i: int|
            0 <= i < entries.len() && entries[i].0 == key && (forall|j: int| 0 <= j < i ==> entries[j].0 != key)
            implies assoc_set(entries, key, value) == entries.update(i, (key, value)) by {
            if i > 0 {
                assert(entries[0].0 != key);
                assert(rest[i - 1] == entries[i]);
                assert forall|j: int| 0 <= j < i - 1 implies rest[j].0 != key by {
                    assert(rest[j] == entries[j + 1]);
                }
                assert(seq![entries[0]] + rest.update(i - 1, (key, value)) =~= entries.update(i, (key, value)));
            }
        }
        if forall|j: int| 0 <= j < entries.len() ==> entries[j].0 != key {
            assert(entries[0].0 != key);
            assert forall|j: int| 0 <= j < rest.len() implies rest[j].0 != key by {
                assert(rest[j] == entries[j + 1]);
            }
            assert(seq![entries[0]] + rest.push((key, value)) =~= entries.push((key, value)));
        }
    } else {
        assert(seq![(key, value)] =~= entries.push((key, value)));
    }
}

impl Default for StringMap {
    fn default() -> (r: Self)
        ensures
            r@ == Seq::<(Seq<char>, Seq<char>)>::empty(),
    {
        StringMap::new()
    }
}

/// An annotation found on a Dart class.
#[derive(Clone, Debug)]
pub struct AnnotationIR {
    /// Name without `@` or `()`, e.g. "Data", "Veltro".
    pub name: String,
    /// Named arguments, e.g. {"fieldRename": "snake"}.
    pub arguments: StringMap,
}

/// Intermediate representation of a class field.
#[derive(Clone, Debug)]
pub struct FieldIR {
    pub name: String,
    pub dart_type: String,
    pub generic_args: Vec<String>,
    pub is_required: bool,
    pub is_nullable: bool,
    /// The resolved kind of the type (filled in by the resolver).
    pub resolved_kind: ResolvedKind,
    pub is_generic_param: bool,
    /// Raw default value text from `@Default(..)`, e.g. "false", "ThemeMode.dark".
    pub default_value: Option<String>,
}

/// A Dart class that has at least one annotation.
#[derive(Clone, Debug)]
pub struct ClassIR {
    pub ir_version: u32,
    pub name: String,
    pub generics: Vec<String>,
    pub fields: Vec<FieldIR>,
    /// All annotations on this class; plugins filter by annotation name.
    pub annotations: Vec<AnnotationIR>,
    pub source_file: String,
    /// True if the class declares `with _$ClassName`.
    pub has_with_mixin: bool,
    /// True if the class declares `factory ClassName.fromJson(...)`.
    pub has_from_json: bool,
}

/// Mathematical model of an annotation.
pub struct AnnotationSpec {
    pub name: Seq<char>,
    pub arguments: Seq<(Seq<char>, Seq<char>)>,
}

/// Mathematical model of a field.
pub struct FieldSpec {
    pub name: Seq<char>,
    pub dart_type: Seq<char>,
    pub generic_args: Seq<Seq<char>>,
    pub is_required: bool,
    pub is_nullable: bool,
    pub resolved_kind: ResolvedKind,
    pub is_generic_param: bool,
    pub default_value: Option<Seq<char>>,
}

/// Mathematical model of a class.
pub struct ClassSpec {
    pub ir_version: u32,
    pub name: Seq<char>,
    pub generics: Seq<Seq<char>>,
    pub fields: Seq<FieldSpec>,
    pub annotations: Seq<AnnotationSpec>,
    pub source_file: Seq<char>,
    pub has_with_mixin: bool,
    pub has_from_json: bool,
}

impl View for AnnotationIR {
    type V = AnnotationSpec;

    open spec fn view(&self) -> AnnotationSpec {
        AnnotationSpec { name: self.name@, arguments: self.arguments@ }
    }
}

pub open spec fn opt_view(o: Option<String>) -> Option<Seq<char>> {
    match o {
        Some(s) => Some(s@),
        None => None,
    }
}

impl View for FieldIR {
    type V = FieldSpec;

    open spec fn view(&self) -> FieldSpec {
        FieldSpec {
            name: self.name@,
            dart_type: self.dart_type@,
            generic_args: views(self.generic_args@),
            is_required: self.is_required,
            is_nullable: self.is_nullable,
            resolved_kind: self.resolved_kind,
            is_generic_param: self.is_generic_param,
            default_value: opt_view(self.default_value),
        }
    }
}

/// Models of a sequence of fields.
pub open spec fn field_views(s: Seq<FieldIR>) -> Seq<FieldSpec> {
    s.map_values(|f: FieldIR| f@)
}

/// Models of a sequence of annotations.
pub open spec fn annotation_views(s: Seq<AnnotationIR>) -> Seq<AnnotationSpec> {
    s.map_values(|a: AnnotationIR| a@)
}

impl View for ClassIR {
    type V = ClassSpec;

    open spec fn view(&self) -> ClassSpec {
        ClassSpec {
            ir_version: self.ir_version,
            name: self.name@,
            generics: views(self.generics@),
            fields: field_views(self.fields@),
            annotations: annotation_views(self.annotations@),
            source_file: self.source_file@,
            has_with_mixin: self.has_with_mixin,
            has_from_json: self.has_from_json,
        }
    }
}

} // verus!
