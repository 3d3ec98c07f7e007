//! Registry of the kinds of the types declared in the project.
use vstd::prelude::*;
use crate::ir::{
    annotation_views, assoc_get, assoc_set, has_key, lemma_assoc_get_position, lemma_assoc_set_get,
    lemma_assoc_set_has_key, lemma_assoc_set_position,
    AnnotationSpec, ClassIR,
    ClassSpec, ResolvedKind,
};
use crate::pipeline::parser::ParsedFile;
use crate::pipeline::syntax::{field_child, field_child_exec, kind_is, text_exec, text_of, SyntaxNode};
use crate::text::{chars_of, seq_eq, string_of, str_eq};

verus! {

/// Registry to store and look up resolved type kinds.
pub struct TypeRegistry {
    types: Vec<(String, ResolvedKind)>,
}

pub open spec fn kind_entry_view(p: (String, ResolvedKind)) -> (Seq<char>, ResolvedKind) {
    (p.0@, p.1)
}

impl View for TypeRegistry {
    type V = Seq<(Seq<char>, ResolvedKind)>;

    closed spec fn view(&self) -> Seq<(Seq<char>, ResolvedKind)> {
        self.types@.map_values(|p: (String, ResolvedKind)| kind_entry_view(p))
    }
}

/// Kind registered for `name`; unknown names are external types.
pub open spec fn kind_of(entries: Seq<(Seq<char>, ResolvedKind)>, name: Seq<char>) -> ResolvedKind {
    match assoc_get(entries, name) {
        Some(k) => k,
        None => ResolvedKind::External,
    }
}

/// The kind a class registers: `Enum` when annotated `@IsEnum`, else `AnnotatedClass`.
pub open spec fn class_kind(c: ClassSpec) -> ResolvedKind {
    if c.annotations.map_values(|a: AnnotationSpec| a.name).contains("IsEnum"@) {
        ResolvedKind::Enum
    } else {
        ResolvedKind::AnnotatedClass
    }
}

/// Entries after registering the classes in order.
pub open spec fn class_entries(classes: Seq<ClassSpec>) -> Seq<(Seq<char>, ResolvedKind)>
    decreases classes.len(),
{
    if classes.len() == 0 {
        Seq::empty()
    } else {
        assoc_set(class_entries(classes.drop_last()), classes.last().name, class_kind(classes.last()))
    }
}

/// Names of the enum declarations under `n`, in pre-order (unnamed ones skipped).
pub open spec fn enum_names(src: Seq<char>, n: SyntaxNode) -> Seq<Seq<char>>
    decreases n, 1int, 0int,
{
    let own = if n.kind@ == "enum_declaration"@ {
        match field_child(n, "name"@) {
            Some(nn) => if text_of(src, nn).len() > 0 {
                seq![text_of(src, nn)]
            } else {
                Seq::empty()
            },
            None => Seq::empty(),
        }
    } else {
        Seq::empty()
    };
    own + enum_names_from(src, n, 0)
}

/// `enum_names` over the children of `n` from index `i` on.
pub open spec fn enum_names_from(src: Seq<char>, n: SyntaxNode, i: int) -> Seq<Seq<char>>
    decreases n, 0int, n.children@.len() - i,
{
    if i < 0 || i >= n.children@.len() {
        Seq::empty()
    } else {
        enum_names(src, n.children@[i]) + enum_names_from(src, n, i + 1)
    }
}

/// Names of the enums declared in the files, file by file.
pub open spec fn file_enum_names(files: Seq<ParsedFile>) -> Seq<Seq<char>>
    decreases files.len(),
{
    if files.len() == 0 {
        Seq::empty()
    } else {
        file_enum_names(files.drop_last()) + enum_names(files.last().source@, files.last().tree)
    }
}

/// Entries after registering each name as an enum, in order.
pub open spec fn with_enums(entries: Seq<(Seq<char>, ResolvedKind)>, names: Seq<Seq<char>>) -> Seq<
    (Seq<char>, ResolvedKind),
>
    decreases names.len(),
{
    if names.len() == 0 {
        entries
    } else {
        assoc_set(with_enums(entries, names.drop_last()), names.last(), ResolvedKind::Enum)
    }
}

/// The registry built from classes and parsed files: classes first, then every enum
/// declaration.
pub open spec fn registry_of(classes: Seq<ClassSpec>, files: Seq<ParsedFile>) -> Seq<(Seq<char>, ResolvedKind)> {
    with_enums(class_entries(classes), file_enum_names(files))
}

pub proof fn lemma_with_enums_push(entries: Seq<(Seq<char>, ResolvedKind)>, names: Seq<Seq<char>>, more: Seq<Seq<char>>)
    ensures
        with_enums(entries, names + more) == with_enums(with_enums(entries, names), more),
    decreases more.len(),
{
    if more.len() == 0 {
        assert(names + more =~= names);
    } else {
        assert((names + more).drop_last() =~= names + more.drop_last());
        lemma_with_enums_push(entries, names, more.drop_last());
    }
}

/// Registering enum names makes them enums and leaves every other name alone.
pub proof fn lemma_with_enums_kind(entries: Seq<(Seq<char>, ResolvedKind)>, names: Seq<Seq<char>>, name: Seq<char>)
    ensures
        names.contains(name) ==> kind_of(with_enums(entries, names), name) == ResolvedKind::Enum,
        !names.contains(name) ==> kind_of(with_enums(entries, names), name) == kind_of(entries, name),
    decreases names.len(),
{
    if names.len() > 0 {
        let init = names.drop_last();
        lemma_with_enums_kind(entries, init, name);
        lemma_assoc_set_get(with_enums(entries, init), names.last(), ResolvedKind::Enum, name);
        if names.contains(name) && name != names.last() {
            let i = choose|i: int| 0 <= i < names.len() && names[i] == name;
            assert(init[i] == name);
        }
        if init.contains(name) {
            let i = choose|i: int| 0 <= i < init.len() && init[i] == name;
            assert(names[i] == name);
        }
    }
}

/// The kind registered for a name by the classes alone: the kind of its last
/// declaration, or none when no class has that name.
pub proof fn lemma_class_entries_kind(classes: Seq<ClassSpec>, name: Seq<char>)
    ensures
        (forall|i: int| 0 <= i < classes.len() ==> #[trigger] classes[i].name != name) ==> assoc_get(
            class_entries(classes),
            name,
        ) is None,
        forall|i: int|
            0 <= i < classes.len() && classes[i].name == name && (forall|j: int|
                i < j < classes.len() ==> #[trigger] classes[j].name != name) ==> assoc_get(class_entries(classes), name)
                == Some(class_kind(#[trigger] classes[i])),
    decreases classes.len(),
{
    if classes.len() > 0 {
        let init = classes.drop_last();
        lemma_class_entries_kind(init, name);
        let last = classes.last();
        lemma_assoc_set_get(class_entries(init), last.name, class_kind(last), name);
        if forall|i: int| 0 <= i < classes.len() ==> #[trigger] classes[i].name != name {
            assert forall|i: int| 0 <= i < init.len() implies #[trigger] init[i].name != name by {
                assert(init[i] == classes[i]);
            }
        }
        assert forall|i: int|
            0 <= i < classes.len() && classes[i].name == name && (forall|j: int|
                i < j < classes.len() ==> #[trigger] classes[j].name != name) implies assoc_get(
            class_entries(classes),
            name,
        ) == Some(class_kind(#[trigger] classes[i])) by {
            if i < classes.len() - 1 {
                assert(classes[classes.len() - 1].name != name);
                assert(init[i] == classes[i]);
                assert forall|j: int| i < j < init.len() implies #[trigger] init[j].name != name by {
                    assert(init[j] == classes[j]);
                }
            }
        }
    }
}

/// What the registry says of a name: an enum declared in any of the files is an
/// enum, whatever the annotated classes say; otherwise an annotated class has the
/// kind of its last declaration (`Enum` when annotated `@IsEnum`, else
/// `AnnotatedClass`); any other name is external.
pub proof fn lemma_registry_kind(classes: Seq<ClassSpec>, files: Seq<ParsedFile>, name: Seq<char>)
    ensures
        file_enum_names(files).contains(name) ==> kind_of(registry_of(classes, files), name) == ResolvedKind::Enum,
        !file_enum_names(files).contains(name) ==> forall|i: int|
            0 <= i < classes.len() && classes[i].name == name && (forall|j: int|
                i < j < classes.len() ==> #[trigger] classes[j].name != name) ==> kind_of(registry_of(classes, files), name)
                == class_kind(#[trigger] classes[i]),
        !file_enum_names(files).contains(name) && (forall|i: int|
            0 <= i < classes.len() ==> #[trigger] classes[i].name != name) ==> kind_of(registry_of(classes, files), name)
            == ResolvedKind::External,
{
    lemma_with_enums_kind(class_entries(classes), file_enum_names(files), name);
    lemma_class_entries_kind(classes, name);
}

/// Whether some class of the list has name `name`.
pub open spec fn declares_class(classes: Seq<ClassSpec>, name: Seq<char>) -> bool {
    exists|i: int| 0 <= i < classes.len() && #[trigger] classes[i].name == name
}

/// Classes register their names only, each with the kind of one of its
/// declarations.
proof fn lemma_class_entries_from(classes: Seq<ClassSpec>, name: Seq<char>)
    ensures
        has_key(class_entries(classes), name) ==> declares_class(classes, name),
        declares_class(classes, name) ==> assoc_get(class_entries(classes), name) is Some,
        assoc_get(class_entries(classes), name) matches Some(k) ==> exists|i: int|
            0 <= i < classes.len() && #[trigger] classes[i].name == name && class_kind(classes[i]) == k,
    decreases classes.len(),
{
    if classes.len() > 0 {
        let init = classes.drop_last();
        let last = classes.last();
        lemma_class_entries_from(init, name);
        lemma_assoc_set_has_key(class_entries(init), last.name, class_kind(last), name);
        lemma_assoc_set_get(class_entries(init), last.name, class_kind(last), name);
        assert(classes[classes.len() - 1] == last);
        if declares_class(init, name) {
            let i = choose|i: int| 0 <= i < init.len() && #[trigger] init[i].name == name;
            assert(classes[i] == init[i]);
        }
        if declares_class(classes, name) && name != last.name {
            let i = choose|i: int| 0 <= i < classes.len() && #[trigger] classes[i].name == name;
            assert(init[i] == classes[i]);
        }
        if name != last.name && assoc_get(class_entries(init), name) is Some {
            let k = assoc_get(class_entries(init), name)->0;
            let i = choose|i: int| 0 <= i < init.len() && #[trigger] init[i].name == name && class_kind(init[i]) == k;
            assert(classes[i] == init[i]);
        }
    }
}

/// Registering enum names adds no other key.
proof fn lemma_with_enums_keys(entries: Seq<(Seq<char>, ResolvedKind)>, names: Seq<Seq<char>>, name: Seq<char>)
    ensures
        has_key(with_enums(entries, names), name) ==> names.contains(name) || has_key(entries, name),
    decreases names.len(),
{
    if names.len() > 0 {
        let init = names.drop_last();
        lemma_with_enums_keys(entries, init, name);
        lemma_assoc_set_has_key(with_enums(entries, init), names.last(), ResolvedKind::Enum, name);
        if name == names.last() {
            assert(names[names.len() - 1] == name);
        }
        if init.contains(name) {
            let i = choose|i: int| 0 <= i < init.len() && init[i] == name;
            assert(names[i] == name);
        }
    }
}

/// The registry holds the names of the classes and of the enum declarations and no
/// other name.
pub proof fn lemma_registry_names(classes: Seq<ClassSpec>, files: Seq<ParsedFile>, name: Seq<char>)
    ensures
        has_key(registry_of(classes, files), name) <==> file_enum_names(files).contains(name) || declares_class(
            classes,
            name,
        ),
{
    lemma_with_enums_keys(class_entries(classes), file_enum_names(files), name);
    lemma_class_entries_from(classes, name);
    lemma_with_enums_kind(class_entries(classes), file_enum_names(files), name);
    lemma_assoc_get_position(registry_of(classes, files), name);
    lemma_assoc_get_position(class_entries(classes), name);
}

/// When all classes of one name agree on their kind, any declaration gives the
/// kind of that name, unless an enum declared in the files has the name.
pub proof fn lemma_registry_kind_of_agreeing(classes: Seq<ClassSpec>, files: Seq<ParsedFile>, name: Seq<char>)
    requires
        forall|i: int, j: int|
            0 <= i < classes.len() && 0 <= j < classes.len() && #[trigger] classes[i].name == #[trigger] classes[j].name
                ==> class_kind(classes[i]) == class_kind(classes[j]),
    ensures
        forall|i: int|
            0 <= i < classes.len() && #[trigger] classes[i].name == name ==> kind_of(registry_of(classes, files), name)
                == if file_enum_names(files).contains(name) {
                ResolvedKind::Enum
            } else {
                class_kind(classes[i])
            },
{
    lemma_with_enums_kind(class_entries(classes), file_enum_names(files), name);
    lemma_class_entries_from(classes, name);
    assert forall|i: int| 0 <= i < classes.len() && #[trigger] classes[i].name == name implies kind_of(
        registry_of(classes, files),
        name,
    ) == if file_enum_names(files).contains(name) {
        ResolvedKind::Enum
    } else {
        class_kind(classes[i])
    } by {
        let k = assoc_get(class_entries(classes), name)->0;
        let j = choose|j: int| 0 <= j < classes.len() && #[trigger] classes[j].name == name && class_kind(classes[j]) == k;
        assert(classes[i].name == classes[j].name);
    }
}

impl TypeRegistry {
    /// Entries of the registry.
    pub open spec fn entries(&self) -> Seq<(Seq<char>, ResolvedKind)> {
        self@
    }

    /// Creates an empty registry.
    pub fn new() -> (r: Self)
        ensures
            r@ == Seq::<(Seq<char>, ResolvedKind)>::empty(),
    {
        let r = TypeRegistry { types: Vec::new() };
        assert(r@ =~= Seq::<(Seq<char>, ResolvedKind)>::empty());
        r
    }

    fn position(&self, key: &Vec<char>) -> (r: Option<usize>)
        ensures
            r matches Some(i) ==> i < self@.len() && self@[i as int].0 == key@ && forall|j: int|
                0 <= j < i ==> self@[j].0 != key@,
            r is None ==> forall|j: int| 0 <= j < self@.len() ==> self@[j].0 != key@,
    {
        let mut i: usize = 0;
        while i < self.types.len()
            invariant
                i <= self.types.len(),
                self@.len() == self.types.len(),
                forall|j: int| 0 <= j < i ==> self@[j].0 != key@,
            decreases self.types.len() - i,
        {
            let k = chars_of(self.types[i].0.as_str());
            assert(self@[i as int] == kind_entry_view(self.types@[i as int]));
            if seq_eq(&k, key) {
                return Some(i);
            }
            i = i + 1;
        }
        None
    }

    /// Registers `name` with `kind`, replacing an earlier registration of `name`.
    pub fn insert(&mut self, name: String, kind: ResolvedKind)
        ensures
            final(self)@ == assoc_set(old(self)@, name@, kind),
    {
        let kv = chars_of(name.as_str());
        let p = self.position(&kv);
        proof {
            lemma_assoc_set_position(old(self)@, name@, kind);
        }
        let ghost nv = name@;
        match p {
            Some(i) => {
                self.types.set(i, (name, kind));
                assert(self@ =~= old(self)@.update(i as int, (nv, kind)));
            },
            None => {
                self.types.push((name, kind));
                assert(self@ =~= old(self)@.push((nv, kind)));
            },
        }
    }

    /// The kind registered for `name`; `External` when the name is unknown.
    pub fn get(&self, name: &str) -> (r: ResolvedKind)
        ensures
            r == kind_of(self@, name@),
    {
        let kv = chars_of(name);
        let p = self.position(&kv);
        proof {
            lemma_assoc_get_position(self@, name@);
        }
        match p {
            Some(i) => {
                assert(self@[i as int] == kind_entry_view(self.types@[i as int]));
                self.types[i].1
            },
            None => ResolvedKind::External,
        }
    }

    /// Builds a registry from the discovered classes (an `@IsEnum` class is an enum,
    /// any other an annotated class) and the enum declarations of the parsed files.
    pub fn build(ir_list: &[ClassIR], parsed_files: &[ParsedFile]) -> (r: Self)
        ensures
            r@ == registry_of(ir_list@.map_values(|c: ClassIR| c@), parsed_files@),
    {
        let ghost classes = ir_list@.map_values(|c: ClassIR| c@);
        let mut reg = TypeRegistry::new();
        let mut i: usize = 0;
        while i < ir_list.len()
            invariant
                i <= ir_list.len(),
                classes == ir_list@.map_values(|c: ClassIR| c@),
                reg@ == class_entries(classes.take(i as int)),
            decreases ir_list.len() - i,
        {
            assert(classes.take(i + 1).drop_last() =~= classes.take(i as int));
            assert(classes.take(i + 1).last() == ir_list@[i as int]@);
            let ir = &ir_list[i];
            let kind = if has_is_enum(ir) {
                ResolvedKind::Enum
            } else {
                ResolvedKind::AnnotatedClass
            };
            reg.insert(ir.name.clone(), kind);
            i = i + 1;
        }
        assert(classes.take(ir_list.len() as int) =~= classes);
        let mut j: usize = 0;
        while j < parsed_files.len()
            invariant
                j <= parsed_files.len(),
                reg@ == with_enums(class_entries(classes), file_enum_names(parsed_files@.take(j as int))),
            decreases parsed_files.len() - j,
        {
            let ghost before = reg@;
            let f = &parsed_files[j];
            let src = chars_of(f.source.as_str());
            collect_dart_enums(&f.tree, &src, &mut reg);
            proof {
                assert(parsed_files@.take(j + 1).drop_last() =~= parsed_files@.take(j as int));
                assert(parsed_files@.take(j + 1).last() == parsed_files@[j as int]);
                lemma_with_enums_push(
                    class_entries(classes),
                    file_enum_names(parsed_files@.take(j as int)),
                    enum_names(f.source@, f.tree),
                );
            }
            j = j + 1;
        }
        assert(parsed_files@.take(parsed_files.len() as int) =~= parsed_files@);
        reg
    }
}

fn has_is_enum(ir: &ClassIR) -> (r: bool)
    ensures
        r == ir@.annotations.map_values(|a: AnnotationSpec| a.name).contains("IsEnum"@),
{
    let ghost names = ir@.annotations.map_values(|a: AnnotationSpec| a.name);
    let mut i: usize = 0;
    while i < ir.annotations.len()
        invariant
            i <= ir.annotations.len(),
            names == ir@.annotations.map_values(|a: AnnotationSpec| a.name),
            names.len() == ir.annotations.len(),
            forall|j: int| 0 <= j < i ==> names[j] != "IsEnum"@,
        decreases ir.annotations.len() - i,
    {
        assert(names[i as int] == ir.annotations@[i as int].name@);
        if str_eq(ir.annotations[i].name.as_str(), "IsEnum") {
            return true;
        }
        i = i + 1;
    }
    false
}

/// Registers every enum declaration under `node` as an enum, in pre-order.
pub fn collect_dart_enums(node: &SyntaxNode, source: &Vec<char>, registry: &mut TypeRegistry)
    ensures
        final(registry)@ == with_enums(old(registry)@, enum_names(source@, *node)),
    decreases *node,
{
    let ghost r0 = registry@;
    let ghost own: Seq<Seq<char>> = if node.kind@ == "enum_declaration"@ {
        match field_child(*node, "name"@) {
            Some(nn) => if text_of(source@, nn).len() > 0 {
                seq![text_of(source@, nn)]
            } else {
                Seq::empty()
            },
            None => Seq::empty(),
        }
    } else {
        Seq::empty()
    };
    if kind_is(node, "enum_declaration") {
        match field_child_exec(node, "name") {
            Some(k) => {
                let name = text_exec(source, &node.children[k]);
                if name.len() > 0 {
                    registry.insert(string_of(&name), ResolvedKind::Enum);
                    proof {
                        let one = seq![name@];
                        assert(one.drop_last() =~= Seq::<Seq<char>>::empty());
                        assert(one.last() == name@);
                        assert(with_enums(r0, one) == assoc_set(with_enums(r0, one.drop_last()), name@, ResolvedKind::Enum));
                        assert(own == one);
                    }
                } else {
                    assert(own == Seq::<Seq<char>>::empty());
                }
            },
            None => {},
        }
    }
    assert(own.len() == 0 ==> with_enums(r0, own) == r0);
    assert(registry@ == with_enums(r0, own));
    let mut i: usize = 0;
    assert(own + enum_names_from(source@, *node, 0) == enum_names(source@, *node));
    proof {
        lemma_with_enums_push(r0, own, enum_names_from(source@, *node, 0));
    }
    while i < node.children.len()
        invariant
            i <= node.children.len(),
            own + enum_names_from(source@, *node, 0) == enum_names(source@, *node),
            with_enums(r0, enum_names(source@, *node)) == with_enums(registry@, enum_names_from(source@, *node, i as int)),
        decreases node.children.len() - i,
    {
        let ghost before = registry@;
        collect_dart_enums(&node.children[i], source, registry);
        proof {
            lemma_with_enums_push(
                before,
                enum_names(source@, node.children@[i as int]),
                enum_names_from(source@, *node, i + 1),
            );
        }
        i = i + 1;
    }
}

} // verus!
