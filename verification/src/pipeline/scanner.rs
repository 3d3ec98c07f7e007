//! Which files under `lib/` are Dart sources to generate from.
use vstd::prelude::*;
use crate::path::{
    ends_in_name, extension, extension_exec, file_name, file_name_exec, file_stem, lemma_generated_file_name,
    lemma_path_with_extension_shape, name_start, with_extension,
};
use crate::text::{chars_of, ends_with, ends_with_exec, owned, seq_eq, views};

verus! {

/// Errors that can occur while scanning.
#[derive(Debug)]
pub enum ScanError {
    /// The `lib/` directory was not found.
    LibNotFound,
    /// An I/O error, with its message.
    Io(String),
}

/// The message shown for a scan error.
pub open spec fn scan_error_message(e: ScanError) -> Seq<char> {
    match e {
        ScanError::LibNotFound => "Cannot find 'lib/' directory."@,
        ScanError::Io(m) => "IO error: "@ + m@,
    }
}

impl ScanError {
    /// The message shown for this error.
    pub fn message(&self) -> (r: String)
        ensures
            r@ == scan_error_message(*self),
    {
        match self {
            ScanError::LibNotFound => owned("Cannot find 'lib/' directory."),
            ScanError::Io(m) => {
                let mut s = owned("IO error: ");
                s.append(m.as_str());
                s
            },
        }
    }
}

/// A Dart source: its extension is `dart` and its file name does not end with
/// `.g.dart` (those are generated).
pub open spec fn is_source_path(p: Seq<char>) -> bool {
    &&& extension(p) == Some("dart"@)
    &&& !(file_name(p) matches Some(n) && ends_with(n, ".g.dart"@))
}

/// Distinct Dart sources that end with their file names have distinct generated
/// files.
pub proof fn lemma_generated_paths_distinct(p1: Seq<char>, p2: Seq<char>)
    requires
        is_source_path(p1),
        is_source_path(p2),
        ends_in_name(p1),
        ends_in_name(p2),
        p1 != p2,
    ensures
        with_extension(p1, "g.dart"@) != with_extension(p2, "g.dart"@),
{
    reveal_strlit(".g.dart");
    lemma_generated_file_name(p1);
    lemma_generated_file_name(p2);
    lemma_path_with_extension_shape(p1, "dart"@);
    lemma_path_with_extension_shape(p2, "dart"@);
    assert(p1.subrange(0, p1.len() as int) =~= p1);
    assert(p2.subrange(0, p2.len() as int) =~= p2);
    let x1 = p1.subrange(0, name_start(p1)) + file_stem(file_name(p1)->0);
    let x2 = p2.subrange(0, name_start(p2)) + file_stem(file_name(p2)->0);
    let q1 = with_extension(p1, "g.dart"@);
    let q2 = with_extension(p2, "g.dart"@);
    assert(q1 == x1 + ".g.dart"@);
    assert(q2 == x2 + ".g.dart"@);
    if q1 == q2 {
        assert(x1 =~= q1.subrange(0, q1.len() - 7));
        assert(x2 =~= q2.subrange(0, q2.len() - 7));
        assert(p1 == x1 + seq!['.'] + "dart"@);
        assert(p2 == x2 + seq!['.'] + "dart"@);
    }
}

/// The Dart sources among `paths`, in order.
pub open spec fn source_paths(paths: Seq<Seq<char>>) -> Seq<Seq<char>>
    decreases paths.len(),
{
    if paths.len() == 0 {
        seq![]
    } else if is_source_path(paths.last()) {
        source_paths(paths.drop_last()).push(paths.last())
    } else {
        source_paths(paths.drop_last())
    }
}

/// Whether `path` is a Dart source to generate from.
pub fn is_source_file(path: &str) -> (r: bool)
    ensures
        r == is_source_path(path@),
{
    let p = chars_of(path);
    let dart = chars_of("dart");
    let is_dart = match extension_exec(&p) {
        Some(e) => seq_eq(&e, &dart),
        None => false,
    };
    let generated = chars_of(".g.dart");
    let is_generated = match file_name_exec(&p) {
        Some(n) => ends_with_exec(&n, &generated),
        None => false,
    };
    is_dart && !is_generated
}

/// A generated file: its file name ends with `.g.dart`.
pub open spec fn is_generated_path(p: Seq<char>) -> bool {
    file_name(p) matches Some(n) && ends_with(n, ".g.dart"@)
}

/// Whether `path` is a generated file (one that `clean` deletes).
pub fn is_generated_file(path: &str) -> (r: bool)
    ensures
        r == is_generated_path(path@),
{
    let p = chars_of(path);
    let generated = chars_of(".g.dart");
    match file_name_exec(&p) {
        Some(n) => ends_with_exec(&n, &generated),
        None => false,
    }
}

/// The Dart sources among the files found under `lib/`, in the order given.
pub fn select_sources(paths: &Vec<String>) -> (r: Vec<String>)
    ensures
        views(r@) == source_paths(views(paths@)),
{
    let mut out: Vec<String> = Vec::new();
    let mut i: usize = 0;
    assert(views(paths@).take(0) =~= Seq::<Seq<char>>::empty());
    while i < paths.len()
        invariant
            i <= paths.len(),
            views(out@) == source_paths(views(paths@).take(i as int)),
        decreases paths.len() - i,
    {
        let ghost all = views(paths@);
        assert(all.take(i as int + 1).drop_last() =~= all.take(i as int));
        assert(all.take(i as int + 1).last() == paths@[i as int]@);
        if is_source_file(paths[i].as_str()) {
            let ghost before = out@;
            out.push(owned(paths[i].as_str()));
            assert(views(out@) =~= views(before).push(paths@[i as int]@));
        }
        i = i + 1;
    }
    assert(views(paths@).take(paths@.len() as int) =~= views(paths@));
    out
}

} // verus!
