//! What watch mode does with a batch of file-system events.
use vstd::prelude::*;
use crate::path::{
    extension, extension_exec, file_name, file_name_exec, file_stem, lemma_generated_file_name, name_start, with_extension,
    with_extension_exec,
};
use crate::pipeline::scanner::is_source_path;
use crate::writer::{cache_contents, forget_output};
use dashmap::DashMap;
use crate::text::{chars_of, ends_with, matches_at, replace, replace_exec, seq_eq, str_ends_with, string_of, views};

verus! {

/// The kind of a file-system event.
#[derive(Clone, Copy, Debug, PartialEq, Eq, Structural)]
pub enum ChangeKind {
    Any,
    Access,
    Create,
    Modify,
    Remove,
    Other,
}

/// A file-system event: its kind and the paths it concerns.
#[derive(Debug)]
pub struct WatchEvent {
    pub kind: ChangeKind,
    pub paths: Vec<String>,
}

/// Errors that can occur in watch mode.
#[derive(Debug)]
pub enum WatchError {
    /// An error of the file watcher, with its message.
    Notify(String),
    /// An I/O error, with its message.
    Io(String),
}

impl WatchError {
    /// The message shown for this error.
    pub fn message(&self) -> (r: String)
        ensures
            r@ == (match *self {
                WatchError::Notify(m) => "Watcher error: "@ + m@,
                WatchError::Io(m) => "IO error: "@ + m@,
            }),
    {
        match self {
            WatchError::Notify(m) => {
                let mut s = crate::text::owned("Watcher error: ");
                s.append(m.as_str());
                s
            },
            WatchError::Io(m) => {
                let mut s = crate::text::owned("IO error: ");
                s.append(m.as_str());
                s
            },
        }
    }
}

/// What to do after a batch of events.
#[derive(Debug)]
pub struct WatchPlan {
    /// Whether a Dart source was created or modified, so the build runs again.
    pub rebuild: bool,
    /// Generated files of removed Dart sources, to delete (and forget) if they exist.
    pub stale_outputs: Vec<String>,
}

/// Whether the path names a Dart file (extension `dart`).
pub open spec fn is_dart_path(p: Seq<char>) -> bool {
    extension(p) == Some("dart"@)
}

/// Whether an event of this kind on this path calls for a rebuild: a Dart file that
/// is not generated was created or modified (or changed in an unspecified way).
pub open spec fn triggers_rebuild(kind: ChangeKind, p: Seq<char>) -> bool {
    &&& (kind == ChangeKind::Modify || kind == ChangeKind::Create || kind == ChangeKind::Any)
    &&& is_dart_path(p)
    &&& !ends_with(p, ".g.dart"@)
}

/// The spec view of an event.
pub open spec fn event_view(e: WatchEvent) -> (ChangeKind, Seq<Seq<char>>) {
    (e.kind, views(e.paths@))
}

pub open spec fn event_views(s: Seq<WatchEvent>) -> Seq<(ChangeKind, Seq<Seq<char>>)> {
    s.map_values(|e: WatchEvent| event_view(e))
}

/// Whether any path of any event calls for a rebuild.
pub open spec fn any_rebuild(events: Seq<(ChangeKind, Seq<Seq<char>>)>) -> bool {
    exists|i: int, j: int|
        0 <= i < events.len() && 0 <= j < events[i].1.len() && #[trigger] triggers_rebuild(
            events[i].0,
            events[i].1[j],
        )
}

/// The generated files of the Dart files removed by one event, in path order.
pub open spec fn removed_outputs(kind: ChangeKind, paths: Seq<Seq<char>>) -> Seq<Seq<char>>
    decreases paths.len(),
{
    if paths.len() == 0 {
        seq![]
    } else if kind == ChangeKind::Remove && is_dart_path(paths.last()) {
        removed_outputs(kind, paths.drop_last()).push(with_extension(paths.last(), "g.dart"@))
    } else {
        removed_outputs(kind, paths.drop_last())
    }
}

/// The generated files of all removed Dart files, event by event.
pub open spec fn stale_outputs(events: Seq<(ChangeKind, Seq<Seq<char>>)>) -> Seq<Seq<char>>
    decreases events.len(),
{
    if events.len() == 0 {
        seq![]
    } else {
        stale_outputs(events.drop_last()) + removed_outputs(events.last().0, events.last().1)
    }
}

/// The plan for a batch of events: rebuild when a Dart source was created or
/// modified; delete the generated file of every removed Dart file.
pub fn plan_events(events: &Vec<WatchEvent>) -> (r: WatchPlan)
    ensures
        r.rebuild == any_rebuild(event_views(events@)),
        views(r.stale_outputs@) == stale_outputs(event_views(events@)),
{
    let ghost evs = event_views(events@);
    let mut rebuild = false;
    let mut stale: Vec<String> = Vec::new();
    let dart = chars_of("dart");
    let mut i: usize = 0;
    assert(evs.take(0) =~= Seq::<(ChangeKind, Seq<Seq<char>>)>::empty());
    while i < events.len()
        invariant
            i <= events.len(),
            evs == event_views(events@),
            dart@ == "dart"@,
            rebuild == any_rebuild(evs.take(i as int)),
            views(stale@) == stale_outputs(evs.take(i as int)),
        decreases events.len() - i,
    {
        let e = &events[i];
        assert(evs[i as int] == event_view(*e));
        assert(evs.take(i as int + 1).drop_last() =~= evs.take(i as int));
        assert(evs.take(i as int + 1).last() == evs[i as int]);
        let ghost stale_before = views(stale@);
        let ghost ps = views(e.paths@);
        let mut hit = false;
        let mut j: usize = 0;
        assert(ps.take(0) =~= Seq::<Seq<char>>::empty());
        while j < e.paths.len()
            invariant
                j <= e.paths.len(),
                ps == views(e.paths@),
                dart@ == "dart"@,
                hit == exists|k: int| 0 <= k < j && #[trigger] triggers_rebuild(e.kind, ps[k]),
                views(stale@) == stale_before + removed_outputs(e.kind, ps.take(j as int)),
            decreases e.paths.len() - j,
        {
            let p = e.paths[j].as_str();
            assert(ps[j as int] == p@);
            assert(ps.take(j as int + 1).drop_last() =~= ps.take(j as int));
            assert(ps.take(j as int + 1).last() == p@);
            let pv = chars_of(p);
            let is_dart = match extension_exec(&pv) {
                Some(x) => seq_eq(&x, &dart),
                None => false,
            };
            let kind = e.kind;
            let trig = (kind == ChangeKind::Modify || kind == ChangeKind::Create || kind == ChangeKind::Any)
                && is_dart && !str_ends_with(p, ".g.dart");
            assert(trig == triggers_rebuild(e.kind, ps[j as int]));
            let ghost hit_before = hit;
            if trig {
                hit = true;
            }
            proof {
                if trig {
                    assert(0 <= j < j + 1 && triggers_rebuild(e.kind, ps[j as int]));
                }
                if hit_before {
                    let k = choose|k: int| 0 <= k < j && #[trigger] triggers_rebuild(e.kind, ps[k]);
                    assert(0 <= k < j + 1 && triggers_rebuild(e.kind, ps[k]));
                }
                if exists|k: int| 0 <= k < j + 1 && #[trigger] triggers_rebuild(e.kind, ps[k]) {
                    let k = choose|k: int| 0 <= k < j + 1 && #[trigger] triggers_rebuild(e.kind, ps[k]);
                    if k < j {
                        assert(hit_before);
                    } else {
                        assert(trig);
                    }
                }
            }
            if kind == ChangeKind::Remove && is_dart {
                let ghost sb = views(stale@);
                let out = with_extension_exec(p, "g.dart");
                stale.push(out);
                assert(views(stale@) =~= sb.push(out@));
            }
            j = j + 1;
        }
        assert(ps.take(ps.len() as int) =~= ps);
        assert(evs[i as int].1 == ps);
        if hit {
            rebuild = true;
        }
        proof {
            let now = evs.take(i as int + 1);
            let prev = evs.take(i as int);
            if any_rebuild(now) {
                let (a, b) = choose|a: int, b: int|
                    0 <= a < now.len() && 0 <= b < now[a].1.len() && #[trigger] triggers_rebuild(
                        now[a].0,
                        now[a].1[b],
                    );
                if a < i {
                    assert(prev[a] == now[a]);
                    assert(triggers_rebuild(prev[a].0, prev[a].1[b]));
                } else {
                    assert(triggers_rebuild(e.kind, ps[b]));
                }
            }
            if rebuild {
                if any_rebuild(prev) {
                    let (a, b) = choose|a: int, b: int|
                        0 <= a < prev.len() && 0 <= b < prev[a].1.len() && #[trigger] triggers_rebuild(
                            prev[a].0,
                            prev[a].1[b],
                        );
                    assert(now[a] == prev[a]);
                    assert(triggers_rebuild(now[a].0, now[a].1[b]));
                } else {
                    let k = choose|k: int| 0 <= k < ps.len() && #[trigger] triggers_rebuild(e.kind, ps[k]);
                    assert(now[i as int] == evs[i as int]);
                    assert(triggers_rebuild(now[i as int].0, now[i as int].1[k]));
                }
            }
        }
        i = i + 1;
    }
    assert(evs.take(evs.len() as int) =~= evs);
    WatchPlan { rebuild, stale_outputs: stale }
}

/// The generated file of any path (the path with the extension `g.dart`) is never
/// taken for a Dart source by the scanner, and no event on it starts a rebuild.
pub proof fn lemma_generated_path_ignored(p: Seq<char>, kind: ChangeKind)
    ensures
        !is_source_path(with_extension(p, "g.dart"@)),
        !triggers_rebuild(kind, with_extension(p, "g.dart"@)),
{
    reveal_strlit(".g.dart");
    let q = with_extension(p, "g.dart"@);
    match file_name(p) {
        None => {
            assert(q == p);
            assert(extension(q) is None);
        },
        Some(n) => {
            lemma_generated_file_name(p);
            let tail = file_stem(n) + ".g.dart"@;
            assert(file_name(q) == Some(tail));
            assert(ends_with(tail, ".g.dart"@)) by {
                assert(tail.subrange(tail.len() - 7, tail.len() as int) =~= ".g.dart"@);
                assert(matches_at(tail, ".g.dart"@, tail.len() - 7));
            }
            let pre = p.subrange(0, name_start(p));
            assert(q == pre + tail);
            assert(ends_with(q, ".g.dart"@)) by {
                assert(q.subrange(q.len() - 7, q.len() as int) =~= ".g.dart"@);
                assert(matches_at(q, ".g.dart"@, q.len() - 7));
            }
        },
    }
}

/// The name shown for the source of a generated file: its file name with
/// `.g.dart` replaced by `.dart` (empty when the path has no file name).
pub open spec fn source_name_of(output: Seq<char>) -> Seq<char> {
    match file_name(output) {
        Some(n) => replace(n, ".g.dart"@, ".dart"@),
        None => replace(seq![], ".g.dart"@, ".dart"@),
    }
}

/// The name shown for the source of a generated file.
pub fn changed_source_name(output: &str) -> (r: String)
    ensures
        r@ == source_name_of(output@),
{
    let p = chars_of(output);
    let from = chars_of(".g.dart");
    let to = chars_of(".dart");
    let n = match file_name_exec(&p) {
        Some(n) => n,
        None => Vec::new(),
    };
    proof {
        reveal_strlit(".g.dart");
        if file_name(output@) is None {
            assert(n@ =~= Seq::<char>::empty());
        }
    }
    string_of(&replace_exec(&n, &from, &to))
}

/// What the cache records after the stale outputs are handled: each output whose
/// file was removed (`removed[i]`) is forgotten, the others are kept.
pub open spec fn forget_removed(contents: Map<Seq<char>, u64>, outputs: Seq<Seq<char>>, removed: Seq<bool>) -> Map<
    Seq<char>,
    u64,
>
    decreases outputs.len(),
{
    if outputs.len() == 0 || removed.len() != outputs.len() {
        contents
    } else {
        let before = forget_removed(contents, outputs.drop_last(), removed.drop_last());
        if removed.last() {
            before.remove(outputs.last())
        } else {
            before
        }
    }
}

/// `remove` answered `b` when handed a path whose text is `path`.
pub open spec fn answered<F: Fn(&str) -> bool>(remove: F, path: Seq<char>, b: bool) -> bool {
    exists|p: &str| p@ == path && #[trigger] call_ensures(remove, (p,), b)
}

/// Removes the generated files of deleted sources with `remove`, which removes a file
/// if it exists and tells whether it did, and forgets in the cache each file
/// removed. Returns, for each stale output in order, what `remove` answered when it
/// was handed that output's path.
pub fn remove_stale_outputs<F>(stale: &Vec<String>, cache: &mut DashMap<String, u64>, remove: &F) -> (r: Vec<bool>) where
    F: Fn(&str) -> bool,

    requires
        forall|p: &str| call_requires(*remove, (p,)),
    ensures
        r@.len() == stale@.len(),
        forall|i: int| 0 <= i < r@.len() ==> #[trigger] answered(*remove, stale@[i]@, r@[i]),
        cache_contents(*final(cache)) == forget_removed(cache_contents(*old(cache)), views(stale@), r@),
{
    let ghost c0 = cache_contents(*old(cache));
    let ghost paths = views(stale@);
    let mut r: Vec<bool> = Vec::new();
    let mut i: usize = 0;
    while i < stale.len()
        invariant
            i <= stale.len(),
            paths == views(stale@),
            r@.len() == i,
            cache_contents(*cache) == forget_removed(c0, paths.take(i as int), r@),
            forall|j: int| 0 <= j < r@.len() ==> #[trigger] answered(*remove, stale@[j]@, r@[j]),
            forall|p: &str| call_requires(*remove, (p,)),
        decreases stale.len() - i,
    {
        let p = stale[i].as_str();
        let gone = remove(p);
        if gone {
            forget_output(p, cache);
        }
        let ghost r0 = r@;
        r.push(gone);
        proof {
            assert(paths.take(i as int + 1).drop_last() =~= paths.take(i as int));
            assert(paths.take(i as int + 1).last() == stale@[i as int]@);
            assert(r@.drop_last() =~= r0);
            assert(call_ensures(*remove, (p,), r@[i as int]));
            assert(answered(*remove, stale@[i as int]@, r@[i as int]));
            assert forall|j: int| 0 <= j < r@.len() implies #[trigger] answered(*remove, stale@[j]@, r@[j]) by {
                if j < i {
                    assert(r@[j] == r0[j]);
                }
            }
        }
        i = i + 1;
    }
    assert(paths.take(stale.len() as int) =~= paths);
    r
}

/// Handling the stale outputs changes what the cache records only for those
/// outputs: every other path keeps its entry, and every output whose file was
/// removed has none.
pub proof fn lemma_forget_removed(contents: Map<Seq<char>, u64>, outputs: Seq<Seq<char>>, removed: Seq<bool>, p: Seq<char>)
    requires
        removed.len() == outputs.len(),
    ensures
        !outputs.contains(p) ==> forget_removed(contents, outputs, removed).dom().contains(p) == contents.dom().contains(p)
            && (contents.dom().contains(p) ==> forget_removed(contents, outputs, removed)[p] == contents[p]),
        (exists|i: int| 0 <= i < outputs.len() && outputs[i] == p && #[trigger] removed[i]) ==> !forget_removed(
            contents,
            outputs,
            removed,
        ).dom().contains(p),
    decreases outputs.len(),
{
    if outputs.len() > 0 {
        let oi = outputs.drop_last();
        let ri = removed.drop_last();
        lemma_forget_removed(contents, oi, ri, p);
        if !outputs.contains(p) && oi.contains(p) {
            let k = choose|k: int| 0 <= k < oi.len() && oi[k] == p;
            assert(outputs[k] == p);
        }
        if !outputs.contains(p) {
            assert(outputs[outputs.len() - 1] != p);
        }
        if exists|i: int| 0 <= i < outputs.len() && outputs[i] == p && #[trigger] removed[i] {
            let i = choose|i: int| 0 <= i < outputs.len() && outputs[i] == p && #[trigger] removed[i];
            if i < outputs.len() - 1 {
                assert(oi[i] == p && ri[i]);
            }
        }
    }
}

} // verus!
