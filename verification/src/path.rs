//! File paths, written with `/` between components.
//!
//! Trailing separators and trailing `.` components do not count (as with
//! `std::path::Path`); the file name is the last component then, and its extension
//! is what follows the last `.` of the file name, unless that `.` opens it.
use vstd::prelude::*;
use crate::text::{chars_of, rfind_any_upto, rfind_any_upto_exec, push_char, append_str};

verus! {

/// Length of `p` once trailing separators and trailing `.` components are dropped.
pub open spec fn name_end(p: Seq<char>) -> int
    decreases p.len(),
{
    if p.len() > 0 && p.last() == '/' {
        name_end(p.drop_last())
    } else if p.len() >= 2 && p.last() == '.' && p[p.len() - 2] == '/' {
        name_end(p.drop_last())
    } else {
        p.len() as int
    }
}

/// Whether `p` ends with its last component: no trailing separator and no trailing
/// `.` component.
pub open spec fn ends_in_name(p: Seq<char>) -> bool {
    name_end(p) == p.len()
}

/// Index at which the file name of `p` starts.
pub open spec fn name_start(p: Seq<char>) -> int {
    match rfind_any_upto(p, seq!['/'], name_end(p) - 1) {
        Some(i) => i + 1,
        None => 0,
    }
}

/// The file name of `p`, if it has one.
pub open spec fn file_name(p: Seq<char>) -> Option<Seq<char>> {
    let n = p.subrange(name_start(p), name_end(p));
    if n.len() == 0 || n == seq!['.'] || n == seq!['.', '.'] {
        None
    } else {
        Some(n)
    }
}

/// Index (within the file name) of the dot that starts the extension.
pub open spec fn ext_dot(name: Seq<char>) -> Option<int> {
    match rfind_any_upto(name, seq!['.'], name.len() - 1) {
        Some(i) => if i > 0 {
            Some(i)
        } else {
            None
        },
        None => None,
    }
}

/// The extension of `p`, if it has one.
pub open spec fn extension(p: Seq<char>) -> Option<Seq<char>> {
    match file_name(p) {
        None => None,
        Some(n) => match ext_dot(n) {
            Some(d) => Some(n.subrange(d + 1, n.len() as int)),
            None => None,
        },
    }
}

/// The file name without its extension.
pub open spec fn file_stem(name: Seq<char>) -> Seq<char> {
    match ext_dot(name) {
        Some(d) => name.subrange(0, d),
        None => name,
    }
}

/// `p` with its extension replaced by `ext` (removed when `ext` is empty); a path
/// without a file name is returned unchanged.
pub open spec fn with_extension(p: Seq<char>, ext: Seq<char>) -> Seq<char> {
    match file_name(p) {
        None => p,
        Some(n) => p.subrange(0, name_start(p)) + file_stem(n) + if ext.len() == 0 {
            Seq::empty()
        } else {
            seq!['.'] + ext
        },
    }
}

/// What `name_end` leaves: a length within `p`, and a prefix of `p` whose trimming
/// ends at the same place.
pub proof fn lemma_name_end(p: Seq<char>)
    ensures
        0 <= name_end(p) <= p.len(),
        name_end(p) > 0 ==> p[name_end(p) - 1] != '/',
        p.len() > 0 && p.last() != '/' && p.last() != '.' ==> name_end(p) == p.len(),
    decreases p.len(),
{
    if p.len() > 0 && p.last() == '/' {
        lemma_name_end(p.drop_last());
    } else if p.len() >= 2 && p.last() == '.' && p[p.len() - 2] == '/' {
        lemma_name_end(p.drop_last());
    }
}

/// Length of `p` without trailing separators and trailing `.` components.
pub fn name_end_exec(p: &Vec<char>) -> (r: usize)
    ensures
        r == name_end(p@),
{
    let mut e = p.len();
    assert(p@.take(e as int) =~= p@);
    while e > 0 && (p[e - 1] == '/' || (e >= 2 && p[e - 1] == '.' && p[e - 2] == '/'))
        invariant
            e <= p.len(),
            name_end(p@) == name_end(p@.take(e as int)),
        decreases e,
    {
        assert(p@.take(e as int).drop_last() =~= p@.take(e - 1));
        e = e - 1;
    }
    e
}

/// Start of the file name of `p`.
pub fn name_start_exec(p: &Vec<char>) -> (r: usize)
    ensures
        r == name_start(p@),
        r <= name_end(p@),
{
    let e = name_end_exec(p);
    proof {
        lemma_name_end(p@);
    }
    if e == 0 {
        return 0;
    }
    let sep = vec!['/'];
    assert(sep@ =~= seq!['/']);
    match rfind_any_upto_exec(p, &sep, e - 1) {
        Some(i) => {
            proof {
                lemma_rfind_any_upto_bound(p@, seq!['/'], (e - 1) as int);
            }
            i + 1
        },
        None => 0,
    }
}

pub proof fn lemma_rfind_any_upto_bound(s: Seq<char>, set: Seq<char>, i: int)
    ensures
        rfind_any_upto(s, set, i) matches Some(j) ==> 0 <= j <= i && j < s.len() && set.contains(s[j]),
    decreases i + 1,
{
    if 0 <= i < s.len() && !set.contains(s[i]) {
        lemma_rfind_any_upto_bound(s, set, i - 1);
    }
}

/// What `rfind_any_upto` skips: no character of `set` lies after the index it
/// finds (or anywhere up to `i`, when it finds none).
pub proof fn lemma_rfind_any_upto_skipped(s: Seq<char>, set: Seq<char>, i: int)
    requires
        -1 <= i < s.len(),
    ensures
        rfind_any_upto(s, set, i) matches Some(k) ==> forall|j: int| k < j <= i ==> !set.contains(#[trigger] s[j]),
        rfind_any_upto(s, set, i) is None ==> forall|j: int| 0 <= j <= i ==> !set.contains(#[trigger] s[j]),
    decreases i + 1,
{
    if 0 <= i && !set.contains(s[i]) {
        lemma_rfind_any_upto_skipped(s, set, i - 1);
    }
}

/// `rfind_any_upto` finds `k` when `s[k]` is in `set` and nothing after it up to `i` is.
pub proof fn lemma_rfind_any_upto_finds(s: Seq<char>, set: Seq<char>, i: int, k: int)
    requires
        0 <= k <= i < s.len(),
        set.contains(s[k]),
        forall|j: int| k < j <= i ==> !set.contains(#[trigger] s[j]),
    ensures
        rfind_any_upto(s, set, i) == Some(k),
    decreases i - k,
{
    if i > k {
        lemma_rfind_any_upto_finds(s, set, i - 1, k);
    }
}

/// `rfind_any_upto` finds nothing when no character up to `i` is in `set`.
pub proof fn lemma_rfind_any_upto_absent(s: Seq<char>, set: Seq<char>, i: int)
    requires
        -1 <= i < s.len(),
        forall|j: int| 0 <= j <= i ==> !set.contains(#[trigger] s[j]),
    ensures
        rfind_any_upto(s, set, i) is None,
    decreases i + 1,
{
    if i >= 0 {
        lemma_rfind_any_upto_absent(s, set, i - 1);
    }
}

/// The file name holds no `/`, and what precedes it is empty or ends with `/`.
pub proof fn lemma_name_start(p: Seq<char>)
    ensures
        0 <= name_start(p) <= name_end(p) <= p.len(),
        forall|j: int| name_start(p) <= j < name_end(p) ==> #[trigger] p[j] != '/',
        name_start(p) > 0 ==> p[name_start(p) - 1] == '/',
{
    lemma_name_end(p);
    let e = name_end(p);
    lemma_rfind_any_upto_bound(p, seq!['/'], e - 1);
    lemma_rfind_any_upto_skipped(p, seq!['/'], e - 1);
    assert forall|j: int| name_start(p) <= j < e implies #[trigger] p[j] != '/' by {
        if p[j] == '/' {
            assert(seq!['/'].contains(p[j])) by {
                assert(seq!['/'][0] == p[j]);
            }
        }
    }
    if name_start(p) > 0 {
        let k = name_start(p) - 1;
        assert(seq!['/'].contains(p[k]));
        assert(seq!['/'][0] == '/');
    }
}

/// Replacing the extension with `g.dart` gives the file name `<stem>.g.dart` in the
/// same directory.
pub proof fn lemma_generated_file_name(p: Seq<char>)
    requires
        file_name(p) is Some,
    ensures
        file_name(with_extension(p, "g.dart"@)) == Some(file_stem(file_name(p)->0) + ".g.dart"@),
        with_extension(p, "g.dart"@) == p.subrange(0, name_start(p)) + file_stem(file_name(p)->0) + ".g.dart"@,
{
    reveal_strlit("g.dart");
    reveal_strlit(".g.dart");
    let n = file_name(p)->0;
    let ns = name_start(p);
    lemma_name_start(p);
    let stem = file_stem(n);
    let tail = stem + ".g.dart"@;
    assert(seq!['.'] + "g.dart"@ =~= ".g.dart"@);
    let pre = p.subrange(0, ns);
    let q = with_extension(p, "g.dart"@);
    assert(q =~= pre + tail);
    // the stem holds no '/'
    assert(n == p.subrange(ns, name_end(p)));
    lemma_rfind_any_upto_bound(n, seq!['.'], n.len() - 1);
    assert(stem.len() <= n.len());
    assert forall|j: int| 0 <= j < stem.len() implies #[trigger] stem[j] != '/' by {
        assert(n[j] == p[ns + j]);
        match ext_dot(n) {
            Some(d) => {
                assert(stem[j] == n[j]);
            },
            None => {},
        }
    }
    assert(q.last() == 't');
    lemma_name_end(q);
    assert(name_end(q) == q.len());
    assert forall|j: int| ns <= j < q.len() implies !seq!['/'].contains(#[trigger] q[j]) by {
        assert(q[j] == tail[j - ns]);
        if j - ns < stem.len() {
            assert(tail[j - ns] == stem[j - ns]);
        } else {
            assert(tail[j - ns] == ".g.dart"@[j - ns - stem.len()]);
        }
        if seq!['/'].contains(q[j]) {
            let w = choose|w: int| 0 <= w < seq!['/'].len() && seq!['/'][w] == q[j];
            assert(seq!['/'][w] == '/');
        }
    }
    if ns > 0 {
        assert(q[ns - 1] == p[ns - 1]);
        assert(seq!['/'][0] == q[ns - 1]);
        lemma_rfind_any_upto_finds(q, seq!['/'], q.len() - 1, ns - 1);
    } else {
        lemma_rfind_any_upto_absent(q, seq!['/'], q.len() - 1);
    }
    assert(name_start(q) == ns);
    assert(q.subrange(ns, q.len() as int) =~= tail);
    assert(tail.len() >= 7);
}

/// A path whose extension is `ext` is, up to what trails its last component, its
/// directory part, the stem of its file name, a dot and `ext`.
pub proof fn lemma_path_with_extension_shape(p: Seq<char>, ext: Seq<char>)
    requires
        extension(p) == Some(ext),
    ensures
        p.subrange(0, name_end(p)) == p.subrange(0, name_start(p)) + file_stem(file_name(p)->0) + seq!['.'] + ext,
{
    let n = file_name(p)->0;
    let ns = name_start(p);
    lemma_name_start(p);
    assert(n == p.subrange(ns, name_end(p)));
    lemma_rfind_any_upto_bound(n, seq!['.'], n.len() - 1);
    let d = ext_dot(n)->0;
    assert(seq!['.'].contains(n[d]));
    assert(n[d] == '.') by {
        let w = choose|w: int| 0 <= w < seq!['.'].len() && seq!['.'][w] == n[d];
        assert(seq!['.'][w] == '.');
    }
    assert(n =~= n.subrange(0, d) + seq!['.'] + n.subrange(d + 1, n.len() as int));
    assert(p.subrange(0, name_end(p)) =~= p.subrange(0, ns) + n);
}

/// The file name of `p`, if it has one.
pub fn file_name_exec(p: &Vec<char>) -> (r: Option<Vec<char>>)
    ensures
        r matches Some(n) ==> file_name(p@) == Some(n@),
        r is None ==> file_name(p@) is None,
{
    let s = name_start_exec(p);
    let e = name_end_exec(p);
    proof {
        lemma_name_end(p@);
    }
    let mut n: Vec<char> = Vec::new();
    let mut i = s;
    while i < e
        invariant
            s <= i <= e <= p.len(),
            n@ == p@.subrange(s as int, i as int),
        decreases e - i,
    {
        n.push(p[i]);
        i = i + 1;
        assert(n@ == p@.subrange(s as int, i as int));
    }
    if n.len() == 0 || (n.len() == 1 && n[0] == '.') || (n.len() == 2 && n[0] == '.' && n[1] == '.') {
        assert(n.len() == 1 && n[0] == '.' ==> n@ == seq!['.']);
        assert(n.len() == 2 && n[0] == '.' && n[1] == '.' ==> n@ == seq!['.', '.']);
        None
    } else {
        Some(n)
    }
}

/// Position of the extension dot within a file name.
pub fn ext_dot_exec(name: &Vec<char>) -> (r: Option<usize>)
    ensures
        r matches Some(d) ==> ext_dot(name@) == Some(d as int) && 0 < d < name@.len(),
        r is None ==> ext_dot(name@) is None,
{
    if name.len() == 0 {
        return None;
    }
    let dot = vec!['.'];
    assert(dot@ =~= seq!['.']);
    proof {
        lemma_rfind_any_upto_bound(name@, seq!['.'], (name@.len() - 1) as int);
    }
    match rfind_any_upto_exec(name, &dot, name.len() - 1) {
        Some(i) => if i > 0 {
            Some(i)
        } else {
            None
        },
        None => None,
    }
}

/// The extension of `p`, if it has one.
pub fn extension_exec(p: &Vec<char>) -> (r: Option<Vec<char>>)
    ensures
        r matches Some(e) ==> extension(p@) == Some(e@),
        r is None ==> extension(p@) is None,
{
    match file_name_exec(p) {
        None => None,
        Some(n) => match ext_dot_exec(&n) {
            None => None,
            Some(d) => {
                let mut e: Vec<char> = Vec::new();
                let mut i = d + 1;
                while i < n.len()
                    invariant
                        d + 1 <= i <= n.len(),
                        e@ == n@.subrange(d + 1, i as int),
                    decreases n.len() - i,
                {
                    e.push(n[i]);
                    i = i + 1;
                    assert(e@ == n@.subrange(d + 1, i as int));
                }
                Some(e)
            },
        },
    }
}

/// `path` with its extension replaced by `ext`.
pub fn with_extension_exec(path: &str, ext: &str) -> (r: String)
    ensures
        r@ == with_extension(path@, ext@),
{
    let p = chars_of(path);
    let mut out = String::new();
    match file_name_exec(&p) {
        None => {
            append_str(&mut out, path);
            assert(out@ == path@);
        },
        Some(n) => {
            let s = name_start_exec(&p);
            let mut i: usize = 0;
            while i < s
                invariant
                    i <= s <= p.len(),
                    out@ == p@.subrange(0, i as int),
                decreases s - i,
            {
                push_char(&mut out, p[i]);
                i = i + 1;
                assert(out@ == p@.subrange(0, i as int));
            }
            let stem_end = match ext_dot_exec(&n) {
                Some(d) => d,
                None => n.len(),
            };
            let ghost pre = out@;
            let mut k: usize = 0;
            while k < stem_end
                invariant
                    k <= stem_end <= n.len(),
                    out@ == pre + n@.subrange(0, k as int),
                decreases stem_end - k,
            {
                push_char(&mut out, n[k]);
                k = k + 1;
                assert(out@ == pre + n@.subrange(0, k as int));
            }
            assert(n@.subrange(0, n@.len() as int) == n@);
            if !ext.is_empty() {
                push_char(&mut out, '.');
                append_str(&mut out, ext);
            }
        },
    }
    out
}

} // verus!
