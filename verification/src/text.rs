//! Character-level text operations used by the analyzer and the code generators.
//!
//! Every operation works on sequences of `char` and is specified by a spec
//! function over `Seq<char>`.
use vstd::prelude::*;
use vstd::std_specs::iter::IteratorSpec;

verus! {

// ───────────────────────────── specifications ─────────────────────────────

/// `pat` occurs in `s` starting at index `i`.
pub open spec fn matches_at(s: Seq<char>, pat: Seq<char>, i: int) -> bool {
    &&& 0 <= i
    &&& i + pat.len() <= s.len()
    &&& s.subrange(i, i + pat.len()) == pat
}

/// First index `>= i` at which `pat` occurs in `s`.
pub open spec fn find_from(s: Seq<char>, pat: Seq<char>, i: int) -> Option<int>
    decreases s.len() + 1 - i,
{
    if i < 0 || i + pat.len() > s.len() {
        None
    } else if matches_at(s, pat, i) {
        Some(i)
    } else {
        find_from(s, pat, i + 1)
    }
}

/// First occurrence of `pat` in `s` (like `str::find`).
pub open spec fn find(s: Seq<char>, pat: Seq<char>) -> Option<int> {
    find_from(s, pat, 0)
}

/// Last index `<= i` at which `pat` occurs in `s`.
pub open spec fn rfind_upto(s: Seq<char>, pat: Seq<char>, i: int) -> Option<int>
    decreases i + 1,
{
    if i < 0 {
        None
    } else if matches_at(s, pat, i) {
        Some(i)
    } else {
        rfind_upto(s, pat, i - 1)
    }
}

/// Last occurrence of `pat` in `s` (like `str::rfind`).
pub open spec fn rfind(s: Seq<char>, pat: Seq<char>) -> Option<int> {
    rfind_upto(s, pat, s.len() - pat.len())
}

/// `s` contains `pat` (like `str::contains`).
pub open spec fn contains(s: Seq<char>, pat: Seq<char>) -> bool {
    find(s, pat) is Some
}

/// First index `>= i` holding one of the characters of `set`.
pub open spec fn find_any_from(s: Seq<char>, set: Seq<char>, i: int) -> Option<int>
    decreases s.len() - i,
{
    if i < 0 || i >= s.len() {
        None
    } else if set.contains(s[i]) {
        Some(i)
    } else {
        find_any_from(s, set, i + 1)
    }
}

/// Last index `<= i` holding one of the characters of `set`.
pub open spec fn rfind_any_upto(s: Seq<char>, set: Seq<char>, i: int) -> Option<int>
    decreases i + 1,
{
    if i < 0 || i >= s.len() {
        None
    } else if set.contains(s[i]) {
        Some(i)
    } else {
        rfind_any_upto(s, set, i - 1)
    }
}

/// Unicode `White_Space` property, as `char::is_whitespace` documents it.
pub open spec fn is_ws(c: char) -> bool {
    ||| ('\u{9}' <= c && c <= '\u{d}')
    ||| c == ' '
    ||| c == '\u{85}'
    ||| c == '\u{a0}'
    ||| c == '\u{1680}'
    ||| ('\u{2000}' <= c && c <= '\u{200a}')
    ||| c == '\u{2028}'
    ||| c == '\u{2029}'
    ||| c == '\u{202f}'
    ||| c == '\u{205f}'
    ||| c == '\u{3000}'
}

/// Drops leading whitespace.
pub open spec fn trim_start(s: Seq<char>) -> Seq<char>
    decreases s.len(),
{
    if s.len() > 0 && is_ws(s[0]) {
        trim_start(s.drop_first())
    } else {
        s
    }
}

/// Drops trailing whitespace.
pub open spec fn trim_end(s: Seq<char>) -> Seq<char>
    decreases s.len(),
{
    if s.len() > 0 && is_ws(s.last()) {
        trim_end(s.drop_last())
    } else {
        s
    }
}

/// Drops whitespace at both ends (like `str::trim`).
pub open spec fn trim(s: Seq<char>) -> Seq<char> {
    trim_end(trim_start(s))
}

/// Drops every trailing occurrence of `c` (like `str::trim_end_matches` with a char).
pub open spec fn trim_end_char(s: Seq<char>, c: char) -> Seq<char>
    decreases s.len(),
{
    if s.len() > 0 && s.last() == c {
        trim_end_char(s.drop_last(), c)
    } else {
        s
    }
}

/// Replaces every non-overlapping occurrence of a non-empty `from`, left to right
/// (like `str::replace`). With an empty `from`, where `str::replace` would put `to`
/// between every two characters, it leaves `s` as it is; `replace_exec` asks for a
/// non-empty `from`.
pub open spec fn replace(s: Seq<char>, from: Seq<char>, to: Seq<char>) -> Seq<char>
    decreases s.len(),
{
    if from.len() == 0 {
        s
    } else {
        match find(s, from) {
            None => s,
            Some(i) => {
                proof {
                    lemma_find_from_bounds(s, from, 0);
                }
                s.subrange(0, i) + to + replace(s.subrange(i + from.len(), s.len() as int), from, to)
            },
        }
    }
}

/// An occurrence of `pat` at or after `i` is found.
pub proof fn lemma_find_from_finds(s: Seq<char>, pat: Seq<char>, i: int, j: int)
    requires
        0 <= i <= j,
        matches_at(s, pat, j),
    ensures
        find_from(s, pat, i) is Some,
    decreases j - i,
{
    if !matches_at(s, pat, i) {
        lemma_find_from_finds(s, pat, i + 1, j);
    }
}

/// A text that holds `pat` at `j` contains it.
pub proof fn lemma_contains_at(s: Seq<char>, pat: Seq<char>, j: int)
    requires
        0 <= j,
        matches_at(s, pat, j),
    ensures
        contains(s, pat),
{
    lemma_find_from_finds(s, pat, 0, j);
}

/// What `find_from` returns is an occurrence at or after `i`.
pub proof fn lemma_find_from_bounds(s: Seq<char>, pat: Seq<char>, i: int)
    ensures
        find_from(s, pat, i) matches Some(j) ==> i <= j && matches_at(s, pat, j),
    decreases s.len() + 1 - i,
{
    if i < 0 || i + pat.len() > s.len() {
    } else if matches_at(s, pat, i) {
    } else {
        lemma_find_from_bounds(s, pat, i + 1);
    }
}

/// What `rfind_upto` returns is an occurrence at or before `i`.
pub proof fn lemma_rfind_upto_bounds(s: Seq<char>, pat: Seq<char>, i: int)
    ensures
        rfind_upto(s, pat, i) matches Some(j) ==> j <= i && matches_at(s, pat, j),
    decreases i + 1,
{
    if i >= 0 && !matches_at(s, pat, i) {
        lemma_rfind_upto_bounds(s, pat, i - 1);
    }
}

/// Concatenation of all the sequences of `parts`.
pub open spec fn concat(parts: Seq<Seq<char>>) -> Seq<char>
    decreases parts.len(),
{
    if parts.len() == 0 {
        Seq::empty()
    } else {
        concat(parts.drop_last()) + parts.last()
    }
}

/// `parts` joined with `sep` between consecutive parts (like `[String]::join`).
pub open spec fn join(parts: Seq<Seq<char>>, sep: Seq<char>) -> Seq<char>
    decreases parts.len(),
{
    if parts.len() == 0 {
        Seq::empty()
    } else if parts.len() == 1 {
        parts[0]
    } else {
        join(parts.drop_last(), sep) + sep + parts.last()
    }
}

/// The string views of a vector of strings.
pub open spec fn views(v: Seq<String>) -> Seq<Seq<char>> {
    v.map_values(|s: String| s@)
}

/// Concatenation distributes over appending sequences of parts.
pub proof fn lemma_concat_append(a: Seq<Seq<char>>, b: Seq<Seq<char>>)
    ensures
        concat(a + b) == concat(a) + concat(b),
    decreases b.len(),
{
    if b.len() == 0 {
        assert(a + b =~= a);
        assert(concat(a) + concat(b) =~= concat(a));
    } else {
        assert((a + b).drop_last() =~= a + b.drop_last());
        lemma_concat_append(a, b.drop_last());
        assert(concat(a) + (concat(b.drop_last()) + b.last()) =~= (concat(a) + concat(b.drop_last())) + b.last());
    }
}

pub proof fn lemma_concat_take_step(parts: Seq<Seq<char>>, i: int)
    requires
        0 <= i < parts.len(),
    ensures
        concat(parts.take(i + 1)) == concat(parts.take(i)) + parts[i],
{
    assert(parts.take(i + 1).drop_last() == parts.take(i));
}

pub proof fn lemma_join_take_step(parts: Seq<Seq<char>>, sep: Seq<char>, i: int)
    requires
        0 < i < parts.len(),
    ensures
        join(parts.take(i + 1), sep) == join(parts.take(i), sep) + sep + parts[i],
{
    assert(parts.take(i + 1).drop_last() == parts.take(i));
}

// ───────────────────────────── trusted std calls ─────────────────────────────

/// Calls `String::push`: the string afterwards is the old string followed by `c`.
#[verifier::external_body]
pub(crate) fn push_char(s: &mut String, c: char)
    ensures
        final(s)@ == old(s)@.push(c),
{
    s.push(c);
}

// ───────────────────────────── executable operations ─────────────────────────────

/// The characters of a string slice.
pub fn chars_of(s: &str) -> (r: Vec<char>)
    ensures
        r@ == s@,
{
    let mut out: Vec<char> = Vec::new();
    for c in it: s.chars()
        invariant
            out@ == it.seq().take(it.index() as int),
            it.seq() == s@,
    {
        out.push(c);
    }
    out
}

/// A string holding the characters `v[lo..hi]`.
pub fn string_from(v: &Vec<char>, lo: usize, hi: usize) -> (r: String)
    requires
        lo <= hi <= v.len(),
    ensures
        r@ == v@.subrange(lo as int, hi as int),
{
    let mut s = String::new();
    let mut i = lo;
    while i < hi
        invariant
            lo <= i <= hi <= v.len(),
            s@ == v@.subrange(lo as int, i as int),
        decreases hi - i,
    {
        push_char(&mut s, v[i]);
        i = i + 1;
        assert(s@ == v@.subrange(lo as int, i as int));
    }
    s
}

/// A string holding all the characters of `v`.
pub fn string_of(v: &Vec<char>) -> (r: String)
    ensures
        r@ == v@,
{
    let r = string_from(v, 0, v.len());
    assert(v@.subrange(0, v@.len() as int) == v@);
    r
}

/// Appends the characters of `v` to `s`.
pub fn append_chars(s: &mut String, v: &Vec<char>)
    ensures
        final(s)@ == old(s)@ + v@,
{
    let mut i: usize = 0;
    while i < v.len()
        invariant
            i <= v.len(),
            s@ == old(s)@ + v@.subrange(0, i as int),
        decreases v.len() - i,
    {
        push_char(s, v[i]);
        i = i + 1;
        assert(s@ == old(s)@ + v@.subrange(0, i as int));
    }
    assert(v@.subrange(0, v@.len() as int) == v@);
}

/// Appends the string `t` to `s`.
pub fn append_str(s: &mut String, t: &str)
    ensures
        final(s)@ == old(s)@ + t@,
{
    s.append(t);
}

/// A copy of the string slice.
pub fn owned(s: &str) -> (r: String)
    ensures
        r@ == s@,
{
    let mut r = String::new();
    r.append(s);
    assert(r@ == s@);
    r
}

/// Equality of two strings, character by character.
pub fn str_eq(a: &str, b: &str) -> (r: bool)
    ensures
        r == (a@ == b@),
{
    let av = chars_of(a);
    let bv = chars_of(b);
    seq_eq(&av, &bv)
}

/// Equality of two character vectors.
pub fn seq_eq(a: &Vec<char>, b: &Vec<char>) -> (r: bool)
    ensures
        r == (a@ == b@),
{
    if a.len() != b.len() {
        return false;
    }
    let mut i: usize = 0;
    while i < a.len()
        invariant
            a.len() == b.len(),
            i <= a.len(),
            a@.subrange(0, i as int) == b@.subrange(0, i as int),
        decreases a.len() - i,
    {
        if a[i] != b[i] {
            assert(a@[i as int] != b@[i as int]);
            return false;
        }
        assert(a@.subrange(0, i + 1) == a@.subrange(0, i as int).push(a@[i as int]));
        assert(b@.subrange(0, i + 1) == b@.subrange(0, i as int).push(b@[i as int]));
        i = i + 1;
    }
    assert(a@ == a@.subrange(0, a@.len() as int));
    assert(b@ == b@.subrange(0, b@.len() as int));
    true
}

/// Whether `pat` occurs in `s` at index `i`.
pub fn matches_at_exec(s: &Vec<char>, pat: &Vec<char>, i: usize) -> (r: bool)
    ensures
        r == matches_at(s@, pat@, i as int),
{
    if i > s.len() || pat.len() > s.len() - i {
        return false;
    }
    let mut k: usize = 0;
    while k < pat.len()
        invariant
            i + pat.len() <= s.len(),
            k <= pat.len(),
            s@.subrange(i as int, i + k) == pat@.subrange(0, k as int),
        decreases pat.len() - k,
    {
        if s[i + k] != pat[k] {
            assert(s@.subrange(i as int, i + pat.len())[k as int] == s@[i + k]);
            return false;
        }
        assert(s@.subrange(i as int, i + k + 1) == s@.subrange(i as int, i + k).push(s@[i + k]));
        assert(pat@.subrange(0, k + 1) == pat@.subrange(0, k as int).push(pat@[k as int]));
        k = k + 1;
    }
    assert(pat@.subrange(0, pat@.len() as int) == pat@);
    true
}

/// First occurrence of `pat` at or after `start`.
pub fn find_from_exec(s: &Vec<char>, pat: &Vec<char>, start: usize) -> (r: Option<usize>)
    ensures
        r matches Some(i) ==> find_from(s@, pat@, start as int) == Some(i as int),
        r is None ==> find_from(s@, pat@, start as int) is None,
{
    if pat.len() > s.len() || start > s.len() - pat.len() {
        return None;
    }
    let mut i = start;
    loop
        invariant
            pat.len() <= s.len(),
            start <= i <= s.len() - pat.len(),
            find_from(s@, pat@, start as int) == find_from(s@, pat@, i as int),
        decreases s.len() - pat.len() - i,
    {
        if matches_at_exec(s, pat, i) {
            return Some(i);
        }
        if i == s.len() - pat.len() {
            assert(find_from(s@, pat@, i + 1) is None);
            return None;
        }
        i = i + 1;
    }
}

/// First occurrence of `pat` in `s`.
pub fn find_exec(s: &Vec<char>, pat: &Vec<char>) -> (r: Option<usize>)
    ensures
        r matches Some(i) ==> find(s@, pat@) == Some(i as int),
        r is None ==> find(s@, pat@) is None,
{
    find_from_exec(s, pat, 0)
}

/// Last occurrence of `pat` in `s`.
pub fn rfind_exec(s: &Vec<char>, pat: &Vec<char>) -> (r: Option<usize>)
    ensures
        r matches Some(i) ==> rfind(s@, pat@) == Some(i as int),
        r is None ==> rfind(s@, pat@) is None,
{
    if pat.len() > s.len() {
        assert(rfind_upto(s@, pat@, s@.len() - pat@.len()) is None);
        return None;
    }
    let mut i: usize = s.len() - pat.len();
    loop
        invariant
            pat.len() <= s.len(),
            i <= s.len() - pat.len(),
            rfind(s@, pat@) == rfind_upto(s@, pat@, i as int),
        decreases i,
    {
        if matches_at_exec(s, pat, i) {
            return Some(i);
        }
        if i == 0 {
            assert(rfind_upto(s@, pat@, -1) is None);
            return None;
        }
        i = i - 1;
    }
}

/// Whether `pat` occurs in `s`.
pub fn contains_exec(s: &Vec<char>, pat: &Vec<char>) -> (r: bool)
    ensures
        r == contains(s@, pat@),
{
    find_exec(s, pat).is_some()
}

/// Whether the string `s` contains the string `pat`.
pub fn str_contains(s: &str, pat: &str) -> (r: bool)
    ensures
        r == contains(s@, pat@),
{
    let sv = chars_of(s);
    let pv = chars_of(pat);
    contains_exec(&sv, &pv)
}

/// First index at or after `start` holding a character of `set`.
pub fn find_any_from_exec(s: &Vec<char>, set: &Vec<char>, start: usize) -> (r: Option<usize>)
    ensures
        r matches Some(i) ==> find_any_from(s@, set@, start as int) == Some(i as int),
        r is None ==> find_any_from(s@, set@, start as int) is None,
{
    let mut i = start;
    while i < s.len()
        invariant
            start <= i,
            find_any_from(s@, set@, start as int) == find_any_from(s@, set@, i as int),
        decreases s.len() - i,
    {
        if char_in(s[i], set) {
            return Some(i);
        }
        i = i + 1;
    }
    None
}

/// Last index at or before `start` (and below `s.len()`) holding a character of `set`.
pub fn rfind_any_upto_exec(s: &Vec<char>, set: &Vec<char>, upto: usize) -> (r: Option<usize>)
    requires
        upto < s.len(),
    ensures
        r matches Some(i) ==> rfind_any_upto(s@, set@, upto as int) == Some(i as int),
        r is None ==> rfind_any_upto(s@, set@, upto as int) is None,
{
    let mut i: usize = upto + 1;
    while i > 0
        invariant
            i <= upto + 1,
            upto < s.len(),
            rfind_any_upto(s@, set@, upto as int) == rfind_any_upto(s@, set@, i - 1),
        decreases i,
    {
        if char_in(s[i - 1], set) {
            return Some(i - 1);
        }
        i = i - 1;
    }
    None
}

/// Whether `c` is one of the characters of `set`.
pub fn char_in(c: char, set: &Vec<char>) -> (r: bool)
    ensures
        r == set@.contains(c),
{
    let mut i: usize = 0;
    while i < set.len()
        invariant
            i <= set.len(),
            forall|j: int| 0 <= j < i ==> set@[j] != c,
        decreases set.len() - i,
    {
        if set[i] == c {
            assert(set@[i as int] == c);
            return true;
        }
        i = i + 1;
    }
    false
}

/// Whether `s` starts with `pat`.
pub fn starts_with_exec(s: &Vec<char>, pat: &Vec<char>) -> (r: bool)
    ensures
        r == matches_at(s@, pat@, 0),
{
    matches_at_exec(s, pat, 0)
}

/// Whether `s` ends with `pat`.
pub fn ends_with_exec(s: &Vec<char>, pat: &Vec<char>) -> (r: bool)
    ensures
        r == (pat@.len() <= s@.len() && matches_at(s@, pat@, s@.len() - pat@.len())),
{
    if pat.len() > s.len() {
        return false;
    }
    matches_at_exec(s, pat, s.len() - pat.len())
}

/// The decimal digits of `n`, without leading zeros ("0" for zero).
pub open spec fn decimal(n: nat) -> Seq<char>
    decreases n,
{
    if n < 10 {
        seq![digit_char(n)]
    } else {
        decimal(n / 10).push(digit_char(n % 10))
    }
}

/// The digit character of `d < 10`.
pub open spec fn digit_char(d: nat) -> char {
    (('0' as u32) + d) as char
}

/// `n` written in decimal.
pub fn decimal_exec(n: u128) -> (r: String)
    ensures
        r@ == decimal(n as nat),
    decreases n,
{
    if n < 10 {
        let mut s = String::new();
        let c = digit_exec(n);
        push_char(&mut s, c);
        assert(s@ =~= seq![digit_char(n as nat)]);
        s
    } else {
        let mut s = decimal_exec(n / 10);
        let c = digit_exec(n % 10);
        push_char(&mut s, c);
        s
    }
}

/// The digit character of `d < 10`.
fn digit_exec(d: u128) -> (r: char)
    requires
        d < 10,
    ensures
        r == digit_char(d as nat),
{
    if d == 0 { '0' } else if d == 1 { '1' } else if d == 2 { '2' } else if d == 3 { '3' } else if d == 4 {
        '4'
    } else if d == 5 { '5' } else if d == 6 { '6' } else if d == 7 { '7' } else if d == 8 { '8' } else { '9' }
}

/// Whether `s` ends with `pat`.
pub open spec fn ends_with(s: Seq<char>, pat: Seq<char>) -> bool {
    pat.len() <= s.len() && matches_at(s, pat, s.len() - pat.len())
}

/// Whether the string `s` ends with `pat`.
pub fn str_ends_with(s: &str, pat: &str) -> (r: bool)
    ensures
        r == ends_with(s@, pat@),
{
    let sv = chars_of(s);
    let pv = chars_of(pat);
    ends_with_exec(&sv, &pv)
}

/// Whether `c` is whitespace (Unicode `White_Space`).
pub fn is_ws_exec(c: char) -> (r: bool)
    ensures
        r == is_ws(c),
{
    ('\u{9}' <= c && c <= '\u{d}') || c == ' ' || c == '\u{85}' || c == '\u{a0}' || c == '\u{1680}'
        || ('\u{2000}' <= c && c <= '\u{200a}') || c == '\u{2028}' || c == '\u{2029}' || c
        == '\u{202f}' || c == '\u{205f}' || c == '\u{3000}'
}

proof fn lemma_trim_start_skip(s: Seq<char>, i: int)
    requires
        0 <= i <= s.len(),
        forall|j: int| 0 <= j < i ==> is_ws(s[j]),
    ensures
        trim_start(s) == trim_start(s.subrange(i, s.len() as int)),
    decreases i,
{
    if i > 0 {
        assert(s.drop_first().subrange(i - 1, s.drop_first().len() as int) == s.subrange(i, s.len() as int));
        lemma_trim_start_skip(s.drop_first(), i - 1);
    } else {
        assert(s.subrange(0, s.len() as int) == s);
    }
}

proof fn lemma_trim_end_skip(s: Seq<char>, k: int)
    requires
        0 <= k <= s.len(),
        forall|j: int| k <= j < s.len() ==> is_ws(s[j]),
    ensures
        trim_end(s) == trim_end(s.subrange(0, k)),
    decreases s.len() - k,
{
    if k < s.len() {
        assert(s.drop_last().subrange(0, k) == s.subrange(0, k));
        lemma_trim_end_skip(s.drop_last(), k);
    } else {
        assert(s.subrange(0, s.len() as int) == s);
    }
}

/// `s` without leading and trailing whitespace.
pub fn trim_exec(s: &Vec<char>, lo: usize, hi: usize) -> (r: Vec<char>)
    requires
        lo <= hi <= s.len(),
    ensures
        r@ == trim(s@.subrange(lo as int, hi as int)),
{
    let ghost t = s@.subrange(lo as int, hi as int);
    let mut a = lo;
    while a < hi && is_ws_exec(s[a])
        invariant
            lo <= a <= hi <= s.len(),
            forall|j: int| lo <= j < a ==> is_ws(s@[j]),
        decreases hi - a,
    {
        a = a + 1;
    }
    proof {
        lemma_trim_start_skip(t, a - lo);
        assert(t.subrange(a - lo, t.len() as int) == s@.subrange(a as int, hi as int));
    }
    let ghost u = s@.subrange(a as int, hi as int);
    assert(a < hi ==> !is_ws(u[0]));
    assert(trim_start(u) == u);
    let mut b = hi;
    while b > a && is_ws_exec(s[b - 1])
        invariant
            a <= b <= hi <= s.len(),
            forall|j: int| b <= j < hi ==> is_ws(s@[j]),
        decreases b,
    {
        b = b - 1;
    }
    proof {
        lemma_trim_end_skip(u, b - a);
        assert(u.subrange(0, b - a) == s@.subrange(a as int, b as int));
        let w = s@.subrange(a as int, b as int);
        assert(b > a ==> w.last() == s@[b - 1]);
    }
    let mut r: Vec<char> = Vec::new();
    let mut i = a;
    while i < b
        invariant
            a <= i <= b <= s.len(),
            r@ == s@.subrange(a as int, i as int),
        decreases b - i,
    {
        r.push(s[i]);
        i = i + 1;
        assert(r@ == s@.subrange(a as int, i as int));
    }
    r
}

/// `s` with every trailing occurrence of `c` dropped.
pub fn trim_end_char_exec(s: &Vec<char>, c: char) -> (r: Vec<char>)
    ensures
        r@ == trim_end_char(s@, c),
{
    let mut b = s.len();
    assert(s@.subrange(0, s@.len() as int) == s@);
    while b > 0 && s[b - 1] == c
        invariant
            b <= s.len(),
            trim_end_char(s@, c) == trim_end_char(s@.subrange(0, b as int), c),
        decreases b,
    {
        assert(s@.subrange(0, b as int).drop_last() == s@.subrange(0, b - 1));
        b = b - 1;
    }
    let mut r: Vec<char> = Vec::new();
    let mut i: usize = 0;
    while i < b
        invariant
            i <= b <= s.len(),
            r@ == s@.subrange(0, i as int),
        decreases b - i,
    {
        r.push(s[i]);
        i = i + 1;
        assert(r@ == s@.subrange(0, i as int));
    }
    r
}

proof fn lemma_find_from_shift(s: Seq<char>, pat: Seq<char>, i: int, k: int)
    requires
        0 <= k <= i,
        k <= s.len(),
        pat.len() > 0,
    ensures
        find_from(s, pat, i) matches Some(j) ==> find_from(s.subrange(k, s.len() as int), pat, i - k)
            == Some(j - k),
        find_from(s, pat, i) is None ==> find_from(s.subrange(k, s.len() as int), pat, i - k) is None,
    decreases s.len() - i,
{
    let t = s.subrange(k, s.len() as int);
    if i + pat.len() > s.len() {
    } else {
        assert(t.subrange(i - k, i - k + pat.len()) == s.subrange(i, i + pat.len()));
        if !matches_at(s, pat, i) {
            lemma_find_from_shift(s, pat, i + 1, k);
        }
    }
}

/// `s` with every non-overlapping occurrence of `from` replaced by `to`; `from`
/// is not empty.
pub fn replace_exec(s: &Vec<char>, from: &Vec<char>, to: &Vec<char>) -> (r: Vec<char>)
    requires
        from@.len() > 0,
    ensures
        r@ == replace(s@, from@, to@),
{
    let mut r: Vec<char> = Vec::new();
    let mut pos: usize = 0;
    assert(s@.subrange(0, s@.len() as int) == s@);
    loop
        invariant
            from.len() > 0,
            pos <= s.len(),
            r@ + replace(s@.subrange(pos as int, s@.len() as int), from@, to@) == replace(s@, from@, to@),
        decreases s.len() - pos,
    {
        let ghost rest = s@.subrange(pos as int, s@.len() as int);
        let found = find_from_exec(s, from, pos);
        proof {
            lemma_find_from_shift(s@, from@, pos as int, pos as int);
            lemma_find_from_bounds(s@, from@, pos as int);
        }
        match found {
            None => {
                let ghost r0 = r@;
                let mut i = pos;
                while i < s.len()
                    invariant
                        pos <= i <= s.len(),
                        r@ == r0 + s@.subrange(pos as int, i as int),
                    decreases s.len() - i,
                {
                    r.push(s[i]);
                    i = i + 1;
                    assert(r@ == r0 + s@.subrange(pos as int, i as int));
                }
                assert(replace(rest, from@, to@) == rest);
                return r;
            },
            Some(j) => {
                let ghost r0 = r@;
                let mut i = pos;
                while i < j
                    invariant
                        pos <= i <= j,
                        j + from.len() <= s.len(),
                        r@ == r0 + s@.subrange(pos as int, i as int),
                    decreases j - i,
                {
                    r.push(s[i]);
                    i = i + 1;
                    assert(r@ == r0 + s@.subrange(pos as int, i as int));
                }
                let mut k: usize = 0;
                let ghost r1 = r@;
                while k < to.len()
                    invariant
                        k <= to.len(),
                        r@ == r1 + to@.subrange(0, k as int),
                    decreases to.len() - k,
                {
                    r.push(to[k]);
                    k = k + 1;
                    assert(r@ == r1 + to@.subrange(0, k as int));
                }
                assert(to@.subrange(0, to@.len() as int) == to@);
                assert(rest.subrange(0, j - pos) == s@.subrange(pos as int, j as int));
                assert(rest.subrange(j - pos + from@.len(), rest.len() as int) == s@.subrange(
                    j + from@.len(),
                    s@.len() as int,
                ));
                pos = j + from.len();
            },
        }
    }
}


/// `parts` joined with `sep` (like `[String]::join`).
pub fn join_strings(parts: &Vec<String>, sep: &str) -> (r: String)
    ensures
        r@ == join(views(parts@), sep@),
{
    let ghost ps = views(parts@);
    let mut out = String::new();
    let mut i: usize = 0;
    while i < parts.len()
        invariant
            i <= parts.len(),
            ps == views(parts@),
            out@ == join(ps.take(i as int), sep@),
        decreases parts.len() - i,
    {
        assert(ps[i as int] == parts@[i as int]@);
        if i > 0 {
            append_str(&mut out, sep);
            proof {
                lemma_join_take_step(ps, sep@, i as int);
            }
        } else {
            assert(ps.take(1).len() == 1);
        }
        append_str(&mut out, parts[i].as_str());
        i = i + 1;
    }
    assert(ps.take(parts.len() as int) == ps);
    out
}

/// Pieces of `s` between occurrences of `sep` (like `str::split` with a char).
pub open spec fn split(s: Seq<char>, sep: char) -> Seq<Seq<char>>
    decreases s.len(),
{
    match find_any_from(s, seq![sep], 0) {
        None => seq![s],
        Some(i) => {
            proof {
                lemma_find_any_from_bounds(s, seq![sep], 0);
            }
            seq![s.subrange(0, i)] + split(s.subrange(i + 1, s.len() as int), sep)
        },
    }
}

/// What `find_any_from` returns is a matching index at or after `i`.
pub proof fn lemma_find_any_from_bounds(s: Seq<char>, set: Seq<char>, i: int)
    ensures
        find_any_from(s, set, i) matches Some(j) ==> i <= j < s.len() && 0 <= j && set.contains(s[j]),
    decreases s.len() - i,
{
    if 0 <= i < s.len() && !set.contains(s[i]) {
        lemma_find_any_from_bounds(s, set, i + 1);
    }
}

proof fn lemma_find_any_from_shift(s: Seq<char>, set: Seq<char>, i: int, k: int)
    requires
        0 <= k <= i,
        k <= s.len(),
    ensures
        find_any_from(s, set, i) matches Some(j) ==> find_any_from(s.subrange(k, s.len() as int), set, i - k)
            == Some(j - k),
        find_any_from(s, set, i) is None ==> find_any_from(s.subrange(k, s.len() as int), set, i - k) is None,
    decreases s.len() - i,
{
    if 0 <= i < s.len() && !set.contains(s[i]) {
        lemma_find_any_from_shift(s, set, i + 1, k);
    }
}

/// The pieces of `s[lo..]` between occurrences of `sep`.
pub fn split_exec(s: &Vec<char>, sep: char) -> (r: Vec<Vec<char>>)
    ensures
        r@.map_values(|v: Vec<char>| v@) == split(s@, sep),
{
    let ghost sepv = seq![sep];
    let seps = vec![sep];
    assert(seps@ =~= sepv);
    let mut out: Vec<Vec<char>> = Vec::new();
    let mut pos: usize = 0;
    assert(s@.subrange(0, s@.len() as int) == s@);
    loop
        invariant
            pos <= s.len(),
            seps@ == sepv,
            sepv == seq![sep],
            out@.map_values(|v: Vec<char>| v@) + split(s@.subrange(pos as int, s@.len() as int), sep) == split(s@, sep),
        decreases s.len() - pos,
    {
        let ghost rest = s@.subrange(pos as int, s@.len() as int);
        let found = find_any_from_exec(s, &seps, pos);
        proof {
            lemma_find_any_from_shift(s@, sepv, pos as int, pos as int);
            lemma_find_any_from_bounds(s@, sepv, pos as int);
        }
        let end = match found {
            Some(j) => j,
            None => s.len(),
        };
        let mut piece: Vec<char> = Vec::new();
        let mut i = pos;
        while i < end
            invariant
                pos <= i <= end <= s.len(),
                piece@ == s@.subrange(pos as int, i as int),
            decreases end - i,
        {
            piece.push(s[i]);
            i = i + 1;
            assert(piece@ == s@.subrange(pos as int, i as int));
        }
        let ghost before = out@;
        out.push(piece);
        assert(out@.map_values(|v: Vec<char>| v@) =~= before.map_values(|v: Vec<char>| v@).push(
            s@.subrange(pos as int, end as int),
        ));
        match found {
            None => {
                assert(split(rest, sep) == seq![rest]);
                assert(rest == s@.subrange(pos as int, end as int));
                assert(out@.map_values(|v: Vec<char>| v@) =~= before.map_values(|v: Vec<char>| v@) + split(rest, sep));
                return out;
            },
            Some(j) => {
                assert(rest.subrange(0, j - pos) == s@.subrange(pos as int, j as int));
                assert(rest.subrange(j - pos + 1, rest.len() as int) == s@.subrange(j + 1, s@.len() as int));
                assert(split(rest, sep) == seq![rest.subrange(0, j - pos)] + split(
                    rest.subrange(j - pos + 1, rest.len() as int),
                    sep,
                ));
                pos = j + 1;
            },
        }
    }
}

/// A copy of `v[lo..hi]`.
pub fn slice_vec(v: &Vec<char>, lo: usize, hi: usize) -> (r: Vec<char>)
    requires
        lo <= hi <= v.len(),
    ensures
        r@ == v@.subrange(lo as int, hi as int),
{
    let mut r: Vec<char> = Vec::new();
    let mut i = lo;
    while i < hi
        invariant
            lo <= i <= hi <= v.len(),
            r@ == v@.subrange(lo as int, i as int),
        decreases hi - i,
    {
        r.push(v[i]);
        i = i + 1;
        assert(r@ == v@.subrange(lo as int, i as int));
    }
    r
}

/// The concatenation of two character vectors.
pub fn concat_vec(a: &Vec<char>, b: &Vec<char>) -> (r: Vec<char>)
    ensures
        r@ == a@ + b@,
{
    let mut r = slice_vec(a, 0, a.len());
    let mut i: usize = 0;
    assert(a@.subrange(0, a@.len() as int) == a@);
    while i < b.len()
        invariant
            i <= b.len(),
            r@ == a@ + b@.subrange(0, i as int),
        decreases b.len() - i,
    {
        r.push(b[i]);
        i = i + 1;
        assert(r@ =~= a@ + b@.subrange(0, i as int));
    }
    assert(b@.subrange(0, b@.len() as int) == b@);
    r
}

// ───────────────────────────── Unicode case mapping (std) ─────────────────────────────

/// Result of `char::is_uppercase` (Unicode `Uppercase` property).
pub uninterp spec fn char_is_uppercase(c: char) -> bool;

/// The characters yielded by `char::to_lowercase`.
pub uninterp spec fn char_lowercase(c: char) -> Seq<char>;

/// The characters yielded by `char::to_uppercase`.
pub uninterp spec fn char_uppercase(c: char) -> Seq<char>;

/// Result of `str::to_lowercase`.
pub uninterp spec fn str_lowercase(s: Seq<char>) -> Seq<char>;

/// Result of `str::to_uppercase`.
pub uninterp spec fn str_uppercase(s: Seq<char>) -> Seq<char>;

/// Calls `char::is_uppercase`. Besides naming the result, states what the
/// documentation shows for ASCII: `A`..=`Z` are uppercase, other ASCII characters
/// are not.
#[verifier::external_body]
pub(crate) fn is_uppercase(c: char) -> (r: bool)
    ensures
        r == char_is_uppercase(c),
        ('A' <= c && c <= 'Z') ==> r,
        (c < '\u{80}' && !('A' <= c && c <= 'Z')) ==> !r,
{
    c.is_uppercase()
}

/// Calls `char::to_lowercase` and collects what it yields. The documentation
/// promises at least one character; an ASCII uppercase letter maps to its lowercase
/// letter and every other ASCII character to itself.
#[verifier::external_body]
pub(crate) fn to_lowercase_char(c: char) -> (r: Vec<char>)
    ensures
        r@ == char_lowercase(c),
        r@.len() >= 1,
        ('A' <= c && c <= 'Z') ==> r@ == seq![((c as u32) + 32) as char],
        (c < '\u{80}' && !('A' <= c && c <= 'Z')) ==> r@ == seq![c],
{
    c.to_lowercase().collect()
}

/// Calls `char::to_uppercase` and collects what it yields. The documentation
/// promises at least one character; an ASCII lowercase letter maps to its uppercase
/// letter and every other ASCII character to itself.
#[verifier::external_body]
pub(crate) fn to_uppercase_char(c: char) -> (r: Vec<char>)
    ensures
        r@ == char_uppercase(c),
        r@.len() >= 1,
        ('a' <= c && c <= 'z') ==> r@ == seq![((c as u32) - 32) as char],
        (c < '\u{80}' && !('a' <= c && c <= 'z')) ==> r@ == seq![c],
{
    c.to_uppercase().collect()
}

/// Whether every character of `s` is ASCII.
pub open spec fn is_ascii_text(s: Seq<char>) -> bool {
    forall|i: int| 0 <= i < s.len() ==> #[trigger] s[i] < '\u{80}'
}

/// The ASCII lowercase of `c`: `A`..=`Z` become `a`..=`z`, anything else stays.
pub open spec fn ascii_lower(c: char) -> char {
    if 'A' <= c && c <= 'Z' {
        ((c as u32) + 32) as char
    } else {
        c
    }
}

/// The ASCII uppercase of `c`: `a`..=`z` become `A`..=`Z`, anything else stays.
pub open spec fn ascii_upper(c: char) -> char {
    if 'a' <= c && c <= 'z' {
        ((c as u32) - 32) as char
    } else {
        c
    }
}

/// Calls `str::to_lowercase`. Besides naming the result, states what the
/// documentation shows for ASCII text: each letter is lowercased, nothing else
/// changes.
#[verifier::external_body]
pub(crate) fn to_lowercase_str(s: &str) -> (r: String)
    ensures
        r@ == str_lowercase(s@),
        is_ascii_text(s@) ==> r@ == s@.map_values(|c: char| ascii_lower(c)),
{
    s.to_lowercase()
}

/// Calls `str::to_uppercase`. Besides naming the result, states what the
/// documentation shows for ASCII text: each letter is uppercased, nothing else
/// changes.
#[verifier::external_body]
pub(crate) fn to_uppercase_str(s: &str) -> (r: String)
    ensures
        r@ == str_uppercase(s@),
        is_ascii_text(s@) ==> r@ == s@.map_values(|c: char| ascii_upper(c)),
{
    s.to_uppercase()
}

} // verus!
