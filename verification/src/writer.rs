//! Content-hash cache that lets unchanged generated files be skipped.
use vstd::prelude::*;
use vstd::utf8::encode_utf8;
use dashmap::DashMap;
use crate::text::owned;

verus! {

// ───────────────────────────── dashmap and xxhash ─────────────────────────────

#[verifier::external_type_specification]
#[verifier::external_body]
#[verifier::reject_recursive_types(K)]
#[verifier::reject_recursive_types(V)]
#[verifier::reject_recursive_types(S)]
pub struct ExDashMap<K, V, S>(dashmap::DashMap<K, V, S>);

/// What the cache holds: the content hash last written for each output path.
pub uninterp spec fn cache_contents(c: DashMap<String, u64>) -> Map<Seq<char>, u64>;

/// The 64-bit XXH3 hash of a byte string.
pub uninterp spec fn xxh3_64_of(bytes: Seq<u8>) -> u64;

/// Calls `xxhash_rust::xxh3::xxh3_64`; claims only that the result is the named
/// hash of the bytes.
#[verifier::external_body]
fn xxh3_hash(bytes: &[u8]) -> (r: u64)
    ensures
        r == xxh3_64_of(bytes@),
{
    xxhash_rust::xxh3::xxh3_64(bytes)
}

/// Calls `DashMap::get` and copies the value out of the guard: the value stored
/// under `key`, if any.
#[verifier::external_body]
fn cache_get(c: &DashMap<String, u64>, key: &str) -> (r: Option<u64>)
    ensures
        r == (if cache_contents(*c).dom().contains(key@) {
            Some(cache_contents(*c)[key@])
        } else {
            None
        }),
{
    match c.get(key) {
        Some(entry) => Some(*entry),
        None => None,
    }
}

/// Calls `DashMap::insert`: afterwards `key` maps to `value` and nothing else
/// changed. The map is taken by `&mut` so that the change is seen here.
#[verifier::external_body]
fn cache_insert(c: &mut DashMap<String, u64>, key: String, value: u64)
    ensures
        cache_contents(*final(c)) == cache_contents(*old(c)).insert(key@, value),
{
    c.insert(key, value);
}

/// Calls `DashMap::remove`: afterwards `key` is unbound and nothing else changed.
#[verifier::external_body]
fn cache_remove(c: &mut DashMap<String, u64>, key: &str)
    ensures
        cache_contents(*final(c)) == cache_contents(*old(c)).remove(key@),
{
    c.remove(key);
}

// ───────────────────────────── decisions ─────────────────────────────

/// Result of a file write operation.
#[derive(Debug)]
pub enum WriteResult {
    /// The file was written to disk.
    Written,
    /// The file was skipped because its content has not changed.
    Skipped,
    /// The write failed, with the error's message.
    Error(String),
}

/// The hash of a file's text: XXH3 of its UTF-8 bytes.
pub open spec fn text_hash(content: Seq<char>) -> u64 {
    xxh3_64_of(encode_utf8(content))
}

/// Whether the cache already records `hash` for `path`.
pub open spec fn is_unchanged(contents: Map<Seq<char>, u64>, path: Seq<char>, hash: u64) -> bool {
    contents.dom().contains(path) && contents[path] == hash
}

/// The hash that identifies `content` in the cache.
pub fn content_hash(content: &str) -> (r: u64)
    ensures
        r == text_hash(content@),
{
    xxh3_hash(content.as_bytes())
}

/// Whether `path` has to be written for content with hash `hash`: it does unless
/// the cache records that very hash for it.
pub fn needs_write(path: &str, hash: u64, cache: &DashMap<String, u64>) -> (r: bool)
    ensures
        r == !is_unchanged(cache_contents(*cache), path@, hash),
{
    match cache_get(cache, path) {
        Some(old_hash) => old_hash != hash,
        None => true,
    }
}

/// Records the outcome of writing content with hash `hash` to `path`: on success
/// the cache remembers the hash and the result is `Written`; on failure the cache is
/// left alone and the result carries the error.
pub fn record_write(
    path: &str,
    hash: u64,
    outcome: Result<(), String>,
    cache: &mut DashMap<String, u64>,
) -> (r: WriteResult)
    ensures
        outcome is Ok ==> r is Written && cache_contents(*final(cache)) == cache_contents(*old(cache)).insert(
            path@,
            hash,
        ),
        outcome matches Err(e) ==> r == WriteResult::Error(e) && cache_contents(*final(cache))
            == cache_contents(*old(cache)),
{
    match outcome {
        Ok(()) => {
            cache_insert(cache, owned(path), hash);
            WriteResult::Written
        },
        Err(e) => WriteResult::Error(e),
    }
}

/// Writes `content` to `path` with `write` unless the cache records that very
/// content for it: an unchanged file is `Skipped` and `write` is not called; otherwise
/// `write` is called once, and on success the cache records the new hash and the
/// result is `Written`, while on failure the cache is left alone and the result
/// carries the error.
pub fn write_if_changed<F>(
    path: &str,
    content: &str,
    cache: &mut DashMap<String, u64>,
    write: &F,
) -> (r: WriteResult) where F: Fn(&str, &str) -> Result<(), String>
    requires
        call_requires(*write, (path, content)),
    ensures
        is_unchanged(cache_contents(*old(cache)), path@, text_hash(content@)) ==> r is Skipped
            && cache_contents(*final(cache)) == cache_contents(*old(cache)),
        !is_unchanged(cache_contents(*old(cache)), path@, text_hash(content@)) ==> match r {
            WriteResult::Written => call_ensures(*write, (path, content), Ok(()))
                && cache_contents(*final(cache)) == cache_contents(*old(cache)).insert(
                path@,
                text_hash(content@),
            ),
            WriteResult::Error(e) => call_ensures(*write, (path, content), Err(e))
                && cache_contents(*final(cache)) == cache_contents(*old(cache)),
            WriteResult::Skipped => false,
        },
{
    let hash = content_hash(content);
    if !needs_write(path, hash, cache) {
        return WriteResult::Skipped;
    }
    let outcome = write(path, content);
    proof {
        if outcome is Ok {
            let u = outcome->Ok_0;
            assert(u == ());
            assert(outcome == Ok::<(), String>(()));
        }
    }
    record_write(path, hash, outcome, cache)
}

/// Forgets what the cache records for `path` (its file was deleted).
pub fn forget_output(path: &str, cache: &mut DashMap<String, u64>)
    ensures
        cache_contents(*final(cache)) == cache_contents(*old(cache)).remove(path@),
{
    cache_remove(cache, path);
}

// ───────────────────────────── laws ─────────────────────────────

/// Once a write of some content has been recorded for a path, writing the same
/// content to it again is skipped, different content is not, and what the cache says
/// of every other path is unchanged.
pub proof fn lemma_recorded_write_is_skipped(
    contents: Map<Seq<char>, u64>,
    path: Seq<char>,
    hash: u64,
    other_hash: u64,
    other_path: Seq<char>,
)
    ensures
        is_unchanged(contents.insert(path, hash), path, hash),
        is_unchanged(contents.insert(path, hash), path, other_hash) <==> other_hash == hash,
        other_path != path ==> (is_unchanged(contents.insert(path, hash), other_path, other_hash)
            <==> is_unchanged(contents, other_path, other_hash)),
{
}

/// The cache after every file of a batch of `(path, text)` outputs has been written
/// (or skipped as unchanged) and recorded, in order.
pub open spec fn record_all(contents: Map<Seq<char>, u64>, outputs: Seq<(Seq<char>, Seq<char>)>) -> Map<Seq<char>, u64>
    decreases outputs.len(),
{
    if outputs.len() == 0 {
        contents
    } else {
        record_all(contents, outputs.drop_last()).insert(outputs.last().0, text_hash(outputs.last().1))
    }
}

/// Once a batch of outputs with distinct paths has been written, writing the same
/// batch again skips every file.
pub proof fn lemma_batch_rewrite_skipped(contents: Map<Seq<char>, u64>, outputs: Seq<(Seq<char>, Seq<char>)>)
    requires
        forall|i: int, j: int| 0 <= i < j < outputs.len() ==> outputs[i].0 != outputs[j].0,
    ensures
        forall|i: int|
            0 <= i < outputs.len() ==> is_unchanged(
                record_all(contents, outputs),
                #[trigger] outputs[i].0,
                text_hash(outputs[i].1),
            ),
    decreases outputs.len(),
{
    if outputs.len() > 0 {
        let init = outputs.drop_last();
        assert forall|i: int, j: int| 0 <= i < j < init.len() implies init[i].0 != init[j].0 by {
            assert(init[i] == outputs[i] && init[j] == outputs[j]);
        }
        lemma_batch_rewrite_skipped(contents, init);
        assert forall|i: int| 0 <= i < outputs.len() implies is_unchanged(
            record_all(contents, outputs),
            #[trigger] outputs[i].0,
            text_hash(outputs[i].1),
        ) by {
            if i < outputs.len() - 1 {
                assert(init[i] == outputs[i]);
                assert(outputs[i].0 != outputs[outputs.len() - 1].0);
                assert(is_unchanged(record_all(contents, init), init[i].0, text_hash(init[i].1)));
            }
        }
    }
}

/// After an output is forgotten, its next write is never skipped.
pub proof fn lemma_forgotten_output_is_written(contents: Map<Seq<char>, u64>, path: Seq<char>, hash: u64)
    ensures
        !is_unchanged(contents.remove(path), path, hash),
{
}

} // verus!
