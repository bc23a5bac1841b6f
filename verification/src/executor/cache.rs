//! Remembering what a command put out for a given input.
use sha2::{Digest, Sha256};
use vstd::prelude::*;

use crate::bytes::bytes_eq;
use crate::executor::output::{OutputView, StageOutput};
use crate::text::str_eq;

verus! {

/// The SHA-256 digest of `data`.
pub uninterp spec fn sha256_digest(data: Seq<u8>) -> Seq<u8>;

/// `sha2::Sha256`, fed with `data` and finalised, gives the SHA-256 digest of
/// `data`, which has 32 bytes.
#[verifier::external_body]
fn sha256(data: &[u8]) -> (r: Vec<u8>)
    ensures
        r@ == sha256_digest(data@),
        r@.len() == 32,
{
    let mut hasher = Sha256::new();
    hasher.update(data);
    hasher.finalize().to_vec()
}

/// Cache key: the command, and the SHA-256 digest of its stdin bytes.
#[derive(Debug)]
pub struct CacheKey {
    pub command: String,
    pub stdin_hash: Vec<u8>,
}

/// What a [`CacheKey`] stands for.
#[verifier::ext_equal]
pub struct KeyView {
    pub command: Seq<char>,
    pub stdin_hash: Seq<u8>,
}

/// The key of a command that reads `stdin`.
pub open spec fn key_of(command: Seq<char>, stdin: Seq<u8>) -> KeyView {
    KeyView { command, stdin_hash: sha256_digest(stdin) }
}

impl View for CacheKey {
    type V = KeyView;

    open spec fn view(&self) -> KeyView {
        KeyView { command: self.command@, stdin_hash: self.stdin_hash@ }
    }
}

impl CacheKey {
    /// The key of `command` reading `stdin`.
    pub fn new(command: &str, stdin: &[u8]) -> (r: CacheKey)
        ensures
            r@ == key_of(command@, stdin@),
    {
        CacheKey { command: command.to_owned(), stdin_hash: sha256(stdin) }
    }

    /// Whether two keys are equal.
    fn same(&self, other: &CacheKey) -> (r: bool)
        ensures
            r == (self@ == other@),
    {
        str_eq(self.command.as_str(), other.command.as_str()) && bytes_eq(
            self.stdin_hash.as_slice(),
            other.stdin_hash.as_slice(),
        )
    }
}

#[derive(Debug)]
struct CacheEntry {
    key: CacheKey,
    output: StageOutput,
}

/// Position of the entry with key `k`, or the number of entries without one.
spec fn find(entries: Seq<CacheEntry>, k: KeyView) -> int
    decreases entries.len(),
{
    if entries.len() == 0 {
        0
    } else if entries[0].key@ == k {
        0
    } else {
        1 + find(entries.drop_first(), k)
    }
}

proof fn lemma_find(entries: Seq<CacheEntry>, k: KeyView)
    ensures
        0 <= find(entries, k) <= entries.len(),
        find(entries, k) < entries.len() ==> entries[find(entries, k)].key@ == k,
        forall|i: int| 0 <= i < find(entries, k) ==> (#[trigger] entries[i]).key@ != k,
    decreases entries.len(),
{
    if entries.len() > 0 && entries[0].key@ != k {
        let rest = entries.drop_first();
        lemma_find(rest, k);
        assert forall|i: int| 0 <= i < find(entries, k) implies (#[trigger] entries[i]).key@
            != k by {
            if i > 0 {
                assert(rest[i - 1] == entries[i]);
            }
        }
    }
}

/// Where the first entry with key `k` stands, `find` finds it.
proof fn lemma_find_is(entries: Seq<CacheEntry>, k: KeyView, i: int)
    requires
        0 <= i <= entries.len(),
        i < entries.len() ==> entries[i].key@ == k,
        forall|j: int| 0 <= j < i ==> (#[trigger] entries[j]).key@ != k,
    ensures
        find(entries, k) == i,
{
    lemma_find(entries, k);
    let f = find(entries, k);
    if f < i {
        assert(entries[f].key@ != k);
    }
}

/// Caches stage outputs keyed by command and input digest.
#[derive(Debug)]
pub struct ExecutorCache {
    entries: Vec<CacheEntry>,
}

/// What a cache remembers.
pub type CacheMap = Map<KeyView, OutputView>;

impl View for ExecutorCache {
    type V = CacheMap;

    closed spec fn view(&self) -> CacheMap {
        Map::new(
            |k: KeyView| find(self.entries@, k) < self.entries@.len(),
            |k: KeyView| self.entries@[find(self.entries@, k)].output@,
        )
    }
}

impl Default for ExecutorCache {
    fn default() -> (r: ExecutorCache)
        ensures
            r.wf(),
            r@ == Map::<KeyView, OutputView>::empty(),
    {
        ExecutorCache::new()
    }
}

/// Output that a stage has put out so far, to be served from the cache when the
/// pipeline is run again.
#[derive(Debug)]
pub struct PreFillEntry {
    pub command: String,
    pub stdin: Vec<u8>,
    pub output: StageOutput,
}

/// What a [`PreFillEntry`] stands for.
#[verifier::ext_equal]
pub struct FillView {
    pub command: Seq<char>,
    pub stdin: Seq<u8>,
    pub output: OutputView,
}

impl View for PreFillEntry {
    type V = FillView;

    open spec fn view(&self) -> FillView {
        FillView { command: self.command@, stdin: self.stdin@, output: self.output@ }
    }
}

/// What a list of entries stands for.
pub open spec fn fills_view(entries: Seq<PreFillEntry>) -> Seq<FillView> {
    Seq::new(entries.len(), |i: int| entries[i]@)
}

/// The cache after the first `n` entries have been put into it, in order.
pub open spec fn prefilled(m: CacheMap, entries: Seq<FillView>, n: int) -> CacheMap
    decreases n,
{
    if n <= 0 {
        m
    } else {
        let e = entries[n - 1];
        prefilled(m, entries, n - 1).insert(key_of(e.command, e.stdin), e.output)
    }
}

impl ExecutorCache {
    /// No key has two entries, and each output is consistent.
    pub closed spec fn wf(&self) -> bool {
        &&& forall|i: int, j: int|
            0 <= i < j < self.entries@.len() ==> #[trigger] self.entries@[i].key@
                != #[trigger] self.entries@[j].key@
        &&& forall|i: int|
            0 <= i < self.entries@.len() ==> (#[trigger] self.entries@[i]).output.wf()
    }

    /// A cache that remembers nothing.
    pub fn new() -> (r: ExecutorCache)
        ensures
            r.wf(),
            r@ == Map::<KeyView, OutputView>::empty(),
    {
        let r = ExecutorCache { entries: Vec::new() };
        proof {
            assert(r@ =~= Map::<KeyView, OutputView>::empty());
        }
        r
    }

    fn position(&self, key: &CacheKey) -> (r: usize)
        ensures
            r == find(self.entries@, key@),
    {
        let mut i: usize = 0;
        while i < self.entries.len()
            invariant
                i <= self.entries@.len(),
                forall|j: int| 0 <= j < i ==> (#[trigger] self.entries@[j]).key@ != key@,
            decreases self.entries@.len() - i,
        {
            if self.entries[i].key.same(key) {
                proof {
                    lemma_find_is(self.entries@, key@, i as int);
                }
                return i;
            }
            i = i + 1;
        }
        proof {
            lemma_find_is(self.entries@, key@, i as int);
        }
        i
    }

    /// Look up a cached result without executing.
    pub fn lookup(&self, command: &str, stdin: &[u8]) -> (r: Option<&StageOutput>)
        requires
            self.wf(),
        ensures
            r is Some <==> self@.contains_key(key_of(command@, stdin@)),
            r matches Some(out) ==> out@ == self@[key_of(command@, stdin@)] && out.wf(),
    {
        let key = CacheKey::new(command, stdin);
        let i = self.position(&key);
        proof {
            lemma_find(self.entries@, key@);
        }
        if i < self.entries.len() {
            Some(&self.entries[i].output)
        } else {
            None
        }
    }

    /// Store a result in the cache.
    pub fn store(&mut self, command: &str, stdin: &[u8], output: StageOutput)
        requires
            old(self).wf(),
            output.wf(),
        ensures
            final(self).wf(),
            final(self)@ == old(self)@.insert(key_of(command@, stdin@), output@),
    {
        let key = CacheKey::new(command, stdin);
        let i = self.position(&key);
        let ghost k = key@;
        let ghost before = self.entries@;
        proof {
            lemma_find(before, k);
        }
        if i < self.entries.len() {
            self.entries.set(i, CacheEntry { key, output });
        } else {
            self.entries.push(CacheEntry { key, output });
        }
        proof {
            let after = self.entries@;
            assert forall|x: KeyView| #[trigger] find(after, x) == (if x == k {
                i as int
            } else if find(before, x) < before.len() {
                find(before, x)
            } else {
                after.len() as int
            }) by {
                lemma_find(before, x);
                if x == k {
                    assert forall|j: int| 0 <= j < i implies (#[trigger] after[j]).key@ != x by {
                        assert(after[j] == before[j]);
                    }
                    lemma_find_is(after, x, i as int);
                } else if find(before, x) < before.len() {
                    let f = find(before, x);
                    assert(after[f].key@ == before[f].key@);
                    assert forall|j: int| 0 <= j < f implies (#[trigger] after[j]).key@ != x by {
                        assert(after[j].key@ == before[j].key@);
                    }
                    lemma_find_is(after, x, f);
                } else {
                    assert forall|j: int| 0 <= j < after.len() implies (#[trigger] after[j]).key@
                        != x by {
                        if j < before.len() {
                            assert(after[j].key@ == before[j].key@);
                        }
                    }
                    lemma_find_is(after, x, after.len() as int);
                }
            }
            assert forall|x: KeyView| x != k && find(before, x) < before.len() implies #[trigger]
                after[find(before, x)] == before[find(before, x)] by {
                lemma_find(before, x);
            }
            assert(self@ =~= old(self)@.insert(k, output@));
            assert forall|a: int, b: int| 0 <= a < b < after.len() implies #[trigger]
                after[a].key@ != #[trigger] after[b].key@ by {
                assert(a < before.len());
                assert(after[a].key@ == before[a].key@);
                if b < before.len() {
                    assert(after[b].key@ == before[b].key@);
                }
            }
        }
    }

    /// Put outputs that were accumulated elsewhere into the cache, so that the
    /// stages they belong to are served from it.
    pub fn inject_pre_fill(&mut self, entries: &Vec<PreFillEntry>)
        requires
            old(self).wf(),
            forall|i: int| 0 <= i < entries@.len() ==> (#[trigger] entries@[i]).output.wf(),
        ensures
            final(self).wf(),
            final(self)@ == prefilled(old(self)@, fills_view(entries@), entries@.len() as int),
    {
        let mut i: usize = 0;
        while i < entries.len()
            invariant
                i <= entries@.len(),
                self.wf(),
                forall|j: int| 0 <= j < entries@.len() ==> (#[trigger] entries@[j]).output.wf(),
                self@ == prefilled(old(self)@, fills_view(entries@), i as int),
            decreases entries@.len() - i,
        {
            let e = &entries[i];
            proof {
                assert(fills_view(entries@)[i as int] == e@);
            }
            let output = e.output.clone();
            self.store(e.command.as_str(), e.stdin.as_slice(), output);
            i = i + 1;
        }
    }
}

} // verus!
