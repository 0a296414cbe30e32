//! A fixed-capacity associative cache mapping short byte keys to glyph
//! indices. Lookup is a linear scan over all entries; insertion
//! overwrites the entry under a monotonically advancing round-robin
//! cursor, so an entry survives exactly until the cursor wraps back to
//! its slot.

use vstd::prelude::*;

verus! {

/// Longest key the cache will store; inserting a longer key does nothing.
pub const MAX_KEY_SIZE: usize = 16;

/// Number of entries; the insertion cursor advances modulo this.
pub const CACHE_SIZE: usize = 64;

/// Mathematical model of one cache entry: the key bytes and the glyph
/// index resolved for them.
pub ghost struct CacheEntryModel {
    pub key: Seq<u8>,
    pub glyph: nat,
}

/// Mathematical model of the cache: the entry table and the round-robin
/// insertion cursor.
pub ghost struct CacheModel {
    pub entries: Seq<CacheEntryModel>,
    pub next: nat,
}

struct CacheEntry {
    key: Vec<u8>,
    glyph: u32,
}

/// A fixed-capacity round-robin cache from byte keys to glyph indices.
pub struct Cache {
    entries: Vec<CacheEntry>,
    next: usize,
}

impl View for CacheEntry {
    type V = CacheEntryModel;

    closed spec fn view(&self) -> CacheEntryModel {
        CacheEntryModel { key: self.key@, glyph: self.glyph as nat }
    }
}

impl View for Cache {
    type V = CacheModel;

    closed spec fn view(&self) -> CacheModel {
        CacheModel {
            entries: Seq::new(self.entries@.len(), |i: int| self.entries@[i]@),
            next: self.next as nat,
        }
    }
}

/// The cache as `Cache::new` builds it: every entry pre-allocated empty
/// (zero-length key, glyph index 0), cursor at slot 0.
pub open spec fn empty_cache() -> CacheModel {
    CacheModel {
        entries: Seq::new(CACHE_SIZE as nat, |i: int| (CacheEntryModel {
            key: Seq::empty(),
            glyph: 0,
        })),
        next: 0,
    }
}

/// Well-formedness: the entry table has its fixed capacity and the
/// cursor points at a slot.
pub open spec fn cache_wf(c: CacheModel) -> bool {
    &&& c.entries.len() == CACHE_SIZE
    &&& c.next < CACHE_SIZE
}

/// The glyph index of the first entry at position `i` or later whose key
/// equals `key`, if any.
pub open spec fn cache_lookup_from(entries: Seq<CacheEntryModel>, key: Seq<u8>, i: int) -> Option<
    nat,
>
    decreases entries.len() - i,
{
    if i < 0 || i >= entries.len() {
        None
    } else if entries[i].key == key {
        Some(entries[i].glyph)
    } else {
        cache_lookup_from(entries, key, i + 1)
    }
}

/// What `Cache::get` returns: the glyph index of the first entry whose
/// key equals `key`, if any.
pub open spec fn cache_lookup(c: CacheModel, key: Seq<u8>) -> Option<nat> {
    cache_lookup_from(c.entries, key, 0)
}

/// What `Cache::insert` does: a key longer than `MAX_KEY_SIZE` is
/// silently ignored; otherwise the entry under the cursor is overwritten
/// and the cursor advances by one, wrapping at `CACHE_SIZE`.
pub open spec fn cache_insert_model(c: CacheModel, key: Seq<u8>, glyph: nat) -> CacheModel {
    if key.len() > MAX_KEY_SIZE {
        c
    } else {
        CacheModel {
            entries: c.entries.update(c.next as int, CacheEntryModel { key, glyph }),
            next: (c.next + 1) % (CACHE_SIZE as nat),
        }
    }
}

/// The cache after inserting each key/glyph pair of `ks`, in order.
pub open spec fn cache_insert_all(c: CacheModel, ks: Seq<CacheEntryModel>) -> CacheModel
    decreases ks.len(),
{
    if ks.len() == 0 {
        c
    } else {
        cache_insert_all(cache_insert_model(c, ks[0].key, ks[0].glyph), ks.skip(1))
    }
}

/// A lookup that starts at `i` and misses matches no entry at `i` or
/// later.
pub proof fn lemma_lookup_none_no_match(entries: Seq<CacheEntryModel>, key: Seq<u8>, i: int)
    requires
        0 <= i,
        cache_lookup_from(entries, key, i) is None,
    ensures
        forall|j: int| i <= j < entries.len() ==> entries[j].key != key,
    decreases entries.len() - i,
{
    if i < entries.len() {
        lemma_lookup_none_no_match(entries, key, i + 1);
    }
}

/// A lookup that starts at `i` and matches no entry at `i` or later
/// misses.
pub proof fn lemma_no_match_lookup_none(entries: Seq<CacheEntryModel>, key: Seq<u8>, i: int)
    requires
        0 <= i,
        forall|j: int| i <= j < entries.len() ==> entries[j].key != key,
    ensures
        cache_lookup_from(entries, key, i) is None,
    decreases entries.len() - i,
{
    if i < entries.len() {
        lemma_no_match_lookup_none(entries, key, i + 1);
    }
}

/// A lookup from `i` returns entry `m`'s glyph when `m` is the first
/// entry at or after `i` whose key matches.
pub proof fn lemma_lookup_from_match_at(
    entries: Seq<CacheEntryModel>,
    key: Seq<u8>,
    i: int,
    m: int,
)
    requires
        0 <= i <= m < entries.len(),
        entries[m].key == key,
        forall|j: int| i <= j < m ==> entries[j].key != key,
    ensures
        cache_lookup_from(entries, key, i) == Some(entries[m].glyph),
    decreases m - i,
{
    if i < m {
        lemma_lookup_from_match_at(entries, key, i + 1, m);
    }
}

/// After a missed lookup, inserting the key stores it under the cursor
/// and makes it retrievable with exactly the inserted glyph index.
pub proof fn lemma_lookup_after_insert(c: CacheModel, key: Seq<u8>, glyph: nat)
    requires
        cache_wf(c),
        cache_lookup(c, key) is None,
        key.len() <= MAX_KEY_SIZE,
    ensures
        cache_lookup(cache_insert_model(c, key, glyph), key) == Some(glyph),
{
    let c1 = cache_insert_model(c, key, glyph);
    lemma_lookup_none_no_match(c.entries, key, 0);
    assert(c1.entries[c.next as int].key == key);
    lemma_lookup_from_match_at(c1.entries, key, 0, c.next as int);
}

/// Inserting `m <= CACHE_SIZE` short keys writes them into the `m`
/// slots that follow the cursor (wrapping at `CACHE_SIZE`), leaves
/// every other slot unchanged, and advances the cursor by `m`.
pub proof fn lemma_insert_all_window(c: CacheModel, ks: Seq<CacheEntryModel>)
    requires
        cache_wf(c),
        ks.len() <= CACHE_SIZE,
        forall|j: int| 0 <= j < ks.len() ==> (#[trigger] ks[j]).key.len() <= MAX_KEY_SIZE,
    ensures
        cache_wf(cache_insert_all(c, ks)),
        cache_insert_all(c, ks).next == (c.next + ks.len()) % (CACHE_SIZE as nat),
        forall|j: int|
            0 <= j < ks.len() ==> cache_insert_all(c, ks).entries[(c.next + j) % (
            CACHE_SIZE as int)] == ks[j],
        forall|s: int|
            0 <= s < CACHE_SIZE && (forall|j: int|
                0 <= j < ks.len() ==> #[trigger] ((c.next + j) % (CACHE_SIZE as int)) != s)
                ==> #[trigger] cache_insert_all(c, ks).entries[s] == c.entries[s],
    decreases ks.len(),
{
    let n = CACHE_SIZE as int;
    if ks.len() == 0 {
        assert((c.next + 0) % (CACHE_SIZE as nat) == c.next) by {
            vstd::arithmetic::div_mod::lemma_small_mod(c.next, CACHE_SIZE as nat);
        }
    } else {
        let c1 = cache_insert_model(c, ks[0].key, ks[0].glyph);
        let ks1 = ks.skip(1);
        let cf = cache_insert_all(c1, ks1);
        assert(CacheEntryModel { key: ks[0].key, glyph: ks[0].glyph } == ks[0]);
        assert(c1.entries == c.entries.update(c.next as int, ks[0]));
        lemma_insert_all_window(c1, ks1);

        // the cursor advances by one, then by `ks.len() - 1` more
        assert(c1.next == (c.next + 1) % (CACHE_SIZE as nat));
        assert forall|j: int| 0 <= j < ks1.len() implies #[trigger] ((c1.next + j) % n) == (c.next
            + (j + 1)) % n by {
            lemma_wrap_shift(c.next as int, j, n);
        }
        assert(cf.next == (c.next + ks.len()) % (CACHE_SIZE as nat)) by {
            lemma_wrap_shift(c.next as int, ks.len() - 1, n);
        }

        // slot written by the first insert: no later insert hits it again
        assert(c1.entries[c.next as int] == ks[0]);
        assert forall|j: int| 0 <= j < ks1.len() implies #[trigger] ((c1.next + j) % n) != c.next
            as int by {
            lemma_wrap_shift(c.next as int, j, n);
            lemma_wrap_distinct(c.next as int, 0, j + 1, n);
        }
        assert((c.next as int + 0) % n == c.next as int) by {
            vstd::arithmetic::div_mod::lemma_small_mod(c.next, CACHE_SIZE as nat);
        }
        assert(cf.entries[c.next as int] == ks[0]);

        // the remaining keys land where the statement says
        assert forall|j: int| 1 <= j < ks.len() implies cf.entries[#[trigger] ((c.next + j) % n)]
            == ks[j] by {
            lemma_wrap_shift(c.next as int, j - 1, n);
            assert(c1.next as int == (c.next as int + 1) % n);
            assert(cf.entries[(c1.next + (j - 1)) % n] == ks1[j - 1]);
            assert(ks1[j - 1] == ks[j]);
        }

        // slots outside the window are untouched
        assert forall|s: int|
            0 <= s < CACHE_SIZE && (forall|j: int|
                0 <= j < ks.len() ==> #[trigger] ((c.next + j) % n) != s)
            implies #[trigger] cf.entries[s] == c.entries[s] by {
            assert((c.next as int + 0) % n != s);
            assert(s != c.next as int);
            assert forall|j: int| 0 <= j < ks1.len() implies #[trigger] ((c1.next + j) % n) != s by {
                lemma_wrap_shift(c.next as int, j, n);
                assert((c.next + (j + 1)) % n != s);
            }
            assert(cf.entries[s] == c1.entries[s]);
        }
    }
}

/// `((a + 1) % n + j) % n == (a + j + 1) % n` for a cursor `a` within
/// range and a step `j` short of a full wrap.
proof fn lemma_wrap_shift(a: int, j: int, n: int)
    requires
        0 <= a < n,
        0 <= j < n,
    ensures
        ((a + 1) % n + j) % n == (a + (j + 1)) % n,
{
    vstd::arithmetic::div_mod::lemma_add_mod_noop(a + 1, j, n);
    assert(j % n == j) by {
        vstd::arithmetic::div_mod::lemma_small_mod(j as nat, n as nat);
    }
    assert((a + 1) % n % n == (a + 1) % n) by {
        vstd::arithmetic::div_mod::lemma_mod_twice(a + 1, n);
    }
    vstd::arithmetic::div_mod::lemma_add_mod_noop((a + 1) % n, j, n);
}

/// Two cursor positions within one wrap of each other are distinct
/// slots.
proof fn lemma_wrap_distinct(a: int, i: int, j: int, n: int)
    requires
        0 <= a < n,
        0 <= i < j < n,
    ensures
        (a + i) % n != (a + j) % n,
{
    let x = a + i;
    let y = a + j;
    assert(x % n == if x < n {
        x
    } else {
        x - n
    }) by {
        if x < n {
            vstd::arithmetic::div_mod::lemma_small_mod(x as nat, n as nat);
        } else {
            vstd::arithmetic::div_mod::lemma_mod_sub_multiples_vanish(x, n);
            vstd::arithmetic::div_mod::lemma_small_mod((x - n) as nat, n as nat);
        }
    }
    assert(y % n == if y < n {
        y
    } else {
        y - n
    }) by {
        if y < n {
            vstd::arithmetic::div_mod::lemma_small_mod(y as nat, n as nat);
        } else {
            vstd::arithmetic::div_mod::lemma_mod_sub_multiples_vanish(y, n);
            vstd::arithmetic::div_mod::lemma_small_mod((y - n) as nat, n as nat);
        }
    }
}

/// Law: capacity and eviction. Insert a short key, then `CACHE_SIZE`
/// further short keys none of which equals it: every slot has been
/// overwritten, so looking the first key up misses — it must be
/// resolved by a table scan again.
pub proof fn lemma_cache_eviction(c: CacheModel, ks: Seq<CacheEntryModel>)
    requires
        cache_wf(c),
        ks.len() == CACHE_SIZE + 1,
        forall|j: int| 0 <= j < ks.len() ==> (#[trigger] ks[j]).key.len() <= MAX_KEY_SIZE,
        forall|j: int| 1 <= j < ks.len() ==> (#[trigger] ks[j]).key != ks[0].key,
    ensures
        cache_lookup(cache_insert_all(c, ks), ks[0].key) is None,
{
    let n = CACHE_SIZE as int;
    let c1 = cache_insert_model(c, ks[0].key, ks[0].glyph);
    let ks1 = ks.skip(1);
    let cf = cache_insert_all(c1, ks1);
    assert(CacheEntryModel { key: ks[0].key, glyph: ks[0].glyph } == ks[0]);
    assert(cache_insert_all(c, ks) == cf);
    lemma_insert_all_window(c1, ks1);
    assert forall|s: int| 0 <= s < n implies (#[trigger] cf.entries[s]).key != ks[0].key by {
        let j = if s >= c1.next { s - c1.next } else { s + n - c1.next };
        assert(0 <= j < n);
        assert((c1.next + j) % n == s) by {
            if s >= c1.next {
                vstd::arithmetic::div_mod::lemma_small_mod(s as nat, n as nat);
            } else {
                vstd::arithmetic::div_mod::lemma_mod_sub_multiples_vanish(s + n, n);
                vstd::arithmetic::div_mod::lemma_small_mod(s as nat, n as nat);
            }
        }
        assert(cf.entries[s] == ks1[j]);
        assert(ks1[j] == ks[j + 1]);
    }
    lemma_no_match_lookup_none(cf.entries, ks[0].key, 0);
}

/// True when `a` and `b` hold the same bytes.
fn keys_equal(a: &Vec<u8>, b: &[u8]) -> (r: bool)
    ensures
        r == (a@ == b@),
{
    if a.len() != b.len() {
        return false;
    }
    let n: usize = a.len();
    let mut j: usize = 0;
    while j < n
        invariant
            j <= n,
            n == a@.len(),
            a@.len() == b@.len(),
            forall|k: int| 0 <= k < j ==> a@[k] == b@[k],
        decreases n - j,
    {
        if a[j] != *vstd::slice::slice_index_get(b, j) {
            return false;
        }
        j += 1;
    }
    proof {
        assert(a@ =~= b@);
    }
    true
}

impl Cache {
    /// Creates a cache with every entry empty and the cursor at slot 0.
    pub fn new() -> (c: Cache)
        ensures
            c@ == empty_cache(),
            cache_wf(c@),
    {
        let mut entries: Vec<CacheEntry> = Vec::new();
        let mut i: usize = 0;
        while i < CACHE_SIZE
            invariant
                i <= CACHE_SIZE,
                entries@.len() == i,
                forall|j: int|
                    0 <= j < i ==> entries@[j]@ == (CacheEntryModel {
                        key: Seq::<u8>::empty(),
                        glyph: 0nat,
                    }),
            decreases CACHE_SIZE - i,
    {
            entries.push(CacheEntry { key: Vec::new(), glyph: 0 });
            i += 1;
        }
        let c = Cache { entries, next: 0 };
        proof {
            assert(c@.entries =~= empty_cache().entries);
            assert(c@ == empty_cache());
        }
        c
    }

    /// Returns the glyph index stored for `key` by the first matching
    /// entry, or `None` when no entry matches.
    pub fn get(&self, key: &[u8]) -> (r: Option<u32>)
        ensures
            match r {
                Some(g) => cache_lookup(self@, key@) == Some(g as nat),
                None => cache_lookup(self@, key@) is None,
            },
    {
        let n: usize = self.entries.len();
        let mut i: usize = 0;
        while i < n
            invariant
                i <= n,
                n == self@.entries.len(),
                cache_lookup(self@, key@) == cache_lookup_from(self@.entries, key@, i as int),
            decreases n - i,
        {
            if keys_equal(&self.entries[i].key, key) {
                return Some(self.entries[i].glyph);
            }
            i += 1;
        }
        None
    }

    /// Stores `key -> glyph` in the entry under the cursor and advances
    /// the cursor, unless the key is longer than `MAX_KEY_SIZE`, in
    /// which case nothing changes.
    pub fn insert(&mut self, key: &[u8], glyph: u32)
        requires
            cache_wf(old(self)@),
        ensures
            final(self)@ == cache_insert_model(old(self)@, key@, glyph as nat),
            cache_wf(final(self)@),
    {
        if key.len() > MAX_KEY_SIZE {
            return;
        }
        let k: Vec<u8> = vstd::slice::slice_to_vec(key);
        self.entries.set(self.next, CacheEntry { key: k, glyph });
        self.next = (self.next + 1) % CACHE_SIZE;
        proof {
            assert(self@.entries =~= cache_insert_model(old(self)@, key@, glyph as nat).entries);
            assert(self@ == cache_insert_model(old(self)@, key@, glyph as nat));
        }
    }
}

} // verus!
