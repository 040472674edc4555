use vstd::prelude::*;

use crate::tiles::math::TileCoord;
use crate::tiles::render::RenderedFeature;
use lru::LruCache;

verus! {

/// Number of rendered tiles that the cache keeps.
pub const CACHE_SIZE: usize = 64;

/// A tile's key in the cache: its zoom, column and row.
pub type TileKey = (u32, u32, u32);

/// The rendered features of one tile.
pub type TileFeatures = Vec<RenderedFeature>;

/// The LRU cache that holds rendered tiles.
pub type LruStore = LruCache<TileKey, TileFeatures>;

/// `lru::LruCache`, whose contents the contracts below describe by name.
#[verifier::external_type_specification]
#[verifier::external_body]
#[verifier::reject_recursive_types(K)]
#[verifier::reject_recursive_types(V)]
#[verifier::reject_recursive_types(S)]
pub struct ExLruCache<K, V, S>(LruCache<K, V, S>);

/// The hasher that `LruCache` uses by default, carried unread.
#[verifier::external_type_specification]
#[verifier::external_body]
pub struct ExDefaultHasher(lru::DefaultHasher);

/// The keys held by an LRU store, most recently used first.
pub uninterp spec fn lru_order(c: LruStore) -> Seq<TileKey>;

/// The capacity that an LRU store was made with.
pub uninterp spec fn lru_cap(c: LruStore) -> nat;

/// The value held under each key of an LRU store.
pub uninterp spec fn lru_entries(c: LruStore) -> Map<TileKey, TileFeatures>;

pub open spec fn tile_key_of(c: TileCoord) -> TileKey {
    (c.z, c.x, c.y)
}

pub fn tile_key(c: &TileCoord) -> (k: TileKey)
    ensures
        k == tile_key_of(*c),
{
    (c.z, c.x, c.y)
}

/// `LruCache::new`: an empty cache that holds at most `cap` entries.
#[verifier::external_body]
fn lru_new(cap: usize) -> (c: LruStore)
    requires
        cap > 0,
    ensures
        lru_order(c) == Seq::<TileKey>::empty(),
        lru_entries(c).dom() == Set::<TileKey>::empty(),
        lru_cap(c) == cap,
{
    LruCache::new(std::num::NonZeroUsize::new(cap).unwrap())
}

/// `LruCache::contains`: whether the key is held; the order of use is not
/// touched.
#[verifier::external_body]
fn lru_contains(c: &LruStore, k: &TileKey) -> (r: bool)
    ensures
        r == lru_order(*c).contains(*k),
{
    c.contains(k)
}

/// The order of use after `k` is put into or read from a cache: `k` comes
/// first and its earlier place goes.
pub open spec fn to_front(order: Seq<TileKey>, k: TileKey) -> Seq<TileKey> {
    seq![k] + order.filter(other_than(k))
}

/// The test that keeps every key but `k`.
pub open spec fn other_than(k: TileKey) -> spec_fn(TileKey) -> bool {
    |e: TileKey| e != k
}

/// Whether putting `k` into a store evicts its least recently used entry:
/// `k` is new and the store is full.
pub open spec fn put_evicts(c: LruStore, k: TileKey) -> bool {
    !lru_order(c).contains(k) && lru_order(c).len() == lru_cap(c)
}

/// `LruCache::put`: stores the value under `k`, which becomes the most
/// recently used key. A new key in a full cache evicts the least recently
/// used one.
#[verifier::external_body]
fn lru_put(c: &mut LruStore, k: TileKey, v: TileFeatures)
    ensures
        lru_cap(*final(c)) == lru_cap(*old(c)),
        lru_order(*final(c)) == if put_evicts(*old(c), k) {
            seq![k] + lru_order(*old(c)).drop_last()
        } else {
            to_front(lru_order(*old(c)), k)
        },
        lru_entries(*final(c)) == if put_evicts(*old(c), k) {
            lru_entries(*old(c)).remove(lru_order(*old(c)).last()).insert(k, v)
        } else {
            lru_entries(*old(c)).insert(k, v)
        },
{
    c.put(k, v);
}

/// `LruCache::len`: the number of keys held.
#[verifier::external_body]
fn lru_len(c: &LruStore) -> (n: usize)
    ensures
        n == lru_order(*c).len(),
{
    c.len()
}

/// `LruCache::promote`: makes `k`, if held, the most recently used key.
#[verifier::external_body]
fn lru_promote(c: &mut LruStore, k: &TileKey)
    ensures
        lru_cap(*final(c)) == lru_cap(*old(c)),
        lru_entries(*final(c)) == lru_entries(*old(c)),
        lru_order(*final(c)) == if lru_order(*old(c)).contains(*k) {
            to_front(lru_order(*old(c)), *k)
        } else {
            lru_order(*old(c))
        },
{
    c.promote(k);
}

/// `LruCache::peek`: the value under `k`, if held; the order of use is not
/// touched.
#[verifier::external_body]
fn lru_peek<'a>(c: &'a LruStore, k: &TileKey) -> (r: Option<&'a TileFeatures>)
    ensures
        r is Some <==> lru_order(*c).contains(*k),
        r matches Some(v) ==> *v == lru_entries(*c)[*k],
{
    c.peek(k)
}

/// A well-formed store: no key twice, never more keys than its capacity,
/// and a value for each key held.
pub open spec fn store_ok(c: LruStore) -> bool {
    &&& lru_order(c).no_duplicates()
    &&& lru_order(c).len() <= lru_cap(c)
    &&& lru_cap(c) > 0
    &&& lru_entries(c).dom() == lru_order(c).to_set()
}

proof fn lemma_filter_out(s: Seq<TileKey>, k: TileKey)
    requires
        s.no_duplicates(),
    ensures
        s.filter(other_than(k)).no_duplicates(),
        s.filter(other_than(k)).len() == if s.contains(k) {
            s.len() - 1
        } else {
            s.len() as int
        },
        forall|e: TileKey| #[trigger] s.filter(other_than(k)).contains(e) <==> (s.contains(e) && e != k),
    decreases s.len(),
{
    broadcast use vstd::seq_lib::group_filter_ensures;

    let f = other_than(k);
    if s.len() > 0 {
        let p = s.drop_last();
        assert(p.no_duplicates());
        lemma_filter_out(p, k);
        assert(s =~= p.push(s.last()));
        p.lemma_filter_push(s.last(), f);
        assert(!p.contains(s.last()));
        assert forall|e: TileKey| #[trigger] s.filter(f).contains(e) <==> (s.contains(e) && e != k) by {
            if s.contains(e) && e != k {
                if e != s.last() {
                    let i = choose|i: int| 0 <= i < s.len() && s[i] == e;
                    assert(p[i] == e);
                    assert(p.contains(e));
                    assert(p.filter(f).contains(e));
                }
            }
            if s.filter(f).contains(e) {
                if f(s.last()) && e == s.last() {
                } else {
                    assert(p.filter(f).contains(e));
                }
            }
        }
        if f(s.last()) {
            assert(s.filter(f) == p.filter(f).push(s.last()));
            assert(!p.filter(f).contains(s.last()));
        } else {
            assert(s.filter(f) == p.filter(f));
        }
    } else {
        assert(s.filter(f) =~= s);
    }
}

/// A new, empty store is well-formed.
proof fn lemma_fresh_ok(c: LruStore)
    requires
        lru_order(c) == Seq::<TileKey>::empty(),
        lru_entries(c).dom() == Set::<TileKey>::empty(),
        lru_cap(c) > 0,
    ensures
        store_ok(c),
{
    assert(lru_order(c).to_set() =~= Set::<TileKey>::empty());
}

/// Putting or reading `k` moves it to the front of a duplicate-free order:
/// the order stays duplicate-free and holds `k` besides what it held.
proof fn lemma_to_front(order: Seq<TileKey>, k: TileKey)
    requires
        order.no_duplicates(),
    ensures
        to_front(order, k).no_duplicates(),
        to_front(order, k)[0] == k,
        to_front(order, k).len() == if order.contains(k) {
            order.len() as int
        } else {
            order.len() + 1int
        },
        to_front(order, k).to_set() == order.to_set().insert(k),
{
    lemma_filter_out(order, k);
    let rest = order.filter(other_than(k));
    let after = to_front(order, k);
    assert(after == seq![k] + rest);
    assert(!rest.contains(k));
    assert forall|i: int, j: int| 0 <= i < j < after.len() implies after[i] != after[j] by {
        if i == 0 {
            assert(after[j] == rest[j - 1]);
            assert(rest.contains(after[j]));
        } else {
            assert(after[i] == rest[i - 1]);
            assert(after[j] == rest[j - 1]);
        }
    }
    assert forall|e: TileKey| #[trigger] after.contains(e) <==> order.contains(e) || e == k by {
        if after.contains(e) && e != k {
            let i = choose|i: int| 0 <= i < after.len() && after[i] == e;
            assert(rest[i - 1] == e);
            assert(rest.contains(e));
        }
        if order.contains(e) && e != k {
            assert(rest.contains(e));
            let i = choose|i: int| 0 <= i < rest.len() && rest[i] == e;
            assert(after[i + 1] == e);
        }
        if e == k {
            assert(after[0] == e);
        }
    }
    assert(after.to_set() =~= order.to_set().insert(k));
}

/// A new key put into a full cache takes the place of the least recently
/// used one.
proof fn lemma_evict(order: Seq<TileKey>, k: TileKey)
    requires
        order.no_duplicates(),
        !order.contains(k),
        order.len() > 0,
    ensures
        (seq![k] + order.drop_last()).no_duplicates(),
        (seq![k] + order.drop_last())[0] == k,
        (seq![k] + order.drop_last()).len() == order.len(),
        (seq![k] + order.drop_last()).to_set() == order.to_set().remove(order.last()).insert(k),
{
    let after = seq![k] + order.drop_last();
    assert forall|i: int, j: int| 0 <= i < j < after.len() implies after[i] != after[j] by {
        if i == 0 {
            assert(after[j] == order[j - 1]);
            assert(order.contains(after[j]));
        } else {
            assert(after[i] == order[i - 1]);
            assert(after[j] == order[j - 1]);
        }
    }
    assert forall|e: TileKey| #[trigger] after.contains(e) <==> (order.contains(e) && e
        != order.last()) || e == k by {
        if after.contains(e) && e != k {
            let i = choose|i: int| 0 <= i < after.len() && after[i] == e;
            assert(i > 0);
            assert(order[i - 1] == e);
            if e == order.last() {
                assert(order[order.len() - 1] == order[i - 1]);
            }
        }
        if order.contains(e) && e != order.last() {
            let i = choose|i: int| 0 <= i < order.len() && order[i] == e;
            assert(i < order.len() - 1);
            assert(after[i + 1] == e);
        }
        if e == k {
            assert(after[0] == e);
        }
    }
    assert(after.to_set() =~= order.to_set().remove(order.last()).insert(k));
}

/// The order of use after a tile is stored: a new tile in a full store
/// takes the place of the least recently used one; otherwise the tile moves
/// (or comes) to the front.
pub open spec fn after_store(order: Seq<TileKey>, k: TileKey) -> Seq<TileKey> {
    if !order.contains(k) && order.len() == CACHE_SIZE {
        seq![k] + order.drop_last()
    } else {
        to_front(order, k)
    }
}

/// The order of use after a tile is looked up: a held tile moves to the
/// front; a miss changes nothing.
pub open spec fn after_lookup(order: Seq<TileKey>, k: TileKey) -> Seq<TileKey> {
    if order.contains(k) {
        to_front(order, k)
    } else {
        order
    }
}

/// A call on a store, as the laws below replay them.
pub enum StoreCall {
    Store(TileKey),
    Lookup(TileKey),
}

/// The order of use of a new store after `calls`, one after another.
pub open spec fn replay(calls: Seq<StoreCall>) -> Seq<TileKey>
    decreases calls.len(),
{
    if calls.len() == 0 {
        Seq::empty()
    } else {
        let before = replay(calls.drop_last());
        match calls.last() {
            StoreCall::Store(k) => after_store(before, k),
            StoreCall::Lookup(k) => after_lookup(before, k),
        }
    }
}

/// The distinct tiles of `uses`, the most recently used first.
pub open spec fn recency(uses: Seq<TileKey>) -> Seq<TileKey>
    decreases uses.len(),
{
    if uses.len() == 0 {
        Seq::empty()
    } else {
        to_front(recency(uses.drop_last()), uses.last())
    }
}

/// The `CACHE_SIZE` most recently used distinct tiles of `uses` (all of
/// them when there are fewer), the most recent first.
pub open spec fn most_recent(uses: Seq<TileKey>) -> Seq<TileKey> {
    if recency(uses).len() <= CACHE_SIZE {
        recency(uses)
    } else {
        recency(uses).take(CACHE_SIZE as int)
    }
}

/// The uses of tiles that `calls` make: every store uses its tile, and a
/// lookup uses its tile when it is held at that point.
pub open spec fn uses_of(calls: Seq<StoreCall>) -> Seq<TileKey>
    decreases calls.len(),
{
    if calls.len() == 0 {
        Seq::empty()
    } else {
        let before = uses_of(calls.drop_last());
        match calls.last() {
            StoreCall::Store(k) => before.push(k),
            StoreCall::Lookup(k) => if most_recent(before).contains(k) {
                before.push(k)
            } else {
                before
            },
        }
    }
}

/// Dropping `k` from a sequence that does not hold it changes nothing.
proof fn lemma_filter_absent(s: Seq<TileKey>, k: TileKey)
    requires
        !s.contains(k),
    ensures
        s.filter(other_than(k)) == s,
    decreases s.len(),
{
    if s.len() == 0 {
        assert(s.filter(other_than(k)) =~= s);
    } else {
        let p = s.drop_last();
        assert(s =~= p.push(s.last()));
        assert(!p.contains(k)) by {
            if p.contains(k) {
                let i = choose|i: int| 0 <= i < p.len() && p[i] == k;
                assert(s[i] == k);
            }
        }
        lemma_filter_absent(p, k);
        p.lemma_filter_push(s.last(), other_than(k));
        assert(s.last() != k) by {
            assert(s[s.len() - 1] == s.last());
        }
    }
}

/// Moving `k`, at position `i` of a duplicate-free sequence, to the front.
proof fn lemma_to_front_at(s: Seq<TileKey>, k: TileKey, i: int)
    requires
        s.no_duplicates(),
        0 <= i < s.len(),
        s[i] == k,
    ensures
        to_front(s, k) == seq![k] + s.take(i) + s.skip(i + 1),
{
    let a = s.take(i);
    let b = s.skip(i + 1);
    assert(s =~= a + seq![k] + b);
    assert(!a.contains(k)) by {
        if a.contains(k) {
            let j = choose|j: int| 0 <= j < a.len() && a[j] == k;
            assert(s[j] == s[i]);
        }
    }
    assert(!b.contains(k)) by {
        if b.contains(k) {
            let j = choose|j: int| 0 <= j < b.len() && b[j] == k;
            assert(s[i + 1 + j] == s[i]);
        }
    }
    lemma_filter_absent(a, k);
    lemma_filter_absent(b, k);
    let f = other_than(k);
    Seq::filter_distributes_over_add(a + seq![k], b, f);
    Seq::filter_distributes_over_add(a, seq![k], f);
    reveal_with_fuel(Seq::filter, 2);
    assert(seq![k].filter(f) =~= Seq::<TileKey>::empty()) by {
        assert(seq![k].drop_last() =~= Seq::<TileKey>::empty());
        assert(Seq::<TileKey>::empty().filter(f) =~= Seq::<TileKey>::empty());
    }
    assert(to_front(s, k) =~= seq![k] + a + b);
}

/// Moving to the front a key that a sequence does not hold prepends it.
proof fn lemma_to_front_new(s: Seq<TileKey>, k: TileKey)
    requires
        !s.contains(k),
    ensures
        to_front(s, k) == seq![k] + s,
{
    lemma_filter_absent(s, k);
}

/// The recency order holds each tile once.
proof fn lemma_recency_distinct(uses: Seq<TileKey>)
    ensures
        recency(uses).no_duplicates(),
    decreases uses.len(),
{
    if uses.len() > 0 {
        lemma_recency_distinct(uses.drop_last());
        lemma_to_front(recency(uses.drop_last()), uses.last());
    }
}

/// Storing or hitting `k` on the most recent tiles of `uses` gives the most
/// recent tiles of `uses` followed by a use of `k`.
proof fn lemma_use_step(uses: Seq<TileKey>, k: TileKey)
    ensures
        after_store(most_recent(uses), k) == most_recent(uses.push(k)),
        most_recent(uses).contains(k) ==> to_front(most_recent(uses), k) == most_recent(uses.push(k)),
{
    let r = recency(uses);
    let n = CACHE_SIZE as int;
    let o = most_recent(uses);
    lemma_recency_distinct(uses);
    assert(uses.push(k).drop_last() =~= uses);
    assert(recency(uses.push(k)) == to_front(r, k));
    assert(o.no_duplicates()) by {
        if r.len() > n {
            assert forall|a: int, b: int| 0 <= a < b < o.len() implies o[a] != o[b] by {
                assert(o[a] == r[a] && o[b] == r[b]);
            }
        }
    }
    if r.contains(k) {
        let i = choose|i: int| 0 <= i < r.len() && r[i] == k;
        lemma_to_front_at(r, k, i);
        let r2 = seq![k] + r.take(i) + r.skip(i + 1);
        assert(r2.len() == r.len());
        if i < n {
            assert(o[i] == k);
            assert(o.contains(k));
            lemma_to_front_at(o, k, i);
            if r.len() <= n {
                assert(most_recent(uses.push(k)) == r2);
            } else {
                assert(o.take(i) =~= r.take(i));
                assert(o.skip(i + 1) =~= r.subrange(i + 1, n));
                assert(r2.take(n) =~= seq![k] + r.take(i) + r.subrange(i + 1, n));
            }
        } else {
            assert(r.len() > n);
            assert(!o.contains(k)) by {
                if o.contains(k) {
                    let j = choose|j: int| 0 <= j < o.len() && o[j] == k;
                    assert(r[j] == r[i]);
                }
            }
            assert(r2.take(n) =~= seq![k] + o.drop_last());
        }
    } else {
        lemma_to_front_new(r, k);
        assert(!o.contains(k)) by {
            if o.contains(k) {
                let j = choose|j: int| 0 <= j < o.len() && o[j] == k;
                assert(r[j] == k);
            }
        }
        lemma_to_front_new(o, k);
        if r.len() < n {
            assert(most_recent(uses.push(k)) == seq![k] + r);
        } else {
            assert((seq![k] + r).take(n) =~= seq![k] + o.drop_last());
        }
    }
}

/// Law: after any sequence of store and lookup calls on a new store, the
/// tiles held, in their order of use, are the `CACHE_SIZE` most recently
/// used distinct tiles (a store uses its tile; a lookup uses its tile when
/// it is held): never more than `CACHE_SIZE`, never one twice, and the
/// least recently used ones are the ones that went.
pub proof fn lemma_store_keeps_most_recent(calls: Seq<StoreCall>)
    ensures
        replay(calls) == most_recent(uses_of(calls)),
        replay(calls).len() <= CACHE_SIZE,
        replay(calls).no_duplicates(),
    decreases calls.len(),
{
    if calls.len() == 0 {
        assert(recency(Seq::<TileKey>::empty()) == Seq::<TileKey>::empty());
    } else {
        let prior = calls.drop_last();
        lemma_store_keeps_most_recent(prior);
        let uses = uses_of(prior);
        match calls.last() {
            StoreCall::Store(k) => {
                lemma_use_step(uses, k);
            },
            StoreCall::Lookup(k) => {
                lemma_use_step(uses, k);
            },
        }
    }
    lemma_recency_distinct(uses_of(calls));
    let r = recency(uses_of(calls));
    if r.len() > CACHE_SIZE {
        let o = r.take(CACHE_SIZE as int);
        assert forall|a: int, b: int| 0 <= a < b < o.len() implies o[a] != o[b] by {
            assert(o[a] == r[a] && o[b] == r[b]);
        }
    }
}

/// A cache of rendered tiles, keyed by tile, that keeps the `CACHE_SIZE`
/// most recently used ones.
pub struct TileStore {
    lru: LruStore,
}

impl TileStore {
    #[verifier::type_invariant]
    spec fn well_formed(self) -> bool {
        &&& store_ok(self.lru)
        &&& lru_cap(self.lru) == CACHE_SIZE
    }

    /// The tiles held, most recently used first.
    pub closed spec fn order(self) -> Seq<TileKey> {
        lru_order(self.lru)
    }

    /// The number of tiles the store keeps at most.
    pub closed spec fn capacity(self) -> nat {
        lru_cap(self.lru)
    }

    /// The set of tiles held.
    pub open spec fn cached(self) -> Set<TileKey> {
        self.order().to_set()
    }

    /// The features held for each tile.
    pub closed spec fn entries(self) -> Map<TileKey, TileFeatures> {
        lru_entries(self.lru)
    }

    /// The number of tiles held; a store never holds a tile twice nor more
    /// than `CACHE_SIZE` tiles.
    pub fn len(&self) -> (n: usize)
        ensures
            n == self.order().len(),
            n <= self.capacity(),
            self.capacity() == CACHE_SIZE,
            self.order().no_duplicates(),
            self.entries().dom() == self.cached(),
    {
        proof {
            use_type_invariant(self);
        }
        lru_len(&self.lru)
    }

    /// An empty store, which keeps at most `CACHE_SIZE` tiles.
    pub fn new() -> (s: Self)
        ensures
            s.order() == Seq::<TileKey>::empty(),
            s.entries().dom() == Set::<TileKey>::empty(),
            s.capacity() == CACHE_SIZE,
    {
        let lru = lru_new(CACHE_SIZE);
        proof {
            lemma_fresh_ok(lru);
        }
        TileStore { lru }
    }

    /// Whether the tile at `coord` is held.
    pub fn is_cached(&self, coord: &TileCoord) -> (r: bool)
        ensures
            r == self.cached().contains(tile_key_of(*coord)),
    {
        lru_contains(&self.lru, &tile_key(coord))
    }

    /// Stores the rendered features of the tile at `coord`. Afterwards the
    /// tile is held and is the most recently used, the others keep their
    /// order of use, and a new tile coming into a full store drops the least
    /// recently used one.
    pub fn store_tile(&mut self, coord: &TileCoord, features: TileFeatures)
        ensures
            final(self).capacity() == CACHE_SIZE,
            final(self).order().len() <= CACHE_SIZE,
            final(self).order().no_duplicates(),
            final(self).entries().dom() == final(self).cached(),
            final(self).order()[0] == tile_key_of(*coord),
            final(self).cached().contains(tile_key_of(*coord)),
            !old(self).cached().contains(tile_key_of(*coord)) && old(self).order().len()
                == old(self).capacity() ==> final(self).cached() == old(self).cached().remove(
                old(self).order().last(),
            ).insert(tile_key_of(*coord)),
            old(self).cached().contains(tile_key_of(*coord)) || old(self).order().len() < old(
                self,
            ).capacity() ==> final(self).cached() == old(self).cached().insert(tile_key_of(*coord)),
            final(self).order() == after_store(old(self).order(), tile_key_of(*coord)),
            final(self).entries()[tile_key_of(*coord)] == features,
            forall|t: TileKey|
                #![trigger final(self).entries()[t]]
                t != tile_key_of(*coord) && final(self).cached().contains(t)
                    ==> final(self).entries()[t] == old(self).entries()[t],
    {
        proof {
            use_type_invariant(&*self);
        }
        let k = tile_key(coord);
        // The cache is moved out while it changes, so that the store stays
        // well-formed at every step; an empty one stands in meanwhile.
        let mut lru = lru_new(CACHE_SIZE);
        proof {
            lemma_fresh_ok(lru);
        }
        std::mem::swap(&mut lru, &mut self.lru);
        proof {
            let before = lru_order(lru);
            if !before.contains(k) && before.len() == lru_cap(lru) {
                lemma_evict(before, k);
            } else {
                lemma_to_front(before, k);
            }
        }
        let ghost old_lru = lru;
        lru_put(&mut lru, k, features);
        proof {
            if put_evicts(old_lru, k) {
                assert(lru_entries(lru).dom() =~= lru_entries(old_lru).dom().remove(
                    lru_order(old_lru).last(),
                ).insert(k));
            } else {
                assert(lru_entries(lru).dom() =~= lru_entries(old_lru).dom().insert(k));
            }
        }
        std::mem::swap(&mut lru, &mut self.lru);
    }

    /// The rendered features of the tile at `coord`, if held; a hit makes the
    /// tile the most recently used, the others keeping their order of use.
    /// The set of tiles held does not change.
    pub fn cached_tile(&mut self, coord: &TileCoord) -> (r: Option<&TileFeatures>)
        ensures
            r is Some <==> old(self).cached().contains(tile_key_of(*coord)),
            final(self).capacity() == CACHE_SIZE,
            final(self).order().len() <= CACHE_SIZE,
            final(self).order().no_duplicates(),
            final(self).entries().dom() == final(self).cached(),
            final(self).cached() == old(self).cached(),
            old(self).cached().contains(tile_key_of(*coord)) ==> final(self).order()[0]
                == tile_key_of(*coord),
            final(self).order() == after_lookup(old(self).order(), tile_key_of(*coord)),
            final(self).entries() == old(self).entries(),
            r matches Some(f) ==> *f == old(self).entries()[tile_key_of(*coord)],
    {
        proof {
            use_type_invariant(&*self);
        }
        let k = tile_key(coord);
        // Moved out while promoting, as in `store_tile`.
        let mut lru = lru_new(CACHE_SIZE);
        proof {
            lemma_fresh_ok(lru);
        }
        std::mem::swap(&mut lru, &mut self.lru);
        proof {
            let before = lru_order(lru);
            lemma_to_front(before, k);
            if before.contains(k) {
                assert(before.to_set().insert(k) =~= before.to_set());
            }
        }
        lru_promote(&mut lru, &k);
        std::mem::swap(&mut lru, &mut self.lru);
        lru_peek(&self.lru, &k)
    }

    /// The tiles of `batch` that the store does not hold, in batch order:
    /// the ones still to fetch.
    pub fn tiles_to_fetch(&self, batch: &[TileCoord]) -> (missing: Vec<TileCoord>)
        ensures
            missing@ == batch@.filter(|c: TileCoord| !self.cached().contains(tile_key_of(c))),
    {
        let ghost keep = |c: TileCoord| !self.cached().contains(tile_key_of(c));
        let mut missing: Vec<TileCoord> = Vec::new();
        let mut i: usize = 0;
        while i < batch.len()
            invariant
                i <= batch@.len(),
                keep == (|c: TileCoord| !self.cached().contains(tile_key_of(c))),
                missing@ == batch@.take(i as int).filter(keep),
            decreases batch@.len() - i,
        {
            let c = batch[i];
            proof {
                assert(batch@.take(i + 1) =~= batch@.take(i as int).push(c));
                batch@.take(i as int).lemma_filter_push(c, keep);
            }
            if !self.is_cached(&c) {
                missing.push(c);
            }
            i = i + 1;
        }
        assert(batch@.take(i as int) =~= batch@);
        missing
    }
}

} // verus!
