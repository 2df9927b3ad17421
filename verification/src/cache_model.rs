//! The cache as plain values: what it holds, what its two indexes owe each other, and how
//! each operation changes it.

use crate::cache::PreviewCacheEntry;
use crate::cache_key::cache_key;
use crate::cache_key::lemma_cache_key_reads_back;
use crate::cache_key::parse_cache_key;
use crate::cache_key::path_of_key;
use crate::cache_key::resolution_of_key;
use vstd::prelude::*;

verus! {

/// A list without the keys of `removed`, the others in their order.
pub open spec fn kept(list: Seq<Seq<char>>, removed: Set<Seq<char>>) -> Seq<Seq<char>>
    decreases list.len(),
{
    if list.len() == 0 {
        Seq::empty()
    } else if removed.contains(list.last()) {
        kept(list.drop_last(), removed)
    } else {
        kept(list.drop_last(), removed).push(list.last())
    }
}

/// The lists of an index without the keys of `removed`; an asset whose list becomes empty
/// leaves the index.
pub open spec fn pruned(keys_of: Map<u64, Seq<Seq<char>>>, removed: Set<Seq<char>>) -> Map<
    u64,
    Seq<Seq<char>>,
> {
    Map::new(
        |id: u64| keys_of.contains_key(id) && kept(keys_of[id], removed).len() > 0,
        |id: u64| kept(keys_of[id], removed),
    )
}

/// The index after `key` has been taken from the list of `id` alone.
pub open spec fn detached(keys_of: Map<u64, Seq<Seq<char>>>, id: u64, key: Seq<char>) -> Map<
    u64,
    Seq<Seq<char>>,
> {
    if !keys_of.contains_key(id) {
        keys_of
    } else if kept(keys_of[id], set![key]).len() == 0 {
        keys_of.remove(id)
    } else {
        keys_of.insert(id, kept(keys_of[id], set![key]))
    }
}

/// The index after `key` has been put at the end of the list of `id`.
pub open spec fn attached(keys_of: Map<u64, Seq<Seq<char>>>, id: u64, key: Seq<char>) -> Map<
    u64,
    Seq<Seq<char>>,
> {
    if keys_of.contains_key(id) {
        keys_of.insert(id, keys_of[id].push(key))
    } else {
        keys_of.insert(id, seq![key])
    }
}

/// The first entry among `keys` that has the resolution asked for.
pub open spec fn first_at_resolution(
    entries: Map<Seq<char>, PreviewCacheEntry>,
    keys: Seq<Seq<char>>,
    resolution: u32,
) -> Option<Seq<char>>
    decreases keys.len(),
{
    if keys.len() == 0 {
        None
    } else if entries.contains_key(keys[0]) && entries[keys[0]].resolution == resolution {
        Some(keys[0])
    } else {
        first_at_resolution(entries, keys.skip(1), resolution)
    }
}

/// The entry of the highest resolution among `keys`; of several with that resolution, the
/// first.
pub open spec fn highest_of(entries: Map<Seq<char>, PreviewCacheEntry>, keys: Seq<Seq<char>>)
    -> Option<Seq<char>>
    decreases keys.len(),
{
    if keys.len() == 0 {
        None
    } else {
        let before = highest_of(entries, keys.drop_last());
        if entries.contains_key(keys.last()) && (before is None || entries[keys.last()].resolution
            > entries[before->0].resolution) {
            Some(keys.last())
        } else {
            before
        }
    }
}

/// What can be done to a cache.
pub enum CacheOp {
    /// A preview of `path` is inserted.
    Insert { path: Seq<char>, entry: PreviewCacheEntry },
    /// The previews of a path are removed, at one resolution or at all.
    RemoveByPath { path: Seq<char>, resolution: Option<u32> },
    /// The previews of an asset are removed, at one resolution or at all.
    RemoveById { id: u64, resolution: Option<u32> },
    /// Everything is removed.
    Clear,
}

/// The keys that a removal by asset takes out: at a resolution, the first key of the asset
/// with that resolution; at none, every key of the asset.
pub open spec fn keys_removed_by_id(state: CacheState, id: u64, resolution: Option<u32>) -> Set<
    Seq<char>,
> {
    match resolution {
        Some(_) => match state.key_by_id(id, resolution) {
            Some(key) => set![key],
            None => Set::empty(),
        },
        None => if state.keys_of.contains_key(id) {
            state.keys_of[id].to_set()
        } else {
            Set::empty()
        },
    }
}

/// The keys that a removal by path takes out: at a resolution, the cache key of the path at
/// that resolution; at none, every cache key of the path.
pub open spec fn keys_removed_by_path(state: CacheState, path: Seq<char>, resolution: Option<u32>)
    -> Set<Seq<char>> {
    match resolution {
        Some(r) => set![cache_key(path, r)],
        None => state.keys_of_path(path),
    }
}

/// The cache as plain values.
pub struct CacheState {
    /// The path index: the entry under each cache key.
    pub entries: Map<Seq<char>, PreviewCacheEntry>,
    /// The identity index: the cache keys of each asset, in the order in which they came.
    pub keys_of: Map<u64, Seq<Seq<char>>>,
}

impl CacheState {
    /// The empty cache.
    pub open spec fn empty() -> CacheState {
        CacheState { entries: Map::empty(), keys_of: Map::empty() }
    }

    /// Whether the cache holds a preview of `path` at `resolution`.
    pub open spec fn holds(self, path: Seq<char>, resolution: u32) -> bool {
        self.entries.contains_key(cache_key(path, resolution))
    }

    /// The cache keys that belong to `path`, at any resolution.
    pub open spec fn keys_of_path(self, path: Seq<char>) -> Set<Seq<char>> {
        Set::new(
            |key: Seq<char>|
                self.entries.contains_key(key) && parse_cache_key(key) is Some && path_of_key(key)
                    == path,
        )
    }

    /// The cache's invariant. Every key of the path index is the cache key of a path at the
    /// resolution of its entry, and the two indexes mirror each other: the key of every entry
    /// stands in the list of the entry's asset, and every list is non-empty, names no key
    /// twice, and names only keys of entries that belong to its asset.
    pub open spec fn wf(self) -> bool {
        &&& self.entries.dom().finite()
        &&& forall|key: Seq<char>| #[trigger]
            self.entries.contains_key(key) ==> {
                &&& parse_cache_key(key) is Some
                &&& resolution_of_key(key) == self.entries[key].resolution
                &&& cache_key(path_of_key(key), resolution_of_key(key)) == key
                &&& self.keys_of.contains_key(self.entries[key].asset_id)
                &&& self.keys_of[self.entries[key].asset_id].contains(key)
            }
        &&& forall|id: u64| #[trigger]
            self.keys_of.contains_key(id) ==> {
                &&& self.keys_of[id].len() > 0
                &&& self.keys_of[id].no_duplicates()
                &&& forall|i: int|
                    0 <= i < self.keys_of[id].len() ==> self.entries.contains_key(
                        #[trigger] self.keys_of[id][i],
                    ) && self.entries[self.keys_of[id][i]].asset_id == id
            }
    }

    /// The cache without the entries under the keys of `removed`.
    pub open spec fn without(self, removed: Set<Seq<char>>) -> CacheState {
        CacheState {
            entries: self.entries.remove_keys(removed),
            keys_of: pruned(self.keys_of, removed),
        }
    }

    /// The cache with `entry` under `key`, in place of any entry that was there.
    pub open spec fn with(self, key: Seq<char>, entry: PreviewCacheEntry) -> CacheState {
        CacheState {
            entries: self.entries.insert(key, entry),
            keys_of: attached(pruned(self.keys_of, set![key]), entry.asset_id, key),
        }
    }

    /// The cache after one operation.
    pub open spec fn after(self, op: CacheOp) -> CacheState {
        match op {
            CacheOp::Insert { path, entry } => self.with(cache_key(path, entry.resolution), entry),
            CacheOp::RemoveByPath { path, resolution } => self.without(
                keys_removed_by_path(self, path, resolution),
            ),
            CacheOp::RemoveById { id, resolution } => self.without(
                keys_removed_by_id(self, id, resolution),
            ),
            CacheOp::Clear => CacheState::empty(),
        }
    }

    /// The cache after a sequence of operations, one after the other.
    pub open spec fn after_all(self, ops: Seq<CacheOp>) -> CacheState
        decreases ops.len(),
    {
        if ops.len() == 0 {
            self
        } else {
            self.after_all(ops.drop_last()).after(ops.last())
        }
    }

    /// The entry that a query by path gives: at a resolution, the entry under that cache key;
    /// at none, an entry of the path that no other entry of the path exceeds in resolution.
    pub open spec fn answers_path(
        self,
        path: Seq<char>,
        resolution: Option<u32>,
        answer: Option<PreviewCacheEntry>,
    ) -> bool {
        match resolution {
            Some(r) => answer == (if self.holds(path, r) {
                Some(self.entries[cache_key(path, r)])
            } else {
                None
            }),
            None => match answer {
                Some(entry) => {
                    &&& self.holds(path, entry.resolution)
                    &&& self.entries[cache_key(path, entry.resolution)] == entry
                    &&& forall|r: u32| #[trigger] self.holds(path, r) ==> r <= entry.resolution
                },
                None => forall|r: u32| !#[trigger] self.holds(path, r),
            },
        }
    }

    /// The cache key that a query by asset finds: at a resolution, the first key of the
    /// asset whose entry has that resolution; at none, the key of the asset's entry of the
    /// highest resolution.
    pub open spec fn key_by_id(self, id: u64, resolution: Option<u32>) -> Option<Seq<char>> {
        if !self.keys_of.contains_key(id) {
            None
        } else {
            match resolution {
                Some(r) => first_at_resolution(self.entries, self.keys_of[id], r),
                None => highest_of(self.entries, self.keys_of[id]),
            }
        }
    }
}

/// A key stays in a list exactly when it was there and is not removed.
pub proof fn lemma_kept_contains(list: Seq<Seq<char>>, removed: Set<Seq<char>>, key: Seq<char>)
    ensures
        kept(list, removed).contains(key) <==> list.contains(key) && !removed.contains(key),
    decreases list.len(),
{
    if list.len() > 0 {
        let front = list.drop_last();
        lemma_kept_contains(front, removed, key);
        let out = kept(list, removed);
        if list.contains(key) {
            let i = choose|i: int| 0 <= i < list.len() && list[i] == key;
            if i < front.len() {
                assert(front[i] == key);
            }
        }
        if front.contains(key) {
            let i = choose|i: int| 0 <= i < front.len() && front[i] == key;
            assert(list[i] == key);
        }
        if !removed.contains(list.last()) {
            let sub = kept(front, removed);
            if sub.contains(key) {
                let i = choose|i: int| 0 <= i < sub.len() && sub[i] == key;
                assert(out[i] == key);
            }
            if out.contains(key) {
                let i = choose|i: int| 0 <= i < out.len() && out[i] == key;
                if i < sub.len() {
                    assert(sub[i] == key);
                } else {
                    assert(list[list.len() - 1] == key);
                }
            } else if list.last() == key {
                assert(out[out.len() - 1] == key);
            }
        }
    }
}

/// A list that names no key twice still names none twice after keys are removed.
pub proof fn lemma_kept_no_duplicates(list: Seq<Seq<char>>, removed: Set<Seq<char>>)
    requires
        list.no_duplicates(),
    ensures
        kept(list, removed).no_duplicates(),
        kept(list, removed).len() <= list.len(),
    decreases list.len(),
{
    if list.len() > 0 {
        let front = list.drop_last();
        assert(front.no_duplicates());
        lemma_kept_no_duplicates(front, removed);
        if !removed.contains(list.last()) {
            lemma_kept_contains(front, removed, list.last());
            if front.contains(list.last()) {
                let i = choose|i: int| 0 <= i < front.len() && front[i] == list.last();
                assert(list[i] == list[list.len() - 1]);
            }
            let sub = kept(front, removed);
            let out = kept(list, removed);
            assert forall|i: int, j: int| 0 <= i < out.len() && 0 <= j < out.len() && i
                != j implies out[i] != out[j] by {
                if i == sub.len() {
                    assert(sub[j] == out[j]);
                    assert(sub.contains(out[j]));
                } else if j == sub.len() {
                    assert(sub[i] == out[i]);
                    assert(sub.contains(out[i]));
                } else {
                    assert(sub[i] == out[i] && sub[j] == out[j]);
                }
            }
        }
    }
}

/// Removing keys that a list does not name leaves the list as it is.
pub proof fn lemma_kept_all(list: Seq<Seq<char>>, removed: Set<Seq<char>>)
    requires
        forall|i: int| 0 <= i < list.len() ==> !removed.contains(#[trigger] list[i]),
    ensures
        kept(list, removed) == list,
    decreases list.len(),
{
    if list.len() > 0 {
        let front = list.drop_last();
        assert forall|i: int| 0 <= i < front.len() implies !removed.contains(
            #[trigger] front[i],
        ) by {
            assert(front[i] == list[i]);
        }
        lemma_kept_all(front, removed);
        assert(!removed.contains(list[list.len() - 1]));
        assert(front.push(list.last()) =~= list);
    } else {
        assert(list =~= Seq::<Seq<char>>::empty());
    }
}

/// Removing one set of keys and then another removes their union.
pub proof fn lemma_kept_twice(list: Seq<Seq<char>>, a: Set<Seq<char>>, b: Set<Seq<char>>)
    ensures
        kept(kept(list, a), b) == kept(list, a.union(b)),
    decreases list.len(),
{
    if list.len() > 0 {
        let front = list.drop_last();
        lemma_kept_twice(front, a, b);
        if !a.contains(list.last()) {
            let mid = kept(front, a).push(list.last());
            assert(mid.drop_last() =~= kept(front, a));
        }
    }
}

/// Removing one set of keys from an index and then another removes their union.
pub proof fn lemma_pruned_twice(
    keys_of: Map<u64, Seq<Seq<char>>>,
    a: Set<Seq<char>>,
    b: Set<Seq<char>>,
)
    ensures
        pruned(pruned(keys_of, a), b) == pruned(keys_of, a.union(b)),
{
    assert forall|id: u64| keys_of.contains_key(id) implies kept(kept(keys_of[id], a), b) == kept(
        keys_of[id],
        a.union(b),
    ) by {
        lemma_kept_twice(keys_of[id], a, b);
    }
    assert forall|id: u64|
        keys_of.contains_key(id) && kept(keys_of[id], a).len() == 0 implies kept(
        keys_of[id],
        a.union(b),
    ).len() == 0 by {
        lemma_kept_twice(keys_of[id], a, b);
    }
    assert(pruned(pruned(keys_of, a), b) =~= pruned(keys_of, a.union(b)));
}

/// Removing entries in two steps is removing them in one.
pub proof fn lemma_without_twice(state: CacheState, a: Set<Seq<char>>, b: Set<Seq<char>>)
    ensures
        state.without(a).without(b) == state.without(a.union(b)),
{
    lemma_pruned_twice(state.keys_of, a, b);
    assert(state.entries.remove_keys(a).remove_keys(b) =~= state.entries.remove_keys(a.union(b)));
}

/// Removing nothing changes nothing.
pub proof fn lemma_without_nothing(state: CacheState)
    requires
        state.wf(),
    ensures
        state.without(Set::empty()) == state,
{
    assert forall|id: u64| state.keys_of.contains_key(id) implies kept(
        state.keys_of[id],
        Set::empty(),
    ) == state.keys_of[id] by {
        lemma_kept_all(state.keys_of[id], Set::empty());
    }
    assert(pruned(state.keys_of, Set::empty()) =~= state.keys_of);
    assert(state.entries.remove_keys(Set::empty()) =~= state.entries);
}

/// Removing a key that the cache does not hold changes nothing.
pub proof fn lemma_without_absent(state: CacheState, key: Seq<char>)
    requires
        state.wf(),
        !state.entries.contains_key(key),
    ensures
        state.without(set![key]) == state,
{
    assert forall|id: u64| state.keys_of.contains_key(id) implies kept(
        state.keys_of[id],
        set![key],
    ) == state.keys_of[id] by {
        lemma_kept_all(state.keys_of[id], set![key]);
    }
    assert(pruned(state.keys_of, set![key]) =~= state.keys_of);
    assert(state.entries.remove_keys(set![key]) =~= state.entries);
}

/// In a well-formed cache a key stands in the list of its entry's asset and in no other, so
/// that taking it from that list prunes it from the whole index.
pub proof fn lemma_detached_is_pruned(state: CacheState, key: Seq<char>)
    requires
        state.wf(),
        state.entries.contains_key(key),
    ensures
        detached(state.keys_of, state.entries[key].asset_id, key) == pruned(
            state.keys_of,
            set![key],
        ),
{
    let owner = state.entries[key].asset_id;
    assert forall|id: u64| state.keys_of.contains_key(id) && id != owner implies kept(
        state.keys_of[id],
        set![key],
    ) == state.keys_of[id] by {
        lemma_kept_all(state.keys_of[id], set![key]);
    }
    assert(detached(state.keys_of, owner, key) =~= pruned(state.keys_of, set![key]));
}

/// Removal keeps the invariant: no entry is left without its place in the identity index,
/// and no list names an entry that is gone.
pub proof fn lemma_without_wf(state: CacheState, removed: Set<Seq<char>>)
    requires
        state.wf(),
    ensures
        state.without(removed).wf(),
{
    let after = state.without(removed);
    assert(after.entries.dom() =~= state.entries.dom().difference(removed));
    assert forall|key: Seq<char>| #[trigger] after.entries.contains_key(key) implies {
        &&& after.keys_of.contains_key(after.entries[key].asset_id)
        &&& after.keys_of[after.entries[key].asset_id].contains(key)
    } by {
        assert(state.entries.contains_key(key));
        let id = state.entries[key].asset_id;
        lemma_kept_contains(state.keys_of[id], removed, key);
        let i = choose|i: int|
            0 <= i < kept(state.keys_of[id], removed).len() && kept(state.keys_of[id], removed)[i]
                == key;
    }
    assert forall|id: u64| #[trigger] after.keys_of.contains_key(id) implies {
        &&& after.keys_of[id].len() > 0
        &&& after.keys_of[id].no_duplicates()
        &&& forall|i: int|
            0 <= i < after.keys_of[id].len() ==> after.entries.contains_key(
                #[trigger] after.keys_of[id][i],
            ) && after.entries[after.keys_of[id][i]].asset_id == id
    } by {
        assert(state.keys_of.contains_key(id));
        lemma_kept_no_duplicates(state.keys_of[id], removed);
        assert forall|i: int| 0 <= i < after.keys_of[id].len() implies after.entries.contains_key(
            #[trigger] after.keys_of[id][i],
        ) && after.entries[after.keys_of[id][i]].asset_id == id by {
            let key = after.keys_of[id][i];
            assert(after.keys_of[id].contains(key));
            lemma_kept_contains(state.keys_of[id], removed, key);
            let j = choose|j: int| 0 <= j < state.keys_of[id].len() && state.keys_of[id][j] == key;
            assert(state.entries.contains_key(state.keys_of[id][j]));
        }
    }
}

/// Insertion keeps the invariant, whatever stood under the key before.
pub proof fn lemma_with_wf(state: CacheState, path: Seq<char>, entry: PreviewCacheEntry)
    requires
        state.wf(),
    ensures
        state.with(cache_key(path, entry.resolution), entry).wf(),
{
    let key = cache_key(path, entry.resolution);
    let base = state.without(set![key]);
    let after = state.with(key, entry);
    lemma_without_wf(state, set![key]);
    lemma_cache_key_reads_back(path, entry.resolution);
    assert(after.entries =~= base.entries.insert(key, entry));
    assert(!base.entries.contains_key(key));
    let id = entry.asset_id;
    assert forall|other: u64| #[trigger] base.keys_of.contains_key(other) implies {
        !base.keys_of[other].contains(key)
    } by {
        let list = base.keys_of[other];
        if list.contains(key) {
            let i = choose|i: int| 0 <= i < list.len() && list[i] == key;
            assert(base.entries.contains_key(list[i]));
        }
    }
    assert forall|k: Seq<char>| #[trigger] after.entries.contains_key(k) implies {
        &&& parse_cache_key(k) is Some
        &&& resolution_of_key(k) == after.entries[k].resolution
        &&& cache_key(path_of_key(k), resolution_of_key(k)) == k
        &&& after.keys_of.contains_key(after.entries[k].asset_id)
        &&& after.keys_of[after.entries[k].asset_id].contains(k)
    } by {
        if k == key {
            let list = after.keys_of[id];
            assert(list[list.len() - 1] == key);
        } else {
            assert(base.entries.contains_key(k));
            let owner = base.entries[k].asset_id;
            let owned = base.keys_of[owner];
            let i = choose|i: int| 0 <= i < owned.len() && owned[i] == k;
            if owner == id {
                assert(after.keys_of[id][i] == k);
            }
        }
    }
    assert forall|a: u64| #[trigger] after.keys_of.contains_key(a) implies {
        &&& after.keys_of[a].len() > 0
        &&& after.keys_of[a].no_duplicates()
        &&& forall|i: int|
            0 <= i < after.keys_of[a].len() ==> after.entries.contains_key(
                #[trigger] after.keys_of[a][i],
            ) && after.entries[after.keys_of[a][i]].asset_id == a
    } by {
        if a == id {
            let list = after.keys_of[id];
            if base.keys_of.contains_key(id) {
                let old_list = base.keys_of[id];
                assert forall|i: int, j: int| 0 <= i < list.len() && 0 <= j < list.len() && i
                    != j implies list[i] != list[j] by {
                    if i == old_list.len() {
                        assert(old_list[j] == list[j]);
                        assert(old_list.contains(list[j]));
                    } else if j == old_list.len() {
                        assert(old_list[i] == list[i]);
                        assert(old_list.contains(list[i]));
                    } else {
                        assert(old_list[i] == list[i] && old_list[j] == list[j]);
                    }
                }
                assert forall|i: int| 0 <= i < list.len() implies after.entries.contains_key(
                    #[trigger] list[i],
                ) && after.entries[list[i]].asset_id == id by {
                    if i < old_list.len() {
                        assert(base.entries.contains_key(old_list[i]));
                        assert(old_list.contains(old_list[i]));
                    }
                }
            }
        } else {
            assert(base.keys_of.contains_key(a));
            let list = base.keys_of[a];
            assert forall|i: int| 0 <= i < list.len() implies after.entries.contains_key(
                #[trigger] list[i],
            ) && after.entries[list[i]].asset_id == a by {
                assert(base.entries.contains_key(list[i]));
                assert(list.contains(list[i]));
            }
        }
    }
}

/// A query by path has one answer: whatever answers it is the same entry, or nothing both
/// times.
pub proof fn lemma_one_answer(
    state: CacheState,
    path: Seq<char>,
    resolution: Option<u32>,
    first: Option<PreviewCacheEntry>,
    second: Option<PreviewCacheEntry>,
)
    requires
        state.answers_path(path, resolution, first),
        state.answers_path(path, resolution, second),
    ensures
        first == second,
{
    if resolution is None {
        if first is Some && second is Some {
            assert(state.holds(path, first->0.resolution));
            assert(state.holds(path, second->0.resolution));
        } else if first is Some {
            assert(state.holds(path, first->0.resolution));
        } else if second is Some {
            assert(state.holds(path, second->0.resolution));
        }
    }
}

/// Round trip: after a preview has been inserted, a query for its path at its resolution
/// gives exactly that preview, and a query at no resolution gives a preview of at least that
/// resolution.
pub proof fn lemma_insert_then_get(
    state: CacheState,
    path: Seq<char>,
    entry: PreviewCacheEntry,
    answer: Option<PreviewCacheEntry>,
)
    requires
        state.with(cache_key(path, entry.resolution), entry).answers_path(path, None, answer),
    ensures
        state.with(cache_key(path, entry.resolution), entry).answers_path(
            path,
            Some(entry.resolution),
            Some(entry),
        ),
        answer is Some,
        answer->0.resolution >= entry.resolution,
{
    let after = state.with(cache_key(path, entry.resolution), entry);
    assert(after.holds(path, entry.resolution));
}

/// Overwriting: a second insertion at the same path and resolution leaves the cache as if
/// only the second had been made, so that the number of entries stays and the second wins.
pub proof fn lemma_insert_twice(
    state: CacheState,
    path: Seq<char>,
    first: PreviewCacheEntry,
    second: PreviewCacheEntry,
)
    requires
        state.wf(),
        first.resolution == second.resolution,
    ensures
        ({
            let key = cache_key(path, first.resolution);
            &&& state.with(key, first).with(key, second) == state.with(key, second)
            &&& state.with(key, first).with(key, second).entries.dom() == state.with(
                key,
                first,
            ).entries.dom()
            &&& state.with(key, first).with(key, second).entries[key] == second
        }),
{
    let key = cache_key(path, first.resolution);
    let once = state.with(key, first);
    let twice = once.with(key, second);
    let direct = state.with(key, second);
    let base = pruned(state.keys_of, set![key]);
    assert(twice.entries =~= direct.entries);
    assert(twice.entries.dom() =~= once.entries.dom());
    lemma_pruned_twice(state.keys_of, set![key], set![key]);
    assert(set![key].union(set![key]) =~= set![key]);
    assert forall|id: u64| base.contains_key(id) implies kept(base[id], set![key]) == base[id] by {
        lemma_kept_twice(state.keys_of[id], set![key], set![key]);
    }
    let id = first.asset_id;
    let list = once.keys_of[id];
    if base.contains_key(id) {
        assert(list.drop_last() =~= base[id]);
    } else {
        assert(list.drop_last() =~= Seq::<Seq<char>>::empty());
    }
    assert(kept(list, set![key]) == kept(list.drop_last(), set![key]));
    assert(pruned(once.keys_of, set![key]) =~= base);
}

/// Removal by path reaches both indexes: after every preview of a path is removed, no query
/// for the path finds anything, and an asset all of whose previews belonged to that path
/// has left the identity index, so that no query for the asset finds anything either.
pub proof fn lemma_remove_path_clears(state: CacheState, path: Seq<char>, id: u64)
    requires
        state.wf(),
    ensures
        state.without(state.keys_of_path(path)).wf(),
        forall|r: u32| !#[trigger] state.without(state.keys_of_path(path)).holds(path, r),
        (state.keys_of.contains_key(id) && forall|i: int|
            0 <= i < state.keys_of[id].len() ==> path_of_key(#[trigger] state.keys_of[id][i])
                == path) ==> !state.without(state.keys_of_path(path)).keys_of.contains_key(id),
        !state.without(state.keys_of_path(path)).keys_of.contains_key(id) ==> forall|
            resolution: Option<u32>,
        |
            state.without(state.keys_of_path(path)).key_by_id(id, resolution) is None,
{
    let gone = state.keys_of_path(path);
    let after = state.without(gone);
    lemma_without_wf(state, gone);
    assert forall|r: u32| !#[trigger] after.holds(path, r) by {
        lemma_cache_key_reads_back(path, r);
    }
    if state.keys_of.contains_key(id) && forall|i: int|
        0 <= i < state.keys_of[id].len() ==> path_of_key(#[trigger] state.keys_of[id][i]) == path {
        let list = state.keys_of[id];
        assert forall|i: int| 0 <= i < list.len() implies gone.contains(#[trigger] list[i]) by {
            assert(state.entries.contains_key(list[i]));
        }
        lemma_kept_none(list, gone);
    }
}

/// The mirror of the two indexes over time: after any sequence of insertions and removals,
/// starting from the empty cache or from any well-formed one, every entry of the path index
/// has its key in the list of its asset, and every key of every list names an entry of that
/// asset.
pub proof fn lemma_mirrored_under_any_sequence(state: CacheState, ops: Seq<CacheOp>)
    requires
        state.wf(),
    ensures
        state.after_all(ops).wf(),
        CacheState::empty().wf(),
    decreases ops.len(),
{
    if ops.len() > 0 {
        let before = state.after_all(ops.drop_last());
        lemma_mirrored_under_any_sequence(state, ops.drop_last());
        match ops.last() {
            CacheOp::Insert { path, entry } => {
                lemma_with_wf(before, path, entry);
            },
            CacheOp::RemoveByPath { path, resolution } => {
                lemma_without_wf(before, keys_removed_by_path(before, path, resolution));
            },
            CacheOp::RemoveById { id, resolution } => {
                lemma_without_wf(before, keys_removed_by_id(before, id, resolution));
            },
            CacheOp::Clear => {},
        }
    }
}

/// A list all of whose keys are removed is left empty.
pub proof fn lemma_kept_none(list: Seq<Seq<char>>, removed: Set<Seq<char>>)
    requires
        forall|i: int| 0 <= i < list.len() ==> removed.contains(#[trigger] list[i]),
    ensures
        kept(list, removed).len() == 0,
    decreases list.len(),
{
    if list.len() > 0 {
        let front = list.drop_last();
        assert forall|i: int| 0 <= i < front.len() implies removed.contains(
            #[trigger] front[i],
        ) by {
            assert(front[i] == list[i]);
        }
        lemma_kept_none(front, removed);
        assert(removed.contains(list[list.len() - 1]));
    }
}

/// Removal by asset reaches both indexes: after every preview of an asset is removed, the
/// asset has left the identity index and none of its cache keys is left in the path index.
pub proof fn lemma_remove_id_clears(state: CacheState, id: u64)
    requires
        state.wf(),
        state.keys_of.contains_key(id),
    ensures
        state.without(state.keys_of[id].to_set()).wf(),
        !state.without(state.keys_of[id].to_set()).keys_of.contains_key(id),
        forall|key: Seq<char>|
            state.without(state.keys_of[id].to_set()).entries.contains_key(key)
                ==> state.entries.contains_key(key) && state.entries[key].asset_id != id,
{
    let list = state.keys_of[id];
    let gone = list.to_set();
    lemma_without_wf(state, gone);
    assert forall|i: int| 0 <= i < list.len() implies gone.contains(#[trigger] list[i]) by {
        assert(list.contains(list[i]));
    }
    lemma_kept_none(list, gone);
}

} // verus!
