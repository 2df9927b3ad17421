//! The cache of generated previews, indexed by path and by asset.
//!
//! The path index maps a cache key (the path with the resolution written into it) to its
//! entry; the identity index maps an asset to the cache keys of its previews. Every
//! operation updates both, so that neither ever names what the other lacks.

use crate::cache_key::cache_key;
use crate::cache_key::cache_path_for_resolution;
use crate::cache_key::lemma_cache_key_injective;
use crate::cache_key::lemma_cache_key_reads_back;
use crate::cache_key::parse_cache_key;
use crate::cache_key::parse_cache_path;
use crate::cache_key::path_of_key;
use crate::cache_key::resolution_of_key;
use crate::cache_model::attached;
use crate::cache_model::detached;
use crate::cache_model::first_at_resolution;
use crate::cache_model::highest_of;
use crate::cache_model::keys_removed_by_id;
use crate::cache_model::keys_removed_by_path;
use crate::cache_model::kept;
use crate::cache_model::lemma_detached_is_pruned;
use crate::cache_model::lemma_with_wf;
use crate::cache_model::lemma_without_absent;
use crate::cache_model::lemma_without_nothing;
use crate::cache_model::lemma_without_twice;
use crate::cache_model::lemma_without_wf;
use crate::cache_model::CacheState;
use crate::tables::entry_table;
use crate::tables::entry_table_get;
use crate::tables::entry_table_insert;
use crate::tables::entry_table_keys;
use crate::tables::entry_table_len;
use crate::tables::entry_table_new;
use crate::tables::entry_table_remove;
use crate::tables::key_list_table;
use crate::tables::key_list_table_get;
use crate::tables::key_list_table_insert;
use crate::tables::key_list_table_new;
use crate::tables::key_list_table_remove;
use crate::tables::texts;
use bevy::platform::collections::HashMap;
use core::time::Duration;
use vstd::prelude::*;
use vstd::string::StringExecFns;

verus! {

/// One cached preview of an asset.
#[derive(Clone, Copy, Debug)]
pub struct PreviewCacheEntry {
    /// The image that holds the preview.
    pub image_handle: u64,
    /// The asset that the preview shows.
    pub asset_id: u64,
    /// The largest dimension of the preview, in pixels.
    pub resolution: u32,
    /// When the preview was made.
    pub timestamp: Duration,
}

/// The entry under a key that may be absent.
pub open spec fn entry_under(state: CacheState, key: Option<Seq<char>>) -> Option<
    PreviewCacheEntry,
> {
    match key {
        Some(k) => Some(state.entries[k]),
        None => None,
    }
}

/// Copies a list of keys.
fn copy_keys(list: &Vec<String>) -> (copy: Vec<String>)
    ensures
        texts(copy@) == texts(list@),
{
    let mut copy: Vec<String> = Vec::new();
    let mut i: usize = 0;
    while i < list.len()
        invariant
            i <= list.len(),
            copy@.len() == i,
            forall|j: int| 0 <= j < i ==> copy@[j]@ == list@[j]@,
        decreases list.len() - i,
    {
        copy.push(list[i].clone());
        i += 1;
    }
    assert(texts(copy@) =~= texts(list@));
    copy
}

/// Copies a list of keys, leaving out `key`.
fn keys_without(list: &Vec<String>, key: &String) -> (rest: Vec<String>)
    ensures
        texts(rest@) == kept(texts(list@), set![key@]),
{
    let mut rest: Vec<String> = Vec::new();
    let mut i: usize = 0;
    assert(texts(list@).subrange(0, 0) =~= Seq::<Seq<char>>::empty());
    assert(texts(rest@) =~= Seq::<Seq<char>>::empty());
    while i < list.len()
        invariant
            i <= list.len(),
            texts(rest@) == kept(texts(list@).subrange(0, i as int), set![key@]),
        decreases list.len() - i,
    {
        let ghost before = texts(list@).subrange(0, i as int);
        let ghost longer = texts(list@).subrange(0, i + 1);
        assert(longer.drop_last() =~= before);
        assert(longer.last() == list@[i as int]@);
        if list[i] != *key {
            let ghost so_far = texts(rest@);
            rest.push(list[i].clone());
            assert(texts(rest@) =~= so_far.push(list@[i as int]@));
        }
        i += 1;
    }
    assert(texts(list@).subrange(0, i as int) =~= texts(list@));
    rest
}

/// Takes `key` from the list of `id`; a list that becomes empty leaves the index.
fn detach(index: &mut HashMap<u64, Vec<String>>, id: u64, key: &String)
    ensures
        key_list_table(*final(index)) == detached(key_list_table(*old(index)), id, key@),
{
    let rest = match key_list_table_get(index, id) {
        Some(list) => keys_without(list, key),
        None => { return ; },
    };
    if rest.len() == 0 {
        key_list_table_remove(index, id);
    } else {
        key_list_table_insert(index, id, rest);
    }
}

/// Puts `key` at the end of the list of `id`.
fn attach(index: &mut HashMap<u64, Vec<String>>, id: u64, key: String)
    ensures
        key_list_table(*final(index)) == attached(key_list_table(*old(index)), id, key@),
{
    let mut list = match key_list_table_get(index, id) {
        Some(list) => copy_keys(list),
        None => Vec::new(),
    };
    let ghost before = texts(list@);
    let ghost added = key@;
    list.push(key);
    assert(texts(list@) =~= before.push(added));
    proof {
        if !key_list_table(*index).contains_key(id) {
            assert(before =~= Seq::<Seq<char>>::empty());
            assert(before.push(added) =~= seq![added]);
        }
    }
    key_list_table_insert(index, id, list);
}

/// Whether the entries stand in strictly ascending order of resolution.
pub open spec fn ascending(all: Seq<PreviewCacheEntry>) -> bool {
    forall|i: int, j: int| 0 <= i < j < all.len() ==> all[i].resolution < all[j].resolution
}

/// Whether one of the entries has the resolution `r`.
pub open spec fn lists(all: Seq<PreviewCacheEntry>, r: u32) -> bool {
    exists|i: int| 0 <= i < all.len() && #[trigger] all[i].resolution == r
}

/// A list with one more key holds what it held before, and that key.
pub proof fn lemma_push_contains(list: Seq<Seq<char>>, key: Seq<char>)
    ensures
        forall|k: Seq<char>| #[trigger]
            list.push(key).contains(k) <==> list.contains(k) || k == key,
{
    let longer = list.push(key);
    assert forall|k: Seq<char>| #[trigger] longer.contains(k) <==> list.contains(k) || k
        == key by {
        if list.contains(k) {
            let j = choose|j: int| 0 <= j < list.len() && list[j] == k;
            assert(longer[j] == k);
        }
        if k == key {
            assert(longer[list.len() as int] == k);
        }
        if longer.contains(k) {
            let j = choose|j: int| 0 <= j < longer.len() && longer[j] == k;
            if j < list.len() {
                assert(list[j] == k);
            }
        }
    }
}

/// Puts an entry into a list that is ordered by resolution, at its place in that order.
fn insert_by_resolution(all: &mut Vec<PreviewCacheEntry>, entry: PreviewCacheEntry)
    requires
        ascending(old(all)@),
        !lists(old(all)@, entry.resolution),
    ensures
        ascending(final(all)@),
        forall|r: u32| #[trigger]
            lists(final(all)@, r) <==> lists(old(all)@, r) || r == entry.resolution,
        forall|i: int|
            0 <= i < final(all)@.len() ==> #[trigger] final(all)@[i] == entry || old(all)@.contains(
                final(all)@[i],
            ),
{
    let mut at: usize = 0;
    while at < all.len() && all[at].resolution < entry.resolution
        invariant
            at <= all.len(),
            all@ == old(all)@,
            forall|a: int| 0 <= a < at ==> all@[a].resolution < entry.resolution,
        decreases all.len() - at,
    {
        at += 1;
    }
    let ghost before = all@;
    all.insert(at, entry);
    proof {
        assert forall|i: int, j: int| 0 <= i < j < all@.len() implies all@[i].resolution
            < all@[j].resolution by {
            let oi = if i < at { i } else { i - 1 };
            let oj = if j < at { j } else { j - 1 };
            if i != at && j != at {
                assert(all@[i] == before[oi] && all@[j] == before[oj]);
            } else if i == at {
                assert(all@[j] == before[oj]);
                assert(before[at as int].resolution >= entry.resolution);
                if before[at as int].resolution == entry.resolution {
                    assert(lists(before, entry.resolution));
                }
            } else {
                assert(all@[i] == before[oi]);
            }
        }
        assert forall|r: u32| #[trigger] lists(all@, r) <==> lists(before, r) || r
            == entry.resolution by {
            if lists(before, r) {
                let a = choose|a: int| 0 <= a < before.len() && before[a].resolution == r;
                let b = if a < at { a } else { a + 1 };
                assert(all@[b].resolution == r);
            }
            if r == entry.resolution {
                assert(all@[at as int].resolution == r);
            }
            if lists(all@, r) {
                let a = choose|a: int| 0 <= a < all@.len() && all@[a].resolution == r;
                if a < at {
                    assert(before[a].resolution == r);
                } else if a > at {
                    assert(before[a - 1].resolution == r);
                }
            }
        }
        assert forall|i: int| 0 <= i < all@.len() implies #[trigger] all@[i] == entry
            || before.contains(all@[i]) by {
            if i < at {
                assert(before[i] == all@[i]);
            } else if i > at {
                assert(before[i - 1] == all@[i]);
            }
        }
    }
}

/// Cache of preview images, so that an unchanged asset is not rendered twice.
pub struct PreviewCache {
    path_cache: HashMap<String, PreviewCacheEntry>,
    id_to_paths: HashMap<u64, Vec<String>>,
}

impl View for PreviewCache {
    type V = CacheState;

    closed spec fn view(&self) -> CacheState {
        CacheState {
            entries: entry_table(self.path_cache),
            keys_of: key_list_table(self.id_to_paths),
        }
    }
}

impl Default for PreviewCache {
    /// An empty cache.
    fn default() -> (cache: PreviewCache)
        ensures
            cache@ == CacheState::empty(),
            cache.wf(),
    {
        PreviewCache::new()
    }
}

impl PreviewCache {
    /// Whether the cache's invariant holds.
    pub open spec fn wf(&self) -> bool {
        self@.wf()
    }

    /// Creates an empty cache.
    pub fn new() -> (cache: PreviewCache)
        ensures
            cache@ == CacheState::empty(),
            cache.wf(),
    {
        PreviewCache { path_cache: entry_table_new(), id_to_paths: key_list_table_new() }
    }

    /// Makes the cache key of a path at a resolution.
    pub fn cache_path_for_resolution(path: &str, resolution: u32) -> (key: String)
        ensures
            key@ == cache_key(path@, resolution),
    {
        cache_path_for_resolution(path, resolution)
    }

    /// Reads a cache key back into its path and resolution.
    pub fn parse_cache_path(key: &str) -> (parts: Option<(String, u32)>)
        ensures
            match parts {
                Some((path, resolution)) => parse_cache_key(key@) == Some((path@, resolution)),
                None => parse_cache_key(key@) is None,
            },
    {
        parse_cache_path(key)
    }

    /// Removes the entry under `key`, with its place in the identity index.
    fn remove_key(&mut self, key: &String) -> (removed: Option<PreviewCacheEntry>)
        requires
            old(self).wf(),
        ensures
            final(self).wf(),
            final(self)@ == old(self)@.without(set![key@]),
            removed == (if old(self)@.entries.contains_key(key@) {
                Some(old(self)@.entries[key@])
            } else {
                None
            }),
    {
        proof {
            lemma_without_wf(self@, set![key@]);
        }
        match entry_table_get(&self.path_cache, key.as_str()) {
            Some(entry) => {
                proof {
                    lemma_detached_is_pruned(self@, key@);
                }
                entry_table_remove(&mut self.path_cache, key.as_str());
                detach(&mut self.id_to_paths, entry.asset_id, key);
                assert(self@.entries =~= old(self)@.entries.remove_keys(set![key@]));
                Some(entry)
            },
            None => {
                proof {
                    lemma_without_absent(self@, key@);
                }
                None
            },
        }
    }

    /// Gets the cached preview of a path: at a resolution, the preview of exactly that
    /// resolution; at none, the preview of the highest resolution that the path has.
    pub fn get_by_path(&self, path: &str, resolution: Option<u32>) -> (found: Option<
        PreviewCacheEntry,
    >)
        requires
            self.wf(),
        ensures
            self@.answers_path(path@, resolution, found),
    {
        match resolution {
            Some(r) => {
                let key = cache_path_for_resolution(path, r);
                entry_table_get(&self.path_cache, key.as_str())
            },
            None => self.find_highest_resolution_for_path(path),
        }
    }

    /// Finds the entry of the highest resolution among the entries of a path.
    fn find_highest_resolution_for_path(&self, path: &str) -> (found: Option<PreviewCacheEntry>)
        requires
            self.wf(),
        ensures
            self@.answers_path(path@, None, found),
    {
        let keys = entry_table_keys(&self.path_cache);
        let wanted = String::from_str(path);
        let mut best: Option<PreviewCacheEntry> = None;
        let mut i: usize = 0;
        while i < keys.len()
            invariant
                i <= keys.len(),
                self.wf(),
                wanted@ == path@,
                texts(keys@).to_set() == self@.entries.dom(),
                match best {
                    Some(entry) => {
                        &&& self@.holds(path@, entry.resolution)
                        &&& self@.entries[cache_key(path@, entry.resolution)] == entry
                        &&& forall|j: int|
                            0 <= j < i && parse_cache_key(#[trigger] keys@[j]@) is Some
                                && path_of_key(keys@[j]@) == path@ ==> resolution_of_key(keys@[j]@)
                                <= entry.resolution
                    },
                    None => forall|j: int|
                        0 <= j < i ==> !(parse_cache_key(#[trigger] keys@[j]@) is Some
                            && path_of_key(keys@[j]@) == path@),
                },
            decreases keys.len() - i,
        {
            let key = &keys[i];
            assert(texts(keys@)[i as int] == key@);
            assert(texts(keys@).to_set().contains(key@));
            if let Some((key_path, _)) = parse_cache_path(key.as_str()) {
                if key_path == wanted {
                    if let Some(entry) = entry_table_get(&self.path_cache, key.as_str()) {
                        let better = match best {
                            None => true,
                            Some(b) => entry.resolution > b.resolution,
                        };
                        if better {
                            best = Some(entry);
                        }
                    }
                }
            }
            i += 1;
        }
        proof {
            assert forall|r: u32| #[trigger] self@.holds(path@, r) implies (best is Some && r
                <= best->0.resolution) by {
                let key = cache_key(path@, r);
                lemma_cache_key_reads_back(path@, r);
                assert(texts(keys@).to_set().contains(key));
                let j = choose|j: int| 0 <= j < texts(keys@).len() && texts(keys@)[j] == key;
                assert(keys@[j]@ == key);
            }
        }
        best
    }

    /// Gets every cached preview of a path, from the lowest resolution to the highest.
    pub fn get_all_by_path(&self, path: &str) -> (all: Vec<PreviewCacheEntry>)
        requires
            self.wf(),
        ensures
            ascending(all@),
            forall|i: int|
                0 <= i < all@.len() ==> self@.holds(path@, (#[trigger] all@[i]).resolution)
                    && self@.entries[cache_key(path@, all@[i].resolution)] == all@[i],
            forall|r: u32| self@.holds(path@, r) <==> #[trigger] lists(all@, r),
    {
        let keys = entry_table_keys(&self.path_cache);
        let wanted = String::from_str(path);
        let mut all: Vec<PreviewCacheEntry> = Vec::new();
        let mut i: usize = 0;
        assert(texts(keys@).subrange(0, 0) =~= Seq::<Seq<char>>::empty());
        while i < keys.len()
            invariant
                i <= keys.len(),
                self.wf(),
                wanted@ == path@,
                texts(keys@).to_set() == self@.entries.dom(),
                texts(keys@).no_duplicates(),
                ascending(all@),
                forall|a: int|
                    0 <= a < all@.len() ==> self@.holds(path@, (#[trigger] all@[a]).resolution)
                        && self@.entries[cache_key(path@, all@[a].resolution)] == all@[a],
                forall|r: u32| #[trigger]
                    lists(all@, r) <==> texts(keys@).subrange(0, i as int).contains(
                        cache_key(path@, r),
                    ),
            decreases keys.len() - i,
        {
            let key = &keys[i];
            let ghost seen = texts(keys@).subrange(0, i as int);
            let ghost seen_after = texts(keys@).subrange(0, i + 1);
            let ghost before = all@;
            proof {
                assert(texts(keys@)[i as int] == key@);
                assert(texts(keys@).to_set().contains(key@));
                assert(seen_after =~= seen.push(key@));
                lemma_push_contains(seen, key@);
                if seen.contains(key@) {
                    let j = choose|j: int| 0 <= j < seen.len() && seen[j] == key@;
                    assert(texts(keys@)[j] == texts(keys@)[i as int]);
                }
            }
            let mut taken = false;
            if let Some((key_path, _)) = parse_cache_path(key.as_str()) {
                if key_path == wanted {
                    if let Some(entry) = entry_table_get(&self.path_cache, key.as_str()) {
                        assert(key@ == cache_key(path@, entry.resolution));
                        insert_by_resolution(&mut all, entry);
                        taken = true;
                        proof {
                            assert forall|r: u32| #[trigger]
                                lists(all@, r) <==> seen_after.contains(cache_key(path@, r)) by {
                                if cache_key(path@, r) == key@ {
                                    lemma_cache_key_injective(path@, r, path@, entry.resolution);
                                }
                            }
                        }
                    }
                }
            }
            proof {
                if !taken {
                    assert forall|r: u32| #[trigger]
                        lists(all@, r) <==> seen_after.contains(cache_key(path@, r)) by {
                        if cache_key(path@, r) == key@ {
                            lemma_cache_key_reads_back(path@, r);
                        }
                    }
                }
            }
            i += 1;
        }
        proof {
            assert(texts(keys@).subrange(0, i as int) =~= texts(keys@));
        }
        all
    }

    /// Finds the first key of an asset whose entry has the resolution asked for.
    fn find_key_at_resolution(&self, asset_id: u64, resolution: u32) -> (found: Option<String>)
        ensures
            match found {
                Some(key) => self@.key_by_id(asset_id, Some(resolution)) == Some(key@)
                    && self@.entries.contains_key(key@),
                None => self@.key_by_id(asset_id, Some(resolution)) is None,
            },
    {
        let list = match key_list_table_get(&self.id_to_paths, asset_id) {
            Some(list) => list,
            None => { return None; },
        };
        let ghost keys = texts(list@);
        let mut i: usize = 0;
        assert(keys.skip(0) =~= keys);
        while i < list.len()
            invariant
                i <= list.len(),
                keys == texts(list@),
                self@.keys_of.contains_key(asset_id),
                self@.keys_of[asset_id] == keys,
                first_at_resolution(self@.entries, keys, resolution) == first_at_resolution(
                    self@.entries,
                    keys.skip(i as int),
                    resolution,
                ),
            decreases list.len() - i,
        {
            let ghost rest = keys.skip(i as int);
            assert(rest[0] == list@[i as int]@);
            assert(rest.skip(1) =~= keys.skip(i + 1));
            if let Some(entry) = entry_table_get(&self.path_cache, list[i].as_str()) {
                if entry.resolution == resolution {
                    return Some(list[i].clone());
                }
            }
            i += 1;
        }
        None
    }

    /// Gets the cached preview of an asset: at a resolution, the first preview of the asset
    /// with that resolution; at none, the preview of the highest resolution.
    pub fn get_by_id(&self, asset_id: u64, resolution: Option<u32>) -> (found: Option<
        PreviewCacheEntry,
    >)
        ensures
            found == entry_under(self@, self@.key_by_id(asset_id, resolution)),
    {
        match resolution {
            Some(r) => match self.find_key_at_resolution(asset_id, r) {
                Some(key) => entry_table_get(&self.path_cache, key.as_str()),
                None => None,
            },
            None => {
                let list = match key_list_table_get(&self.id_to_paths, asset_id) {
                    Some(list) => list,
                    None => { return None; },
                };
                let ghost keys = texts(list@);
                let mut best: Option<PreviewCacheEntry> = None;
                let mut i: usize = 0;
                assert(keys.subrange(0, 0) =~= Seq::<Seq<char>>::empty());
                while i < list.len()
                    invariant
                        i <= list.len(),
                        keys == texts(list@),
                        self@.keys_of.contains_key(asset_id),
                        self@.keys_of[asset_id] == keys,
                        best == entry_under(
                            self@,
                            highest_of(self@.entries, keys.subrange(0, i as int)),
                        ),
                    decreases list.len() - i,
                {
                    let ghost longer = keys.subrange(0, i + 1);
                    assert(longer.drop_last() =~= keys.subrange(0, i as int));
                    assert(longer.last() == list@[i as int]@);
                    if let Some(entry) = entry_table_get(&self.path_cache, list[i].as_str()) {
                        let better = match best {
                            None => true,
                            Some(b) => entry.resolution > b.resolution,
                        };
                        if better {
                            best = Some(entry);
                        }
                    }
                    i += 1;
                }
                assert(keys.subrange(0, i as int) =~= keys);
                best
            },
        }
    }

    /// Inserts a preview of `path` at `resolution`, in place of any preview that the path
    /// had at that resolution, and files its cache key under the asset.
    pub fn insert(
        &mut self,
        path: &str,
        asset_id: u64,
        resolution: u32,
        image_handle: u64,
        timestamp: Duration,
    )
        requires
            old(self).wf(),
        ensures
            final(self).wf(),
            final(self)@ == old(self)@.with(
                cache_key(path@, resolution),
                PreviewCacheEntry { image_handle, asset_id, resolution, timestamp },
            ),
    {
        let entry = PreviewCacheEntry { image_handle, asset_id, resolution, timestamp };
        let key = cache_path_for_resolution(path, resolution);
        proof {
            lemma_with_wf(self@, path@, entry);
        }
        self.remove_key(&key);
        entry_table_insert(&mut self.path_cache, key.clone(), entry);
        attach(&mut self.id_to_paths, asset_id, key);
        assert(self@.entries =~= old(self)@.entries.insert(cache_key(path@, resolution), entry));
    }

    /// Removes the previews of a path: at a resolution, the preview of exactly that
    /// resolution; at none, every preview of the path. Returns what a query by path would
    /// have given before the removal.
    pub fn remove_by_path(&mut self, path: &str, resolution: Option<u32>) -> (removed: Option<
        PreviewCacheEntry,
    >)
        requires
            old(self).wf(),
        ensures
            final(self).wf(),
            old(self)@.answers_path(path@, resolution, removed),
            final(self)@ == old(self)@.without(keys_removed_by_path(old(self)@, path@, resolution)),
    {
        match resolution {
            Some(r) => {
                let key = cache_path_for_resolution(path, r);
                self.remove_key(&key)
            },
            None => self.remove_all_resolutions_for_path(path),
        }
    }

    /// Removes every preview of a path.
    fn remove_all_resolutions_for_path(&mut self, path: &str) -> (removed: Option<
        PreviewCacheEntry,
    >)
        requires
            old(self).wf(),
        ensures
            final(self).wf(),
            old(self)@.answers_path(path@, None, removed),
            final(self)@ == old(self)@.without(old(self)@.keys_of_path(path@)),
    {
        let removed = self.find_highest_resolution_for_path(path);
        let keys = entry_table_keys(&self.path_cache);
        let wanted = String::from_str(path);
        let ghost start = self@;
        let ghost mut gone: Set<Seq<char>> = Set::empty();
        proof {
            lemma_without_nothing(start);
        }
        let mut i: usize = 0;
        while i < keys.len()
            invariant
                i <= keys.len(),
                start.wf(),
                self.wf(),
                wanted@ == path@,
                texts(keys@).to_set() == start.entries.dom(),
                texts(keys@).no_duplicates(),
                self@ == start.without(gone),
                forall|key: Seq<char>|
                    gone.contains(key) <==> start.keys_of_path(path@).contains(key) && exists|
                        j: int,
                    |
                        0 <= j < i && keys@[j]@ == key,
            decreases keys.len() - i,
        {
            let key = &keys[i];
            assert(texts(keys@)[i as int] == key@);
            assert(texts(keys@).to_set().contains(key@));
            let ghost gone_before = gone;
            let matches = match parse_cache_path(key.as_str()) {
                Some((key_path, _)) => key_path == wanted,
                None => false,
            };
            if matches {
                proof {
                    lemma_without_twice(start, gone, set![key@]);
                    gone = gone.union(set![key@]);
                }
                self.remove_key(key);
            }
            assert forall|k: Seq<char>|
                gone.contains(k) <==> start.keys_of_path(path@).contains(k) && exists|j: int|
                    0 <= j < i + 1 && keys@[j]@ == k by {
                if gone_before.contains(k) {
                    let j = choose|j: int| 0 <= j < i && keys@[j]@ == k;
                    assert(0 <= j < i + 1 && keys@[j]@ == k);
                }
                if start.keys_of_path(path@).contains(k) && exists|j: int|
                    0 <= j < i + 1 && keys@[j]@ == k {
                    let j = choose|j: int| 0 <= j < i + 1 && keys@[j]@ == k;
                    if j < i {
                        assert(gone_before.contains(k));
                    }
                }
            }
            i += 1;
        }
        proof {
            assert forall|k: Seq<char>| start.keys_of_path(path@).contains(k) implies gone.contains(
                k,
            ) by {
                assert(texts(keys@).to_set().contains(k));
                let j = choose|j: int| 0 <= j < texts(keys@).len() && texts(keys@)[j] == k;
                assert(keys@[j]@ == k);
            }
            assert(gone =~= start.keys_of_path(path@));
        }
        removed
    }

    /// Removes the previews of an asset: at a resolution, the first preview of the asset
    /// with that resolution, which is returned; at none, every preview of the asset, of
    /// which the one that was filed first is returned.
    pub fn remove_by_id(&mut self, asset_id: u64, resolution: Option<u32>) -> (removed: Option<
        PreviewCacheEntry,
    >)
        requires
            old(self).wf(),
        ensures
            final(self).wf(),
            final(self)@ == old(self)@.without(
                keys_removed_by_id(old(self)@, asset_id, resolution),
            ),
            removed == (match resolution {
                Some(_) => entry_under(old(self)@, old(self)@.key_by_id(asset_id, resolution)),
                None => if old(self)@.keys_of.contains_key(asset_id) {
                    Some(old(self)@.entries[old(self)@.keys_of[asset_id][0]])
                } else {
                    None
                },
            }),
    {
        match resolution {
            Some(r) => match self.find_key_at_resolution(asset_id, r) {
                Some(key) => self.remove_key(&key),
                None => {
                    proof {
                        lemma_without_nothing(self@);
                    }
                    None
                },
            },
            None => {
                let list = match key_list_table_get(&self.id_to_paths, asset_id) {
                    Some(list) => copy_keys(list),
                    None => {
                        proof {
                            lemma_without_nothing(self@);
                        }
                        return None;
                    },
                };
                let ghost start = self@;
                let ghost keys = texts(list@);
                let ghost mut gone: Set<Seq<char>> = Set::empty();
                proof {
                    lemma_without_nothing(start);
                }
                assert(keys.len() > 0);
                assert(start.entries.contains_key(keys[0]));
                let first = entry_table_get(&self.path_cache, list[0].as_str());
                let mut i: usize = 0;
                while i < list.len()
                    invariant
                        i <= list.len(),
                        start.wf(),
                        self.wf(),
                        keys == texts(list@),
                        self@ == start.without(gone),
                        gone =~= keys.subrange(0, i as int).to_set(),
                    decreases list.len() - i,
                {
                    proof {
                        lemma_without_twice(start, gone, set![list@[i as int]@]);
                        let longer = keys.subrange(0, i + 1);
                        assert(longer.drop_last() =~= keys.subrange(0, i as int));
                        assert(longer =~= keys.subrange(0, i as int).push(list@[i as int]@));
                        assert forall|k: Seq<char>|
                            longer.to_set().contains(k) <==> gone.union(
                                set![list@[i as int]@],
                            ).contains(k) by {
                            if longer.contains(k) {
                                let j = choose|j: int| 0 <= j < longer.len() && longer[j] == k;
                                if j < i {
                                    assert(keys.subrange(0, i as int)[j] == k);
                                    assert(keys.subrange(0, i as int).contains(k));
                                }
                            }
                            if gone.contains(k) {
                                let j = choose|j: int|
                                    0 <= j < i && keys.subrange(0, i as int)[j] == k;
                                assert(longer[j] == k);
                            }
                            if k == list@[i as int]@ {
                                assert(longer[i as int] == k);
                            }
                        }
                        gone = gone.union(set![list@[i as int]@]);
                    }
                    self.remove_key(&list[i]);
                    i += 1;
                }
                assert(keys.subrange(0, i as int) =~= keys);
                first
            },
        }
    }

    /// Removes every preview.
    pub fn clear(&mut self)
        ensures
            final(self)@ == CacheState::empty(),
            final(self).wf(),
    {
        self.path_cache = entry_table_new();
        self.id_to_paths = key_list_table_new();
    }

    /// Returns the number of cached previews.
    pub fn len(&self) -> (n: usize)
        ensures
            n == self@.entries.dom().len(),
    {
        entry_table_len(&self.path_cache)
    }

    /// Checks whether the cache holds no preview.
    pub fn is_empty(&self) -> (empty: bool)
        requires
            self.wf(),
        ensures
            empty == (self@.entries.dom().len() == 0),
            empty == (self@.entries == Map::<Seq<char>, PreviewCacheEntry>::empty()),
    {
        let n = entry_table_len(&self.path_cache);
        proof {
            if n == 0 {
                assert(self@.entries.dom() =~= Set::empty());
                assert(self@.entries =~= Map::<Seq<char>, PreviewCacheEntry>::empty());
            }
        }
        n == 0
    }
}

} // verus!
