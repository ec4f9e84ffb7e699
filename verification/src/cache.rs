//! A cache of layouts, keyed by the root's path, the zoom factor and the
//! layout strategy.

use vstd::prelude::*;
use crate::layout::{LayoutType, VisualSquare};

verus! {

/// What a cached layout was computed for.
pub struct CacheKey {
    /// Path of the directory that was laid out.
    pub root_path: String,
    /// Zoom factor that it was laid out at.
    pub zoom: i64,
    /// Strategy that laid it out.
    pub layout_type: LayoutType,
}

/// The model of a key: the text of the path, the zoom and the strategy.
pub type KeyView = (Seq<char>, i64, LayoutType);

impl View for CacheKey {
    type V = KeyView;

    open spec fn view(&self) -> KeyView {
        (self.root_path@, self.zoom, self.layout_type)
    }
}

/// A layout with what it was computed for.
pub struct CacheEntry {
    pub key: CacheKey,
    pub squares: Vec<VisualSquare>,
}

/// Layouts that were computed before, none of them twice for the same key.
pub struct LayoutCache {
    pub entries: Vec<CacheEntry>,
}

/// No two entries have the same key.
pub open spec fn distinct_keys(entries: Seq<CacheEntry>) -> bool {
    forall|i: int, j: int|
        0 <= i < j < entries.len() ==> (#[trigger] entries[i]).key@ != (#[trigger] entries[j]).key@
}

/// Whether some entry has the key.
pub open spec fn has_key(entries: Seq<CacheEntry>, key: KeyView) -> bool {
    exists|i: int| 0 <= i < entries.len() && (#[trigger] entries[i]).key@ == key
}

/// Position of an entry with the key.
pub open spec fn position_of(entries: Seq<CacheEntry>, key: KeyView) -> int {
    choose|i: int| 0 <= i < entries.len() && (#[trigger] entries[i]).key@ == key
}

/// The entries as a map from keys to layouts.
pub open spec fn entries_map(entries: Seq<CacheEntry>) -> Map<KeyView, Seq<VisualSquare>> {
    Map::new(
        |key: KeyView| has_key(entries, key),
        |key: KeyView| entries[position_of(entries, key)].squares@,
    )
}

/// Where keys are distinct, the map holds the layout of each entry under
/// the entry's key.
pub proof fn lemma_entries_map(entries: Seq<CacheEntry>, i: int)
    requires
        distinct_keys(entries),
        0 <= i < entries.len(),
    ensures
        entries_map(entries).contains_key(entries[i].key@),
        entries_map(entries)[entries[i].key@] == entries[i].squares@,
{
    let key = entries[i].key@;
    assert(has_key(entries, key));
    let p = position_of(entries, key);
    assert(0 <= p < entries.len() && entries[p].key@ == key);
    if p < i {
        assert(entries[p].key@ != entries[i].key@);
    } else if i < p {
        assert(entries[i].key@ != entries[p].key@);
    }
}

impl View for LayoutCache {
    type V = Map<KeyView, Seq<VisualSquare>>;

    open spec fn view(&self) -> Map<KeyView, Seq<VisualSquare>> {
        entries_map(self.entries@)
    }
}

/// A copy of a list of squares.
pub fn copy_squares(squares: &Vec<VisualSquare>) -> (copy: Vec<VisualSquare>)
    ensures
        copy@ == squares@,
{
    let mut copy: Vec<VisualSquare> = Vec::new();
    let n: usize = squares.len();
    let mut i: usize = 0;
    while i < n
        invariant
            n == squares@.len(),
            i <= n,
            copy@.len() == i,
            forall|j: int| 0 <= j < i ==> copy@[j] == squares@[j],
        decreases n - i,
    {
        copy.push(squares[i]);
        i = i + 1;
    }
    assert(copy@ =~= squares@);
    copy
}

impl LayoutCache {
    /// No key is cached twice.
    pub open spec fn wf(self) -> bool {
        distinct_keys(self.entries@)
    }

    /// An empty cache.
    pub fn new() -> (cache: LayoutCache)
        ensures
            cache.wf(),
            cache@ == Map::<KeyView, Seq<VisualSquare>>::empty(),
    {
        let cache = LayoutCache { entries: Vec::new() };
        assert(cache@ =~= Map::<KeyView, Seq<VisualSquare>>::empty());
        cache
    }

    /// Forgets every layout.
    pub fn clear(&mut self)
        ensures
            final(self).wf(),
            final(self)@ == Map::<KeyView, Seq<VisualSquare>>::empty(),
    {
        self.entries.clear();
        assert(self@ =~= Map::<KeyView, Seq<VisualSquare>>::empty());
    }

    /// Number of cached layouts.
    pub fn len(&self) -> (n: usize)
        ensures
            n == self.entries@.len(),
    {
        self.entries.len()
    }

    /// Position of the entry with the key, if there is one.
    pub fn find(&self, root_path: &String, zoom: i64, layout_type: LayoutType) -> (found: Option<
        usize,
    >)
        ensures
            match found {
                Some(i) => i < self.entries@.len() && self.entries@[i as int].key@ == (
                    root_path@,
                    zoom,
                    layout_type,
                ),
                None => !has_key(self.entries@, (root_path@, zoom, layout_type)),
            },
    {
        let n: usize = self.entries.len();
        let mut i: usize = 0;
        while i < n
            invariant
                n == self.entries@.len(),
                i <= n,
                forall|j: int|
                    0 <= j < i ==> (#[trigger] self.entries@[j]).key@ != (
                        root_path@,
                        zoom,
                        layout_type,
                    ),
            decreases n - i,
        {
            let key = &self.entries[i].key;
            if key.zoom == zoom && key.layout_type == layout_type && key.root_path == *root_path {
                return Some(i);
            }
            i = i + 1;
        }
        None
    }

    /// A copy of the layout cached under the key, if there is one.
    pub fn get(&self, root_path: &String, zoom: i64, layout_type: LayoutType) -> (cached: Option<
        Vec<VisualSquare>,
    >)
        requires
            self.wf(),
        ensures
            match cached {
                Some(squares) => self@.contains_key((root_path@, zoom, layout_type)) && squares@
                    == self@[(root_path@, zoom, layout_type)],
                None => !self@.contains_key((root_path@, zoom, layout_type)),
            },
    {
        match self.find(root_path, zoom, layout_type) {
            Some(i) => {
                proof {
                    lemma_entries_map(self.entries@, i as int);
                }
                Some(copy_squares(&self.entries[i].squares))
            },
            None => None,
        }
    }

    /// Caches a layout under the key, in place of any cached under it
    /// before.
    pub fn insert(
        &mut self,
        root_path: String,
        zoom: i64,
        layout_type: LayoutType,
        squares: Vec<VisualSquare>,
    )
        requires
            old(self).wf(),
        ensures
            final(self).wf(),
            final(self)@ == old(self)@.insert((root_path@, zoom, layout_type), squares@),
    {
        let ghost key = (root_path@, zoom, layout_type);
        let ghost before = self.entries@;
        let found = self.find(&root_path, zoom, layout_type);
        let entry = CacheEntry { key: CacheKey { root_path, zoom, layout_type }, squares };
        match found {
            Some(i) => {
                self.entries.set(i, entry);
                proof {
                    let after = self.entries@;
                    assert forall|j: int| 0 <= j < after.len() implies (#[trigger] after[j]).key@
                        == before[j].key@ by {}
                    assert(distinct_keys(after));
                    assert forall|k: KeyView| has_key(after, k) == (has_key(before, k) || k
                        == key) by {
                        if has_key(after, k) {
                            let j = position_of(after, k);
                            assert(before[j].key@ == k);
                        }
                        if has_key(before, k) {
                            let j = position_of(before, k);
                            assert(after[j].key@ == k);
                        }
                        if k == key {
                            assert(after[i as int].key@ == k);
                        }
                    }
                    assert forall|k: KeyView| has_key(after, k) implies (#[trigger] entries_map(
                        after,
                    )[k]) == old(self)@.insert(key, squares@)[k] by {
                        let j = position_of(after, k);
                        lemma_entries_map(after, j);
                        if k != key {
                            assert(before[j].key@ == k);
                            lemma_entries_map(before, j);
                        } else {
                            if j < i {
                                assert(after[j].key@ != after[i as int].key@);
                            } else if i < j {
                                assert(after[i as int].key@ != after[j].key@);
                            }
                        }
                    }
                    assert(self@ =~= old(self)@.insert(key, squares@));
                }
            },
            None => {
                self.entries.push(entry);
                proof {
                    let after = self.entries@;
                    assert forall|a: int, b: int| 0 <= a < b < after.len() implies (#[trigger] after[a]).key@
                        != (#[trigger] after[b]).key@ by {
                        if b < before.len() {
                            assert(after[a] == before[a] && after[b] == before[b]);
                        } else {
                            assert(after[a] == before[a]);
                            assert(before[a].key@ != key);
                        }
                    }
                    assert forall|k: KeyView| has_key(after, k) == (has_key(before, k) || k
                        == key) by {
                        if has_key(after, k) {
                            let j = position_of(after, k);
                            if j < before.len() {
                                assert(before[j].key@ == k);
                            }
                        }
                        if has_key(before, k) {
                            let j = position_of(before, k);
                            assert(after[j].key@ == k);
                        }
                        if k == key {
                            assert(after[before.len() as int].key@ == k);
                        }
                    }
                    assert forall|k: KeyView| has_key(after, k) implies (#[trigger] entries_map(
                        after,
                    )[k]) == old(self)@.insert(key, squares@)[k] by {
                        let j = position_of(after, k);
                        lemma_entries_map(after, j);
                        if j < before.len() {
                            assert(before[j].key@ == k);
                            lemma_entries_map(before, j);
                        }
                    }
                    assert(self@ =~= old(self)@.insert(key, squares@));
                }
            },
        }
    }

    /// Forgets the layout cached under the key.
    pub fn remove(&mut self, root_path: &String, zoom: i64, layout_type: LayoutType)
        requires
            old(self).wf(),
        ensures
            final(self).wf(),
            final(self)@ == old(self)@.remove((root_path@, zoom, layout_type)),
    {
        let ghost key = (root_path@, zoom, layout_type);
        let ghost before = self.entries@;
        match self.find(root_path, zoom, layout_type) {
            Some(i) => {
                let _removed = self.entries.remove(i);
                proof {
                    let after = self.entries@;
                    assert(after == before.remove(i as int));
                    assert forall|j: int| 0 <= j < after.len() implies (#[trigger] after[j]) == (if j
                        < i {
                        before[j]
                    } else {
                        before[j + 1]
                    }) by {}
                    assert forall|a: int, b: int| 0 <= a < b < after.len() implies (#[trigger] after[a]).key@
                        != (#[trigger] after[b]).key@ by {
                        let a0 = if a < i {
                            a
                        } else {
                            a + 1
                        };
                        let b0 = if b < i {
                            b
                        } else {
                            b + 1
                        };
                        assert(after[a] == before[a0] && after[b] == before[b0]);
                        assert(before[a0].key@ != before[b0].key@);
                    }
                    assert forall|k: KeyView| has_key(after, k) == (has_key(before, k) && k
                        != key) by {
                        if has_key(after, k) {
                            let j = position_of(after, k);
                            let j0 = if j < i {
                                j
                            } else {
                                j + 1
                            };
                            assert(before[j0].key@ == k);
                            if k == key {
                                if j0 < i {
                                    assert(before[j0].key@ != before[i as int].key@);
                                } else {
                                    assert(before[i as int].key@ != before[j0].key@);
                                }
                            }
                        }
                        if has_key(before, k) && k != key {
                            let j = position_of(before, k);
                            if j < i {
                                assert(after[j].key@ == k);
                            } else {
                                assert(after[j - 1].key@ == k);
                            }
                        }
                    }
                    assert forall|k: KeyView| has_key(after, k) implies (#[trigger] entries_map(
                        after,
                    )[k]) == old(self)@.remove(key)[k] by {
                        let j = position_of(after, k);
                        lemma_entries_map(after, j);
                        let j0 = if j < i {
                            j
                        } else {
                            j + 1
                        };
                        assert(before[j0].key@ == k);
                        lemma_entries_map(before, j0);
                    }
                    assert(self@ =~= old(self)@.remove(key));
                }
            },
            None => {
                assert(self@ =~= old(self)@.remove(key));
            },
        }
    }
}

} // verus!
