//! A map from text paths (parameter paths, field names) to values, kept in
//! insertion order with each path at most once.

use vstd::prelude::*;
use vstd::string::*;

verus! {

/// One stored path and its value.
#[derive(Debug, Clone)]
pub struct PathEntry<V> {
    pub path: String,
    pub value: V,
}

/// A map keyed by paths. Each path occurs at most once; paths keep the order
/// in which they were first inserted.
#[derive(Debug, Clone)]
pub struct PathMap<V> {
    entries: Vec<PathEntry<V>>,
}

impl<V> PathMap<V> {
    /// The paths, in insertion order.
    pub closed spec fn path_order(&self) -> Seq<Seq<char>> {
        self.entries@.map_values(|e: PathEntry<V>| e.path@)
    }

    /// No path is stored twice.
    pub closed spec fn wf(&self) -> bool {
        forall|i: int, j: int|
            0 <= i < self.entries@.len() && 0 <= j < self.entries@.len() && i != j
                ==> #[trigger] self.entries@[i].path@ != #[trigger] self.entries@[j].path@
    }

    closed spec fn has_path(&self, p: Seq<char>) -> bool {
        exists|i: int| 0 <= i < self.entries@.len() && #[trigger] self.entries@[i].path@ == p
    }

    closed spec fn index_of_path(&self, p: Seq<char>) -> int {
        choose|i: int| 0 <= i < self.entries@.len() && #[trigger] self.entries@[i].path@ == p
    }

    /// The map from each stored path to its value.
    pub closed spec fn view(&self) -> Map<Seq<char>, V> {
        Map::new(
            |p: Seq<char>| self.has_path(p),
            |p: Seq<char>| self.entries@[self.index_of_path(p)].value,
        )
    }

    proof fn lemma_index(&self, i: int)
        requires
            self.wf(),
            0 <= i < self.entries@.len(),
        ensures
            self.view().dom().contains(self.entries@[i].path@),
            self.view()[self.entries@[i].path@] == self.entries@[i].value,
    {
        let p = self.entries@[i].path@;
        assert(self.has_path(p));
        let k = self.index_of_path(p);
        assert(self.entries@[k].path@ == p);
    }

    /// The stored paths are exactly the keys of the view, each once.
    pub proof fn lemma_path_order(&self)
        requires
            self.wf(),
        ensures
            self.path_order().no_duplicates(),
            self.path_order().to_set() == self.view().dom(),
            self.path_order().len() == self.view().dom().len(),
    {
        let s = self.path_order();
        assert forall|i: int, j: int| 0 <= i < s.len() && 0 <= j < s.len() && i != j implies s[i]
            != s[j] by {
            assert(s[i] == self.entries@[i].path@);
            assert(s[j] == self.entries@[j].path@);
        }
        assert forall|p: Seq<char>| s.to_set().contains(p) <==> self.view().dom().contains(p) by {
            if s.to_set().contains(p) {
                let i = choose|i: int| 0 <= i < s.len() && s[i] == p;
                assert(self.entries@[i].path@ == p);
            }
            if self.view().dom().contains(p) {
                let i = self.index_of_path(p);
                assert(s[i] == p);
            }
        }
        assert(s.to_set() =~= self.view().dom());
        s.unique_seq_to_set();
    }

    /// An empty map.
    pub fn new() -> (m: Self)
        ensures
            m.wf(),
            m.view() == Map::<Seq<char>, V>::empty(),
            m.path_order() == Seq::<Seq<char>>::empty(),
    {
        let m = PathMap { entries: Vec::new() };
        assert(m.view() =~= Map::<Seq<char>, V>::empty());
        assert(m.path_order() =~= Seq::<Seq<char>>::empty());
        m
    }

    /// Number of stored paths.
    pub fn len(&self) -> (n: usize)
        requires
            self.wf(),
        ensures
            n == self.view().dom().len(),
            n == self.path_order().len(),
    {
        proof {
            self.lemma_path_order();
        }
        self.entries.len()
    }

    /// Position of `path` among the entries.
    fn find(&self, path: &str) -> (r: Option<usize>)
        requires
            self.wf(),
        ensures
            r is None <==> !self.view().dom().contains(path@),
            r matches Some(i) ==> i < self.entries@.len() && self.entries@[i as int].path@
                == path@,
    {
        let key = path.to_owned();
        let mut i: usize = 0;
        while i < self.entries.len()
            invariant
                i <= self.entries@.len(),
                key@ == path@,
                forall|j: int| 0 <= j < i ==> self.entries@[j].path@ != path@,
            decreases self.entries@.len() - i,
        {
            if self.entries[i].path == key {
                return Some(i);
            }
            i = i + 1;
        }
        proof {
            if self.view().dom().contains(path@) {
                let k = self.index_of_path(path@);
                assert(self.entries@[k].path@ == path@);
            }
        }
        None
    }

    /// Whether `path` is stored.
    pub fn contains_key(&self, path: &str) -> (b: bool)
        requires
            self.wf(),
        ensures
            b == self.view().dom().contains(path@),
    {
        self.find(path).is_some()
    }

    /// The value stored for `path`, if any.
    pub fn get(&self, path: &str) -> (r: Option<&V>)
        requires
            self.wf(),
        ensures
            r is Some <==> self.view().dom().contains(path@),
            r matches Some(v) ==> *v == self.view()[path@],
    {
        match self.find(path) {
            Some(i) => {
                proof {
                    self.lemma_index(i as int);
                }
                Some(&self.entries[i].value)
            },
            None => None,
        }
    }

    /// Stores `value` under `path`, replacing any earlier value. A new path
    /// goes after all stored paths; a stored path keeps its place.
    pub fn insert(&mut self, path: String, value: V)
        requires
            old(self).wf(),
        ensures
            final(self).wf(),
            final(self).view() == old(self).view().insert(path@, value),
            old(self).view().dom().contains(path@) ==> final(self).path_order() == old(
                self,
            ).path_order(),
            !old(self).view().dom().contains(path@) ==> final(self).path_order() == old(
                self,
            ).path_order().push(path@),
    {
        let ghost old_map = *self;
        match self.find(path.as_str()) {
            Some(i) => {
                let ghost p = path@;
                self.entries.set(i, PathEntry { path, value });
                proof {
                    assert(self.entries@ == old_map.entries@.update(
                        i as int,
                        PathEntry { path: self.entries@[i as int].path, value },
                    ));
                    assert forall|a: int, b: int|
                        0 <= a < self.entries@.len() && 0 <= b < self.entries@.len() && a != b
                            implies #[trigger] self.entries@[a].path@
                        != #[trigger] self.entries@[b].path@ by {
                        assert(old_map.entries@[a].path@ == self.entries@[a].path@);
                        assert(old_map.entries@[b].path@ == self.entries@[b].path@);
                    }
                    self.lemma_view_after_update(old_map, i as int, p, value);
                    assert(self.path_order() =~= old_map.path_order());
                }
            },
            None => {
                let ghost p = path@;
                self.entries.push(PathEntry { path, value });
                proof {
                    let n = old_map.entries@.len() as int;
                    assert forall|a: int, b: int|
                        0 <= a < self.entries@.len() && 0 <= b < self.entries@.len() && a != b
                            implies #[trigger] self.entries@[a].path@
                        != #[trigger] self.entries@[b].path@ by {
                        if a < n && b < n {
                            assert(old_map.entries@[a].path@ == self.entries@[a].path@);
                            assert(old_map.entries@[b].path@ == self.entries@[b].path@);
                        } else if a < n {
                            assert(old_map.entries@[a].path@ == self.entries@[a].path@);
                            assert(old_map.has_path(self.entries@[a].path@));
                        } else if b < n {
                            assert(old_map.entries@[b].path@ == self.entries@[b].path@);
                            assert(old_map.has_path(self.entries@[b].path@));
                        }
                    }
                    self.lemma_view_after_push(old_map, p, value);
                    assert(self.path_order() =~= old_map.path_order().push(p));
                }
            },
        }
    }

    proof fn lemma_view_after_update(&self, old_map: Self, i: int, p: Seq<char>, value: V)
        requires
            old_map.wf(),
            self.wf(),
            0 <= i < old_map.entries@.len(),
            old_map.entries@[i].path@ == p,
            self.entries@.len() == old_map.entries@.len(),
            self.entries@[i].path@ == p,
            self.entries@[i].value == value,
            forall|j: int| 0 <= j < self.entries@.len() && j != i ==> self.entries@[j]
                == old_map.entries@[j],
        ensures
            self.view() == old_map.view().insert(p, value),
    {
        assert forall|q: Seq<char>| #![auto]
            self.view().dom().contains(q) <==> old_map.view().insert(p, value).dom().contains(
                q,
            ) by {
            if self.has_path(q) {
                let k = choose|k: int| 0 <= k < self.entries@.len() && self.entries@[k].path@ == q;
                if k != i {
                    assert(old_map.entries@[k].path@ == q);
                }
            }
            if old_map.has_path(q) {
                let k = choose|k: int|
                    0 <= k < old_map.entries@.len() && old_map.entries@[k].path@ == q;
                if k != i {
                    assert(self.entries@[k].path@ == q);
                }
            }
        }
        assert forall|q: Seq<char>| #[trigger] self.view().dom().contains(q) implies self.view()[q]
            == old_map.view().insert(p, value)[q] by {
            let k = self.index_of_path(q);
            assert(self.entries@[k].path@ == q);
            self.lemma_index(k);
            if q != p {
                assert(k != i);
                old_map.lemma_index(k);
            }
        }
        assert(self.view() =~= old_map.view().insert(p, value));
    }

    proof fn lemma_view_after_push(&self, old_map: Self, p: Seq<char>, value: V)
        requires
            old_map.wf(),
            self.wf(),
            !old_map.view().dom().contains(p),
            self.entries@ == old_map.entries@.push(PathEntry { path: self.entries@.last().path, value }),
            self.entries@.last().path@ == p,
        ensures
            self.view() == old_map.view().insert(p, value),
    {
        let n = old_map.entries@.len() as int;
        assert forall|q: Seq<char>| #![auto]
            self.view().dom().contains(q) <==> old_map.view().insert(p, value).dom().contains(
                q,
            ) by {
            if self.has_path(q) {
                let k = choose|k: int| 0 <= k < self.entries@.len() && self.entries@[k].path@ == q;
                if k < n {
                    assert(old_map.entries@[k].path@ == q);
                }
            }
            if old_map.has_path(q) {
                let k = choose|k: int|
                    0 <= k < old_map.entries@.len() && old_map.entries@[k].path@ == q;
                assert(self.entries@[k].path@ == q);
            }
            if q == p {
                assert(self.entries@[n].path@ == q);
            }
        }
        assert forall|q: Seq<char>| #[trigger] self.view().dom().contains(q) implies self.view()[q]
            == old_map.view().insert(p, value)[q] by {
            let k = self.index_of_path(q);
            assert(self.entries@[k].path@ == q);
            self.lemma_index(k);
            if k < n {
                assert(old_map.entries@[k] == self.entries@[k]);
                old_map.lemma_index(k);
            }
        }
        assert(self.view() =~= old_map.view().insert(p, value));
    }

    /// The stored paths, in insertion order.
    pub fn paths(&self) -> (r: Vec<&str>)
        requires
            self.wf(),
        ensures
            r@.map_values(|s: &str| s@) == self.path_order(),
    {
        let mut r: Vec<&str> = Vec::new();
        let mut i: usize = 0;
        while i < self.entries.len()
            invariant
                i <= self.entries@.len(),
                r@.map_values(|s: &str| s@) == self.path_order().take(i as int),
            decreases self.entries@.len() - i,
        {
            let ghost before = r@;
            let s = self.entries[i].path.as_str();
            assert(s@ == self.path_order()[i as int]);
            r.push(s);
            assert(r@.map_values(|s: &str| s@) =~= before.map_values(|s: &str| s@).push(s@));
            i = i + 1;
            assert(r@.map_values(|s: &str| s@) =~= self.path_order().take(i as int));
        }
        assert(self.path_order().take(i as int) =~= self.path_order());
        r
    }
}

} // verus!
