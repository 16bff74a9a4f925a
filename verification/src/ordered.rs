//! Maps and sets of paths, kept in the order of their paths.
use vstd::prelude::*;

use crate::text::{relate, Relation};

verus! {

/// The paths come in strictly increasing order, so none occurs twice.
pub open spec fn strictly_increasing(keys: Seq<Seq<char>>) -> bool {
    forall|i: int, j: int| 0 <= i < j < keys.len() ==> crate::text::text_less(#[trigger] keys[i], #[trigger] keys[j])
}

/// In a strictly increasing sequence a path stands at one place only.
pub proof fn lemma_increasing_distinct(keys: Seq<Seq<char>>)
    requires
        strictly_increasing(keys),
    ensures
        keys.no_duplicates(),
{
    assert forall|i: int, j: int| 0 <= i < keys.len() && 0 <= j < keys.len() && i != j implies keys[i]
        != keys[j] by {
        if i < j {
            crate::text::lemma_bytes_less_irreflexive(crate::text::utf8(keys[i]));
        } else {
            crate::text::lemma_bytes_less_irreflexive(crate::text::utf8(keys[j]));
        }
    }
}

/// A map from paths to values.
#[derive(Debug)]
pub struct PathMap<V> {
    paths: Vec<String>,
    values: Vec<V>,
}

impl<V> PathMap<V> {
    /// The paths of the map, in increasing order.
    pub closed spec fn keys(&self) -> Seq<Seq<char>> {
        Seq::new(self.paths@.len(), |i: int| self.paths@[i]@)
    }

    /// The invariant: one value for each path, the paths strictly increasing.
    pub closed spec fn ordered(&self) -> bool {
        &&& self.paths@.len() == self.values@.len()
        &&& strictly_increasing(self.keys())
    }

    #[verifier::type_invariant]
    spec fn inv(&self) -> bool {
        self.ordered()
    }

    /// What an ordered map holds.
    pub proof fn lemma_contents(&self)
        requires
            self.ordered(),
        ensures
            strictly_increasing(self.keys()),
            self.keys().no_duplicates(),
            forall|k: Seq<char>| #[trigger] self@.contains_key(k) <==> self.keys().contains(k),
    {
        lemma_increasing_distinct(self.keys());
    }

    /// A map without entries.
    pub fn new() -> (r: Self)
        ensures
            r@ == Map::<Seq<char>, V>::empty(),
            r.keys() == Seq::<Seq<char>>::empty(),
            r.ordered(),
    {
        let r = PathMap { paths: Vec::new(), values: Vec::new() };
        assert(r@ =~= Map::<Seq<char>, V>::empty());
        r
    }

    /// The number of entries.
    pub fn len(&self) -> (r: usize)
        ensures
            r == self.keys().len(),
            self.ordered(),
    {
        proof {
            use_type_invariant(self);
        }
        self.paths.len()
    }

    /// Whether there are no entries.
    pub fn is_empty(&self) -> (r: bool)
        ensures
            r == (self.keys().len() == 0),
    {
        self.paths.len() == 0
    }

    /// The path at a place in the order.
    pub fn path_at(&self, at: usize) -> (r: &String)
        requires
            at < self.keys().len(),
        ensures
            r@ == self.keys()[at as int],
            self@.contains_key(r@),
    {
        proof {
            use_type_invariant(self);
            self.lemma_contents();
            assert(self.keys().contains(self.keys()[at as int]));
        }
        &self.paths[at]
    }

    /// The value at a place in the order.
    pub fn value_at(&self, at: usize) -> (r: &V)
        requires
            at < self.keys().len(),
        ensures
            *r == self@[self.keys()[at as int]],
    {
        proof {
            use_type_invariant(self);
            self.lemma_value(at as int);
        }
        &self.values[at]
    }

    proof fn lemma_value(&self, at: int)
        requires
            self.ordered(),
            0 <= at < self.keys().len(),
        ensures
            self@.contains_key(self.keys()[at]),
            self@[self.keys()[at]] == self.values@[at],
    {
        lemma_increasing_distinct(self.keys());
        assert(self.keys().contains(self.keys()[at]));
        assert(self.keys().index_of(self.keys()[at]) == at);
    }

    /// Where `path` is, or where it would have to be put.
    fn locate(&self, path: &str) -> (r: (bool, usize))
        ensures
            r.1 <= self.keys().len(),
            r.0 ==> r.1 < self.keys().len() && self.keys()[r.1 as int] == path@,
            r.0 == self@.contains_key(path@),
            !r.0 ==> (forall|i: int| 0 <= i < r.1 ==> crate::text::text_less(#[trigger] self.keys()[i], path@)),
            !r.0 ==> (forall|i: int|
                r.1 <= i < self.keys().len() ==> crate::text::text_less(path@, #[trigger] self.keys()[i])),
    {
        proof {
            use_type_invariant(self);
        }
        let mut low: usize = 0;
        let mut high: usize = self.paths.len();
        while low < high
            invariant
                self.ordered(),
                low <= high <= self.paths@.len(),
                forall|i: int| 0 <= i < low ==> crate::text::text_less(#[trigger] self.keys()[i], path@),
                forall|i: int|
                    high <= i < self.keys().len() ==> crate::text::text_less(path@, #[trigger] self.keys()[i]),
            decreases high - low,
        {
            let middle: usize = low + (high - low) / 2;
            let ghost keys = self.keys();
            match relate(self.paths[middle].as_str(), path) {
                Relation::Same => {
                    assert(keys.contains(keys[middle as int]));
                    return (true, middle);
                },
                Relation::Before => {
                    proof {
                        assert forall|i: int| 0 <= i <= middle implies crate::text::text_less(#[trigger] keys[i], path@) by {
                            if i < middle {
                                crate::text::lemma_text_less_transitive(keys[i], keys[middle as int], path@);
                            }
                        }
                    }
                    low = middle + 1;
                },
                Relation::After => {
                    proof {
                        assert forall|i: int| middle <= i < keys.len() implies crate::text::text_less(path@, #[trigger] keys[i]) by {
                            if middle < i {
                                crate::text::lemma_text_less_transitive(path@, keys[middle as int], keys[i]);
                            }
                        }
                    }
                    high = middle;
                },
            }
        }
        proof {
            if self.keys().contains(path@) {
                let i = self.keys().index_of(path@);
                crate::text::lemma_bytes_less_irreflexive(crate::text::utf8(path@));
                assert(self.keys()[i] == path@);
                assert(false);
            }
        }
        (false, low)
    }

    /// The value of a path, if it has one.
    pub fn get(&self, path: &str) -> (r: Option<&V>)
        ensures
            r is Some == self@.contains_key(path@),
            r matches Some(value) ==> *value == self@[path@],
    {
        proof {
            use_type_invariant(self);
        }
        let (found, at) = self.locate(path);
        if found {
            proof {
                self.lemma_value(at as int);
            }
            Some(&self.values[at])
        } else {
            None
        }
    }

    /// Whether a path has a value.
    pub fn contains_key(&self, path: &str) -> (r: bool)
        ensures
            r == self@.contains_key(path@),
    {
        self.locate(path).0
    }

    /// Gives a path its value, in place of any value it had.
    pub fn insert(&mut self, path: String, value: V)
        ensures
            final(self)@ == old(self)@.insert(path@, value),
            final(self).ordered(),
            old(self)@.contains_key(path@) ==> final(self).keys() == old(self).keys(),
            !old(self)@.contains_key(path@) ==> exists|at: int|
                0 <= at <= old(self).keys().len() && final(self).keys() == #[trigger] old(self).keys().insert(at, path@),
    {
        proof {
            use_type_invariant(&*self);
        }
        let ghost before = *self;
        let (found, at) = self.locate(path.as_str());
        let mut fresh = PathMap { paths: Vec::new(), values: Vec::new() };
        std::mem::swap(self, &mut fresh);
        let PathMap { paths: mut paths, values: mut values } = fresh;
        if found {
            values.set(at, value);
        } else {
            paths.insert(at, path);
            values.insert(at, value);
        }
        let ghost keys = Seq::new(paths@.len(), |i: int| paths@[i]@);
        proof {
            if found {
                assert(keys =~= before.keys());
            } else {
                assert(keys =~= before.keys().insert(at as int, path@));
                assert forall|i: int, j: int| 0 <= i < j < keys.len() implies crate::text::text_less(#[trigger] keys[i], #[trigger] keys[j]) by {
                    let before_keys = before.keys();
                    let x = if i < at { before_keys[i] } else if i == at { path@ } else { before_keys[i - 1] };
                    let y = if j < at { before_keys[j] } else if j == at { path@ } else { before_keys[j - 1] };
                    assert(keys[i] == x);
                    assert(keys[j] == y);
                }
            }
        }
        *self = PathMap { paths, values };
        proof {
            lemma_insert(before, *self, path@, value, at as int, found);
        }
    }
}

impl<V> PathMap<V> {
    /// Takes a path and its value out of the map.
    pub fn remove(&mut self, path: &str)
        ensures
            final(self)@ == old(self)@.remove(path@),
            final(self).ordered(),
    {
        proof {
            use_type_invariant(&*self);
        }
        let ghost before = *self;
        let (found, at) = self.locate(path);
        if found {
            let mut fresh = PathMap { paths: Vec::new(), values: Vec::new() };
            std::mem::swap(self, &mut fresh);
            let PathMap { paths: mut paths, values: mut values } = fresh;
            paths.remove(at);
            values.remove(at);
            let ghost keys = Seq::new(paths@.len(), |i: int| paths@[i]@);
            proof {
                assert(keys =~= before.keys().remove(at as int));
                assert forall|i: int, j: int| 0 <= i < j < keys.len() implies crate::text::text_less(
                    #[trigger] keys[i],
                    #[trigger] keys[j],
                ) by {
                    let x = if i < at { i } else { i + 1 };
                    let y = if j < at { j } else { j + 1 };
                    assert(before.keys()[x] == keys[i]);
                    assert(before.keys()[y] == keys[j]);
                }
            }
            *self = PathMap { paths, values };
            proof {
                lemma_remove(before, *self, path@, at as int);
            }
        } else {
            assert(self@ =~= before@.remove(path@));
        }
    }
}

proof fn lemma_remove<V>(before: PathMap<V>, after: PathMap<V>, path: Seq<char>, at: int)
    requires
        before.ordered(),
        after.ordered(),
        0 <= at < before.keys().len(),
        before.keys()[at] == path,
        after.keys() == before.keys().remove(at),
        after.values@ == before.values@.remove(at),
    ensures
        after@ == before@.remove(path),
{
    before.lemma_contents();
    after.lemma_contents();
    let b = before.keys();
    let a = after.keys();
    assert forall|k: Seq<char>| #[trigger] after@.contains_key(k) <==> before@.remove(path).contains_key(k) by {
        if a.contains(k) {
            let i = a.index_of(k);
            let j = if i < at { i } else { i + 1 };
            assert(b[j] == k);
        }
        if b.contains(k) && k != path {
            let j = b.index_of(k);
            let i = if j < at { j } else { j - 1 };
            assert(a[i] == k);
        }
    }
    assert forall|k: Seq<char>| #[trigger] after@.contains_key(k) implies after@[k] == before@.remove(path)[k] by {
        let i = a.index_of(k);
        let j = if i < at { i } else { i + 1 };
        assert(a[i] == k);
        assert(b[j] == k);
        after.lemma_value(i);
        before.lemma_value(j);
    }
    assert(after@ =~= before@.remove(path));
}

proof fn lemma_insert<V>(before: PathMap<V>, after: PathMap<V>, path: Seq<char>, value: V, at: int, found: bool)
    requires
        before.ordered(),
        after.ordered(),
        found ==> 0 <= at < before.keys().len() && before.keys()[at] == path && after.keys() == before.keys()
            && after.values@ == before.values@.update(at, value),
        !found ==> 0 <= at <= before.keys().len() && !before.keys().contains(path) && after.keys()
            == before.keys().insert(at, path) && after.values@ == before.values@.insert(at, value),
    ensures
        after@ == before@.insert(path, value),
{
    before.lemma_contents();
    after.lemma_contents();
    let b = before.keys();
    let a = after.keys();
    assert forall|k: Seq<char>| #[trigger] after@.contains_key(k) <==> before@.insert(path, value).contains_key(k) by {
        if b.contains(k) {
            let i = b.index_of(k);
            if found || i < at {
                assert(a[i] == k);
            } else {
                assert(a[i + 1] == k);
            }
        }
        if k == path {
            assert(a[at] == k);
        }
        if a.contains(k) && k != path {
            let i = a.index_of(k);
            if found || i < at {
                assert(b[i] == k);
            } else {
                assert(b[i - 1] == k);
            }
        }
    }
    assert forall|k: Seq<char>| #[trigger] after@.contains_key(k) implies after@[k] == before@.insert(path, value)[k] by {
        let i = a.index_of(k);
        assert(a[i] == k);
        after.lemma_value(i);
        if k != path {
            if found || i < at {
                assert(b[i] == k);
                before.lemma_value(i);
            } else {
                assert(b[i - 1] == k);
                before.lemma_value(i - 1);
            }
        } else {
            assert(a[at] == path);
            after.lemma_value(at);
        }
    }
    assert(after@ =~= before@.insert(path, value));
}

impl<V> View for PathMap<V> {
    type V = Map<Seq<char>, V>;

    closed spec fn view(&self) -> Map<Seq<char>, V> {
        Map::new(|k: Seq<char>| self.keys().contains(k), |k: Seq<char>| self.values@[self.keys().index_of(k)])
    }
}

impl<V> Default for PathMap<V> {
    fn default() -> (r: Self)
        ensures
            r@ == Map::<Seq<char>, V>::empty(),
            r.keys() == Seq::<Seq<char>>::empty(),
            r.ordered(),
    {
        PathMap::new()
    }
}

/// A set of paths.
#[derive(Debug)]
pub struct PathSet {
    map: PathMap<()>,
}

impl PathSet {
    /// The paths of the set, in increasing order.
    pub closed spec fn keys(&self) -> Seq<Seq<char>> {
        self.map.keys()
    }

    /// The invariant: the paths are strictly increasing.
    pub closed spec fn ordered(&self) -> bool {
        self.map.ordered()
    }

    /// What an ordered set holds.
    pub proof fn lemma_contents(&self)
        requires
            self.ordered(),
        ensures
            strictly_increasing(self.keys()),
            forall|k: Seq<char>| #[trigger] self@.contains(k) <==> self.keys().contains(k),
    {
        self.map.lemma_contents();
    }

    /// A set without paths.
    pub fn new() -> (r: Self)
        ensures
            r@ == Set::<Seq<char>>::empty(),
            r.keys() == Seq::<Seq<char>>::empty(),
            r.ordered(),
    {
        let r = PathSet { map: PathMap::new() };
        assert(r@ =~= Set::<Seq<char>>::empty());
        r
    }

    /// The number of paths.
    pub fn len(&self) -> (r: usize)
        ensures
            r == self.keys().len(),
            self.ordered(),
    {
        self.map.len()
    }

    /// The path at a place in the order.
    pub fn path_at(&self, at: usize) -> (r: &String)
        requires
            at < self.keys().len(),
        ensures
            r@ == self.keys()[at as int],
            self@.contains(r@),
    {
        self.map.path_at(at)
    }

    /// Whether a path is in the set.
    pub fn contains(&self, path: &str) -> (r: bool)
        ensures
            r == self@.contains(path@),
    {
        self.map.contains_key(path)
    }

    /// Adds a path.
    pub fn insert(&mut self, path: String)
        ensures
            final(self)@ == old(self)@.insert(path@),
            final(self).ordered(),
    {
        self.map.insert(path, ());
        assert(self@ =~= old(self)@.insert(path@));
    }

    /// The paths as a list, in increasing order.
    pub fn into_paths(self) -> (r: Vec<String>)
        ensures
            Seq::new(r@.len(), |i: int| r@[i]@) == self.keys(),
            strictly_increasing(self.keys()),
            forall|k: Seq<char>| #[trigger] self@.contains(k) <==> self.keys().contains(k),
    {
        let n: usize = self.len();
        proof {
            self.lemma_contents();
        }
        let mut r: Vec<String> = Vec::new();
        for i in 0..n
            invariant
                n == self.keys().len(),
                r@.len() == i,
                forall|j: int| 0 <= j < i ==> (#[trigger] r@[j])@ == self.keys()[j],
        {
            r.push(self.path_at(i).clone());
        }
        assert(Seq::new(r@.len(), |i: int| r@[i]@) =~= self.keys());
        r
    }
}

impl View for PathSet {
    type V = Set<Seq<char>>;

    closed spec fn view(&self) -> Set<Seq<char>> {
        self.map@.dom()
    }
}

impl Default for PathSet {
    fn default() -> (r: Self)
        ensures
            r@ == Set::<Seq<char>>::empty(),
            r.keys() == Seq::<Seq<char>>::empty(),
    {
        PathSet::new()
    }
}

} // verus!
