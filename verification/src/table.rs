//! Tables and sets keyed by names.

use crate::text;
use vstd::prelude::*;

verus! {

/// The keys of a list of entries.
pub open spec fn keys_of<V>(items: Seq<(String, V)>) -> Seq<Seq<char>> {
    items.map_values(|e: (String, V)| e.0@)
}

/// The map that a list of entries stands for.
pub open spec fn map_of<V>(items: Seq<(String, V)>) -> Map<Seq<char>, V>
    decreases items.len(),
{
    if items.len() == 0 {
        Map::empty()
    } else {
        map_of(items.drop_last()).insert(items.last().0@, items.last().1)
    }
}

/// What a list of entries with distinct keys maps to what.
pub proof fn lemma_map_of<V>(items: Seq<(String, V)>)
    requires
        keys_of(items).no_duplicates(),
    ensures
        map_of(items).dom().finite(),
        map_of(items).len() == items.len(),
        forall|k: Seq<char>| #[trigger]
            map_of(items).contains_key(k) <==> keys_of(items).contains(k),
        forall|i: int|
            0 <= i < items.len() ==> map_of(items).contains_key(#[trigger] items[i].0@) && map_of(
                items,
            )[items[i].0@] == items[i].1,
    decreases items.len(),
{
    if items.len() > 0 {
        let front = items.drop_last();
        let last = items.last();
        assert forall|i: int, j: int|
            0 <= i < keys_of(front).len() && 0 <= j < keys_of(front).len() && i != j implies keys_of(
            front,
        )[i] != keys_of(front)[j] by {
            assert(keys_of(front)[i] == keys_of(items)[i]);
            assert(keys_of(front)[j] == keys_of(items)[j]);
        }
        lemma_map_of(front);
        assert(!keys_of(front).contains(last.0@)) by {
            if keys_of(front).contains(last.0@) {
                let i = choose|i: int| 0 <= i < front.len() && keys_of(front)[i] == last.0@;
                assert(keys_of(items)[i] == keys_of(items)[items.len() - 1]);
            }
        }
        assert forall|k: Seq<char>| #[trigger]
            map_of(items).contains_key(k) <==> keys_of(items).contains(k) by {
            if keys_of(items).contains(k) {
                let i = choose|i: int| 0 <= i < items.len() && keys_of(items)[i] == k;
                if i < front.len() {
                    assert(keys_of(front)[i] == k);
                }
            }
            if keys_of(front).contains(k) {
                let i = choose|i: int| 0 <= i < front.len() && keys_of(front)[i] == k;
                assert(keys_of(items)[i] == k);
            }
            if k == last.0@ {
                assert(keys_of(items)[items.len() - 1] == k);
            }
        }
        assert forall|i: int| 0 <= i < items.len() implies map_of(items).contains_key(
            #[trigger] items[i].0@,
        ) && map_of(items)[items[i].0@] == items[i].1 by {
            if i < front.len() {
                assert(front[i].0@ == items[i].0@);
                assert(keys_of(front)[i] == items[i].0@);
                assert(keys_of(front).contains(items[i].0@));
            }
        }
    } else {
        assert(map_of(items) =~= Map::empty());
        assert(map_of(items).dom() =~= Set::empty());
    }
}

/// A map from names to values.
#[verifier::reject_recursive_types(V)]
pub struct Table<V> {
    items: Vec<(String, V)>,
}

impl<V> View for Table<V> {
    type V = Map<Seq<char>, V>;

    closed spec fn view(&self) -> Map<Seq<char>, V> {
        map_of(self.items@)
    }
}

impl<V> Table<V> {
    #[verifier::type_invariant]
    spec fn distinct(self) -> bool {
        keys_of(self.items@).no_duplicates()
    }

    /// The table without entries.
    pub fn new() -> (r: Table<V>)
        ensures
            r@ == Map::<Seq<char>, V>::empty(),
    {
        Table { items: Vec::new() }
    }

    /// The number of entries.
    pub fn len(&self) -> (r: usize)
        ensures
            r == self@.len(),
            self@.dom().finite(),
    {
        proof {
            use_type_invariant(self);
            lemma_map_of(self.items@);
        }
        self.items.len()
    }

    fn position(&self, key: &str) -> (r: Option<usize>)
        ensures
            r is None <==> !self@.contains_key(key@),
            r is Some ==> r->0 < self.items@.len() && self.items@[r->0 as int].0@ == key@
                && self@[key@] == self.items@[r->0 as int].1,
    {
        let mut i: usize = 0;
        while i < self.items.len()
            invariant
                0 <= i <= self.items@.len(),
                forall|k: int| 0 <= k < i ==> self.items@[k].0@ != key@,
            decreases self.items.len() - i,
        {
            if text::same(self.items[i].0.as_str(), key) {
                proof {
                    use_type_invariant(self);
                    lemma_map_of(self.items@);
                    assert(keys_of(self.items@)[i as int] == key@);
                    assert(self.items@[i as int].0@ == key@);
                }
                return Some(i);
            }
            i += 1;
        }
        proof {
            use_type_invariant(self);
            lemma_map_of(self.items@);
        }
        assert(!keys_of(self.items@).contains(key@)) by {
            assert forall|k: int| 0 <= k < self.items@.len() implies keys_of(self.items@)[k]
                != key@ by {
                assert(self.items@[k].0@ != key@);
            }
        }
        None
    }

    /// The value stored under `key`.
    pub fn get(&self, key: &str) -> (r: Option<&V>)
        ensures
            r == if self@.contains_key(key@) {
                Some(&self@[key@])
            } else {
                None
            },
    {
        match self.position(key) {
            Some(i) => Some(&self.items[i].1),
            None => None,
        }
    }

    /// Whether a value is stored under `key`.
    pub fn contains_key(&self, key: &str) -> (r: bool)
        ensures
            r == self@.contains_key(key@),
    {
        self.position(key).is_some()
    }

    /// Removes what is stored under `key` and hands it out.
    pub fn remove(&mut self, key: &str) -> (r: Option<V>)
        ensures
            final(self)@ == old(self)@.remove(key@),
            r == if old(self)@.contains_key(key@) {
                Some(old(self)@[key@])
            } else {
                None
            },
    {
        match self.position(key) {
            Some(i) => {
                let mut items: Vec<(String, V)> = Vec::new();
                proof {
                    use_type_invariant(&*self);
                }
                core::mem::swap(&mut items, &mut self.items);
                let ghost before = items@;
                let removed = items.remove(i);
                proof {
                    let keys = keys_of(before);
                    let after = keys_of(items@);
                    assert forall|a: int, b: int|
                        0 <= a < after.len() && 0 <= b < after.len() && a != b implies after[a]
                        != after[b] by {
                        let x = if a < i {
                            a
                        } else {
                            a + 1
                        };
                        let y = if b < i {
                            b
                        } else {
                            b + 1
                        };
                        assert(after[a] == keys[x]);
                        assert(after[b] == keys[y]);
                    }
                    lemma_map_of(before);
                    lemma_map_of(items@);
                    assert forall|k: Seq<char>| #[trigger]
                        map_of(items@).contains_key(k) <==> map_of(before).contains_key(k) && k
                            != key@ by {
                        if after.contains(k) {
                            let a = choose|a: int| 0 <= a < after.len() && after[a] == k;
                            let x = if a < i {
                                a
                            } else {
                                a + 1
                            };
                            assert(keys[x] == k);
                            assert(keys[i as int] == key@);
                        }
                        if keys.contains(k) && k != key@ {
                            let x = choose|x: int| 0 <= x < keys.len() && keys[x] == k;
                            let a = if x < i {
                                x
                            } else {
                                x - 1
                            };
                            assert(x != i);
                            assert(after[a] == k);
                        }
                    }
                    assert forall|k: Seq<char>| #[trigger]
                        map_of(items@).contains_key(k) implies map_of(items@)[k] == map_of(
                        before,
                    )[k] by {
                        let a = choose|a: int| 0 <= a < after.len() && after[a] == k;
                        let x = if a < i {
                            a
                        } else {
                            a + 1
                        };
                        assert(items@[a] == before[x]);
                        assert(items@[a].0@ == k);
                        assert(before[x].0@ == k);
                    }
                    assert(map_of(items@) =~= map_of(before).remove(key@));
                }
                self.items = items;
                Some(removed.1)
            },
            None => {
                assert(self@ =~= self@.remove(key@));
                None
            },
        }
    }

    /// Stores `value` under `key`, in place of what was there.
    pub fn insert(&mut self, key: String, value: V)
        ensures
            final(self)@ == old(self)@.insert(key@, value),
    {
        let _ = self.remove(key.as_str());
        let mut items: Vec<(String, V)> = Vec::new();
        proof {
            use_type_invariant(&*self);
            lemma_map_of(self.items@);
        }
        core::mem::swap(&mut items, &mut self.items);
        let ghost before = items@;
        items.push((key, value));
        proof {
            let keys = keys_of(before);
            let after = keys_of(items@);
            assert(items@.drop_last() =~= before);
            assert forall|a: int, b: int|
                0 <= a < after.len() && 0 <= b < after.len() && a != b implies after[a]
                != after[b] by {
                if a < before.len() {
                    assert(after[a] == keys[a]);
                    assert(keys.contains(keys[a]));
                }
                if b < before.len() {
                    assert(after[b] == keys[b]);
                    assert(keys.contains(keys[b]));
                }
            }
            assert(map_of(items@) =~= old(self)@.insert(key@, value));
        }
        self.items = items;
    }

    /// The names that have entries, each once.
    pub fn keys(&self) -> (r: Vec<String>)
        ensures
            text::views(r@).no_duplicates(),
            text::views(r@).to_set() =~= self@.dom(),
    {
        let mut out: Vec<String> = Vec::new();
        let mut i: usize = 0;
        proof {
            use_type_invariant(self);
        }
        while i < self.items.len()
            invariant
                0 <= i <= self.items@.len(),
                text::views(out@) == keys_of(self.items@).take(i as int),
            decreases self.items.len() - i,
        {
            let ghost before = out@;
            let name = self.items[i].0.as_str().to_owned();
            out.push(name);
            proof {
                text::lemma_views_push(before, name);
                assert(text::views(out@) =~= keys_of(self.items@).take(i as int + 1));
            }
            i += 1;
        }
        proof {
            assert(text::views(out@) =~= keys_of(self.items@));
            lemma_map_of(self.items@);
            assert forall|k: Seq<char>| text::views(out@).to_set().contains(k)
                == self@.dom().contains(k) by {
                assert(self@.contains_key(k) <==> keys_of(self.items@).contains(k));
            }
        }
        out
    }
}

/// A set of names.
pub struct NameSet {
    items: Vec<String>,
}

impl View for NameSet {
    type V = Set<Seq<char>>;

    closed spec fn view(&self) -> Set<Seq<char>> {
        text::views(self.items@).to_set()
    }
}

impl NameSet {
    #[verifier::type_invariant]
    spec fn distinct(self) -> bool {
        text::views(self.items@).no_duplicates()
    }

    /// The empty set.
    pub fn new() -> (r: NameSet)
        ensures
            r@ == Set::<Seq<char>>::empty(),
    {
        let r = NameSet { items: Vec::new() };
        assert(r@ =~= Set::<Seq<char>>::empty());
        r
    }

    /// The number of names.
    pub fn len(&self) -> (r: usize)
        ensures
            r == self@.len(),
            self@.finite(),
    {
        proof {
            use_type_invariant(self);
            text::views(self.items@).unique_seq_to_set();
        }
        self.items.len()
    }

    /// Whether there is no name.
    pub fn is_empty(&self) -> (r: bool)
        ensures
            r == (self@ == Set::<Seq<char>>::empty()),
    {
        let r = self.items.len() == 0;
        proof {
            if r {
                assert(self@ =~= Set::<Seq<char>>::empty());
            } else {
                assert(self@.contains(text::views(self.items@)[0]));
            }
        }
        r
    }

    fn position(&self, name: &str) -> (r: Option<usize>)
        ensures
            r is None <==> !self@.contains(name@),
            r is Some ==> r->0 < self.items@.len() && self.items@[r->0 as int]@ == name@,
    {
        let mut i: usize = 0;
        while i < self.items.len()
            invariant
                0 <= i <= self.items@.len(),
                forall|k: int| 0 <= k < i ==> self.items@[k]@ != name@,
            decreases self.items.len() - i,
        {
            if text::same(self.items[i].as_str(), name) {
                assert(text::views(self.items@)[i as int] == name@);
                return Some(i);
            }
            i += 1;
        }
        assert(!text::views(self.items@).contains(name@)) by {
            assert forall|k: int| 0 <= k < self.items@.len() implies text::views(self.items@)[k]
                != name@ by {
                assert(self.items@[k]@ != name@);
            }
        }
        None
    }

    /// Whether `name` is in the set.
    pub fn contains(&self, name: &str) -> (r: bool)
        ensures
            r == self@.contains(name@),
    {
        self.position(name).is_some()
    }

    /// Adds `name`.
    pub fn insert(&mut self, name: String)
        ensures
            final(self)@ == old(self)@.insert(name@),
    {
        if self.contains(name.as_str()) {
            assert(self@ =~= self@.insert(name@));
            return ;
        }
        let mut items: Vec<String> = Vec::new();
        proof {
            use_type_invariant(&*self);
        }
        core::mem::swap(&mut items, &mut self.items);
        let ghost before = items@;
        items.push(name);
        proof {
            text::lemma_views_push(before, name);
            let was = text::views(before);
            let now = text::views(items@);
            assert forall|a: int, b: int|
                0 <= a < now.len() && 0 <= b < now.len() && a != b implies now[a] != now[b] by {
                if a < was.len() {
                    assert(was.contains(was[a]));
                }
                if b < was.len() {
                    assert(was.contains(was[b]));
                }
            }
            assert(now.to_set() =~= was.to_set().insert(name@)) by {
                assert(now[was.len() as int] == name@);
                assert forall|k: Seq<char>| now.contains(k) <==> was.contains(k) || k == name@ by {
                    if was.contains(k) {
                        let i = choose|i: int| 0 <= i < was.len() && was[i] == k;
                        assert(now[i] == k);
                    }
                }
            }
        }
        self.items = items;
    }

    /// Takes `name` out.
    pub fn remove(&mut self, name: &str)
        ensures
            final(self)@ == old(self)@.remove(name@),
    {
        match self.position(name) {
            Some(i) => {
                let mut items: Vec<String> = Vec::new();
                proof {
                    use_type_invariant(&*self);
                }
                core::mem::swap(&mut items, &mut self.items);
                let ghost was = text::views(items@);
                let _ = items.remove(i);
                proof {
                    let now = text::views(items@);
                    assert forall|a: int, b: int|
                        0 <= a < now.len() && 0 <= b < now.len() && a != b implies now[a]
                        != now[b] by {
                        let x = if a < i {
                            a
                        } else {
                            a + 1
                        };
                        let y = if b < i {
                            b
                        } else {
                            b + 1
                        };
                        assert(now[a] == was[x]);
                        assert(now[b] == was[y]);
                    }
                    assert forall|k: Seq<char>|
                        now.contains(k) <==> was.contains(k) && k != name@ by {
                        if now.contains(k) {
                            let a = choose|a: int| 0 <= a < now.len() && now[a] == k;
                            let x = if a < i {
                                a
                            } else {
                                a + 1
                            };
                            assert(was[x] == k);
                            assert(was[i as int] == name@);
                        }
                        if was.contains(k) && k != name@ {
                            let x = choose|x: int| 0 <= x < was.len() && was[x] == k;
                            let a = if x < i {
                                x
                            } else {
                                x - 1
                            };
                            assert(x != i);
                            assert(now[a] == k);
                        }
                    }
                    assert(now.to_set() =~= was.to_set().remove(name@));
                }
                self.items = items;
            },
            None => {
                assert(self@ =~= self@.remove(name@));
            },
        }
    }

    /// The names, each once.
    pub fn names(&self) -> (r: Vec<String>)
        ensures
            text::views(r@).no_duplicates(),
            text::views(r@).to_set() == self@,
    {
        proof {
            use_type_invariant(self);
        }
        let mut out: Vec<String> = Vec::new();
        let mut i: usize = 0;
        while i < self.items.len()
            invariant
                0 <= i <= self.items@.len(),
                text::views(out@) == text::views(self.items@).take(i as int),
            decreases self.items.len() - i,
        {
            let ghost before = out@;
            let name = self.items[i].as_str().to_owned();
            out.push(name);
            proof {
                text::lemma_views_push(before, name);
                assert(text::views(out@) =~= text::views(self.items@).take(i as int + 1));
            }
            i += 1;
        }
        assert(text::views(out@) =~= text::views(self.items@));
        out
    }
}

} // verus!
