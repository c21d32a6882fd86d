//! A table from texts to values, kept in the order of its keys.
use vstd::prelude::*;

use crate::order::{before, comes_before, lemma_total, lemma_transitive};
use crate::text::{same, texts};

verus! {

/// A table with at most one value under each key.
pub struct Table<V> {
    entries: Vec<(String, V)>,
}

spec fn ordered<V>(entries: Seq<(String, V)>) -> bool {
    forall|i: int, j: int| 0 <= i < j < entries.len() ==> before(entries[i].0@, entries[j].0@)
}

spec fn held<V>(entries: Seq<(String, V)>, key: Seq<char>, i: int) -> bool {
    0 <= i < entries.len() && entries[i].0@ == key
}

spec fn place<V>(entries: Seq<(String, V)>, key: Seq<char>) -> int {
    choose|i: int| held(entries, key, i)
}

spec fn contents<V>(entries: Seq<(String, V)>) -> Map<Seq<char>, V> {
    Map::new(
        |key: Seq<char>| exists|i: int| held(entries, key, i),
        |key: Seq<char>| entries[place(entries, key)].1,
    )
}

proof fn lemma_held_once<V>(entries: Seq<(String, V)>, key: Seq<char>, i: int)
    requires
        ordered(entries),
        held(entries, key, i),
    ensures
        place(entries, key) == i,
        contents(entries).contains_key(key),
        contents(entries)[key] == entries[i].1,
{
    let k = place(entries, key);
    lemma_total(key, key);
    if k < i {
        assert(before(entries[k].0@, entries[i].0@));
    }
    if i < k {
        assert(before(entries[i].0@, entries[k].0@));
    }
}

impl<V> View for Table<V> {
    type V = Map<Seq<char>, V>;

    closed spec fn view(&self) -> Map<Seq<char>, V> {
        contents(self.entries@)
    }
}

impl<V> Table<V> {
    #[verifier::type_invariant]
    spec fn well_formed(self) -> bool {
        ordered(self.entries@)
    }

    /// The keys of the table, in order.
    pub open spec fn key_list(self) -> Seq<Seq<char>> {
        sorted_keys(self@.dom())
    }

    spec fn names(self) -> Seq<Seq<char>> {
        self.entries@.map_values(|e: (String, V)| e.0@)
    }

    /// An empty table.
    pub fn new() -> (t: Table<V>)
        ensures
            t@ == Map::<Seq<char>, V>::empty(),
    {
        let t = Table { entries: Vec::new() };
        assert(t@ =~= Map::<Seq<char>, V>::empty());
        t
    }

    fn find(&self, key: &str) -> (r: (bool, usize))
        ensures
            r.1 <= self.entries@.len(),
            r.0 ==> held(self.entries@, key@, r.1 as int),
            !r.0 ==> forall|i: int| 0 <= i < r.1 ==> before(#[trigger] self.entries@[i].0@, key@),
            !r.0 ==> forall|i: int|
                r.1 <= i < self.entries@.len() ==> before(key@, #[trigger] self.entries@[i].0@),
    {
        proof {
            use_type_invariant(self);
        }
        let mut i: usize = 0;
        while i < self.entries.len() && comes_before(self.entries[i].0.as_str(), key)
            invariant
                i <= self.entries@.len(),
                forall|j: int| 0 <= j < i ==> before(#[trigger] self.entries@[j].0@, key@),
            decreases self.entries@.len() - i,
        {
            i = i + 1;
        }
        if i < self.entries.len() && same(self.entries[i].0.as_str(), key) {
            (true, i)
        } else {
            proof {
                if i < self.entries@.len() {
                    lemma_total(self.entries@[i as int].0@, key@);
                    assert forall|j: int| i <= j < self.entries@.len() implies before(
                        key@,
                        #[trigger] self.entries@[j].0@,
                    ) by {
                        if j > i {
                            lemma_transitive(
                                key@,
                                self.entries@[i as int].0@,
                                self.entries@[j].0@,
                            );
                        }
                    }
                }
            }
            (false, i)
        }
    }

    /// The value under a key, if there is one.
    pub fn get(&self, key: &str) -> (r: Option<&V>)
        ensures
            match r {
                Some(v) => self@.contains_key(key@) && self@[key@] == *v,
                None => !self@.contains_key(key@),
            },
    {
        proof {
            use_type_invariant(self);
        }
        let (found, i) = self.find(key);
        if found {
            proof {
                lemma_held_once(self.entries@, key@, i as int);
            }
            Some(&self.entries[i].1)
        } else {
            proof {
                self.lemma_absent(key@, i as int);
            }
            None
        }
    }

    proof fn lemma_absent(self, key: Seq<char>, i: int)
        requires
            0 <= i <= self.entries@.len(),
            forall|j: int| 0 <= j < i ==> before(#[trigger] self.entries@[j].0@, key),
            forall|j: int| i <= j < self.entries@.len() ==> before(key, #[trigger] self.entries@[j].0@),
        ensures
            forall|j: int| !held(self.entries@, key, j),
            !self@.contains_key(key),
    {
        assert forall|j: int| !held(self.entries@, key, j) by {
            if held(self.entries@, key, j) {
                lemma_total(self.entries@[j].0@, key);
            }
        }
    }

    /// Whether the table holds a key.
    pub fn contains_key(&self, key: &str) -> (r: bool)
        ensures
            r == self@.contains_key(key@),
    {
        self.get(key).is_some()
    }

    /// Puts a value under a key, in place of any that was there, and returns
    /// the value that was there.
    pub fn insert(&mut self, key: String, value: V) -> (r: Option<V>)
        ensures
            final(self)@ == old(self)@.insert(key@, value),
            r == if old(self)@.contains_key(key@) {
                Some(old(self)@[key@])
            } else {
                None
            },
    {
        proof {
            use_type_invariant(&*self);
        }
        let (found, i) = self.find(key.as_str());
        let mut entries: Vec<(String, V)> = Vec::new();
        std::mem::swap(&mut entries, &mut self.entries);
        let ghost was = entries@;
        let out = if found {
            proof {
                lemma_held_once(was, key@, i as int);
            }
            let (_, before_value) = entries.remove(i);
            Some(before_value)
        } else {
            proof {
                old(self).lemma_absent(key@, i as int);
            }
            None
        };
        entries.insert(i, (key, value));
        proof {
            let now = entries@;
            assert forall|a: int, b: int| 0 <= a < b < now.len() implies before(
                now[a].0@,
                now[b].0@,
            ) by {
                let x = if found || a < i {
                    a
                } else {
                    a - 1
                };
                let y = if found || b < i {
                    b
                } else {
                    b - 1
                };
                if found {
                    assert(before(was[a].0@, was[b].0@));
                } else if a == i {
                    assert(now[b] == was[b - 1]);
                } else if b == i {
                    assert(now[a] == was[a]);
                } else {
                    assert(now[a] == was[x] && now[b] == was[y]);
                    assert(before(was[x].0@, was[y].0@));
                }
            }
            assert(held(now, key@, i as int));
            lemma_held_once(now, key@, i as int);
            let m = contents(was).insert(key@, value);
            assert forall|k: Seq<char>| contents(now).contains_key(k) == m.contains_key(k) by {
                if k != key@ {
                    if contents(now).contains_key(k) {
                        let j = place(now, k);
                        let o = if found || j < i {
                            j
                        } else {
                            j - 1
                        };
                        assert(now[j] == was[o]);
                        assert(held(was, k, o));
                    }
                    if contents(was).contains_key(k) {
                        let j = place(was, k);
                        let o = if found || j < i {
                            j
                        } else {
                            j + 1
                        };
                        assert(was[j].0@ == k);
                        assert(now[o] == was[j]);
                        assert(held(now, k, o));
                    }
                }
            }
            assert forall|k: Seq<char>| contents(now).contains_key(k) implies contents(now)[k]
                == m[k] by {
                if k != key@ {
                    let j = place(now, k);
                    let o = if found || j < i {
                        j
                    } else {
                        j - 1
                    };
                    assert(now[j] == was[o]);
                    assert(held(was, k, o));
                    lemma_held_once(was, k, o);
                    lemma_held_once(now, k, j);
                }
            }
            assert(contents(now) =~= m);
        }
        self.entries = entries;
        out
    }

    /// Takes the value under a key out of the table.
    pub fn remove(&mut self, key: &str) -> (r: Option<V>)
        ensures
            final(self)@ == old(self)@.remove(key@),
            r == if old(self)@.contains_key(key@) {
                Some(old(self)@[key@])
            } else {
                None
            },
    {
        proof {
            use_type_invariant(&*self);
        }
        let (found, i) = self.find(key);
        if !found {
            proof {
                self.lemma_absent(key@, i as int);
                assert(self@.remove(key@) =~= self@);
            }
            return None;
        }
        let mut entries: Vec<(String, V)> = Vec::new();
        std::mem::swap(&mut entries, &mut self.entries);
        let ghost was = entries@;
        proof {
            lemma_held_once(was, key@, i as int);
        }
        let (_, value) = entries.remove(i);
        proof {
            let now = entries@;
            assert forall|a: int, b: int| 0 <= a < b < now.len() implies before(
                now[a].0@,
                now[b].0@,
            ) by {
                let x = if a < i {
                    a
                } else {
                    a + 1
                };
                let y = if b < i {
                    b
                } else {
                    b + 1
                };
                assert(before(was[x].0@, was[y].0@));
            }
            let m = contents(was).remove(key@);
            assert forall|k: Seq<char>| contents(now).contains_key(k) == m.contains_key(k) by {
                if contents(now).contains_key(k) {
                    let j = place(now, k);
                    let o = if j < i {
                        j
                    } else {
                        j + 1
                    };
                    assert(now[j] == was[o]);
                    assert(held(was, k, o));
                    if k == key@ {
                        lemma_held_once(was, k, o);
                    }
                }
                if k != key@ && contents(was).contains_key(k) {
                    let j = place(was, k);
                    let o = if j < i {
                        j
                    } else {
                        j - 1
                    };
                    assert(was[j].0@ == k);
                    assert(now[o] == was[j]);
                    assert(held(now, k, o));
                }
            }
            assert forall|k: Seq<char>| contents(now).contains_key(k) implies contents(now)[k]
                == m[k] by {
                let j = place(now, k);
                let o = if j < i {
                    j
                } else {
                    j + 1
                };
                assert(now[j] == was[o]);
                assert(held(was, k, o));
                lemma_held_once(was, k, o);
                lemma_held_once(now, k, j);
            }
            assert(contents(now) =~= m);
        }
        self.entries = entries;
        Some(value)
    }

    /// How many keys the table holds.
    pub fn len(&self) -> (n: usize)
        ensures
            n == self.key_list().len(),
            lists_keys(self.key_list(), self@.dom()),
            n == self@.dom().len(),
            self@.dom().finite(),
    {
        proof {
            use_type_invariant(self);
            self.lemma_key_list();
            let keys = self.key_list();
            assert(keys.no_duplicates()) by {
                assert forall|i: int, j: int|
                    0 <= i < keys.len() && 0 <= j < keys.len() && i != j implies keys[i]
                    != keys[j] by {
                    lemma_total(keys[i], keys[j]);
                }
            }
            keys.unique_seq_to_set();
            assert(keys.to_set() =~= self@.dom());
        }
        self.entries.len()
    }

    /// The key at an index, counting in order.
    pub fn key_at(&self, i: usize) -> (r: &String)
        requires
            i < self.key_list().len(),
        ensures
            r@ == self.key_list()[i as int],
    {
        proof {
            use_type_invariant(self);
            self.lemma_key_list();
        }
        &self.entries[i].0
    }

    /// The value at an index, counting in order.
    pub fn value_at(&self, i: usize) -> (r: &V)
        requires
            i < self.key_list().len(),
        ensures
            self@.contains_key(self.key_list()[i as int]),
            *r == self@[self.key_list()[i as int]],
    {
        proof {
            use_type_invariant(self);
            self.lemma_key_list();
            let k = self.key_list()[i as int];
            assert(held(self.entries@, k, i as int));
            lemma_held_once(self.entries@, k, i as int);
        }
        &self.entries[i].1
    }

    /// The keys of the table, in order.
    pub fn keys(&self) -> (r: Vec<String>)
        ensures
            texts(r@) == self.key_list(),
            lists_keys(self.key_list(), self@.dom()),
    {
        proof {
            use_type_invariant(self);
            self.lemma_key_list();
        }
        let mut out: Vec<String> = Vec::new();
        for i in 0..self.entries.len()
            invariant
                self.key_list() == self.names(),
                texts(out@) == self.key_list().take(i as int),
        {
            let ghost had = out@;
            let key = self.entries[i].0.clone();
            out.push(key);
            proof {
                crate::text::lemma_texts_push(had, key);
            }
            assert(texts(out@) =~= self.key_list().take(i + 1));
        }
        assert(self.key_list().take(self.entries@.len() as int) =~= self.key_list());
        out
    }

    /// The keys and values of the table, in the order of the keys.
    pub fn into_entries(self) -> (r: Vec<(String, V)>)
        ensures
            holds_entries(r@, self@),
    {
        proof {
            use_type_invariant(&self);
            let entries = self.entries@;
            assert forall|i: int| 0 <= i < entries.len() implies self@.contains_key(
                (#[trigger] entries[i]).0@,
            ) && self@[entries[i].0@] == entries[i].1 by {
                assert(held(entries, entries[i].0@, i));
                lemma_held_once(entries, entries[i].0@, i);
            }
            assert forall|i: int, j: int| 0 <= i < j < entries.len() implies #[trigger] entries[i].0@
                != #[trigger] entries[j].0@ by {
                assert(before(entries[i].0@, entries[j].0@));
                lemma_total(entries[i].0@, entries[j].0@);
            }
            assert forall|k: Seq<char>| self@.contains_key(k) implies exists|i: int|
                0 <= i < entries.len() && (#[trigger] entries[i]).0@ == k by {
                let i = place(entries, k);
                assert(held(entries, k, i));
                assert(entries[i].0@ == k);
            }
        }
        self.entries
    }

    proof fn lemma_key_list(self)
        requires
            ordered(self.entries@),
        ensures
            self.key_list() == self.names(),
            lists_keys(self.key_list(), self@.dom()),
    {
        let list = self.names();
        assert forall|i: int, j: int| 0 <= i < j < list.len() implies before(list[i], list[j]) by {
            assert(before(self.entries@[i].0@, self.entries@[j].0@));
        }
        assert forall|k: Seq<char>| #[trigger] self@.dom().contains(k) == list.contains(k) by {
            if self@.contains_key(k) {
                let i = place(self.entries@, k);
                assert(held(self.entries@, k, i));
                assert(list[i] == k);
            }
            if list.contains(k) {
                let i = choose|i: int| 0 <= i < list.len() && list[i] == k;
                assert(held(self.entries@, k, i));
            }
        }
        lemma_sorted_keys(list, self@.dom());
    }
}

/// Whether a list gives each key of a map once, with its value.
pub open spec fn holds_entries<V>(entries: Seq<(String, V)>, map: Map<Seq<char>, V>) -> bool {
    &&& forall|i: int|
        0 <= i < entries.len() ==> map.contains_key((#[trigger] entries[i]).0@)
            && map[entries[i].0@] == entries[i].1
    &&& forall|i: int, j: int|
        0 <= i < j < entries.len() ==> #[trigger] entries[i].0@ != #[trigger] entries[j].0@
    &&& forall|k: Seq<char>|
        map.contains_key(k) ==> exists|i: int|
            0 <= i < entries.len() && (#[trigger] entries[i]).0@ == k
}

/// Whether each key comes strictly before the next.
pub open spec fn key_order(keys: Seq<Seq<char>>) -> bool {
    forall|i: int, j: int| 0 <= i < j < keys.len() ==> before(keys[i], keys[j])
}

/// Whether a list gives each key of a set once, in order.
pub open spec fn lists_keys(list: Seq<Seq<char>>, keys: Set<Seq<char>>) -> bool {
    &&& key_order(list)
    &&& forall|k: Seq<char>| #[trigger] keys.contains(k) == list.contains(k)
}

/// The keys of a set, each once, in order.
pub open spec fn sorted_keys(keys: Set<Seq<char>>) -> Seq<Seq<char>> {
    choose|list: Seq<Seq<char>>| lists_keys(list, keys)
}

/// There is one way to list the keys of a set in order.
pub proof fn lemma_sorted_keys(list: Seq<Seq<char>>, keys: Set<Seq<char>>)
    requires
        lists_keys(list, keys),
    ensures
        sorted_keys(keys) == list,
{
    let chosen = sorted_keys(keys);
    assert(lists_keys(chosen, keys));
    assert forall|k: Seq<char>| #[trigger] list.contains(k) == chosen.contains(k) by {
        assert(keys.contains(k) == list.contains(k));
        assert(keys.contains(k) == chosen.contains(k));
    }
    lemma_one_order(list, chosen);
}

proof fn lemma_one_order(a: Seq<Seq<char>>, b: Seq<Seq<char>>)
    requires
        key_order(a),
        key_order(b),
        forall|k: Seq<char>| #[trigger] a.contains(k) == b.contains(k),
    ensures
        a == b,
    decreases a.len(),
{
    if a.len() == 0 {
        if b.len() > 0 {
            assert(b.contains(b[0]));
            assert(a.contains(b[0]));
        }
        assert(a =~= b);
    } else {
        assert(a.contains(a[0]));
        assert(b.contains(a[0]));
        let x = a.last();
        let y = b.last();
        assert(a.contains(x) && b.contains(y));
        assert(b.contains(x) && a.contains(y));
        if x != y {
            let i = choose|i: int| 0 <= i < b.len() && b[i] == x;
            let j = choose|j: int| 0 <= j < a.len() && a[j] == y;
            assert(before(b[i], b[b.len() - 1]));
            assert(before(a[j], a[a.len() - 1]));
            lemma_total(x, y);
        }
        let s = a.drop_last();
        let t = b.drop_last();
        assert forall|k: Seq<char>| #[trigger] s.contains(k) == t.contains(k) by {
            lemma_rest_of_order(a, k);
            lemma_rest_of_order(b, k);
            assert(a.contains(k) == b.contains(k));
        }
        lemma_one_order(s, t);
        assert(a =~= s.push(x));
        assert(b =~= t.push(y));
    }
}

proof fn lemma_rest_of_order(list: Seq<Seq<char>>, k: Seq<char>)
    requires
        list.len() > 0,
        key_order(list),
    ensures
        list.drop_last().contains(k) == (list.contains(k) && k != list.last()),
{
    let rest = list.drop_last();
    if rest.contains(k) {
        let i = choose|i: int| 0 <= i < rest.len() && rest[i] == k;
        assert(list[i] == k);
        assert(before(list[i], list[list.len() - 1]));
        lemma_total(k, list.last());
    }
    if list.contains(k) && k != list.last() {
        let i = choose|i: int| 0 <= i < list.len() && list[i] == k;
        assert(rest[i] == k);
    }
}

} // verus!
