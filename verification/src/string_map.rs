//! A map from strings to values that keeps its entries in insertion order.

use vstd::prelude::*;

verus! {

/// The map that a sequence of (key, value) pairs with distinct keys denotes.
pub open spec fn pairs_to_map<T>(pairs: Seq<(Seq<char>, T)>) -> Map<Seq<char>, T> {
    Map::new(
        |k: Seq<char>| exists|i: int| 0 <= i < pairs.len() && pairs[i].0 == k,
        |k: Seq<char>| pairs[choose|i: int| 0 <= i < pairs.len() && pairs[i].0 == k].1,
    )
}

/// No key occurs twice.
pub open spec fn keys_unique<T>(pairs: Seq<(Seq<char>, T)>) -> bool {
    forall|i: int, j: int| 0 <= i < j < pairs.len() ==> pairs[i].0 != pairs[j].0
}

/// A string-keyed map. Inserting an existing key replaces its value in place,
/// so the entries stay in the order in which their keys were first inserted.
#[derive(Debug)]
pub struct StringMap<T> {
    entries: Vec<(String, T)>,
}

impl<T> StringMap<T> {
    /// The entries, keys taken by their view, in insertion order.
    pub closed spec fn pairs(&self) -> Seq<(Seq<char>, T)> {
        self.entries@.map_values(|e: (String, T)| (e.0@, e.1))
    }

    #[verifier::type_invariant]
    closed spec fn inv(&self) -> bool {
        keys_unique(self.pairs())
    }

    pub fn new() -> (m: Self)
        ensures
            m.pairs() == Seq::<(Seq<char>, T)>::empty(),
            m@ == Map::<Seq<char>, T>::empty(),
    {
        let m = StringMap { entries: Vec::new() };
        assert(m.pairs() =~= Seq::<(Seq<char>, T)>::empty());
        assert(m@ =~= Map::<Seq<char>, T>::empty());
        m
    }

    pub fn len(&self) -> (n: usize)
        ensures
            n == self.pairs().len(),
            keys_unique(self.pairs()),
    {
        proof {
            use_type_invariant(self);
        }
        self.entries.len()
    }

    /// The position of `key` among the entries.
    fn find(&self, key: &String) -> (res: Option<usize>)
        ensures
            match res {
                Some(i) => i < self.pairs().len() && self.pairs()[i as int].0 == key@,
                None => forall|i: int| 0 <= i < self.pairs().len() ==> self.pairs()[i].0 != key@,
            },
    {
        let n = self.entries.len();
        let mut i: usize = 0;
        while i < n
            invariant
                n == self.entries@.len(),
                i <= n,
                forall|j: int| 0 <= j < i ==> self.pairs()[j].0 != key@,
            decreases n - i,
        {
            if self.entries[i].0 == *key {
                return Some(i);
            }
            i = i + 1;
        }
        None
    }

    pub fn contains_key(&self, key: &String) -> (b: bool)
        ensures
            b == self@.contains_key(key@),
    {
        self.find(key).is_some()
    }

    pub fn get(&self, key: &String) -> (res: Option<&T>)
        ensures
            match res {
                Some(v) => self@.contains_key(key@) && *v == self@[key@],
                None => !self@.contains_key(key@),
            },
    {
        proof {
            use_type_invariant(self);
        }
        match self.find(key) {
            Some(i) => {
                assert(self@.contains_key(key@));
                Some(&self.entries[i].1)
            },
            None => None,
        }
    }

    /// The `i`-th entry in insertion order.
    pub fn entry(&self, i: usize) -> (res: (&String, &T))
        requires
            i < self.pairs().len(),
        ensures
            res.0@ == self.pairs()[i as int].0,
            *res.1 == self.pairs()[i as int].1,
    {
        let e = &self.entries[i];
        (&e.0, &e.1)
    }

    /// Sets `key` to `value`, replacing an earlier value of `key` in place or
    /// appending a new entry.
    pub fn insert(&mut self, key: String, value: T)
        ensures
            final(self)@ == old(self)@.insert(key@, value),
            old(self)@.contains_key(key@) ==> final(self).pairs() == old(self).pairs().update(
                old(self).index_of(key@),
                (key@, value),
            ),
            !old(self)@.contains_key(key@) ==> final(self).pairs() == old(self).pairs().push(
                (key@, value),
            ),
    {
        proof {
            use_type_invariant(&*self);
        }
        let ghost old_pairs = self.pairs();
        let found = self.find(&key);
        let mut entries = Vec::new();
        std::mem::swap(&mut entries, &mut self.entries);
        let ghost k = key@;
        match found {
            Some(i) => {
                entries.set(i, (key, value));
                let ghost new_pairs = entries@.map_values(|e: (String, T)| (e.0@, e.1));
                assert(new_pairs =~= old_pairs.update(i as int, (k, value)));
                assert(old_pairs.len() == new_pairs.len());
                proof {
                    assert(old_pairs[i as int].0 == k);
                    assert forall|a: int, b: int| 0 <= a < b < new_pairs.len() implies new_pairs[a].0
                        != new_pairs[b].0 by {
                        if a == i {
                            assert(old_pairs[b].0 != old_pairs[i as int].0);
                        } else if b == i {
                            assert(old_pairs[a].0 != old_pairs[i as int].0);
                        }
                    }
                    lemma_index_of(old_pairs, i as int);
                    lemma_update_map(old_pairs, i as int, value);
                }
            },
            None => {
                entries.push((key, value));
                let ghost new_pairs = entries@.map_values(|e: (String, T)| (e.0@, e.1));
                assert(new_pairs =~= old_pairs.push((k, value)));
                proof {
                    lemma_push_map(old_pairs, k, value);
                }
            },
        }
        self.entries = entries;
    }

    /// The position of `key` among the entries, where it occurs.
    pub closed spec fn index_of(&self, key: Seq<char>) -> int {
        choose|i: int| 0 <= i < self.pairs().len() && self.pairs()[i].0 == key
    }
}

impl<T> View for StringMap<T> {
    type V = Map<Seq<char>, T>;

    open spec fn view(&self) -> Map<Seq<char>, T> {
        pairs_to_map(self.pairs())
    }
}

proof fn lemma_index_of<T>(pairs: Seq<(Seq<char>, T)>, i: int)
    requires
        keys_unique(pairs),
        0 <= i < pairs.len(),
    ensures
        (choose|j: int| 0 <= j < pairs.len() && pairs[j].0 == pairs[i].0) == i,
{
    let j = choose|j: int| 0 <= j < pairs.len() && pairs[j].0 == pairs[i].0;
    assert(0 <= j < pairs.len() && pairs[j].0 == pairs[i].0);
}

proof fn lemma_update_map<T>(pairs: Seq<(Seq<char>, T)>, i: int, value: T)
    requires
        keys_unique(pairs),
        keys_unique(pairs.update(i, (pairs[i].0, value))),
        0 <= i < pairs.len(),
    ensures
        pairs_to_map(pairs.update(i, (pairs[i].0, value))) == pairs_to_map(pairs).insert(
            pairs[i].0,
            value,
        ),
{
    let k = pairs[i].0;
    let np = pairs.update(i, (k, value));
    let lhs = pairs_to_map(np);
    let rhs = pairs_to_map(pairs).insert(k, value);
    assert forall|key: Seq<char>| lhs.contains_key(key) <==> rhs.contains_key(key) by {
        if rhs.contains_key(key) && key != k {
            let j = choose|j: int| 0 <= j < pairs.len() && pairs[j].0 == key;
            assert(np[j].0 == key);
        }
        if key == k {
            assert(np[i].0 == k);
        }
    }
    assert forall|key: Seq<char>| lhs.contains_key(key) implies lhs[key] == rhs[key] by {
        let j = choose|j: int| 0 <= j < np.len() && np[j].0 == key;
        lemma_index_of(np, j);
        if key != k {
            assert(j != i);
            assert(pairs[j].0 == key);
            lemma_index_of(pairs, j);
        }
    }
    assert(lhs =~= rhs);
}

proof fn lemma_push_map<T>(pairs: Seq<(Seq<char>, T)>, k: Seq<char>, value: T)
    requires
        keys_unique(pairs),
        forall|i: int| 0 <= i < pairs.len() ==> pairs[i].0 != k,
    ensures
        keys_unique(pairs.push((k, value))),
        pairs_to_map(pairs.push((k, value))) == pairs_to_map(pairs).insert(k, value),
{
    let np = pairs.push((k, value));
    assert(keys_unique(np));
    let lhs = pairs_to_map(np);
    let rhs = pairs_to_map(pairs).insert(k, value);
    assert forall|key: Seq<char>| lhs.contains_key(key) <==> rhs.contains_key(key) by {
        if rhs.contains_key(key) && key != k {
            let j = choose|j: int| 0 <= j < pairs.len() && pairs[j].0 == key;
            assert(np[j].0 == key);
        }
        if key == k {
            assert(np[pairs.len() as int].0 == k);
        }
    }
    assert forall|key: Seq<char>| lhs.contains_key(key) implies lhs[key] == rhs[key] by {
        let j = choose|j: int| 0 <= j < np.len() && np[j].0 == key;
        lemma_index_of(np, j);
        if key != k {
            assert(j != pairs.len());
            assert(pairs[j].0 == key);
            lemma_index_of(pairs, j);
        }
    }
    assert(lhs =~= rhs);
}

} // verus!

verus! {

/// The map a string-to-string map denotes, values taken by their view.
pub open spec fn text_map(m: &StringMap<String>) -> Map<Seq<char>, Seq<char>> {
    text_values(m@)
}

/// A map's string values taken by their view.
pub open spec fn text_values(m: Map<Seq<char>, String>) -> Map<Seq<char>, Seq<char>> {
    m.map_values(|v: String| v@)
}

/// After an insert, the key gives the inserted value and every other key
/// gives what it gave before.
pub proof fn lemma_insert_then_get<T>(m: Map<Seq<char>, T>, key: Seq<char>, value: T, other: Seq<char>)
    ensures
        m.insert(key, value).contains_key(key),
        m.insert(key, value)[key] == value,
        other != key ==> m.insert(key, value).contains_key(other) == m.contains_key(other),
        other != key && m.contains_key(other) ==> m.insert(key, value)[other] == m[other],
{
}

/// A copy of a string-to-string map.
pub fn clone_text_map(m: &StringMap<String>) -> (res: StringMap<String>)
    ensures
        text_map(&res) == text_map(m),
{
    let mut res = StringMap::new();
    let n = m.len();
    let mut i: usize = 0;
    assert(text_map(&res) =~= text_values(pairs_to_map(m.pairs().take(0))));
    while i < n
        invariant
            n == m.pairs().len(),
            i <= n,
            text_map(&res) == text_values(pairs_to_map(m.pairs().take(i as int))),
        decreases n - i,
    {
        let (k, v) = m.entry(i);
        let ghost before = text_map(&res);
        res.insert(k.clone(), v.clone());
        proof {
            use_type_invariant(m);
            lemma_take_push_map(m.pairs(), i as int);
        }
        assert(text_map(&res) =~= before.insert(k@, v@));
        assert(text_map(&res) =~= text_values(pairs_to_map(m.pairs().take(i + 1))));
        i = i + 1;
    }
    assert(m.pairs().take(n as int) =~= m.pairs());
    res
}

proof fn lemma_take_push_map<T>(pairs: Seq<(Seq<char>, T)>, i: int)
    requires
        keys_unique(pairs),
        0 <= i < pairs.len(),
    ensures
        pairs_to_map(pairs.take(i + 1)) == pairs_to_map(pairs.take(i)).insert(pairs[i].0, pairs[i].1),
{
    let a = pairs.take(i + 1);
    let b = pairs.take(i);
    assert(keys_unique(a));
    assert(keys_unique(b));
    let lhs = pairs_to_map(a);
    let rhs = pairs_to_map(b).insert(pairs[i].0, pairs[i].1);
    assert forall|k: Seq<char>| lhs.contains_key(k) <==> rhs.contains_key(k) by {
        if lhs.contains_key(k) {
            let j = choose|j: int| 0 <= j < a.len() && a[j].0 == k;
            if j < i {
                assert(b[j].0 == k);
            }
        }
        if rhs.contains_key(k) {
            if k == pairs[i].0 {
                assert(a[i].0 == k);
            } else {
                let j = choose|j: int| 0 <= j < b.len() && b[j].0 == k;
                assert(a[j].0 == k);
            }
        }
    }
    assert forall|k: Seq<char>| lhs.contains_key(k) implies lhs[k] == rhs[k] by {
        let j = choose|j: int| 0 <= j < a.len() && a[j].0 == k;
        lemma_index_of(a, j);
        if j < i {
            assert(b[j] == a[j]);
            lemma_index_of(b, j);
            assert(k != pairs[i].0);
        }
    }
    assert(lhs =~= rhs);
}

/// With distinct keys, each entry's key maps to the entry's value, and every
/// key of the map is the key of some entry.
pub proof fn lemma_pairs_to_map_entries<T>(pairs: Seq<(Seq<char>, T)>)
    requires
        keys_unique(pairs),
    ensures
        forall|i: int|
            0 <= i < pairs.len() ==> pairs_to_map(pairs).contains_key(#[trigger] pairs[i].0)
                && pairs_to_map(pairs)[pairs[i].0] == pairs[i].1,
        forall|k: Seq<char>|
            #[trigger] pairs_to_map(pairs).contains_key(k) ==> exists|i: int|
                0 <= i < pairs.len() && pairs[i].0 == k,
{
    assert forall|i: int| 0 <= i < pairs.len() implies pairs_to_map(pairs).contains_key(
        #[trigger] pairs[i].0,
    ) && pairs_to_map(pairs)[pairs[i].0] == pairs[i].1 by {
        lemma_index_of(pairs, i);
    }
}

} // verus!
