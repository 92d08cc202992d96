//! A map keyed by strings, kept as a list of entries with distinct keys.

use vstd::prelude::*;

verus! {

/// The map that a list of entries describes, a later entry overriding an earlier one.
pub open spec fn map_of<V>(s: Seq<(Seq<char>, V)>) -> Map<Seq<char>, V>
    decreases s.len(),
{
    if s.len() == 0 {
        Map::empty()
    } else {
        map_of(s.drop_last()).insert(s.last().0, s.last().1)
    }
}

pub open spec fn keys_distinct<V>(s: Seq<(Seq<char>, V)>) -> bool {
    forall|i: int, j: int| 0 <= i < j < s.len() ==> #[trigger] s[i].0 != #[trigger] s[j].0
}

pub proof fn lemma_map_of_contains<V>(s: Seq<(Seq<char>, V)>, k: Seq<char>)
    ensures
        map_of(s).contains_key(k) <==> exists|i: int| 0 <= i < s.len() && #[trigger] s[i].0 == k,
    decreases s.len(),
{
    if s.len() > 0 {
        lemma_map_of_contains(s.drop_last(), k);
        if map_of(s).contains_key(k) {
            if s.last().0 == k {
                assert(s[s.len() - 1].0 == k);
            } else {
                let i = choose|i: int| 0 <= i < s.drop_last().len() && #[trigger] s.drop_last()[i].0 == k;
                assert(s[i].0 == k);
            }
        }
        if exists|i: int| 0 <= i < s.len() && #[trigger] s[i].0 == k {
            let i = choose|i: int| 0 <= i < s.len() && #[trigger] s[i].0 == k;
            if i < s.len() - 1 {
                assert(s.drop_last()[i].0 == k);
            }
        }
    }
}

pub proof fn lemma_map_of_get<V>(s: Seq<(Seq<char>, V)>, i: int)
    requires
        keys_distinct(s),
        0 <= i < s.len(),
    ensures
        map_of(s).contains_key(s[i].0),
        map_of(s)[s[i].0] == s[i].1,
    decreases s.len(),
{
    if i < s.len() - 1 {
        assert(s.drop_last()[i] == s[i]);
        assert(keys_distinct(s.drop_last()));
        lemma_map_of_get(s.drop_last(), i);
        assert(s[i].0 != s[s.len() - 1].0);
    }
}

pub proof fn lemma_map_of_update<V>(s: Seq<(Seq<char>, V)>, i: int, v: V)
    requires
        keys_distinct(s),
        0 <= i < s.len(),
    ensures
        map_of(s.update(i, (s[i].0, v))) == map_of(s).insert(s[i].0, v),
        keys_distinct(s.update(i, (s[i].0, v))),
    decreases s.len(),
{
    let t = s.update(i, (s[i].0, v));
    let k = s[i].0;
    if i == s.len() - 1 {
        assert(t.drop_last() =~= s.drop_last());
        assert(map_of(t) =~= map_of(s).insert(k, v));
    } else {
        assert(keys_distinct(s.drop_last()));
        assert(t.drop_last() =~= s.drop_last().update(i, (k, v)));
        lemma_map_of_update(s.drop_last(), i, v);
        assert(s.last().0 != k);
        assert(map_of(t) =~= map_of(s).insert(k, v));
    }
    assert forall|a: int, b: int| 0 <= a < b < t.len() implies #[trigger] t[a].0 != #[trigger] t[b].0 by {
        assert(t[a].0 == s[a].0 && t[b].0 == s[b].0);
    }
}

/// A map from string keys to values, in insertion order.
#[derive(Debug, Clone, PartialEq, Eq)]
pub struct StrMap<V> {
    entries: Vec<(String, V)>,
}

impl<V> StrMap<V> {
    /// The entries, keys taken as character sequences.
    pub closed spec fn entries_view(self) -> Seq<(Seq<char>, V)> {
        self.entries@.map_values(|e: (String, V)| (e.0@, e.1))
    }

    /// No key occurs twice.
    pub open spec fn wf(self) -> bool {
        keys_distinct(self.entries_view())
    }

    pub open spec fn view(self) -> Map<Seq<char>, V> {
        map_of(self.entries_view())
    }

    /// The empty map.
    pub fn new() -> (r: Self)
        ensures
            r.wf(),
            r.view() == Map::<Seq<char>, V>::empty(),
            r.entries_view().len() == 0,
    {
        let r = StrMap { entries: Vec::new() };
        assert(r.entries_view() =~= Seq::<(Seq<char>, V)>::empty());
        r
    }

    /// The number of keys.
    pub fn len(&self) -> (n: usize)
        ensures
            n == self.entries_view().len(),
    {
        self.entries.len()
    }

    /// The `i`th entry in insertion order.
    pub fn entry(&self, i: usize) -> (r: (&String, &V))
        requires
            i < self.entries_view().len(),
        ensures
            r.0@ == self.entries_view()[i as int].0,
            *r.1 == self.entries_view()[i as int].1,
    {
        let e = &self.entries[i];
        (&e.0, &e.1)
    }

    fn find(&self, key: &str) -> (r: Option<usize>)
        ensures
            match r {
                Some(i) => i < self.entries_view().len() && self.entries_view()[i as int].0 == key@,
                None => forall|i: int|
                    0 <= i < self.entries_view().len() ==> #[trigger] self.entries_view()[i].0
                        != key@,
            },
    {
        let target = key.to_owned();
        let n = self.entries.len();
        let mut i: usize = 0;
        while i < n
            invariant
                n == self.entries@.len(),
                i <= n,
                target@ == key@,
                forall|j: int| 0 <= j < i ==> #[trigger] self.entries_view()[j].0 != key@,
            decreases n - i,
        {
            if self.entries[i].0 == target {
                return Some(i);
            }
            i += 1;
        }
        None
    }

    /// The value under `key`, if any (`HashMap::get`).
    pub fn get(&self, key: &str) -> (r: Option<&V>)
        requires
            self.wf(),
        ensures
            match r {
                Some(v) => self.view().contains_key(key@) && self.view()[key@] == *v,
                None => !self.view().contains_key(key@),
            },
    {
        proof {
            lemma_map_of_contains(self.entries_view(), key@);
        }
        match self.find(key) {
            Some(i) => {
                proof {
                    lemma_map_of_get(self.entries_view(), i as int);
                }
                Some(&self.entries[i].1)
            },
            None => None,
        }
    }

    /// Sets the value under `key`, replacing the one there (`HashMap::insert`).
    pub fn insert(&mut self, key: String, value: V)
        requires
            old(self).wf(),
        ensures
            final(self).wf(),
            final(self).view() == old(self).view().insert(key@, value),
    {
        match self.find(key.as_str()) {
            Some(i) => {
                let ghost before = self.entries_view();
                proof {
                    lemma_map_of_update(before, i as int, value);
                }
                self.entries.set(i, (key, value));
                assert(self.entries_view() =~= before.update(i as int, (before[i as int].0, value)));
            },
            None => {
                let ghost before = self.entries_view();
                let ghost kv = key@;
                self.entries.push((key, value));
                assert(self.entries_view() =~= before.push((kv, value)));
                assert(self.entries_view().drop_last() =~= before);
            },
        }
    }
}

} // verus!
