//! A small map keyed by text, kept as a list of entries with distinct keys.
use vstd::prelude::*;
use crate::text::same_text;

verus! {

/// No two entries share a key.
pub open spec fn keys_unique<V>(s: Seq<(String, V)>) -> bool {
    forall|i: int, j: int| 0 <= i < s.len() && 0 <= j < s.len() && i != j ==> s[i].0@ != s[j].0@
}

/// Some entry has this key.
pub open spec fn has_key<V>(s: Seq<(String, V)>, k: Seq<char>) -> bool {
    exists|i: int| 0 <= i < s.len() && s[i].0@ == k
}

/// The position of an entry with this key.
pub open spec fn index_of_key<V>(s: Seq<(String, V)>, k: Seq<char>) -> int {
    choose|i: int| 0 <= i < s.len() && s[i].0@ == k
}

/// The entries as a map from key text to value.
pub open spec fn entries_map<V>(s: Seq<(String, V)>) -> Map<Seq<char>, V> {
    Map::new(|k: Seq<char>| has_key(s, k), |k: Seq<char>| s[index_of_key(s, k)].1)
}

proof fn lemma_index_of_key<V>(s: Seq<(String, V)>, i: int)
    requires
        keys_unique(s),
        0 <= i < s.len(),
    ensures
        has_key(s, s[i].0@),
        index_of_key(s, s[i].0@) == i,
        entries_map(s).contains_key(s[i].0@),
        entries_map(s)[s[i].0@] == s[i].1,
{
    assert(has_key(s, s[i].0@));
}

/// A map from texts to values.
pub struct TextMap<V> {
    entries: Vec<(String, V)>,
}

impl<V> View for TextMap<V> {
    type V = Map<Seq<char>, V>;

    closed spec fn view(&self) -> Map<Seq<char>, V> {
        entries_map(self.entries@)
    }
}

impl<V> TextMap<V> {
    #[verifier::type_invariant]
    spec fn unique(&self) -> bool {
        keys_unique(self.entries@)
    }

    /// An empty map.
    pub fn new() -> (m: TextMap<V>)
        ensures
            m@ == Map::<Seq<char>, V>::empty(),
    {
        let m = TextMap { entries: Vec::new() };
        assert(m@ =~= Map::<Seq<char>, V>::empty());
        m
    }

    fn find(&self, key: &str) -> (r: Option<usize>)
        ensures
            match r {
                Some(i) => i < self.entries@.len() && self.entries@[i as int].0@ == key@,
                None => !has_key(self.entries@, key@),
            },
    {
        let mut i: usize = 0;
        while i < self.entries.len()
            invariant
                i <= self.entries@.len(),
                forall|j: int| 0 <= j < i ==> self.entries@[j].0@ != key@,
            decreases self.entries.len() - i,
        {
            if same_text(self.entries[i].0.as_str(), key) {
                return Some(i);
            }
            i = i + 1;
        }
        None
    }

    /// The value under `key`.
    pub fn get(&self, key: &str) -> (r: Option<&V>)
        ensures
            match r {
                Some(v) => self@.contains_key(key@) && *v == self@[key@],
                None => !self@.contains_key(key@),
            },
    {
        proof {
            use_type_invariant(self);
        }
        match self.find(key) {
            Some(i) => {
                proof {
                    lemma_index_of_key(self.entries@, i as int);
                }
                Some(&self.entries[i].1)
            },
            None => None,
        }
    }

    /// The entries, each key once.
    pub fn entries(&self) -> (r: &Vec<(String, V)>)
        ensures
            keys_unique(r@),
            entries_map(r@) == self@,
    {
        proof {
            use_type_invariant(self);
        }
        &self.entries
    }

    /// Whether some value is stored under `key`.
    pub fn contains_key(&self, key: &str) -> (r: bool)
        ensures
            r == self@.contains_key(key@),
    {
        proof {
            use_type_invariant(self);
        }
        match self.find(key) {
            Some(i) => {
                proof {
                    lemma_index_of_key(self.entries@, i as int);
                }
                true
            },
            None => false,
        }
    }

    /// Stores `value` under `key`, replacing what was there.
    pub fn insert(&mut self, key: String, value: V)
        ensures
            final(self)@ == old(self)@.insert(key@, value),
    {
        proof {
            use_type_invariant(&*self);
        }
        let ghost k = key@;
        let ghost s = self.entries@;
        match self.find(key.as_str()) {
            Some(i) => {
                let mut entries: Vec<(String, V)> = Vec::new();
                std::mem::swap(&mut entries, &mut self.entries);
                entries.set(i, (key, value));
                proof {
                    let t = entries@;
                    assert(keys_unique(t)) by {
                        assert forall|a: int, b: int|
                            0 <= a < t.len() && 0 <= b < t.len() && a != b implies t[a].0@ != t[b].0@ by {
                            if a != i && b != i {
                                assert(t[a] == s[a] && t[b] == s[b]);
                            } else if a == i {
                                assert(t[b] == s[b]);
                            } else {
                                assert(t[a] == s[a]);
                            }
                        }
                    }
                    assert forall|q: Seq<char>| has_key(t, q) <==> has_key(s, q) by {
                        if has_key(t, q) {
                            let j = choose|j: int| 0 <= j < t.len() && t[j].0@ == q;
                            assert(s[j].0@ == q);
                        }
                        if has_key(s, q) {
                            let j = choose|j: int| 0 <= j < s.len() && s[j].0@ == q;
                            assert(t[j].0@ == q);
                        }
                    }
                    assert forall|q: Seq<char>| #[trigger] has_key(t, q) implies entries_map(t)[q]
                        == entries_map(s).insert(k, value)[q] by {
                        if q == k {
                            lemma_index_of_key(t, i as int);
                        } else {
                            let j = index_of_key(s, q);
                            lemma_index_of_key(s, j);
                            assert(t[j] == s[j]);
                            lemma_index_of_key(t, j);
                        }
                    }
                    assert(entries_map(t) =~= entries_map(s).insert(k, value));
                }
                self.entries = entries;
            },
            None => {
                let mut entries: Vec<(String, V)> = Vec::new();
                std::mem::swap(&mut entries, &mut self.entries);
                entries.push((key, value));
                proof {
                    let t = entries@;
                    assert(keys_unique(t)) by {
                        assert forall|a: int, b: int|
                            0 <= a < t.len() && 0 <= b < t.len() && a != b implies t[a].0@ != t[b].0@ by {
                            if a < s.len() && b < s.len() {
                                assert(t[a] == s[a] && t[b] == s[b]);
                            } else if a == s.len() {
                                assert(t[b] == s[b]);
                            } else {
                                assert(t[a] == s[a]);
                            }
                        }
                    }
                    assert forall|q: Seq<char>| has_key(t, q) <==> (has_key(s, q) || q == k) by {
                        if has_key(t, q) {
                            let j = choose|j: int| 0 <= j < t.len() && t[j].0@ == q;
                            if j < s.len() {
                                assert(s[j].0@ == q);
                            }
                        }
                        if has_key(s, q) {
                            let j = choose|j: int| 0 <= j < s.len() && s[j].0@ == q;
                            assert(t[j].0@ == q);
                        }
                        if q == k {
                            assert(t[s.len() as int].0@ == q);
                        }
                    }
                    assert forall|q: Seq<char>| #[trigger] has_key(t, q) implies entries_map(t)[q]
                        == entries_map(s).insert(k, value)[q] by {
                        if q == k {
                            lemma_index_of_key(t, s.len() as int);
                        } else {
                            let j = index_of_key(s, q);
                            lemma_index_of_key(s, j);
                            assert(t[j] == s[j]);
                            lemma_index_of_key(t, j);
                        }
                    }
                    assert(entries_map(t) =~= entries_map(s).insert(k, value));
                }
                self.entries = entries;
            },
        }
    }

    /// Removes the value under `key` and returns it.
    pub fn remove(&mut self, key: &str) -> (r: Option<V>)
        ensures
            final(self)@ == old(self)@.remove(key@),
            match r {
                Some(v) => old(self)@.contains_key(key@) && v == old(self)@[key@],
                None => !old(self)@.contains_key(key@),
            },
    {
        proof {
            use_type_invariant(&*self);
        }
        let ghost k = key@;
        let ghost s = self.entries@;
        match self.find(key) {
            Some(i) => {
                proof {
                    lemma_index_of_key(s, i as int);
                }
                let mut entries: Vec<(String, V)> = Vec::new();
                std::mem::swap(&mut entries, &mut self.entries);
                let (_, v) = entries.remove(i);
                proof {
                    let t = entries@;
                    assert(t =~= s.remove(i as int));
                    assert(keys_unique(t)) by {
                        assert forall|a: int, b: int|
                            0 <= a < t.len() && 0 <= b < t.len() && a != b implies t[a].0@ != t[b].0@ by {
                            let oa = if a < i { a } else { a + 1 };
                            let ob = if b < i { b } else { b + 1 };
                            assert(t[a] == s[oa] && t[b] == s[ob]);
                        }
                    }
                    assert forall|q: Seq<char>| has_key(t, q) <==> (has_key(s, q) && q != k) by {
                        if has_key(t, q) {
                            let j = choose|j: int| 0 <= j < t.len() && t[j].0@ == q;
                            let oj = if j < i { j } else { j + 1 };
                            assert(s[oj].0@ == q);
                        }
                        if has_key(s, q) && q != k {
                            let j = choose|j: int| 0 <= j < s.len() && s[j].0@ == q;
                            if j < i {
                                assert(t[j].0@ == q);
                            } else {
                                assert(j != i);
                                assert(t[j - 1].0@ == q);
                            }
                        }
                    }
                    assert forall|q: Seq<char>| #[trigger] has_key(t, q) implies entries_map(t)[q]
                        == entries_map(s).remove(k)[q] by {
                        let j = index_of_key(t, q);
                        lemma_index_of_key(t, j);
                        let oj = if j < i { j } else { j + 1 };
                        assert(t[j] == s[oj]);
                        lemma_index_of_key(s, oj);
                    }
                    assert(entries_map(t) =~= entries_map(s).remove(k));
                }
                self.entries = entries;
                Some(v)
            },
            None => {
                proof {
                    assert(entries_map(s).remove(k) =~= entries_map(s));
                }
                None
            },
        }
    }
}

} // verus!
