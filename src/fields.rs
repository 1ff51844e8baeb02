use vstd::prelude::*;

verus! {

/// The map that a sequence of insertions builds, later ones winning.
pub open spec fn to_map(s: Seq<(Seq<char>, Seq<char>)>) -> Map<Seq<char>, Seq<char>>
    decreases s.len(),
{
    if s.len() == 0 {
        Map::empty()
    } else {
        to_map(s.drop_last()).insert(s.last().0, s.last().1)
    }
}

pub open spec fn unique_keys(s: Seq<(Seq<char>, Seq<char>)>) -> bool {
    forall|i: int, j: int| 0 <= i < j < s.len() ==> s[i].0 != s[j].0
}

/// A map from names to values, kept in the order in which names first
/// came; each name is held once.
pub struct Fields {
    entries: Vec<(String, String)>,
}

impl Fields {
    pub closed spec fn entries_view(&self) -> Seq<(Seq<char>, Seq<char>)> {
        self.entries.deep_view()
    }

    pub closed spec fn wf(&self) -> bool {
        unique_keys(self.entries_view())
    }

    pub closed spec fn view(&self) -> Map<Seq<char>, Seq<char>> {
        to_map(self.entries_view())
    }

    pub fn new() -> (r: Fields)
        ensures
            r.wf(),
            r@ == Map::<Seq<char>, Seq<char>>::empty(),
    {
        Fields { entries: Vec::new() }
    }

    /// The number of names held.
    pub fn len(&self) -> (r: usize)
        requires
            self.wf(),
        ensures
            r == self@.dom().len(),
    {
        proof {
            lemma_to_map_dom(self.entries_view());
        }
        self.entries.len()
    }

    /// The index of the entry named `key`, or the number of entries.
    fn index_of(&self, key: &String) -> (r: usize)
        ensures
            r <= self.entries.len(),
            r < self.entries.len() ==> self.entries_view()[r as int].0 == key@,
            r == self.entries.len() ==> forall|j: int|
                0 <= j < self.entries.len() ==> self.entries_view()[j].0 != key@,
    {
        let mut i: usize = 0;
        while i < self.entries.len()
            invariant
                i <= self.entries.len(),
                forall|j: int| 0 <= j < i ==> self.entries_view()[j].0 != key@,
            decreases self.entries.len() - i,
        {
            if self.entries[i].0 == *key {
                return i;
            }
            i += 1;
        }
        i
    }

    /// Sets `key` to `value`, replacing what `key` held before.
    pub fn insert(&mut self, key: String, value: String)
        requires
            old(self).wf(),
        ensures
            final(self).wf(),
            final(self)@ == old(self)@.insert(key@, value@),
    {
        let i = self.index_of(&key);
        let ghost k = key@;
        let ghost v = value@;
        if i < self.entries.len() {
            proof {
                lemma_to_map_update(self.entries_view(), i as int, k, v);
            }
            self.entries.set(i, (key, value));
            assert(self.entries_view() == old(self).entries_view().update(i as int, (k, v)));
        } else {
            self.entries.push((key, value));
            assert(self.entries_view() == old(self).entries_view().push((k, v)));
            assert(self.entries_view().drop_last() == old(self).entries_view());
        }
    }

    /// The value held under `key`, if any.
    pub fn get(&self, key: &String) -> (r: Option<String>)
        requires
            self.wf(),
        ensures
            match r {
                Some(v) => self@.contains_key(key@) && self@[key@] == v@,
                None => !self@.contains_key(key@),
            },
    {
        let i = self.index_of(key);
        if i < self.entries.len() {
            proof {
                lemma_to_map_lookup(self.entries_view(), i as int);
            }
            Some(self.entries[i].1.clone())
        } else {
            proof {
                lemma_to_map_dom(self.entries_view());
            }
            None
        }
    }

    /// The names held, in the order in which they first came.
    pub fn keys(&self) -> (r: Vec<String>)
        requires
            self.wf(),
        ensures
            r.len() == self@.dom().len(),
            forall|k: Seq<char>| self@.contains_key(k) <==> r.deep_view().contains(k),
    {
        let ghost ks = self.entries_view().map_values(|e: (Seq<char>, Seq<char>)| e.0);
        let mut out: Vec<String> = Vec::new();
        let mut i: usize = 0;
        while i < self.entries.len()
            invariant
                i <= self.entries.len(),
                ks.len() == self.entries.len(),
                out.len() == i,
                ks == self.entries_view().map_values(|e: (Seq<char>, Seq<char>)| e.0),
                out.deep_view() == ks.take(i as int),
            decreases self.entries.len() - i,
        {
            let k = self.entries[i].0.clone();
            assert(self.entries_view()[i as int] == self.entries@[i as int].deep_view());
            assert(k@ == ks[i as int]);
            let ghost before = out@;
            let ghost before_dv = out.deep_view();
            out.push(k);
            assert forall|j: int| 0 <= j < i + 1 implies out.deep_view()[j] == ks.take(i + 1)[j] by {
                if j < i {
                    assert(before_dv[j] == ks.take(i as int)[j]);
                    assert(out@[j] == before[j]);
                }
            }
            assert(out.deep_view() =~= ks.take(i + 1));
            i += 1;
        }
        assert(ks.take(i as int) == ks);
        proof {
            lemma_to_map_dom(self.entries_view());
            let ev = self.entries_view();
            let ks = ev.map_values(|e: (Seq<char>, Seq<char>)| e.0);
            assert forall|k: Seq<char>| self@.contains_key(k) <==> out.deep_view().contains(k) by {
                if out.deep_view().contains(k) {
                    let j = choose|j: int| 0 <= j < out.len() && out.deep_view()[j] == k;
                    assert(ks[j] == k);
                }
                if self@.contains_key(k) {
                    let j = choose|j: int| 0 <= j < ks.len() && ks[j] == k;
                    assert(out.deep_view()[j] == k);
                }
            }
        }
        out
    }
}

pub proof fn lemma_to_map_dom(s: Seq<(Seq<char>, Seq<char>)>)
    requires
        unique_keys(s),
    ensures
        to_map(s).dom() == s.map_values(|e: (Seq<char>, Seq<char>)| e.0).to_set(),
        to_map(s).dom().finite(),
        to_map(s).dom().len() == s.len(),
    decreases s.len(),
{
    let ks = s.map_values(|e: (Seq<char>, Seq<char>)| e.0);
    if s.len() > 0 {
        let t = s.drop_last();
        lemma_to_map_dom(t);
        let kt = t.map_values(|e: (Seq<char>, Seq<char>)| e.0);
        assert(ks == kt.push(s.last().0));
        assert(!kt.contains(s.last().0)) by {
            if kt.contains(s.last().0) {
                let j = choose|j: int| 0 <= j < kt.len() && kt[j] == s.last().0;
                assert(s[j].0 == s[s.len() - 1].0);
            }
        }
        kt.lemma_push_to_set_commute(s.last().0);
        assert(to_map(s).dom() == to_map(t).dom().insert(s.last().0));
    } else {
        assert(ks.to_set() =~= Set::<Seq<char>>::empty());
        assert(to_map(s).dom() =~= Set::<Seq<char>>::empty());
    }
}

pub proof fn lemma_to_map_lookup(s: Seq<(Seq<char>, Seq<char>)>, i: int)
    requires
        unique_keys(s),
        0 <= i < s.len(),
    ensures
        to_map(s).contains_key(s[i].0),
        to_map(s)[s[i].0] == s[i].1,
    decreases s.len(),
{
    if i < s.len() - 1 {
        lemma_to_map_lookup(s.drop_last(), i);
    }
}

proof fn lemma_to_map_update(s: Seq<(Seq<char>, Seq<char>)>, i: int, k: Seq<char>, v: Seq<char>)
    requires
        unique_keys(s),
        0 <= i < s.len(),
        s[i].0 == k,
    ensures
        unique_keys(s.update(i, (k, v))),
        to_map(s.update(i, (k, v))) == to_map(s).insert(k, v),
    decreases s.len(),
{
    let u = s.update(i, (k, v));
    if i == s.len() - 1 {
        assert(u.drop_last() == s.drop_last());
    } else {
        lemma_to_map_update(s.drop_last(), i, k, v);
        assert(u.drop_last() == s.drop_last().update(i, (k, v)));
        assert(s.last().0 != k);
        assert(to_map(u) == to_map(s).insert(k, v));
    }
}

} // verus!
