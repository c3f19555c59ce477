use vstd::prelude::*;

verus! {

/// A map from text keys to values that remembers the order in which keys
/// were first inserted. Each key occurs at most once.
#[derive(Debug)]
pub struct OrderedMap<T> {
    entries: Vec<(String, T)>,
}

/// Whether some pair of `s` has the key `k`.
pub open spec fn pairs_have_key<T>(s: Seq<(Seq<char>, T)>, k: Seq<char>) -> bool {
    exists|i: int| 0 <= i < s.len() && #[trigger] s[i].0 == k
}

/// No key occurs twice in `s`.
pub open spec fn pairs_unique<T>(s: Seq<(Seq<char>, T)>) -> bool {
    forall|i: int, j: int| 0 <= i < s.len() && 0 <= j < s.len() && i != j ==> #[trigger] s[i].0 != #[trigger] s[j].0
}

/// The map that a sequence of pairs with unique keys stands for.
pub open spec fn pairs_map<T>(s: Seq<(Seq<char>, T)>) -> Map<Seq<char>, T> {
    Map::new(
        |k: Seq<char>| pairs_have_key(s, k),
        |k: Seq<char>| s[choose|i: int| 0 <= i < s.len() && #[trigger] s[i].0 == k].1,
    )
}

/// The keys of `s`, in order.
pub open spec fn pairs_keys<T>(s: Seq<(Seq<char>, T)>) -> Seq<Seq<char>> {
    s.map_values(|e: (Seq<char>, T)| e.0)
}

/// `s` after setting `k` to `v`: in place where `k` is present, else at the end.
pub open spec fn pairs_insert<T>(s: Seq<(Seq<char>, T)>, k: Seq<char>, v: T) -> Seq<(Seq<char>, T)> {
    if pairs_have_key(s, k) {
        s.update(choose|i: int| 0 <= i < s.len() && #[trigger] s[i].0 == k, (k, v))
    } else {
        s.push((k, v))
    }
}

/// In a sequence with unique keys, the pair at `i` gives the value of its key.
pub proof fn lemma_pairs_map_at<T>(s: Seq<(Seq<char>, T)>, i: int)
    requires
        pairs_unique(s),
        0 <= i < s.len(),
    ensures
        pairs_map(s).contains_key(s[i].0),
        pairs_map(s)[s[i].0] == s[i].1,
{
    let k = s[i].0;
    assert(pairs_have_key(s, k));
    let j = choose|j: int| 0 <= j < s.len() && #[trigger] s[j].0 == k;
    assert(s[j].0 == s[i].0);
}

/// Setting a key keeps the keys unique, and the map changes by one insertion.
pub proof fn lemma_pairs_insert<T>(s: Seq<(Seq<char>, T)>, k: Seq<char>, v: T)
    requires
        pairs_unique(s),
    ensures
        pairs_unique(pairs_insert(s, k, v)),
        pairs_map(pairs_insert(s, k, v)) == pairs_map(s).insert(k, v),
        pairs_have_key(s, k) ==> pairs_keys(pairs_insert(s, k, v)) == pairs_keys(s),
        !pairs_have_key(s, k) ==> pairs_keys(pairs_insert(s, k, v)) == pairs_keys(s).push(k),
{
    let t = pairs_insert(s, k, v);
    if pairs_have_key(s, k) {
        let i = choose|i: int| 0 <= i < s.len() && #[trigger] s[i].0 == k;
        assert(t == s.update(i, (k, v)));
        assert(pairs_keys(t) =~= pairs_keys(s));
    } else {
        assert(t == s.push((k, v)));
        assert(pairs_keys(t) =~= pairs_keys(s).push(k));
    }
    assert(pairs_unique(t));
    let m = pairs_map(s).insert(k, v);
    assert forall|kk: Seq<char>| #[trigger] pairs_map(t).contains_key(kk) == m.contains_key(kk) by {
        if pairs_have_key(t, kk) {
            let j = choose|j: int| 0 <= j < t.len() && #[trigger] t[j].0 == kk;
            if kk != k {
                if pairs_have_key(s, k) {
                    let i = choose|i: int| 0 <= i < s.len() && #[trigger] s[i].0 == k;
                    assert(j != i);
                    assert(t[j] == s[j]);
                } else {
                    assert(j != s.len());
                    assert(t[j] == s[j]);
                }
            }
        }
        if kk != k && pairs_have_key(s, kk) {
            let j = choose|j: int| 0 <= j < s.len() && #[trigger] s[j].0 == kk;
            assert(t[j].0 == kk);
        }
        if kk == k {
            if pairs_have_key(s, k) {
                let i = choose|i: int| 0 <= i < s.len() && #[trigger] s[i].0 == k;
                assert(t[i].0 == k);
            } else {
                assert(t[s.len() as int].0 == k);
            }
        }
    }
    assert forall|kk: Seq<char>| #[trigger] m.contains_key(kk) implies pairs_map(t)[kk] == m[kk] by {
        assert(pairs_map(t).contains_key(kk));
        assert(pairs_have_key(t, kk));
        let j = choose|j: int| 0 <= j < t.len() && #[trigger] t[j].0 == kk;
        lemma_pairs_map_at(t, j);
        if kk != k {
            if pairs_have_key(s, k) {
                let i = choose|i: int| 0 <= i < s.len() && #[trigger] s[i].0 == k;
                assert(j != i);
                assert(t[j] == s[j]);
            } else {
                assert(j != s.len());
                assert(t[j] == s[j]);
            }
            lemma_pairs_map_at(s, j);
        }
    }
    assert(pairs_map(t) =~= m);
}

/// Setting a key and then taking the text of each value is taking the texts
/// and then setting the key.
pub proof fn lemma_text_values_insert(m: Map<Seq<char>, String>, k: Seq<char>, v: String)
    ensures
        m.insert(k, v).map_values(|s: String| s@) == m.map_values(|s: String| s@).insert(k, v@),
{
    assert(m.insert(k, v).map_values(|s: String| s@) =~= m.map_values(|s: String| s@).insert(k, v@));
}

impl<T> OrderedMap<T> {
    #[verifier::type_invariant]
    spec fn keys_unique(self) -> bool {
        pairs_unique(self.pairs())
    }

    /// The entries as (key text, value) pairs, in insertion order.
    pub closed spec fn pairs(self) -> Seq<(Seq<char>, T)> {
        self.entries@.map_values(|e: (String, T)| (e.0@, e.1))
    }

    /// A map with no entries.
    pub fn new() -> (r: Self)
        ensures
            r.pairs() == Seq::<(Seq<char>, T)>::empty(),
            r@ == Map::<Seq<char>, T>::empty(),
    {
        let r = OrderedMap { entries: Vec::new() };
        assert(r.pairs() =~= Seq::<(Seq<char>, T)>::empty());
        assert(r@ =~= Map::<Seq<char>, T>::empty());
        r
    }

    /// The number of entries.
    pub fn len(&self) -> (r: usize)
        ensures
            r == self.pairs().len(),
            pairs_unique(self.pairs()),
    {
        proof {
            use_type_invariant(self);
        }
        self.entries.len()
    }

    /// The position of `key`, if it is present.
    fn position(&self, key: &str) -> (r: Option<usize>)
        ensures
            match r {
                Some(i) => i < self.pairs().len() && self.pairs()[i as int].0 == key@,
                None => !pairs_have_key(self.pairs(), key@),
            },
    {
        let wanted = key.to_owned();
        let mut i: usize = 0;
        while i < self.entries.len()
            invariant
                i <= self.entries@.len(),
                wanted@ == key@,
                forall|j: int| 0 <= j < i ==> #[trigger] self.pairs()[j].0 != key@,
            decreases self.entries@.len() - i,
        {
            if self.entries[i].0 == wanted {
                return Some(i);
            }
            i = i + 1;
        }
        None
    }

    /// The entries, in insertion order.
    pub fn into_entries(self) -> (r: Vec<(String, T)>)
        ensures
            r@.map_values(|e: (String, T)| (e.0@, e.1)) == self.pairs(),
            pairs_unique(self.pairs()),
    {
        proof {
            use_type_invariant(&self);
        }
        let OrderedMap { entries } = self;
        entries
    }

    /// The position of `key` in the insertion order.
    pub fn index_of(&self, key: &str) -> (r: Option<usize>)
        ensures
            match r {
                Some(i) => i < self.pairs().len() && self.pairs()[i as int].0 == key@,
                None => !self@.contains_key(key@),
            },
    {
        self.position(key)
    }

    /// Whether `key` is present.
    pub fn contains_key(&self, key: &str) -> (r: bool)
        ensures
            r == self@.contains_key(key@),
    {
        self.position(key).is_some()
    }

    /// The value stored under `key`.
    pub fn get(&self, key: &str) -> (r: Option<&T>)
        ensures
            match r {
                Some(v) => self@.contains_key(key@) && *v == self@[key@],
                None => !self@.contains_key(key@),
            },
    {
        proof {
            use_type_invariant(self);
        }
        match self.position(key) {
            Some(i) => {
                proof {
                    lemma_pairs_map_at(self.pairs(), i as int);
                }
                Some(&self.entries[i].1)
            },
            None => None,
        }
    }

    /// The key and value at position `i` of the insertion order.
    pub fn entry(&self, i: usize) -> (r: (&String, &T))
        requires
            i < self.pairs().len(),
        ensures
            r.0@ == self.pairs()[i as int].0,
            *r.1 == self.pairs()[i as int].1,
            self@.contains_key(r.0@),
            self@[r.0@] == *r.1,
    {
        proof {
            use_type_invariant(self);
            lemma_pairs_map_at(self.pairs(), i as int);
        }
        let e = &self.entries[i];
        (&e.0, &e.1)
    }

    /// Sets `key` to `value`. A present key keeps its position; a new key
    /// goes last.
    pub fn insert(&mut self, key: String, value: T)
        ensures
            final(self).pairs() == pairs_insert(old(self).pairs(), key@, value),
            final(self)@ == old(self)@.insert(key@, value),
    {
        proof {
            use_type_invariant(&*self);
            lemma_pairs_insert(self.pairs(), key@, value);
        }
        let ghost before = self.pairs();
        let pos = self.position(key.as_str());
        let mut taken = OrderedMap { entries: Vec::new() };
        std::mem::swap(self, &mut taken);
        let OrderedMap { mut entries } = taken;
        assert(entries@.map_values(|e: (String, T)| (e.0@, e.1)) == before);
        match pos {
            Some(i) => {
                proof {
                    let j = choose|j: int| 0 <= j < before.len() && #[trigger] before[j].0 == key@;
                    assert(before[j].0 == before[i as int].0);
                }
                entries.set(i, (key, value));
            },
            None => {
                entries.push((key, value));
            },
        }
        assert(entries@.map_values(|e: (String, T)| (e.0@, e.1)) =~= pairs_insert(before, key@, value));
        *self = OrderedMap { entries };
        assert(self.pairs() =~= pairs_insert(before, key@, value));
    }
}

impl OrderedMap<String> {
    /// A copy with the same entries in the same order.
    pub fn duplicate(&self) -> (r: Self)
        ensures
            r.pairs() == self.pairs(),
            r@ == self@,
    {
        proof {
            use_type_invariant(self);
        }
        let mut entries: Vec<(String, String)> = Vec::new();
        let mut i: usize = 0;
        while i < self.entries.len()
            invariant
                i <= self.entries@.len(),
                pairs_unique(self.pairs()),
                entries@.len() == i,
                forall|j: int| 0 <= j < i ==> #[trigger] entries@[j] == self.entries@[j],
            decreases self.entries@.len() - i,
        {
            let e = &self.entries[i];
            entries.push((e.0.clone(), e.1.clone()));
            i = i + 1;
        }
        assert(entries@ =~= self.entries@);
        OrderedMap { entries }
    }
}

impl<T: Clone> Clone for OrderedMap<T> {
    fn clone(&self) -> Self {
        proof {
            use_type_invariant(self);
        }
        let mut entries: Vec<(String, T)> = Vec::new();
        let mut i: usize = 0;
        while i < self.entries.len()
            invariant
                i <= self.entries@.len(),
                pairs_unique(self.pairs()),
                entries@.len() == i,
                forall|j: int| 0 <= j < i ==> #[trigger] entries@[j].0 == self.entries@[j].0,
            decreases self.entries@.len() - i,
        {
            let e = &self.entries[i];
            entries.push((e.0.clone(), e.1.clone()));
            i = i + 1;
        }
        let ghost p = entries@.map_values(|e: (String, T)| (e.0@, e.1));
        assert forall|a: int, b: int|
            0 <= a < p.len() && 0 <= b < p.len() && a != b implies #[trigger] p[a].0
            != #[trigger] p[b].0 by {
            assert(p[a].0 == self.pairs()[a].0);
            assert(p[b].0 == self.pairs()[b].0);
        }
        let r = OrderedMap { entries };
        r
    }
}

impl<T> View for OrderedMap<T> {
    type V = Map<Seq<char>, T>;

    open spec fn view(&self) -> Map<Seq<char>, T> {
        pairs_map(self.pairs())
    }
}

} // verus!
