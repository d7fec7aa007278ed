use vstd::prelude::*;

verus! {

/// Position of the entry for `k` in `s`, searching from the back; -1 where there is none.
pub open spec fn index_of<V>(s: Seq<(Seq<char>, V)>, k: Seq<char>) -> int
    decreases s.len(),
{
    if s.len() == 0 {
        -1
    } else if s.last().0 == k {
        s.len() - 1
    } else {
        index_of(s.drop_last(), k)
    }
}

/// The value that `s` gives to `k`, if any.
pub open spec fn lookup<V>(s: Seq<(Seq<char>, V)>, k: Seq<char>) -> Option<V> {
    if index_of(s, k) >= 0 {
        Some(s[index_of(s, k)].1)
    } else {
        None
    }
}

/// `s` with `k` bound to `v`: the entry of `k` is replaced in place, or a new entry is appended.
pub open spec fn put<V>(s: Seq<(Seq<char>, V)>, k: Seq<char>, v: V) -> Seq<(Seq<char>, V)> {
    if index_of(s, k) >= 0 {
        s.update(index_of(s, k), (k, v))
    } else {
        s.push((k, v))
    }
}

/// No name occurs twice among the entries.
pub open spec fn distinct_keys<V>(s: Seq<(Seq<char>, V)>) -> bool {
    forall|i: int, j: int| 0 <= i < s.len() && 0 <= j < s.len() && #[trigger] s[i].0 == #[trigger] s[j].0 ==> i == j
}

/// The mathematical map that the entries denote.
pub open spec fn entries_map<V>(s: Seq<(Seq<char>, V)>) -> Map<Seq<char>, V> {
    Map::new(|k: Seq<char>| index_of(s, k) >= 0, |k: Seq<char>| s[index_of(s, k)].1)
}

/// The entry found for `k` is named `k`, and no later entry is.
pub proof fn lemma_index_of<V>(s: Seq<(Seq<char>, V)>, k: Seq<char>)
    ensures
        -1 <= index_of(s, k) < s.len(),
        index_of(s, k) >= 0 ==> s[index_of(s, k)].0 == k,
        index_of(s, k) < 0 <==> forall|i: int| 0 <= i < s.len() ==> s[i].0 != k,
        forall|i: int| index_of(s, k) < i < s.len() ==> s[i].0 != k,
    decreases s.len(),
{
    if s.len() > 0 {
        lemma_index_of(s.drop_last(), k);
        assert forall|i: int| 0 <= i < s.len() - 1 implies s.drop_last()[i] == s[i] by {}
    }
}

/// Binding `k` changes what `k` looks up to and nothing else.
pub proof fn lemma_lookup_put<V>(s: Seq<(Seq<char>, V)>, k: Seq<char>, v: V, name: Seq<char>)
    ensures
        lookup(put(s, k, v), name) == (if name == k { Some(v) } else { lookup(s, name) }),
{
    lemma_index_of(s, k);
    lemma_index_of(s, name);
    let t = put(s, k, v);
    lemma_index_of(t, name);
    if index_of(s, k) >= 0 {
        let i = index_of(s, k);
        assert(t[i].0 == k);
        if name == k {
            assert(index_of(t, name) == i) by {
                lemma_index_of_is_last_match(t, name, i);
            }
        } else if index_of(s, name) >= 0 {
            let j = index_of(s, name);
            assert(t[j].0 == name);
            lemma_index_of_is_last_match(t, name, j);
        } else {
            assert forall|m: int| 0 <= m < t.len() implies t[m].0 != name by {
                if m != i {
                    assert(t[m] == s[m]);
                }
            }
        }
    } else {
        assert(t.drop_last() =~= s);
    }
}

/// `i` is where `k` is found when it is the last entry named `k`.
pub proof fn lemma_index_of_is_last_match<V>(s: Seq<(Seq<char>, V)>, k: Seq<char>, i: int)
    requires
        0 <= i < s.len(),
        s[i].0 == k,
        forall|m: int| i < m < s.len() ==> s[m].0 != k,
    ensures
        index_of(s, k) == i,
    decreases s.len(),
{
    if i < s.len() - 1 {
        lemma_index_of_is_last_match(s.drop_last(), k, i);
    }
}

/// With distinct names, the entry found for a name is its only entry.
pub proof fn lemma_index_of_distinct<V>(s: Seq<(Seq<char>, V)>, i: int)
    requires
        distinct_keys(s),
        0 <= i < s.len(),
    ensures
        index_of(s, s[i].0) == i,
{
    lemma_index_of_is_last_match(s, s[i].0, i);
}

/// A map from names to values, kept as a list of entries in which no name occurs twice.
/// Entries keep the order in which their names were first inserted.
pub struct NameMap<V> {
    entries: Vec<(String, V)>,
}

impl<V> View for NameMap<V> {
    type V = Seq<(Seq<char>, V)>;

    closed spec fn view(&self) -> Seq<(Seq<char>, V)> {
        self.entries@.map_values(|e: (String, V)| (e.0@, e.1))
    }
}

impl<V> NameMap<V> {
    /// The entries never name anything twice.
    #[verifier::type_invariant]
    spec fn wf(self) -> bool {
        distinct_keys(self@)
    }

    /// The map that the entries denote.
    pub open spec fn map(&self) -> Map<Seq<char>, V> {
        entries_map(self@)
    }

    /// An empty map.
    pub fn new() -> (m: Self)
        ensures
            m@ == Seq::<(Seq<char>, V)>::empty(),
    {
        let m = NameMap { entries: Vec::new() };
        assert(m@ =~= Seq::<(Seq<char>, V)>::empty());
        m
    }

    /// The number of entries.
    pub fn len(&self) -> (n: usize)
        ensures
            n == self@.len(),
    {
        self.entries.len()
    }

    /// The name of the `i`-th entry.
    pub fn key_at(&self, i: usize) -> (k: &String)
        requires
            i < self@.len(),
        ensures
            k@ == self@[i as int].0,
    {
        &self.entries[i].0
    }

    /// The value of the `i`-th entry.
    pub fn value_at(&self, i: usize) -> (v: &V)
        requires
            i < self@.len(),
        ensures
            *v == self@[i as int].1,
    {
        &self.entries[i].1
    }

    /// Where the entry of `k` stands, if there is one.
    pub fn position(&self, k: &String) -> (pos: Option<usize>)
        ensures
            match pos {
                Some(i) => i == index_of(self@, k@) && i < self@.len(),
                None => index_of(self@, k@) == -1,
            },
    {
        proof {
            lemma_index_of(self@, k@);
            assert(self@.take(self@.len() as int) =~= self@);
        }
        let mut i: usize = self.entries.len();
        while i > 0
            invariant
                i <= self.entries@.len(),
                index_of(self@, k@) == index_of(self@.take(i as int), k@),
            decreases i,
        {
            assert(self@.take(i as int).drop_last() =~= self@.take(i - 1));
            if self.entries[i - 1].0 == *k {
                return Some(i - 1);
            }
            i = i - 1;
        }
        None
    }

    /// Whether `k` has an entry.
    pub fn contains_key(&self, k: &String) -> (found: bool)
        ensures
            found == (index_of(self@, k@) >= 0),
    {
        match self.position(k) {
            Some(_) => true,
            None => false,
        }
    }

    /// The value of `k`, if it has one.
    pub fn get(&self, k: &String) -> (v: Option<&V>)
        ensures
            match v {
                Some(r) => lookup(self@, k@) == Some(*r),
                None => lookup(self@, k@) is None,
            },
    {
        match self.position(k) {
            Some(i) => Some(&self.entries[i].1),
            None => {
                proof { lemma_index_of(self@, k@); }
                None
            },
        }
    }

    /// Binds `k` to `v`, replacing the value of an entry for `k` in place, or appending one.
    pub fn insert(&mut self, k: String, v: V)
        ensures
            final(self)@ == put(old(self)@, k@, v),
    {
        proof {
            use_type_invariant(&*self);
            lemma_index_of(self@, k@);
        }
        let ghost k_view = k@;
        let pos = self.position(&k);
        let mut entries: Vec<(String, V)> = Vec::new();
        std::mem::swap(&mut entries, &mut self.entries);
        match pos {
            Some(i) => {
                entries.set(i, (k, v));
            },
            None => {
                entries.push((k, v));
            },
        }
        proof {
            let s = entries@.map_values(|e: (String, V)| (e.0@, e.1));
            assert(s =~= put(old(self)@, k_view, v));
        }
        self.entries = entries;
    }
}

} // verus!
