//! An insertion-ordered map from user names to values, with at most one
//! entry per name.

use vstd::prelude::*;
use vstd::string::*;

verus! {

/// No name occurs twice in an association list.
pub open spec fn unique_keys<V>(s: Seq<(Seq<char>, V)>) -> bool {
    forall|i: int, j: int| 0 <= i < j < s.len() ==> #[trigger] s[i].0 != #[trigger] s[j].0
}

/// Whether `k` names an entry of `s`.
pub open spec fn has_key<V>(s: Seq<(Seq<char>, V)>, k: Seq<char>) -> bool {
    exists|i: int| 0 <= i < s.len() && #[trigger] s[i].0 == k
}

/// The position of the entry named `k`, or -1 when there is none.
pub open spec fn key_index<V>(s: Seq<(Seq<char>, V)>, k: Seq<char>) -> int {
    if has_key(s, k) {
        choose|i: int| 0 <= i < s.len() && #[trigger] s[i].0 == k
    } else {
        -1
    }
}

/// The value stored under `k`.
pub open spec fn lookup<V>(s: Seq<(Seq<char>, V)>, k: Seq<char>) -> Option<V> {
    if has_key(s, k) {
        Some(s[key_index(s, k)].1)
    } else {
        None
    }
}

/// `s` with `k` mapped to `v`: an existing entry is updated in place,
/// a new one is appended.
pub open spec fn insert_entry<V>(s: Seq<(Seq<char>, V)>, k: Seq<char>, v: V) -> Seq<
    (Seq<char>, V),
> {
    if has_key(s, k) {
        s.update(key_index(s, k), (k, v))
    } else {
        s.push((k, v))
    }
}

/// `s` without the entry named `k`.
pub open spec fn remove_entry<V>(s: Seq<(Seq<char>, V)>, k: Seq<char>) -> Seq<(Seq<char>, V)> {
    if has_key(s, k) {
        s.remove(key_index(s, k))
    } else {
        s
    }
}

/// The names of the entries, in order.
pub open spec fn keys_of<V>(s: Seq<(Seq<char>, V)>) -> Seq<Seq<char>> {
    s.map_values(|e: (Seq<char>, V)| e.0)
}

/// In a list with unique names, the entry named `s[i].0` is the one at `i`.
pub proof fn lemma_key_index<V>(s: Seq<(Seq<char>, V)>, i: int)
    requires
        unique_keys(s),
        0 <= i < s.len(),
    ensures
        has_key(s, s[i].0),
        key_index(s, s[i].0) == i,
        lookup(s, s[i].0) == Some(s[i].1),
{
    assert(s[i].0 == s[i].0);
    let j = key_index(s, s[i].0);
    if j != i {
        if j < i {
            assert(s[j].0 != s[i].0);
        } else {
            assert(s[i].0 != s[j].0);
        }
    }
}

/// Reading a name back after writing it gives the value written; every other
/// name keeps its value; names stay unique.
pub proof fn lemma_insert_lookup<V>(s: Seq<(Seq<char>, V)>, k: Seq<char>, v: V, j: Seq<char>)
    requires
        unique_keys(s),
    ensures
        unique_keys(insert_entry(s, k, v)),
        lookup(insert_entry(s, k, v), k) == Some(v),
        j != k ==> lookup(insert_entry(s, k, v), j) == lookup(s, j),
        has_key(s, k) ==> insert_entry(s, k, v).len() == s.len(),
        !has_key(s, k) ==> insert_entry(s, k, v).len() == s.len() + 1,
{
    let t = insert_entry(s, k, v);
    if has_key(s, k) {
        let i = key_index(s, k);
        lemma_key_index(s, i);
        assert forall|a: int, b: int| 0 <= a < b < t.len() implies #[trigger] t[a].0
            != #[trigger] t[b].0 by {
            assert(s[a].0 != s[b].0);
        }
        lemma_key_index(t, i);
        if j != k {
            if has_key(s, j) {
                let m = key_index(s, j);
                lemma_key_index(s, m);
                lemma_key_index(t, m);
            } else {
                if has_key(t, j) {
                    let m = choose|m: int| 0 <= m < t.len() && #[trigger] t[m].0 == j;
                    assert(s[m].0 == j);
                }
            }
        }
    } else {
        assert forall|a: int, b: int| 0 <= a < b < t.len() implies #[trigger] t[a].0
            != #[trigger] t[b].0 by {
            if b == s.len() {
                assert(s[a].0 != k);
            } else {
                assert(s[a].0 != s[b].0);
            }
        }
        lemma_key_index(t, s.len() as int);
        if j != k {
            if has_key(s, j) {
                let m = key_index(s, j);
                lemma_key_index(s, m);
                lemma_key_index(t, m);
            } else {
                if has_key(t, j) {
                    let m = choose|m: int| 0 <= m < t.len() && #[trigger] t[m].0 == j;
                    assert(s[m].0 == j);
                }
            }
        }
    }
}

/// After removing a name it is absent; every other name keeps its value;
/// names stay unique.
pub proof fn lemma_remove_lookup<V>(s: Seq<(Seq<char>, V)>, k: Seq<char>, j: Seq<char>)
    requires
        unique_keys(s),
    ensures
        unique_keys(remove_entry(s, k)),
        lookup(remove_entry(s, k), k) is None,
        j != k ==> lookup(remove_entry(s, k), j) == lookup(s, j),
{
    let t = remove_entry(s, k);
    if has_key(s, k) {
        let i = key_index(s, k);
        lemma_key_index(s, i);
        assert forall|a: int, b: int| 0 <= a < b < t.len() implies #[trigger] t[a].0
            != #[trigger] t[b].0 by {
            if a < i {
                if b < i {
                    assert(s[a].0 != s[b].0);
                } else {
                    assert(s[a].0 != s[b + 1].0);
                }
            } else {
                assert(s[a + 1].0 != s[b + 1].0);
            }
        }
        if has_key(t, k) {
            let m = choose|m: int| 0 <= m < t.len() && #[trigger] t[m].0 == k;
            if m < i {
                assert(s[m].0 != s[i].0);
            } else {
                assert(s[i].0 != s[m + 1].0);
            }
        }
        if j != k {
            if has_key(s, j) {
                let m = key_index(s, j);
                lemma_key_index(s, m);
                if m < i {
                    lemma_key_index(t, m);
                } else {
                    assert(t[m - 1] == s[m]);
                    lemma_key_index(t, m - 1);
                }
            } else {
                if has_key(t, j) {
                    let m = choose|m: int| 0 <= m < t.len() && #[trigger] t[m].0 == j;
                    if m < i {
                        assert(s[m].0 == j);
                    } else {
                        assert(s[m + 1].0 == j);
                    }
                }
            }
        }
    }
}

/// Writing a name twice is writing it once, with the second value.
pub proof fn lemma_insert_insert<V>(s: Seq<(Seq<char>, V)>, k: Seq<char>, v1: V, v2: V)
    requires
        unique_keys(s),
    ensures
        insert_entry(insert_entry(s, k, v1), k, v2) == insert_entry(s, k, v2),
{
    let t = insert_entry(s, k, v1);
    lemma_insert_lookup(s, k, v1, k);
    if has_key(s, k) {
        let i = key_index(s, k);
        lemma_key_index(s, i);
        lemma_key_index(t, i);
        assert(insert_entry(t, k, v2) =~= insert_entry(s, k, v2));
    } else {
        lemma_key_index(t, s.len() as int);
        assert(insert_entry(t, k, v2) =~= insert_entry(s, k, v2));
    }
}

/// A list with unique names is its last entry appended to the rest: the rest
/// has unique names and lacks the last name, so appending is writing.
pub proof fn lemma_drop_last<V>(s: Seq<(Seq<char>, V)>)
    requires
        unique_keys(s),
        s.len() > 0,
    ensures
        unique_keys(s.drop_last()),
        !has_key(s.drop_last(), s.last().0),
        s == insert_entry(s.drop_last(), s.last().0, s.last().1),
{
    let pre = s.drop_last();
    assert forall|a: int, b: int| 0 <= a < b < pre.len() implies #[trigger] pre[a].0
        != #[trigger] pre[b].0 by {
        assert(s[a].0 != s[b].0);
    }
    if has_key(pre, s.last().0) {
        let m = choose|m: int| 0 <= m < pre.len() && #[trigger] pre[m].0 == s.last().0;
        assert(s[m].0 != s[s.len() - 1].0);
    }
    assert(s =~= pre.push(s.last()));
}

/// The list with `f` applied to every value.
pub open spec fn map_entries<V, W>(s: Seq<(Seq<char>, V)>, f: spec_fn(V) -> W) -> Seq<
    (Seq<char>, W),
> {
    s.map_values(|e: (Seq<char>, V)| (e.0, f(e.1)))
}

/// Applying `f` to every value commutes with lookup and with writing.
pub proof fn lemma_map_entries<V, W>(
    s: Seq<(Seq<char>, V)>,
    f: spec_fn(V) -> W,
    k: Seq<char>,
    v: V,
)
    requires
        unique_keys(s),
    ensures
        unique_keys(map_entries(s, f)),
        has_key(map_entries(s, f), k) == has_key(s, k),
        lookup(map_entries(s, f), k) == (match lookup(s, k) {
            Some(x) => Some(f(x)),
            None => None,
        }),
        map_entries(insert_entry(s, k, v), f) == insert_entry(map_entries(s, f), k, f(v)),
{
    let m = map_entries(s, f);
    assert forall|a: int, b: int| 0 <= a < b < m.len() implies #[trigger] m[a].0
        != #[trigger] m[b].0 by {
        assert(s[a].0 != s[b].0);
    }
    if has_key(s, k) {
        let i = key_index(s, k);
        lemma_key_index(s, i);
        assert(m[i].0 == k);
        lemma_key_index(m, i);
        assert(map_entries(insert_entry(s, k, v), f) =~= insert_entry(m, k, f(v)));
    } else {
        if has_key(m, k) {
            let j = choose|j: int| 0 <= j < m.len() && #[trigger] m[j].0 == k;
            assert(s[j].0 == k);
        }
        assert(map_entries(insert_entry(s, k, v), f) =~= insert_entry(m, k, f(v)));
    }
}

/// A map of names to values, kept in the order in which names were first
/// inserted.
pub struct UserMap<V> {
    entries: Vec<(String, V)>,
}

impl<V> View for UserMap<V> {
    type V = Seq<(Seq<char>, V)>;

    closed spec fn view(&self) -> Seq<(Seq<char>, V)> {
        self.entries@.map_values(|e: (String, V)| (e.0@, e.1))
    }
}

impl<V> UserMap<V> {
    /// Well-formedness: no name occurs twice.
    pub open spec fn wf(&self) -> bool {
        unique_keys(self@)
    }

    /// An empty map.
    pub fn new() -> (m: Self)
        ensures
            m@ == Seq::<(Seq<char>, V)>::empty(),
            unique_keys(m@),
    {
        let m = UserMap { entries: Vec::new() };
        assert(m@ =~= Seq::<(Seq<char>, V)>::empty());
        m
    }

    /// The number of entries.
    pub fn len(&self) -> (n: usize)
        ensures
            n == self@.len(),
    {
        self.entries.len()
    }

    /// Whether the map has no entries.
    pub fn is_empty(&self) -> (b: bool)
        ensures
            b == (self@.len() == 0),
    {
        self.entries.len() == 0
    }

    /// The position of the entry named `k`, if any.
    fn find(&self, k: &str) -> (r: Option<usize>)
        requires
            self.wf(),
        ensures
            r is None <==> !has_key(self@, k@),
            r matches Some(i) ==> i < self@.len() && i == key_index(self@, k@),
    {
        let key = String::from_str(k);
        let mut i: usize = 0;
        while i < self.entries.len()
            invariant
                i <= self@.len(),
                self@.len() == self.entries@.len(),
                key@ == k@,
                unique_keys(self@),
                forall|j: int| 0 <= j < i ==> #[trigger] self@[j].0 != k@,
            decreases self.entries@.len() - i,
        {
            if self.entries[i].0 == key {
                proof {
                    assert(self@[i as int].0 == k@);
                    lemma_key_index(self@, i as int);
                }
                return Some(i);
            }
            i = i + 1;
        }
        None
    }

    /// Whether `k` names an entry.
    pub fn contains_key(&self, k: &str) -> (b: bool)
        requires
            self.wf(),
        ensures
            b == has_key(self@, k@),
    {
        self.find(k).is_some()
    }

    /// The value stored under `k`.
    pub fn get(&self, k: &str) -> (r: Option<&V>)
        requires
            self.wf(),
        ensures
            r matches Some(v) ==> lookup(self@, k@) == Some(*v),
            r is None ==> lookup(self@, k@) is None,
    {
        match self.find(k) {
            Some(i) => Some(&self.entries[i].1),
            None => None,
        }
    }

    /// The name of the entry at position `i`.
    pub fn key_at(&self, i: usize) -> (k: &String)
        requires
            i < self@.len(),
        ensures
            k@ == self@[i as int].0,
    {
        &self.entries[i].0
    }

    /// The value of the entry at position `i`.
    pub fn value_at(&self, i: usize) -> (v: &V)
        requires
            i < self@.len(),
        ensures
            *v == self@[i as int].1,
    {
        &self.entries[i].1
    }

    /// Maps `k` to `v`; returns the value that `k` had before.
    pub fn insert(&mut self, k: String, v: V) -> (prev: Option<V>)
        requires
            old(self).wf(),
        ensures
            final(self)@ == insert_entry(old(self)@, k@, v),
            unique_keys(final(self)@),
            prev == lookup(old(self)@, k@),
    {
        let ghost k_view = k@;
        match self.find(k.as_str()) {
            Some(i) => {
                let ghost s0 = self@;
                proof {
                    lemma_key_index(s0, i as int);
                }
                let (_, old_v) = self.entries.remove(i);
                self.entries.insert(i, (k, v));
                assert(self@ =~= insert_entry(s0, k_view, v));
                Some(old_v)
            },
            None => {
                let ghost s0 = self@;
                self.entries.push((k, v));
                assert(self@ =~= insert_entry(s0, k_view, v));
                None
            },
        }
    }
}


impl<V> UserMap<V> {
    /// Removes the entry named `k`; returns its value.
    pub fn remove(&mut self, k: &str) -> (prev: Option<V>)
        requires
            old(self).wf(),
        ensures
            final(self)@ == remove_entry(old(self)@, k@),
            unique_keys(final(self)@),
            prev == lookup(old(self)@, k@),
    {
        match self.find(k) {
            Some(i) => {
                let ghost s0 = self@;
                proof {
                    lemma_key_index(s0, i as int);
                }
                let (_, old_v) = self.entries.remove(i);
                assert(self@ =~= remove_entry(s0, k@));
                proof {
                    assert forall|a: int, b: int| 0 <= a < b < self@.len() implies #[trigger] self@[a].0
                        != #[trigger] self@[b].0 by {
                        if a < i {
                            if b < i {
                                assert(s0[a].0 != s0[b].0);
                            } else {
                                assert(s0[a].0 != s0[b + 1].0);
                            }
                        } else {
                            assert(s0[a + 1].0 != s0[b + 1].0);
                        }
                    }
                }
                Some(old_v)
            },
            None => None,
        }
    }

    /// A mutable reference to the value stored under `k`, which must exist.
    pub fn get_mut(&mut self, k: &str) -> (r: &mut V)
        requires
            old(self).wf(),
            has_key(old(self)@, k@),
        ensures
            lookup(old(self)@, k@) == Some(*r),
            final(self)@ == insert_entry(old(self)@, k@, *final(r)),
            unique_keys(final(self)@),
    {
        let i = self.find(k).unwrap();
        let ghost s0 = self@;
        proof {
            lemma_key_index(s0, i as int);
        }
        let entry = &mut self.entries[i];
        &mut entry.1
    }
}

} // verus!
