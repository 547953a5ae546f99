//! A string-keyed map with a full functional contract.
//!
//! The throttle keeps two tables keyed by strings: pending challenges by their
//! commitment, and activity windows by client identity.  A hash map's
//! behaviour over string keys has no usable specification here, so the tables
//! are kept as short association lists whose abstract content is a `Map`
//! from the key's character sequence to the stored value.

use vstd::prelude::*;

verus! {

/// The map an association list stands for; a later binding would win, though
/// a well-formed list never holds two bindings for one key.
pub open spec fn alist_map<V>(s: Seq<(String, V)>) -> Map<Seq<char>, V>
    decreases s.len(),
{
    if s.len() == 0 {
        Map::empty()
    } else {
        alist_map(s.drop_last()).insert(s.last().0@, s.last().1)
    }
}

/// No two entries bind the same key.
pub open spec fn unique_keys<V>(s: Seq<(String, V)>) -> bool {
    forall|i: int, j: int| 0 <= i < j < s.len() ==> (#[trigger] s[i]).0@ != (#[trigger] s[j]).0@
}

/// A key is bound exactly when some entry holds it.
pub proof fn lemma_alist_map_contains<V>(s: Seq<(String, V)>, k: Seq<char>)
    ensures
        alist_map(s).contains_key(k) <==> exists|i: int| 0 <= i < s.len() && (#[trigger] s[i]).0@
            == k,
    decreases s.len(),
{
    if s.len() > 0 {
        lemma_alist_map_contains(s.drop_last(), k);
        if s.last().0@ == k {
            assert(s[s.len() - 1].0@ == k);
        } else if alist_map(s).contains_key(k) {
            let i = choose|i: int| 0 <= i < s.drop_last().len() && (#[trigger] s.drop_last()[i]).0@
                == k;
            assert(s[i].0@ == k);
        } else {
            assert forall|i: int| 0 <= i < s.len() implies (#[trigger] s[i]).0@ != k by {
                if i < s.len() - 1 {
                    assert(s.drop_last()[i] == s[i]);
                }
            }
        }
    }
}

/// In a well-formed list, each entry is bound to its own value.
pub proof fn lemma_alist_map_index<V>(s: Seq<(String, V)>, i: int)
    requires
        unique_keys(s),
        0 <= i < s.len(),
    ensures
        alist_map(s).contains_key(s[i].0@),
        alist_map(s)[s[i].0@] == s[i].1,
    decreases s.len(),
{
    if i == s.len() - 1 {
        assert(s.last() == s[i]);
    } else {
        assert(unique_keys(s.drop_last())) by {
            assert forall|x: int, y: int|
                0 <= x < y < s.drop_last().len() implies (#[trigger] s.drop_last()[x]).0@
                != (#[trigger] s.drop_last()[y]).0@ by {
                assert(s[x] == s.drop_last()[x]);
                assert(s[y] == s.drop_last()[y]);
            }
        }
        lemma_alist_map_index(s.drop_last(), i);
        assert(s.drop_last()[i] == s[i]);
        assert(s[i].0@ != s.last().0@);
    }
}

/// Appending a fresh binding adds it to the map.
pub proof fn lemma_alist_map_push<V>(s: Seq<(String, V)>, e: (String, V))
    ensures
        alist_map(s.push(e)) == alist_map(s).insert(e.0@, e.1),
{
    assert(s.push(e).drop_last() =~= s);
    assert(s.push(e).last() == e);
}

/// Removing an entry of a well-formed list removes its key from the map.
pub proof fn lemma_alist_map_remove<V>(s: Seq<(String, V)>, i: int)
    requires
        unique_keys(s),
        0 <= i < s.len(),
    ensures
        alist_map(s.remove(i)) == alist_map(s).remove(s[i].0@),
    decreases s.len(),
{
    let k = s[i].0@;
    if i == s.len() - 1 {
        assert(s.remove(i) =~= s.drop_last());
        lemma_alist_map_contains(s.drop_last(), k);
        assert forall|j: int| 0 <= j < s.drop_last().len() implies (#[trigger] s.drop_last()[j]).0@
            != k by {
            assert(s[j] == s.drop_last()[j]);
        }
        assert(!alist_map(s.drop_last()).contains_key(k));
        assert(alist_map(s).remove(k) =~= alist_map(s.drop_last()));
    } else {
        assert(unique_keys(s.drop_last())) by {
            assert forall|x: int, y: int|
                0 <= x < y < s.drop_last().len() implies (#[trigger] s.drop_last()[x]).0@
                != (#[trigger] s.drop_last()[y]).0@ by {
                assert(s[x] == s.drop_last()[x]);
                assert(s[y] == s.drop_last()[y]);
            }
        }
        assert(s.drop_last()[i] == s[i]);
        lemma_alist_map_remove(s.drop_last(), i);
        assert(s.remove(i).drop_last() =~= s.drop_last().remove(i));
        assert(s.remove(i).last() == s.last());
        assert(k != s.last().0@);
        assert(alist_map(s.remove(i)) == alist_map(s.drop_last().remove(i)).insert(
            s.last().0@,
            s.last().1,
        ));
        assert(alist_map(s.drop_last()).remove(k).insert(s.last().0@, s.last().1)
            =~= alist_map(s.drop_last()).insert(s.last().0@, s.last().1).remove(k));
    }
}

/// An association list from strings to values, with at most one entry per key.
pub struct StrMap<V> {
    entries: Vec<(String, V)>,
}

impl<V> View for StrMap<V> {
    type V = Map<Seq<char>, V>;

    closed spec fn view(&self) -> Map<Seq<char>, V> {
        alist_map(self.entries@)
    }
}

impl<V> StrMap<V> {
    /// Well-formed: no key bound twice.  Constructors establish this and
    /// every operation preserves it.
    pub closed spec fn wf(self) -> bool {
        unique_keys(self.entries@)
    }

    /// The empty map.
    pub fn new() -> (r: Self)
        ensures
            r@ == Map::<Seq<char>, V>::empty(),
            r.wf(),
    {
        StrMap { entries: Vec::new() }
    }

    /// Looks a key up.
    pub fn get<'a>(&'a self, k: &String) -> (r: Option<&'a V>)
        requires
            self.wf(),
        ensures
            match r {
                Some(v) => self@.contains_key(k@) && *v == self@[k@],
                None => !self@.contains_key(k@),
            },
    {
        let n = self.entries.len();
        let mut i: usize = 0;
        while i < n
            invariant
                n == self.entries@.len(),
                i <= n,
                unique_keys(self.entries@),
                forall|j: int| 0 <= j < i ==> (#[trigger] self.entries@[j]).0@ != k@,
            decreases n - i,
        {
            if self.entries[i].0 == *k {
                proof {
                    lemma_alist_map_index(self.entries@, i as int);
                }
                return Some(&self.entries[i].1);
            }
            i += 1;
        }
        proof {
            lemma_alist_map_contains(self.entries@, k@);
        }
        None
    }

    /// Removes a key's binding, if any.
    pub fn remove_key(&mut self, k: &String)
        requires
            old(self).wf(),
        ensures
            final(self).wf(),
            final(self)@ == old(self)@.remove(k@),
    {
        let n = self.entries.len();
        let mut i: usize = 0;
        while i < n
            invariant
                n == self.entries@.len(),
                i <= n,
                unique_keys(self.entries@),
                self.entries@ == old(self).entries@,
                forall|j: int| 0 <= j < i ==> (#[trigger] self.entries@[j]).0@ != k@,
            decreases n - i,
        {
            if self.entries[i].0 == *k {
                proof {
                    lemma_alist_map_remove(self.entries@, i as int);
                }
                let ghost pre = self.entries@;
                self.entries.remove(i);
                proof {
                    assert(self.entries@ =~= pre.remove(i as int));
                    assert forall|x: int, y: int|
                        0 <= x < y < self.entries@.len() implies (#[trigger] self.entries@[x]).0@
                        != (#[trigger] self.entries@[y]).0@ by {
                        let px: int = if x < i { x } else { x + 1 };
                        let py: int = if y < i { y } else { y + 1 };
                        assert(self.entries@[x] == pre[px]);
                        assert(self.entries@[y] == pre[py]);
                    }
                }
                return;
            }
            i += 1;
        }
        proof {
            lemma_alist_map_contains(self.entries@, k@);
            assert(!old(self)@.contains_key(k@));
            assert(old(self)@.remove(k@) =~= old(self)@);
        }
    }

    /// Binds a key to a value, replacing any earlier binding.
    pub fn insert(&mut self, k: String, v: V)
        requires
            old(self).wf(),
        ensures
            final(self).wf(),
            final(self)@ == old(self)@.insert(k@, v),
    {
        self.remove_key(&k);
        proof {
            lemma_alist_map_contains(self.entries@, k@);
            lemma_alist_map_push(self.entries@, (k, v));
        }
        let ghost pre = self.entries@;
        self.entries.push((k, v));
        proof {
            assert forall|x: int, y: int|
                0 <= x < y < self.entries@.len() implies (#[trigger] self.entries@[x]).0@
                != (#[trigger] self.entries@[y]).0@ by {
                if y < pre.len() {
                    assert(self.entries@[x] == pre[x]);
                    assert(self.entries@[y] == pre[y]);
                } else {
                    assert(self.entries@[x] == pre[x]);
                    assert(pre[x].0@ != k@);
                }
            }
            assert(self@ =~= old(self)@.insert(k@, v));
        }
    }
}

} // verus!
