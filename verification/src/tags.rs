//! The tag mapping of a record: string keys to string values, keys
//! unique, insertion order kept.  Specified as a sequence of key/value
//! pairs over character views, with a first-match lookup function.

use vstd::prelude::*;

verus! {

/// First-match lookup of `k` among the pairs of `s`.
pub open spec fn lookup(s: Seq<(Seq<char>, Seq<char>)>, k: Seq<char>) -> Option<Seq<char>>
    decreases s.len(),
{
    if s.len() == 0 {
        None
    } else if s[0].0 == k {
        Some(s[0].1)
    } else {
        lookup(s.drop_first(), k)
    }
}

/// Index of the first pair of `s` whose key is `k`; `s.len()` when absent.
pub open spec fn key_index(s: Seq<(Seq<char>, Seq<char>)>, k: Seq<char>) -> int
    decreases s.len(),
{
    if s.len() == 0 {
        0
    } else if s[0].0 == k {
        0
    } else {
        1 + key_index(s.drop_first(), k)
    }
}

/// What inserting `k -> v` with overwrite does to the pair sequence:
/// replace the value at the first pair keyed `k`, or append a new pair.
pub open spec fn spec_insert(
    s: Seq<(Seq<char>, Seq<char>)>,
    k: Seq<char>,
    v: Seq<char>,
) -> Seq<(Seq<char>, Seq<char>)> {
    let i = key_index(s, k);
    if i < s.len() {
        s.update(i, (k, v))
    } else {
        s.push((k, v))
    }
}

/// What back-filling one default does: append `k -> v` only when `k` is
/// absent.
pub open spec fn spec_fill_absent(
    s: Seq<(Seq<char>, Seq<char>)>,
    k: Seq<char>,
    v: Seq<char>,
) -> Seq<(Seq<char>, Seq<char>)> {
    if lookup(s, k) is Some {
        s
    } else {
        s.push((k, v))
    }
}

pub proof fn lemma_key_index_bounds(s: Seq<(Seq<char>, Seq<char>)>, k: Seq<char>)
    ensures
        0 <= key_index(s, k) <= s.len(),
        key_index(s, k) < s.len() ==> s[key_index(s, k)].0 == k,
        key_index(s, k) < s.len() <==> lookup(s, k) is Some,
        key_index(s, k) < s.len() ==> lookup(s, k) == Some(s[key_index(s, k)].1),
        forall|j: int| 0 <= j < key_index(s, k) ==> s[j].0 != k,
    decreases s.len(),
{
    if s.len() > 0 && s[0].0 != k {
        lemma_key_index_bounds(s.drop_first(), k);
        assert forall|j: int| 0 <= j < key_index(s, k) implies s[j].0 != k by {
            if j > 0 {
                assert(s.drop_first()[j - 1] == s[j]);
            }
        }
    }
}

/// A tag mapping: keys unique, insertion order kept.
#[derive(Debug, Clone)]
pub struct Tags {
    pairs: Vec<(String, String)>,
}

impl Tags {
    /// The pairs, over character views.
    pub closed spec fn view_seq(self) -> Seq<(Seq<char>, Seq<char>)> {
        self.pairs@.map_values(|p: (String, String)| (p.0@, p.1@))
    }

    /// Keys are pairwise distinct.
    pub open spec fn wf(self) -> bool {
        forall|i: int, j: int|
            0 <= i < j < self.view_seq().len() ==> self.view_seq()[i].0 != self.view_seq()[j].0
    }

    /// Lookup over the view.
    pub open spec fn spec_get(self, k: Seq<char>) -> Option<Seq<char>> {
        lookup(self.view_seq(), k)
    }

    pub fn new() -> (t: Tags)
        ensures
            t.wf(),
            t.view_seq() == Seq::<(Seq<char>, Seq<char>)>::empty(),
    {
        let t = Tags { pairs: Vec::new() };
        proof {
            assert(t.view_seq() =~= Seq::<(Seq<char>, Seq<char>)>::empty());
        }
        t
    }

    pub fn len(&self) -> (n: usize)
        ensures
            n == self.view_seq().len(),
    {
        self.pairs.len()
    }

    /// The pair at position `i`, as fresh strings.
    pub fn pair_at(&self, i: usize) -> (p: (String, String))
        requires
            i < self.view_seq().len(),
        ensures
            (p.0@, p.1@) == self.view_seq()[i as int],
    {
        let p = &self.pairs[i];
        (p.0.clone(), p.1.clone())
    }

    /// Find the first pair keyed `k`, or the length when absent.
    fn find_key(&self, k: &str) -> (i: usize)
        ensures
            i == key_index(self.view_seq(), k@),
    {
        let ghost v = self.view_seq();
        let n = self.pairs.len();
        let mut i: usize = 0;
        while i < n
            invariant
                i <= n,
                n == v.len(),
                v == self.view_seq(),
                forall|j: int| 0 <= j < i ==> v[j].0 != k@,
            decreases n - i,
        {
            if crate::text::str_eq(self.pairs[i].0.as_str(), k) {
                proof {
                    assert(v[i as int].0 == k@);
                    lemma_key_index_bounds(v, k@);
                    if key_index(v, k@) < i {
                        assert(v[key_index(v, k@)].0 == k@);
                    }
                }
                return i;
            }
            i = i + 1;
        }
        proof {
            lemma_key_index_bounds(v, k@);
        }
        n
    }

    /// The value under `k`, cloned, or `None` when absent.
    pub fn get(&self, k: &str) -> (r: Option<String>)
        ensures
            match r {
                Some(v) => self.spec_get(k@) == Some(v@),
                None => self.spec_get(k@) is None,
            },
    {
        let i = self.find_key(k);
        proof {
            lemma_key_index_bounds(self.view_seq(), k@);
        }
        if i < self.pairs.len() {
            Some(self.pairs[i].1.clone())
        } else {
            None
        }
    }

    pub fn contains_key(&self, k: &str) -> (r: bool)
        ensures
            r == (self.spec_get(k@) is Some),
    {
        let i = self.find_key(k);
        proof {
            lemma_key_index_bounds(self.view_seq(), k@);
        }
        i < self.pairs.len()
    }

    /// Insert with overwrite: the first pair keyed `k` gets value `v`, or
    /// a new pair is appended.
    pub fn insert(&mut self, k: String, v: String)
        requires
            old(self).wf(),
        ensures
            final(self).wf(),
            final(self).view_seq() == spec_insert(old(self).view_seq(), k@, v@),
    {
        let ghost w = self.view_seq();
        let i = self.find_key(k.as_str());
        proof {
            lemma_key_index_bounds(w, k@);
        }
        if i < self.pairs.len() {
            proof {
                assert(w[i as int].0 == k@);
            }
            self.pairs.set(i, (k, v));
            proof {
                assert(self.view_seq() =~= w.update(i as int, (k@, v@)));
                assert forall|a: int, b: int|
                    0 <= a < b < self.view_seq().len() implies self.view_seq()[a].0
                    != self.view_seq()[b].0 by {
                    assert(w[a].0 != w[b].0);
                }
            }
        } else {
            self.pairs.push((k, v));
            proof {
                assert(self.view_seq() =~= w.push((k@, v@)));
                assert forall|a: int, b: int|
                    0 <= a < b < self.view_seq().len() implies self.view_seq()[a].0
                    != self.view_seq()[b].0 by {
                    if b < w.len() {
                        assert(w[a].0 != w[b].0);
                    } else {
                        assert(forall|j: int| 0 <= j < w.len() ==> w[j].0 != k@);
                    }
                }
            }
        }
    }

    /// Append `k -> v` only when `k` is absent; never overwrite, even an
    /// empty-string value.
    pub fn fill_absent(&mut self, k: String, v: String)
        requires
            old(self).wf(),
        ensures
            final(self).wf(),
            final(self).view_seq() == spec_fill_absent(old(self).view_seq(), k@, v@),
    {
        let ghost w = self.view_seq();
        let i = self.find_key(k.as_str());
        proof {
            lemma_key_index_bounds(w, k@);
        }
        if i >= self.pairs.len() {
            self.pairs.push((k, v));
            proof {
                assert(self.view_seq() =~= w.push((k@, v@)));
                assert forall|a: int, b: int|
                    0 <= a < b < self.view_seq().len() implies self.view_seq()[a].0
                    != self.view_seq()[b].0 by {
                    if b < w.len() {
                        assert(w[a].0 != w[b].0);
                    } else {
                        assert(forall|j: int| 0 <= j < w.len() ==> w[j].0 != k@);
                    }
                }
            }
        }
    }
}

} // verus!
