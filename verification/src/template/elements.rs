//! Pairs and vectors: the two kinds of template attribute.

use crate::errors::Errors;
use crate::numbers;
use crate::seq_lemmas::{lemma_filter_push, lemma_subrange_all, lemma_subrange_push};
use crate::strutil::str_eq;
use vstd::prelude::*;

verus! {

/// The model of a pair: key and value as character sequences.
pub type PairModel = (Seq<char>, Seq<char>);

/// The model of a vector: its key and its member pairs in order.
pub type VectorModel = (Seq<char>, Seq<PairModel>);

/// Selects the pairs whose key is `k`.
pub open spec fn pair_key_is(k: Seq<char>) -> spec_fn(PairModel) -> bool {
    |p: PairModel| p.0 == k
}

/// Keeps the pairs whose key differs from `k`.
pub open spec fn pair_key_differs(k: Seq<char>) -> spec_fn(PairModel) -> bool {
    |p: PairModel| p.0 != k
}

/// A single key/value attribute.
#[derive(Debug)]
pub struct Pair(pub String, pub String);

impl View for Pair {
    type V = PairModel;

    open spec fn view(&self) -> PairModel {
        (self.0@, self.1@)
    }
}

impl Clone for Pair {
    /// Cloning keeps key and value.
    fn clone(&self) -> (r: Self)
        ensures
            r@ == self@,
    {
        Pair(self.0.clone(), self.1.clone())
    }
}

impl Pair {
    /// A pair with the given key and value.
    pub fn new(k: &str, v: &str) -> (r: Self)
        ensures
            r@ == (k@, v@),
    {
        Pair(k.to_owned(), v.to_owned())
    }
}

/// A named group of pairs, one nesting level deep.
#[derive(Debug)]
pub struct Vector(pub String, pub Vec<Pair>);

impl View for Vector {
    type V = VectorModel;

    open spec fn view(&self) -> VectorModel {
        (self.0@, self.1@.map_values(|p: Pair| p@))
    }
}

impl Clone for Vector {
    /// Cloning keeps the key and every member pair.
    fn clone(&self) -> (r: Self)
        ensures
            r@ == self@,
    {
        let mut members: Vec<Pair> = Vec::new();
        let n = self.1.len();
        let mut i: usize = 0;
        while i < n
            invariant
                i <= n,
                n == self.1.len(),
                members@.map_values(|p: Pair| p@) =~= self.1@.map_values(|p: Pair| p@).subrange(
                    0,
                    i as int,
                ),
            decreases n - i,
        {
            members.push(self.1[i].clone());
            proof {
                lemma_subrange_push(self.1@.map_values(|p: Pair| p@), i as int);
            }
            i += 1;
        }
        proof {
            lemma_subrange_all(self.1@.map_values(|p: Pair| p@));
            assert(members@.map_values(|p: Pair| p@) =~= self.1@.map_values(|p: Pair| p@));
        }
        Vector(self.0.clone(), members)
    }
}

impl Vector {
    /// An empty vector with the given key.
    pub fn new(k: &str) -> (r: Self)
        ensures
            r@.0 == k@,
            r@.1 == Seq::<PairModel>::empty(),
    {
        let r = Vector(k.to_owned(), Vec::new());
        proof {
            assert(r@.1 =~= Seq::<PairModel>::empty());
        }
        r
    }

    /// Appends the pair `k = v` to the members.
    pub fn put_str(&mut self, k: &str, v: &str)
        ensures
            final(self)@.0 == old(self)@.0,
            final(self)@.1 == old(self)@.1.push((k@, v@)),
    {
        let ghost before = self@.1;
        self.1.push(Pair::new(k, v));
        proof {
            assert(final(self)@.1 =~= before.push((k@, v@)));
        }
    }

    /// Appends the pair `k = v` to the members.
    pub fn add_pair(&mut self, k: &str, v: &str)
        ensures
            final(self)@.0 == old(self)@.0,
            final(self)@.1 == old(self)@.1.push((k@, v@)),
    {
        self.put_str(k, v)
    }

    /// The value of the single member pair whose key is `k`: `NotFound` when
    /// no member matches, `HasChilds` when more than one does.
    pub fn get_str(&self, k: &str) -> (r: Result<String, Errors>)
        ensures
            ({
                let ms = self@.1.filter(pair_key_is(k@));
                match r {
                    Ok(v) => ms.len() == 1 && v@ == ms[0].1,
                    Err(e) => match e {
                        Errors::NotFound(key) => ms.len() == 0 && key@ == k@,
                        Errors::HasChilds(key) => ms.len() > 1 && key@ == k@,
                        _ => false,
                    },
                }
            }),
    {
        match find_matches(&self.1, k) {
            (0, _) => Err(Errors::NotFound(k.to_owned())),
            (1, j) => Ok(self.1[j].1.clone()),
            (_, _) => Err(Errors::HasChilds(k.to_owned())),
        }
    }

    /// The value of the single member pair whose key is `k`, read as a
    /// signed integer.
    pub fn get_i64(&self, name: &str) -> (r: Result<i64, Errors>)
        ensures
            ({
                let ms = self@.1.filter(pair_key_is(name@));
                match r {
                    Ok(n) => ms.len() == 1 && numbers::spec_parse_i64(ms[0].1) == Some(n as int),
                    Err(e) => match e {
                        Errors::NotFound(key) => ms.len() == 0 && key@ == name@,
                        Errors::HasChilds(key) => ms.len() > 1 && key@ == name@,
                        Errors::ParseInt(t) => ms.len() == 1 && t@ == ms[0].1
                            && !numbers::in_i64_range(numbers::spec_parse_i64(ms[0].1)),
                        _ => false,
                    },
                }
            }),
    {
        let value_str = match self.get_str(name) {
            Ok(v) => v,
            Err(e) => return Err(e),
        };
        numbers::parse_i64(value_str.as_str())
    }

    /// Removes every member pair whose key is `k`; reports `NotFound` when
    /// none matched.
    pub fn rm(&mut self, k: &str) -> (r: Result<(), Errors>)
        ensures
            final(self)@.0 == old(self)@.0,
            final(self)@.1 == old(self)@.1.filter(pair_key_differs(k@)),
            match r {
                Ok(()) => final(self)@.1.len() < old(self)@.1.len(),
                Err(e) => e matches Errors::NotFound(key) && key@ == k@ && final(self)@.1
                    == old(self)@.1,
            },
    {
        let before = self.1.len();
        retain_differing(&mut self.1, k);
        if self.1.len() == before {
            proof {
                crate::seq_lemmas::lemma_filter_full(old(self)@.1, pair_key_differs(k@));
            }
            Err(Errors::NotFound(k.to_owned()))
        } else {
            Ok(())
        }
    }

    /// Removes every member pair whose key is `k`.
    pub fn rm_pair(&mut self, k: &str)
        ensures
            final(self)@.0 == old(self)@.0,
            final(self)@.1 == old(self)@.1.filter(pair_key_differs(k@)),
    {
        retain_differing(&mut self.1, k);
    }
}

/// Counts the pairs keyed `k` and reports the index of the first of them.
pub(crate) fn find_matches(pairs: &Vec<Pair>, k: &str) -> (r: (usize, usize))
    ensures
        ({
            let ms = pairs@.map_values(|p: Pair| p@).filter(pair_key_is(k@));
            r.0 == ms.len() && (ms.len() > 0 ==> r.1 < pairs@.len() && pairs@.map_values(
                |p: Pair| p@,
            )[r.1 as int] == ms[0])
        }),
{
    let ghost s = pairs@.map_values(|p: Pair| p@);
    let n = pairs.len();
    let mut count: usize = 0;
    let mut first: usize = 0;
    let mut i: usize = 0;
    while i < n
        invariant
            i <= n,
            n == pairs@.len(),
            s == pairs@.map_values(|p: Pair| p@),
            count == s.subrange(0, i as int).filter(pair_key_is(k@)).len(),
            count > 0 ==> first < i && s[first as int] == s.subrange(0, i as int).filter(
                pair_key_is(k@),
            )[0],
        decreases n - i,
    {
        let ghost pre = s.subrange(0, i as int).filter(pair_key_is(k@));
        proof {
            lemma_subrange_push(s, i as int);
            lemma_filter_push(s.subrange(0, i as int), s[i as int], pair_key_is(k@));
        }
        if str_eq(pairs[i].0.as_str(), k) {
            if count == 0 {
                first = i;
            }
            count += 1;
        }
        i += 1;
    }
    proof {
        lemma_subrange_all(s);
    }
    (count, first)
}

/// Keeps only the pairs whose key differs from `k`.
pub(crate) fn retain_differing(pairs: &mut Vec<Pair>, k: &str)
    ensures
        final(pairs)@.map_values(|p: Pair| p@) == old(pairs)@.map_values(|p: Pair| p@).filter(
            pair_key_differs(k@),
        ),
        final(pairs)@.len() <= old(pairs)@.len(),
{
    let ghost s = pairs@.map_values(|p: Pair| p@);
    let n = pairs.len();
    let mut kept: Vec<Pair> = Vec::new();
    let mut i: usize = 0;
    while i < n
        invariant
            i <= n,
            n == pairs@.len(),
            s == pairs@.map_values(|p: Pair| p@),
            kept@.len() <= i,
            kept@.map_values(|p: Pair| p@) == s.subrange(0, i as int).filter(pair_key_differs(k@)),
        decreases n - i,
    {
        proof {
            lemma_subrange_push(s, i as int);
            lemma_filter_push(s.subrange(0, i as int), s[i as int], pair_key_differs(k@));
        }
        if !str_eq(pairs[i].0.as_str(), k) {
            let ghost before = kept@.map_values(|p: Pair| p@);
            kept.push(pairs[i].clone());
            proof {
                assert(kept@.map_values(|p: Pair| p@) =~= before.push(s[i as int]));
            }
        }
        i += 1;
    }
    proof {
        lemma_subrange_all(s);
    }
    *pairs = kept;
}

} // verus!
