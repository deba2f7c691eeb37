//! The in-memory template document: ordered pairs and vectors with
//! get/put/remove access and canonical text rendering.

use crate::errors::Errors;
use crate::numbers;
use crate::seq_lemmas::{
    lemma_filter_full, lemma_filter_push, lemma_subrange_all, lemma_subrange_push,
};
use crate::strutil::str_eq;
use crate::template::elements::{
    pair_key_differs, pair_key_is, Pair, PairModel, Vector, VectorModel,
};
use vstd::prelude::*;

verus! {

/// The model of a document: its pairs and its vectors, each list in
/// insertion order.
#[verifier::ext_equal]
pub struct DocModel {
    pub pairs: Seq<PairModel>,
    pub vectors: Seq<VectorModel>,
}

/// Selects the vectors whose key is `k`.
pub open spec fn vec_key_is(k: Seq<char>) -> spec_fn(VectorModel) -> bool {
    |v: VectorModel| v.0 == k
}

/// Keeps the vectors whose key differs from `k`.
pub open spec fn vec_key_differs(k: Seq<char>) -> spec_fn(VectorModel) -> bool {
    |v: VectorModel| v.0 != k
}

/// A template document built in memory from pairs and vectors.
#[derive(Debug)]
pub struct Builder {
    pairs: Vec<Pair>,
    vectors: Vec<Vector>,
}

impl View for Builder {
    type V = DocModel;

    closed spec fn view(&self) -> DocModel {
        DocModel {
            pairs: self.pairs@.map_values(|p: Pair| p@),
            vectors: self.vectors@.map_values(|v: Vector| v@),
        }
    }
}

impl Builder {
    /// An empty document.
    pub fn new() -> (r: Self)
        ensures
            r@.pairs == Seq::<PairModel>::empty(),
            r@.vectors == Seq::<VectorModel>::empty(),
    {
        let r = Builder { pairs: Vec::new(), vectors: Vec::new() };
        proof {
            assert(r@.pairs =~= Seq::<PairModel>::empty());
            assert(r@.vectors =~= Seq::<VectorModel>::empty());
        }
        r
    }

    /// Appends the pair `key = value`; keys may repeat.
    pub fn put_str(&mut self, key: &str, value: &str)
        ensures
            final(self)@.pairs == old(self)@.pairs.push((key@, value@)),
            final(self)@.vectors == old(self)@.vectors,
    {
        let ghost before = self@.pairs;
        self.pairs.push(Pair::new(key, value));
        proof {
            assert(final(self)@.pairs =~= before.push((key@, value@)));
            assert(final(self)@.vectors =~= old(self)@.vectors);
        }
    }

    /// Appends the vector as a whole; keys may repeat.
    pub fn put_vector(&mut self, vec: Vector)
        ensures
            final(self)@.pairs == old(self)@.pairs,
            final(self)@.vectors == old(self)@.vectors.push(vec@),
    {
        let ghost before = self@.vectors;
        let ghost v = vec@;
        self.vectors.push(vec);
        proof {
            assert(final(self)@.vectors =~= before.push(v));
            assert(final(self)@.pairs =~= old(self)@.pairs);
        }
    }

    /// The value of the first pair keyed `key` in insertion order;
    /// `NotFound` when no pair matches.
    pub fn get(&self, key: &str) -> (r: Result<String, Errors>)
        ensures
            ({
                let ms = self@.pairs.filter(pair_key_is(key@));
                match r {
                    Ok(v) => ms.len() > 0 && v@ == ms[0].1,
                    Err(e) => e matches Errors::NotFound(kk) && kk@ == key@ && ms.len() == 0,
                }
            }),
    {
        let (count, first) = crate::template::elements::find_matches(&self.pairs, key);
        if count == 0 {
            Err(Errors::NotFound(key.to_owned()))
        } else {
            Ok(self.pairs[first].1.clone())
        }
    }

    /// The value of the first pair keyed `key`; `NotFound` when no pair
    /// matches.
    pub fn get_str(&self, key: &str) -> (r: Result<String, Errors>)
        ensures
            ({
                let ms = self@.pairs.filter(pair_key_is(key@));
                match r {
                    Ok(v) => ms.len() > 0 && v@ == ms[0].1,
                    Err(e) => e matches Errors::NotFound(kk) && kk@ == key@ && ms.len() == 0,
                }
            }),
    {
        self.get(key)
    }

    /// The value of the first pair keyed `key`, read as a signed integer.
    pub fn get_i64(&self, key: &str) -> (r: Result<i64, Errors>)
        ensures
            ({
                let ms = self@.pairs.filter(pair_key_is(key@));
                match r {
                    Ok(n) => ms.len() > 0 && numbers::spec_parse_i64(ms[0].1) == Some(n as int),
                    Err(e) => match e {
                        Errors::NotFound(kk) => kk@ == key@ && ms.len() == 0,
                        Errors::ParseInt(t) => ms.len() > 0 && t@ == ms[0].1
                            && !numbers::in_i64_range(numbers::spec_parse_i64(ms[0].1)),
                        _ => false,
                    },
                }
            }),
    {
        let value_str = match self.get(key) {
            Ok(v) => v,
            Err(e) => return Err(e),
        };
        numbers::parse_i64(value_str.as_str())
    }

    /// The single vector keyed `key`: `NotFound` when none matches,
    /// `HasChilds` when more than one does.
    pub fn get_vector(&self, key: &str) -> (r: Result<Vector, Errors>)
        ensures
            ({
                let ms = self@.vectors.filter(vec_key_is(key@));
                match r {
                    Ok(v) => ms.len() == 1 && v@ == ms[0],
                    Err(e) => match e {
                        Errors::NotFound(kk) => ms.len() == 0 && kk@ == key@,
                        Errors::HasChilds(kk) => ms.len() > 1 && kk@ == key@,
                        _ => false,
                    },
                }
            }),
    {
        match find_vector_matches(&self.vectors, key) {
            (0, _) => Err(Errors::NotFound(key.to_owned())),
            (1, j) => Ok(self.vectors[j].clone()),
            (_, _) => Err(Errors::HasChilds(key.to_owned())),
        }
    }

    /// Removes every pair and every vector keyed `key`; reports `NotFound`
    /// when neither list held a match.
    pub fn rm(&mut self, key: &str) -> (r: Result<(), Errors>)
        ensures
            final(self)@.pairs == old(self)@.pairs.filter(pair_key_differs(key@)),
            final(self)@.vectors == old(self)@.vectors.filter(vec_key_differs(key@)),
            match r {
                Ok(()) => final(self)@.pairs.len() < old(self)@.pairs.len()
                    || final(self)@.vectors.len() < old(self)@.vectors.len(),
                Err(e) => e matches Errors::NotFound(kk) && kk@ == key@ && final(self)@.pairs
                    == old(self)@.pairs && final(self)@.vectors == old(self)@.vectors,
            },
    {
        let pairs_before = self.pairs.len();
        let vectors_before = self.vectors.len();
        crate::template::elements::retain_differing(&mut self.pairs, key);
        retain_vectors_differing(&mut self.vectors, key);
        if self.pairs.len() == pairs_before && self.vectors.len() == vectors_before {
            proof {
                lemma_filter_full(old(self)@.pairs, pair_key_differs(key@));
                lemma_filter_full(old(self)@.vectors, vec_key_differs(key@));
            }
            Err(Errors::NotFound(key.to_owned()))
        } else {
            Ok(())
        }
    }
}

/// The text rendering of one pair: `KEY="VALUE"`.
pub open spec fn render_pair(p: PairModel) -> Seq<char> {
    p.0 + "=\""@ + p.1 + "\""@
}

/// The member pairs of a vector, comma/newline-joined.
pub open spec fn render_members(ms: Seq<PairModel>) -> Seq<char>
    decreases ms.len(),
{
    if ms.len() == 0 {
        Seq::empty()
    } else if ms.len() == 1 {
        render_pair(ms[0])
    } else {
        render_members(ms.drop_last()) + ",\n"@ + render_pair(ms.last())
    }
}

/// The text rendering of one vector: `KEY=[` then its members, then ` ]`.
pub open spec fn render_vector(v: VectorModel) -> Seq<char> {
    v.0 + "=[\n"@ + render_members(v.1) + " ]"@
}

/// All pairs, one per line.
pub open spec fn render_pairs_block(ps: Seq<PairModel>) -> Seq<char>
    decreases ps.len(),
{
    if ps.len() == 0 {
        Seq::empty()
    } else {
        render_pairs_block(ps.drop_last()) + render_pair(ps.last()) + "\n"@
    }
}

/// All vectors, each ending its line.
pub open spec fn render_vectors_block(vs: Seq<VectorModel>) -> Seq<char>
    decreases vs.len(),
{
    if vs.len() == 0 {
        Seq::empty()
    } else {
        render_vectors_block(vs.drop_last()) + render_vector(vs.last()) + "\n"@
    }
}

/// The canonical text of a document: the pairs block, then the vectors
/// block.
pub open spec fn render_text(d: DocModel) -> Seq<char> {
    render_pairs_block(d.pairs) + render_vectors_block(d.vectors)
}

impl Builder {
    /// Renders the document as canonical template text: every pair as
    /// `KEY="VALUE"` on its own line in insertion order, then every vector
    /// as `KEY=[` with its members comma/newline-joined and a closing
    /// bracket.
    pub fn generate_onefmt(&self) -> (r: String)
        ensures
            r@ == render_text(self@),
    {
        let ghost ps = self@.pairs;
        let ghost vs = self@.vectors;
        let mut out = String::new();
        let n = self.pairs.len();
        let mut i: usize = 0;
        while i < n
            invariant
                i <= n,
                n == self.pairs.len(),
                ps == self@.pairs,
                vs == self@.vectors,
                out@ == render_pairs_block(ps.subrange(0, i as int)),
            decreases n - i,
        {
            let ghost before = out@;
            out.append(self.pairs[i].0.as_str());
            out.append("=\"");
            out.append(self.pairs[i].1.as_str());
            out.append("\"");
            out.append("\n");
            proof {
                lemma_subrange_push(ps, i as int);
                assert(ps.subrange(0, i + 1).drop_last() =~= ps.subrange(0, i as int));
                assert(out@ =~= before + render_pair(ps[i as int]) + "\n"@);
            }
            i += 1;
        }
        proof {
            lemma_subrange_all(ps);
        }
        let ghost base0 = out@;
        let m = self.vectors.len();
        let mut k: usize = 0;
        while k < m
            invariant
                k <= m,
                m == self.vectors.len(),
                ps == self@.pairs,
                vs == self@.vectors,
                out@ == render_pairs_block(ps) + render_vectors_block(vs.subrange(0, k as int)),
            decreases m - k,
        {
            let ghost before = out@;
            let v = &self.vectors[k];
            out.append(v.0.as_str());
            out.append("=[\n");
            let ghost head = before + (vs[k as int].0 + "=[\n"@);
            proof {
                assert(out@ =~= head);
            }
            let nm = v.1.len();
            let mut j: usize = 0;
            while j < nm
                invariant
                    j <= nm,
                    nm == v.1.len(),
                    v == &self.vectors[k as int],
                    k < m,
                    m == self.vectors.len(),
                    vs == self@.vectors,
                    head == before + (vs[k as int].0 + "=[\n"@),
                    out@ == head + render_members(vs[k as int].1.subrange(0, j as int)),
                decreases nm - j,
            {
                let ghost ms = vs[k as int].1;
                let ghost sofar = out@;
                if j > 0 {
                    out.append(",\n");
                }
                out.append(v.1[j].0.as_str());
                out.append("=\"");
                out.append(v.1[j].1.as_str());
                out.append("\"");
                proof {
                    lemma_subrange_push(ms, j as int);
                    assert(ms.subrange(0, j + 1).drop_last() =~= ms.subrange(0, j as int));
                    assert(ms.subrange(0, j + 1).last() == ms[j as int]);
                    if j == 0 {
                        assert(out@ =~= head + render_pair(ms[0]));
                        assert(render_members(ms.subrange(0, 1)) == render_pair(
                            ms.subrange(0, 1)[0],
                        ));
                    } else {
                        assert(out@ =~= head + (render_members(ms.subrange(0, j as int)) + ",\n"@
                            + render_pair(ms[j as int])));
                    }
                }
                j += 1;
            }
            out.append(" ]");
            out.append("\n");
            proof {
                let ghost ms = vs[k as int].1;
                assert(ms.subrange(0, ms.len() as int) =~= ms);
                lemma_subrange_push(vs, k as int);
                assert(vs.subrange(0, k + 1).drop_last() =~= vs.subrange(0, k as int));
                assert(out@ =~= before + render_vector(vs[k as int]) + "\n"@);
            }
            k += 1;
        }
        proof {
            lemma_subrange_all(vs);
        }
        out
    }
}

impl Builder {
    /// The pair list, for the tree adapter.
    pub(crate) fn pairs_ref(&self) -> (r: &Vec<Pair>)
        ensures
            r@.map_values(|p: Pair| p@) == self@.pairs,
    {
        &self.pairs
    }

    /// The vector list, for the tree adapter.
    pub(crate) fn vectors_ref(&self) -> (r: &Vec<Vector>)
        ensures
            r@.map_values(|v: Vector| v@) == self@.vectors,
    {
        &self.vectors
    }
}

impl Default for Builder {
    /// The default document is empty.
    fn default() -> (r: Self)
        ensures
            r@.pairs == Seq::<PairModel>::empty(),
            r@.vectors == Seq::<VectorModel>::empty(),
    {
        Builder::new()
    }
}

/// Counts the vectors keyed `k` and reports the index of the first of them.
fn find_vector_matches(vectors: &Vec<Vector>, k: &str) -> (r: (usize, usize))
    ensures
        ({
            let ms = vectors@.map_values(|v: Vector| v@).filter(vec_key_is(k@));
            r.0 == ms.len() && (ms.len() > 0 ==> r.1 < vectors@.len() && vectors@.map_values(
                |v: Vector| v@,
            )[r.1 as int] == ms[0])
        }),
{
    let ghost s = vectors@.map_values(|v: Vector| v@);
    let n = vectors.len();
    let mut count: usize = 0;
    let mut first: usize = 0;
    let mut i: usize = 0;
    while i < n
        invariant
            i <= n,
            n == vectors@.len(),
            s == vectors@.map_values(|v: Vector| v@),
            count == s.subrange(0, i as int).filter(vec_key_is(k@)).len(),
            count > 0 ==> first < i && s[first as int] == s.subrange(0, i as int).filter(
                vec_key_is(k@),
            )[0],
        decreases n - i,
    {
        proof {
            lemma_subrange_push(s, i as int);
            lemma_filter_push(s.subrange(0, i as int), s[i as int], vec_key_is(k@));
        }
        if str_eq(vectors[i].0.as_str(), k) {
            if count == 0 {
                first = i;
            }
            count += 1;
        }
        i += 1;
    }
    proof {
        lemma_subrange_all(s);
    }
    (count, first)
}

/// Keeps only the vectors whose key differs from `k`.
fn retain_vectors_differing(vectors: &mut Vec<Vector>, k: &str)
    ensures
        final(vectors)@.map_values(|v: Vector| v@) == old(vectors)@.map_values(
            |v: Vector| v@,
        ).filter(vec_key_differs(k@)),
        final(vectors)@.len() <= old(vectors)@.len(),
{
    let ghost s = vectors@.map_values(|v: Vector| v@);
    let n = vectors.len();
    let mut kept: Vec<Vector> = Vec::new();
    let mut i: usize = 0;
    while i < n
        invariant
            i <= n,
            n == vectors@.len(),
            s == vectors@.map_values(|v: Vector| v@),
            kept@.len() <= i,
            kept@.map_values(|v: Vector| v@) == s.subrange(0, i as int).filter(
                vec_key_differs(k@),
            ),
        decreases n - i,
    {
        proof {
            lemma_subrange_push(s, i as int);
            lemma_filter_push(s.subrange(0, i as int), s[i as int], vec_key_differs(k@));
        }
        if !str_eq(vectors[i].0.as_str(), k) {
            let ghost before = kept@.map_values(|v: Vector| v@);
            kept.push(vectors[i].clone());
            proof {
                assert(kept@.map_values(|v: Vector| v@) =~= before.push(s[i as int]));
            }
        }
        i += 1;
    }
    proof {
        lemma_subrange_all(s);
    }
    *vectors = kept;
}

} // verus!
