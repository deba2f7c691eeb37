//! The labelled-tree representation of structured response data, and the
//! adapter between such trees and template documents.
//!
//! A node models one element of a structured response: a name, its direct
//! text, and its element children in order. A node with no element
//! children is a leaf and stands for a pair; a node with children stands
//! for a group.

use crate::errors::Errors;
use crate::numbers;
use crate::seq_lemmas::{
    lemma_filter_all, lemma_filter_full, lemma_filter_none, lemma_filter_push, lemma_subrange_all,
    lemma_subrange_push,
};
use crate::strutil::str_eq;
use crate::template::builder::{Builder, DocModel};
use crate::template::elements::{Pair, PairModel, Vector, VectorModel};
use vstd::prelude::*;

verus! {

/// The model of a tree node.
#[verifier::ext_equal]
pub struct NodeModel {
    pub name: Seq<char>,
    pub text: Seq<char>,
    pub children: Seq<NodeModel>,
}

/// One element of a structured response tree.
#[derive(Debug)]
pub struct Node {
    pub name: String,
    pub text: String,
    pub children: Vec<Node>,
}

/// The model of a node: its name, text and children, recursively.
pub open spec fn node_model(n: Node) -> NodeModel
    decreases n,
{
    NodeModel { name: n.name@, text: n.text@, children: nodes_model(n.children@) }
}

/// The models of a list of nodes, in order.
pub open spec fn nodes_model(v: Seq<Node>) -> Seq<NodeModel>
    decreases v,
{
    if v.len() == 0 {
        Seq::empty()
    } else {
        nodes_model(v.drop_last()).push(node_model(v.last()))
    }
}

impl View for Node {
    type V = NodeModel;

    open spec fn view(&self) -> NodeModel {
        node_model(*self)
    }
}

/// A node list's model has one entry per node, in order.
pub proof fn lemma_nodes_model_len(v: Seq<Node>)
    ensures
        nodes_model(v).len() == v.len(),
        forall|i: int|
            0 <= i < v.len() ==> #[trigger] nodes_model(v)[i] == node_model(v[i]),
    decreases v.len(),
{
    if v.len() > 0 {
        lemma_nodes_model_len(v.drop_last());
    }
}

/// Selects the node models whose name is `k`.
pub open spec fn node_key_is(k: Seq<char>) -> spec_fn(NodeModel) -> bool {
    |m: NodeModel| m.name == k
}

/// Keeps the node models whose name differs from `k`.
pub open spec fn node_key_differs(k: Seq<char>) -> spec_fn(NodeModel) -> bool {
    |m: NodeModel| m.name != k
}

/// The text content of a node: its own text, then its children's,
/// concatenated in order.
pub open spec fn text_content_of(m: NodeModel) -> Seq<char>
    decreases m,
{
    m.text + texts_of(m.children)
}

/// The concatenated text content of a list of nodes.
pub open spec fn texts_of(cs: Seq<NodeModel>) -> Seq<char>
    decreases cs,
{
    if cs.len() == 0 {
        Seq::empty()
    } else {
        texts_of(cs.drop_last()) + text_content_of(cs.last())
    }
}

/// How many children a node counts towards the single-leaf test: its
/// element children, plus one for a non-empty text.
pub open spec fn spec_child_count(m: NodeModel) -> int {
    m.children.len() + if m.text.len() > 0 {
        1int
    } else {
        0int
    }
}

impl Node {
    /// A node with the given name and text and no children.
    pub fn leaf(name: &str, text: &str) -> (r: Self)
        ensures
            r@ == (NodeModel { name: name@, text: text@, children: Seq::empty() }),
    {
        let r = Node { name: name.to_owned(), text: text.to_owned(), children: Vec::new() };
        proof {
            assert(nodes_model(r.children@) =~= Seq::<NodeModel>::empty());
            assert(r@ =~= (NodeModel { name: name@, text: text@, children: Seq::empty() }));
        }
        r
    }

    /// A copy of the whole subtree.
    pub fn deep_clone(&self) -> (r: Self)
        ensures
            r@ == self@,
        decreases *self,
    {
        let mut children: Vec<Node> = Vec::new();
        let n = self.children.len();
        let mut i: usize = 0;
        while i < n
            invariant
                i <= n,
                n == self.children.len(),
                nodes_model(children@) =~= nodes_model(self.children@).subrange(0, i as int),
            decreases n - i,
        {
            proof {
                lemma_nodes_model_len(self.children@);
                lemma_nodes_model_len(children@);
            }
            let ghost before = children@;
            let c = self.children[i].deep_clone();
            children.push(c);
            proof {
                assert(before.push(c) =~= children@);
                assert(children@.drop_last() =~= before);
                lemma_nodes_model_len(children@);
                lemma_subrange_push(nodes_model(self.children@), i as int);
                assert(nodes_model(children@) =~= nodes_model(self.children@).subrange(
                    0,
                    i + 1,
                ));
            }
            i += 1;
        }
        proof {
            lemma_nodes_model_len(self.children@);
            lemma_subrange_all(nodes_model(self.children@));
        }
        let r = Node { name: self.name.clone(), text: self.text.clone(), children };
        proof {
            assert(r@ =~= self@);
        }
        r
    }

    /// The concatenated text content of the subtree.
    pub fn text_content(&self) -> (r: String)
        ensures
            r@ == text_content_of(self@),
        decreases *self,
    {
        let mut out = self.text.clone();
        let n = self.children.len();
        let mut i: usize = 0;
        while i < n
            invariant
                i <= n,
                n == self.children.len(),
                out@ == self.text@ + texts_of(nodes_model(self.children@).subrange(0, i as int)),
            decreases n - i,
        {
            proof {
                lemma_nodes_model_len(self.children@);
            }
            let t = self.children[i].text_content();
            out.append(t.as_str());
            proof {
                let cs = nodes_model(self.children@);
                lemma_subrange_push(cs, i as int);
                assert(cs.subrange(0, i + 1).drop_last() =~= cs.subrange(0, i as int));
                assert(out@ =~= self.text@ + texts_of(cs.subrange(0, i + 1)));
            }
            i += 1;
        }
        proof {
            lemma_nodes_model_len(self.children@);
            lemma_subrange_all(nodes_model(self.children@));
            assert(out@ =~= text_content_of(self@));
        }
        out
    }
}

impl Clone for Node {
    /// Cloning copies the whole subtree.
    fn clone(&self) -> (r: Self)
        ensures
            r@ == self@,
    {
        self.deep_clone()
    }
}

/// Counts the children of `node` named `k` and reports the index of the
/// first of them.
fn find_child_matches(node: &Node, k: &str) -> (r: (usize, usize))
    ensures
        ({
            let ms = node@.children.filter(node_key_is(k@));
            r.0 == ms.len() && (ms.len() > 0 ==> r.1 < node.children@.len() && node@.children[
                r.1 as int
            ] == ms[0])
        }),
{
    let ghost s = node@.children;
    proof {
        lemma_nodes_model_len(node.children@);
    }
    let n = node.children.len();
    let mut count: usize = 0;
    let mut first: usize = 0;
    let mut i: usize = 0;
    while i < n
        invariant
            i <= n,
            n == node.children@.len(),
            s == node@.children,
            s.len() == n,
            forall|j: int| 0 <= j < n ==> #[trigger] s[j] == node_model(node.children@[j]),
            count == s.subrange(0, i as int).filter(node_key_is(k@)).len(),
            count > 0 ==> first < i && s[first as int] == s.subrange(0, i as int).filter(
                node_key_is(k@),
            )[0],
        decreases n - i,
    {
        proof {
            lemma_subrange_push(s, i as int);
            lemma_filter_push(s.subrange(0, i as int), s[i as int], node_key_is(k@));
        }
        if str_eq(node.children[i].name.as_str(), k) {
            if count == 0 {
                first = i;
            }
            count += 1;
        }
        i += 1;
    }
    proof {
        lemma_subrange_all(s);
    }
    (count, first)
}

impl Node {
    /// The text content of the first child named `key`: `NotFound` when no
    /// child matches, `HasChilds` when the found child is not a single
    /// text leaf (it counts more than one child node).
    pub fn get_str(&self, key: &str) -> (r: Result<String, Errors>)
        ensures
            ({
                let ms = self@.children.filter(node_key_is(key@));
                match r {
                    Ok(v) => ms.len() > 0 && spec_child_count(ms[0]) <= 1 && v@
                        == text_content_of(ms[0]),
                    Err(e) => match e {
                        Errors::NotFound(kk) => kk@ == key@ && ms.len() == 0,
                        Errors::HasChilds(kk) => kk@ == key@ && ms.len() > 0 && spec_child_count(
                            ms[0],
                        ) > 1,
                        _ => false,
                    },
                }
            }),
    {
        let (count, first) = find_child_matches(self, key);
        if count == 0 {
            return Err(Errors::NotFound(key.to_owned()));
        }
        let found = &self.children[first];
        proof {
            lemma_nodes_model_len(self.children@);
        }
        let kids = found.children.len();
        let has_text = found.text.unicode_len() > 0;
        if kids > 1 || (kids == 1 && has_text) {
            proof {
                lemma_nodes_model_len(found.children@);
            }
            Err(Errors::HasChilds(key.to_owned()))
        } else {
            proof {
                lemma_nodes_model_len(found.children@);
            }
            Ok(found.text_content())
        }
    }

    /// The text content of the first child named `key`, read as a signed
    /// integer.
    pub fn get_i64(&self, key: &str) -> (r: Result<i64, Errors>)
        ensures
            ({
                let ms = self@.children.filter(node_key_is(key@));
                match r {
                    Ok(n) => ms.len() > 0 && spec_child_count(ms[0]) <= 1
                        && numbers::spec_parse_i64(text_content_of(ms[0])) == Some(n as int),
                    Err(e) => match e {
                        Errors::NotFound(kk) => kk@ == key@ && ms.len() == 0,
                        Errors::HasChilds(kk) => kk@ == key@ && ms.len() > 0 && spec_child_count(
                            ms[0],
                        ) > 1,
                        Errors::ParseInt(t) => ms.len() > 0 && spec_child_count(ms[0]) <= 1 && t@
                            == text_content_of(ms[0]) && !numbers::in_i64_range(
                            numbers::spec_parse_i64(text_content_of(ms[0])),
                        ),
                        _ => false,
                    },
                }
            }),
    {
        let text = match self.get_str(key) {
            Ok(v) => v,
            Err(e) => return Err(e),
        };
        numbers::parse_i64(text.as_str())
    }
}

/// The model of a leaf node standing for a pair.
pub open spec fn leaf_model(p: PairModel) -> NodeModel {
    NodeModel { name: p.0, text: p.1, children: Seq::empty() }
}

/// The model of a group node standing for a vector.
pub open spec fn group_model(v: VectorModel) -> NodeModel {
    NodeModel { name: v.0, text: Seq::empty(), children: v.1.map_values(|p: PairModel| leaf_model(p)) }
}

/// The member pairs a group node holds: each child's name and text content.
pub open spec fn members_of(m: NodeModel) -> Seq<PairModel> {
    m.children.map_values(|c: NodeModel| (c.name, text_content_of(c)))
}

/// The vector a group node stands for.
pub open spec fn vector_of(m: NodeModel) -> VectorModel {
    (m.name, members_of(m))
}

/// The vector read out of one child node: keyed by the node's name, with
/// one member per grandchild.
fn node_vector(child: &Node) -> (r: Vector)
    ensures
        r@ == vector_of(child@),
{
    let ghost cs = child@.children;
    proof {
        lemma_nodes_model_len(child.children@);
    }
    let mut vec = Vector::new(child.name.as_str());
    let n = child.children.len();
    let mut j: usize = 0;
    while j < n
        invariant
            j <= n,
            n == child.children@.len(),
            cs == child@.children,
            cs.len() == n,
            forall|i: int| 0 <= i < n ==> #[trigger] cs[i] == node_model(child.children@[i]),
            vec@.0 == child@.name,
            vec@.1.len() == j,
            forall|i: int|
                0 <= i < j ==> #[trigger] vec@.1[i] == (cs[i].name, text_content_of(cs[i])),
        decreases n - j,
    {
        let t = child.children[j].text_content();
        vec.put_str(child.children[j].name.as_str(), t.as_str());
        j += 1;
    }
    proof {
        assert(vec@.1 =~= members_of(child@));
        assert(vec@ =~= vector_of(child@));
    }
    vec
}

impl Node {
    /// The vector read from the single child named `key`: `NotFound` when
    /// no child matches, `HasChilds` when more than one does.
    pub fn get_vector(&self, key: &str) -> (r: Result<Vector, Errors>)
        ensures
            ({
                let ms = self@.children.filter(node_key_is(key@));
                match r {
                    Ok(v) => ms.len() == 1 && v@ == vector_of(ms[0]),
                    Err(e) => match e {
                        Errors::NotFound(kk) => kk@ == key@ && ms.len() == 0,
                        Errors::HasChilds(kk) => kk@ == key@ && ms.len() > 1,
                        _ => false,
                    },
                }
            }),
    {
        let (count, first) = find_child_matches(self, key);
        if count == 0 {
            return Err(Errors::NotFound(key.to_owned()));
        }
        if count > 1 {
            return Err(Errors::HasChilds(key.to_owned()));
        }
        proof {
            lemma_nodes_model_len(self.children@);
        }
        Ok(node_vector(&self.children[first]))
    }

    /// One vector per child named `key`, in order; an empty list when none
    /// match.
    pub fn get_vectors(&self, key: &str) -> (r: Vec<Vector>)
        ensures
            r@.map_values(|v: Vector| v@) == self@.children.filter(node_key_is(key@)).map_values(
                |m: NodeModel| vector_of(m),
            ),
    {
        let ghost s = self@.children;
        proof {
            lemma_nodes_model_len(self.children@);
        }
        let n = self.children.len();
        let mut out: Vec<Vector> = Vec::new();
        let mut i: usize = 0;
        while i < n
            invariant
                i <= n,
                n == self.children@.len(),
                s == self@.children,
                s.len() == n,
                forall|j: int| 0 <= j < n ==> #[trigger] s[j] == node_model(self.children@[j]),
                out@.map_values(|v: Vector| v@) == s.subrange(0, i as int).filter(
                    node_key_is(key@),
                ).map_values(|m: NodeModel| vector_of(m)),
            decreases n - i,
        {
            proof {
                lemma_subrange_push(s, i as int);
                lemma_filter_push(s.subrange(0, i as int), s[i as int], node_key_is(key@));
            }
            if str_eq(self.children[i].name.as_str(), key) {
                let ghost before = out@.map_values(|v: Vector| v@);
                let v = node_vector(&self.children[i]);
                out.push(v);
                proof {
                    assert(out@.map_values(|v: Vector| v@) =~= before.push(vector_of(
                        s[i as int],
                    )));
                    assert(s.subrange(0, i + 1).filter(node_key_is(key@)).map_values(
                        |m: NodeModel| vector_of(m),
                    ) =~= before.push(vector_of(s[i as int])));
                }
            }
            i += 1;
        }
        proof {
            lemma_subrange_all(s);
        }
        out
    }

    /// Appends a leaf child `key` with text `value`.
    pub fn put_str(&mut self, key: &str, value: &str)
        ensures
            final(self)@.name == old(self)@.name,
            final(self)@.text == old(self)@.text,
            final(self)@.children == old(self)@.children.push(leaf_model((key@, value@))),
    {
        let ghost before = self.children@;
        self.children.push(Node::leaf(key, value));
        proof {
            assert(self.children@.drop_last() =~= before);
            assert(final(self)@.children =~= old(self)@.children.push(
                leaf_model((key@, value@)),
            ));
        }
    }

    /// Appends a group child holding the vector's members as leaves.
    pub fn put_vector(&mut self, vec: Vector)
        ensures
            final(self)@.name == old(self)@.name,
            final(self)@.text == old(self)@.text,
            final(self)@.children == old(self)@.children.push(group_model(vec@)),
    {
        let ghost v = vec@;
        let mut children: Vec<Node> = Vec::new();
        let n = vec.1.len();
        let mut i: usize = 0;
        while i < n
            invariant
                i <= n,
                n == vec.1@.len(),
                v == vec@,
                v.1.len() == n,
                nodes_model(children@) =~= v.1.subrange(0, i as int).map_values(
                    |p: PairModel| leaf_model(p),
                ),
            decreases n - i,
        {
            let ghost before = children@;
            children.push(Node::leaf(vec.1[i].0.as_str(), vec.1[i].1.as_str()));
            proof {
                assert(children@.drop_last() =~= before);
                lemma_subrange_push(v.1, i as int);
                assert(nodes_model(children@) =~= v.1.subrange(0, i + 1).map_values(
                    |p: PairModel| leaf_model(p),
                ));
            }
            i += 1;
        }
        proof {
            lemma_subrange_all(v.1);
        }
        let group = Node { name: vec.0, text: String::new(), children };
        let ghost before = self.children@;
        proof {
            assert(group@ =~= group_model(v));
        }
        self.children.push(group);
        proof {
            assert(self.children@.drop_last() =~= before);
            assert(final(self)@.children =~= old(self)@.children.push(group_model(v)));
        }
    }

    /// Detaches every child named `key`; reports `NotFound` when none
    /// matched.
    pub fn rm(&mut self, key: &str) -> (r: Result<(), Errors>)
        ensures
            final(self)@.name == old(self)@.name,
            final(self)@.text == old(self)@.text,
            final(self)@.children == old(self)@.children.filter(node_key_differs(key@)),
            match r {
                Ok(()) => final(self)@.children.len() < old(self)@.children.len(),
                Err(e) => e matches Errors::NotFound(kk) && kk@ == key@ && final(self)@.children
                    == old(self)@.children,
            },
    {
        let ghost s = self@.children;
        proof {
            lemma_nodes_model_len(self.children@);
        }
        let n = self.children.len();
        let mut kept: Vec<Node> = Vec::new();
        let mut i: usize = 0;
        while i < n
            invariant
                i <= n,
                n == self.children@.len(),
                s == self@.children,
                s.len() == n,
                forall|j: int| 0 <= j < n ==> #[trigger] s[j] == node_model(self.children@[j]),
                kept@.len() <= i,
                nodes_model(kept@) =~= s.subrange(0, i as int).filter(node_key_differs(key@)),
            decreases n - i,
        {
            proof {
                lemma_subrange_push(s, i as int);
                lemma_filter_push(s.subrange(0, i as int), s[i as int], node_key_differs(key@));
                lemma_nodes_model_len(kept@);
            }
            if !str_eq(self.children[i].name.as_str(), key) {
                let ghost before = kept@;
                let c = self.children[i].deep_clone();
                kept.push(c);
                proof {
                    assert(kept@.drop_last() =~= before);
                }
            }
            i += 1;
        }
        proof {
            lemma_subrange_all(s);
            lemma_nodes_model_len(kept@);
        }
        let removed = kept.len() < n;
        self.children = kept;
        if removed {
            Ok(())
        } else {
            proof {
                lemma_filter_full(s, node_key_differs(key@));
            }
            Err(Errors::NotFound(key.to_owned()))
        }
    }
}

/// What one permission field of a node holds: the single-leaf child of
/// the given name, read as an integer in 0..=255; `None` when the child
/// is missing, is no single leaf, or holds no such integer.
pub open spec fn field_of(m: NodeModel, name: Seq<char>) -> Option<int> {
    let ms = m.children.filter(node_key_is(name));
    if ms.len() > 0 && spec_child_count(ms[0]) <= 1 {
        match numbers::spec_parse_i64(text_content_of(ms[0])) {
            Some(v) => if 0 <= v <= 255 {
                Some(v)
            } else {
                None
            },
            None => None,
        }
    } else {
        None
    }
}

impl Node {
    /// Reads the single-leaf child `name` as a small integer, as the
    /// permission elements hold their 0/1 flags: `NotFound` when no child
    /// matches, `HasChilds` when the found child is not a single text
    /// leaf, `ParseInt` when its text is no integer in 0..=255.
    pub fn get_field(&self, name: &str) -> (r: Result<u8, Errors>)
        ensures
            ({
                let ms = self@.children.filter(node_key_is(name@));
                match r {
                    Ok(b) => field_of(self@, name@) == Some(b as int),
                    Err(e) => match e {
                        Errors::NotFound(kk) => kk@ == name@ && ms.len() == 0,
                        Errors::HasChilds(kk) => kk@ == name@ && ms.len() > 0 && spec_child_count(
                            ms[0],
                        ) > 1,
                        Errors::ParseInt(t) => ms.len() > 0 && spec_child_count(ms[0]) <= 1 && t@
                            == text_content_of(ms[0]) && match numbers::spec_parse_i64(
                            text_content_of(ms[0]),
                        ) {
                            Some(v) => !(0 <= v <= 255),
                            None => true,
                        },
                        _ => false,
                    },
                }
            }),
    {
        let text = match self.get_str(name) {
            Ok(v) => v,
            Err(e) => return Err(e),
        };
        let n = match numbers::parse_i64(text.as_str()) {
            Ok(v) => v,
            Err(e) => return Err(e),
        };
        if n < 0 || n > 255 {
            return Err(Errors::ParseInt(text));
        }
        Ok(n as u8)
    }

    /// Reads the `PERMISSIONS` child's nine flag elements and packs them
    /// into one permission value, owner-use first.
    pub fn permissions(&self) -> (r: Result<crate::permissions::Permissions, Errors>)
        ensures
            ({
                let pm = self@.children.filter(node_key_is("PERMISSIONS"@));
                match r {
                    Ok(p) => pm.len() > 0 && {
                        let f = pm[0];
                        &&& field_of(f, "OWNER_U"@) matches Some(uu)
                        &&& field_of(f, "OWNER_M"@) matches Some(um)
                        &&& field_of(f, "OWNER_A"@) matches Some(ua)
                        &&& field_of(f, "GROUP_U"@) matches Some(gu)
                        &&& field_of(f, "GROUP_M"@) matches Some(gm)
                        &&& field_of(f, "GROUP_A"@) matches Some(ga)
                        &&& field_of(f, "OTHER_U"@) matches Some(ou)
                        &&& field_of(f, "OTHER_M"@) matches Some(om)
                        &&& field_of(f, "OTHER_A"@) matches Some(oa)
                        &&& p.0 == crate::permissions::spec_encode(
                            crate::permissions::PermissionsBits(
                                uu as u8,
                                um as u8,
                                ua as u8,
                                gu as u8,
                                gm as u8,
                                ga as u8,
                                ou as u8,
                                om as u8,
                                oa as u8,
                            ),
                        )
                    },
                    Err(_) => pm.len() == 0 || {
                        let f = pm[0];
                        ||| field_of(f, "OWNER_U"@) is None
                        ||| field_of(f, "OWNER_M"@) is None
                        ||| field_of(f, "OWNER_A"@) is None
                        ||| field_of(f, "GROUP_U"@) is None
                        ||| field_of(f, "GROUP_M"@) is None
                        ||| field_of(f, "GROUP_A"@) is None
                        ||| field_of(f, "OTHER_U"@) is None
                        ||| field_of(f, "OTHER_M"@) is None
                        ||| field_of(f, "OTHER_A"@) is None
                    },
                }
            }),
    {
        let (count, first) = find_child_matches(self, "PERMISSIONS");
        if count == 0 {
            return Err(Errors::NotFound("PERMISSIONS".to_owned()));
        }
        proof {
            lemma_nodes_model_len(self.children@);
        }
        let perm = &self.children[first];
        let uu = match perm.get_field("OWNER_U") {
            Ok(v) => v,
            Err(e) => return Err(e),
        };
        let um = match perm.get_field("OWNER_M") {
            Ok(v) => v,
            Err(e) => return Err(e),
        };
        let ua = match perm.get_field("OWNER_A") {
            Ok(v) => v,
            Err(e) => return Err(e),
        };
        let gu = match perm.get_field("GROUP_U") {
            Ok(v) => v,
            Err(e) => return Err(e),
        };
        let gm = match perm.get_field("GROUP_M") {
            Ok(v) => v,
            Err(e) => return Err(e),
        };
        let ga = match perm.get_field("GROUP_A") {
            Ok(v) => v,
            Err(e) => return Err(e),
        };
        let ou = match perm.get_field("OTHER_U") {
            Ok(v) => v,
            Err(e) => return Err(e),
        };
        let om = match perm.get_field("OTHER_M") {
            Ok(v) => v,
            Err(e) => return Err(e),
        };
        let oa = match perm.get_field("OTHER_A") {
            Ok(v) => v,
            Err(e) => return Err(e),
        };
        let bits = crate::permissions::PermissionsBits(uu, um, ua, gu, gm, ga, ou, om, oa);
        Ok(bits.encode())
    }
}

/// Selects the children that stand for pairs: no element children.
pub open spec fn leaf_pred() -> spec_fn(NodeModel) -> bool {
    |m: NodeModel| m.children.len() == 0
}

/// Selects the children that stand for vectors: at least one element
/// child.
pub open spec fn group_pred() -> spec_fn(NodeModel) -> bool {
    |m: NodeModel| m.children.len() != 0
}

/// The document a tree node holds: its childless children as pairs, its
/// other children as vectors, each list in document order.
pub open spec fn doc_of_node(m: NodeModel) -> DocModel {
    DocModel {
        pairs: m.children.filter(leaf_pred()).map_values(
            |c: NodeModel| (c.name, text_content_of(c)),
        ),
        vectors: m.children.filter(group_pred()).map_values(|m: NodeModel| vector_of(m)),
    }
}

/// The tree form of a document: a `TEMPLATE` root whose children are the
/// pairs as leaves, then the vectors as groups of leaves.
pub open spec fn node_of_doc(d: DocModel) -> NodeModel {
    NodeModel {
        name: "TEMPLATE"@,
        text: Seq::empty(),
        children: d.pairs.map_values(|p: PairModel| leaf_model(p)) + d.vectors.map_values(
            |v: VectorModel| group_model(v),
        ),
    }
}

/// Reads the document out of a tree node: each childless child becomes a
/// pair of its name and text content, each other child a vector of its
/// grandchildren.
pub fn to_document(n: &Node) -> (r: Builder)
    ensures
        r@ == doc_of_node(n@),
{
    let ghost s = n@.children;
    proof {
        lemma_nodes_model_len(n.children@);
    }
    let mut b = Builder::new();
    let count = n.children.len();
    let mut i: usize = 0;
    while i < count
        invariant
            i <= count,
            count == n.children@.len(),
            s == n@.children,
            s.len() == count,
            forall|j: int| 0 <= j < count ==> #[trigger] s[j] == node_model(n.children@[j]),
            b@.pairs == s.subrange(0, i as int).filter(leaf_pred()).map_values(
                |c: NodeModel| (c.name, text_content_of(c)),
            ),
            b@.vectors == s.subrange(0, i as int).filter(group_pred()).map_values(
                |m: NodeModel| vector_of(m),
            ),
        decreases count - i,
    {
        proof {
            lemma_subrange_push(s, i as int);
            lemma_filter_push(s.subrange(0, i as int), s[i as int], leaf_pred());
            lemma_filter_push(s.subrange(0, i as int), s[i as int], group_pred());
            lemma_nodes_model_len(n.children@[i as int].children@);
        }
        let ghost pairs_before = b@.pairs;
        let ghost vectors_before = b@.vectors;
        let child = &n.children[i];
        if child.children.len() == 0 {
            let text = child.text_content();
            b.put_str(child.name.as_str(), text.as_str());
            proof {
                assert(b@.pairs =~= s.subrange(0, i + 1).filter(leaf_pred()).map_values(
                    |c: NodeModel| (c.name, text_content_of(c)),
                ));
            }
        } else {
            let v = node_vector(child);
            b.put_vector(v);
            proof {
                assert(b@.vectors =~= s.subrange(0, i + 1).filter(group_pred()).map_values(
                    |m: NodeModel| vector_of(m),
                ));
            }
        }
        i += 1;
    }
    proof {
        lemma_subrange_all(s);
        assert(b@ =~= doc_of_node(n@));
    }
    b
}

/// Builds the tree form of a document: a `TEMPLATE` root carrying each
/// pair as a leaf child and each vector as a group child.
pub fn to_tree(d: &Builder) -> (r: Node)
    ensures
        r@ == node_of_doc(d@),
{
    let mut root = Node::leaf("TEMPLATE", "");
    proof {
        reveal_strlit("");
        assert(""@ =~= Seq::<char>::empty());
    }
    let pairs = d.pairs_ref();
    let n = pairs.len();
    let mut i: usize = 0;
    while i < n
        invariant
            i <= n,
            n == pairs@.len(),
            pairs@.map_values(|p: Pair| p@) == d@.pairs,
            root@.name == "TEMPLATE"@,
            root@.text == Seq::<char>::empty(),
            root@.children == d@.pairs.subrange(0, i as int).map_values(
                |p: PairModel| leaf_model(p),
            ),
        decreases n - i,
    {
        let ghost before = root@.children;
        root.put_str(pairs[i].0.as_str(), pairs[i].1.as_str());
        proof {
            lemma_subrange_push(d@.pairs, i as int);
            assert(root@.children =~= d@.pairs.subrange(0, i + 1).map_values(
                |p: PairModel| leaf_model(p),
            ));
        }
        i += 1;
    }
    proof {
        lemma_subrange_all(d@.pairs);
    }
    let ghost leaves = d@.pairs.map_values(|p: PairModel| leaf_model(p));
    let vectors = d.vectors_ref();
    let m = vectors.len();
    let mut k: usize = 0;
    while k < m
        invariant
            k <= m,
            m == vectors@.len(),
            vectors@.map_values(|v: Vector| v@) == d@.vectors,
            root@.name == "TEMPLATE"@,
            root@.text == Seq::<char>::empty(),
            leaves == d@.pairs.map_values(|p: PairModel| leaf_model(p)),
            root@.children == leaves + d@.vectors.subrange(0, k as int).map_values(
                |v: VectorModel| group_model(v),
            ),
        decreases m - k,
    {
        root.put_vector(vectors[k].clone());
        proof {
            lemma_subrange_push(d@.vectors, k as int);
            assert(root@.children =~= leaves + d@.vectors.subrange(0, k + 1).map_values(
                |v: VectorModel| group_model(v),
            ));
        }
        k += 1;
    }
    proof {
        lemma_subrange_all(d@.vectors);
        assert(root@ =~= node_of_doc(d@));
    }
    root
}

/// The XML escaping of one text character.
pub open spec fn escape_char(c: char) -> Seq<char> {
    if c == '<' {
        "&lt;"@
    } else if c == '>' {
        "&gt;"@
    } else if c == '&' {
        "&amp;"@
    } else if c == '\'' {
        "&apos;"@
    } else if c == '"' {
        "&quot;"@
    } else {
        seq![c]
    }
}

/// The XML escaping of a text.
pub open spec fn escape_text(s: Seq<char>) -> Seq<char>
    decreases s.len(),
{
    if s.len() == 0 {
        Seq::empty()
    } else {
        escape_text(s.drop_last()) + escape_char(s.last())
    }
}

/// `n` spaces of indentation.
pub open spec fn indent_sp(n: nat) -> Seq<char> {
    Seq::new(n, |i: int| ' ')
}

/// The XML text of one element at the given indentation: a childless
/// element carries its escaped text inline; one with children puts each
/// child on its own line, two spaces deeper.
pub open spec fn xml_node(m: NodeModel, ind: nat) -> Seq<char>
    decreases m,
{
    indent_sp(ind) + "<"@ + m.name + ">"@ + if m.children.len() == 0 {
        escape_text(m.text) + "</"@ + m.name + ">"@
    } else {
        "\n"@ + xml_nodes(m.children, (ind + 2) as nat) + indent_sp(ind) + "</"@ + m.name + ">"@
    }
}

/// The XML text of a list of elements, each ending its line.
pub open spec fn xml_nodes(cs: Seq<NodeModel>, ind: nat) -> Seq<char>
    decreases cs,
{
    if cs.len() == 0 {
        Seq::empty()
    } else {
        xml_nodes(cs.drop_last(), ind) + xml_node(cs.last(), ind) + "\n"@
    }
}

/// The XML declaration heading every serialized document.
pub open spec fn xml_header() -> Seq<char> {
    "<?xml version=\"1.0\" encoding=\"UTF-8\"?>\n"@
}

/// The XML text of a whole document: the declaration, then its tree form.
pub open spec fn xml_text_of_doc(d: DocModel) -> Seq<char> {
    xml_header() + xml_node(node_of_doc(d), 0)
}

/// Rendering a list of elements renders each part in turn.
proof fn lemma_xml_nodes_add(a: Seq<NodeModel>, b: Seq<NodeModel>, ind: nat)
    ensures
        xml_nodes(a + b, ind) == xml_nodes(a, ind) + xml_nodes(b, ind),
    decreases b.len(),
{
    if b.len() == 0 {
        assert(a + b =~= a);
        assert(xml_nodes(a, ind) + xml_nodes(b, ind) =~= xml_nodes(a, ind));
    } else {
        assert((a + b).drop_last() =~= a + b.drop_last());
        assert((a + b).last() == b.last());
        lemma_xml_nodes_add(a, b.drop_last(), ind);
        assert(xml_nodes(a + b, ind) =~= xml_nodes(a, ind) + xml_nodes(b, ind));
    }
}

/// Appends the XML escaping of `s` to `out`.
fn append_escaped(out: &mut String, s: &str)
    ensures
        final(out)@ == old(out)@ + escape_text(s@),
{
    let ghost base = out@;
    let n = s.unicode_len();
    let mut i: usize = 0;
    while i < n
        invariant
            i <= n,
            n == s@.len(),
            out@ == base + escape_text(s@.subrange(0, i as int)),
        decreases n - i,
    {
        let c = s.get_char(i);
        proof {
            lemma_subrange_push(s@, i as int);
            assert(s@.subrange(0, i + 1).drop_last() =~= s@.subrange(0, i as int));
        }
        if c == '<' {
            out.append("&lt;");
        } else if c == '>' {
            out.append("&gt;");
        } else if c == '&' {
            out.append("&amp;");
        } else if c == '\'' {
            out.append("&apos;");
        } else if c == '"' {
            out.append("&quot;");
        } else {
            crate::strutil::push_char(out, c);
            proof {
                assert(out@ =~= base + escape_text(s@.subrange(0, i as int)) + seq![c]);
            }
        }
        proof {
            assert(out@ =~= base + escape_text(s@.subrange(0, i + 1)));
        }
        i += 1;
    }
    proof {
        lemma_subrange_all(s@);
    }
}

/// Two spaces are the one-level indentation.
proof fn lemma_indent_two()
    ensures
        indent_sp(2) == "  "@,
        indent_sp(4) == "    "@,
{
    reveal_strlit("  ");
    reveal_strlit("    ");
    assert(indent_sp(2) =~= "  "@);
    assert(indent_sp(4) =~= "    "@);
}

impl Builder {
    /// Serializes the document as XML: a `TEMPLATE` root holding each
    /// pair as a text element and each vector as a nested element of text
    /// elements, indented two spaces per level.
    pub fn generate_xml(&self) -> (r: Result<String, Errors>)
        ensures
            r matches Ok(s) && s@ == xml_text_of_doc(self@),
    {
        let ghost root = node_of_doc(self@);
        let ghost leaves = self@.pairs.map_values(|p: PairModel| leaf_model(p));
        let ghost groups = self@.vectors.map_values(|v: VectorModel| group_model(v));
        proof {
            lemma_indent_two();
            assert(indent_sp(0) =~= Seq::<char>::empty());
        }
        let mut out = String::new();
        out.append("<?xml version=\"1.0\" encoding=\"UTF-8\"?>\n");
        out.append("<");
        out.append("TEMPLATE");
        out.append(">");
        let pairs = self.pairs_ref();
        let vectors = self.vectors_ref();
        if pairs.len() == 0 && vectors.len() == 0 {
            out.append("</");
            out.append("TEMPLATE");
            out.append(">");
            proof {
                assert(root.children =~= Seq::<NodeModel>::empty());
                assert(escape_text(root.text) =~= Seq::<char>::empty());
                assert(out@ =~= xml_text_of_doc(self@));
            }
            return Ok(out);
        }
        out.append("\n");
        let ghost head = xml_header() + indent_sp(0) + "<"@ + root.name + ">"@ + "\n"@;
        proof {
            assert(out@ =~= head);
        }
        let n = pairs.len();
        let mut i: usize = 0;
        while i < n
            invariant
                i <= n,
                n == pairs@.len(),
                pairs@.map_values(|p: Pair| p@) == self@.pairs,
                leaves == self@.pairs.map_values(|p: PairModel| leaf_model(p)),
                head == xml_header() + indent_sp(0) + "<"@ + node_of_doc(self@).name + ">"@
                    + "\n"@,
                out@ == head + xml_nodes(leaves.subrange(0, i as int), 2),
            decreases n - i,
        {
            let ghost before = out@;
            out.append("  ");
            out.append("<");
            out.append(pairs[i].0.as_str());
            out.append(">");
            append_escaped(&mut out, pairs[i].1.as_str());
            out.append("</");
            out.append(pairs[i].0.as_str());
            out.append(">");
            out.append("\n");
            proof {
                lemma_indent_two();
                lemma_subrange_push(leaves, i as int);
                assert(leaves.subrange(0, i + 1).drop_last() =~= leaves.subrange(0, i as int));
                assert(out@ =~= before + xml_node(leaves[i as int], 2) + "\n"@);
                assert(out@ =~= head + xml_nodes(leaves.subrange(0, i + 1), 2));
            }
            i += 1;
        }
        proof {
            lemma_subrange_all(leaves);
        }
        let ghost mid = head + xml_nodes(leaves, 2);
        let m = vectors.len();
        let mut k: usize = 0;
        while k < m
            invariant
                k <= m,
                m == vectors@.len(),
                vectors@.map_values(|v: Vector| v@) == self@.vectors,
                groups == self@.vectors.map_values(|v: VectorModel| group_model(v)),
                mid == head + xml_nodes(leaves, 2),
                out@ == mid + xml_nodes(groups.subrange(0, k as int), 2),
            decreases m - k,
        {
            let ghost before = out@;
            let v = &vectors[k];
            if v.1.len() == 0 {
                out.append("  ");
                out.append("<");
                out.append(v.0.as_str());
                out.append(">");
                out.append("</");
                out.append(v.0.as_str());
                out.append(">");
                out.append("\n");
                proof {
                    lemma_indent_two();
                    assert(group_model(v@).children =~= Seq::<NodeModel>::empty());
                    assert(escape_text(group_model(v@).text) =~= Seq::<char>::empty());
                    assert(out@ =~= before + xml_node(groups[k as int], 2) + "\n"@);
                    lemma_subrange_push(groups, k as int);
                    assert(groups.subrange(0, k + 1).drop_last() =~= groups.subrange(
                        0,
                        k as int,
                    ));
                    assert(out@ =~= mid + xml_nodes(groups.subrange(0, k + 1), 2));
                }
                k += 1;
                continue ;
            }
            out.append("  ");
            out.append("<");
            out.append(v.0.as_str());
            out.append(">");
            out.append("\n");
            let ghost vhead = before + (indent_sp(2) + "<"@ + v@.0 + ">"@ + "\n"@);
            proof {
                lemma_indent_two();
                assert(out@ =~= vhead);
            }
            let ghost mleaves = v@.1.map_values(|p: PairModel| leaf_model(p));
            let nm = v.1.len();
            let mut j: usize = 0;
            while j < nm
                invariant
                    j <= nm,
                    nm == v.1@.len(),
                    v == &vectors[k as int],
                    k < m,
                    m == vectors@.len(),
                    mleaves == v@.1.map_values(|p: PairModel| leaf_model(p)),
                    mleaves.len() == nm,
                    out@ == vhead + xml_nodes(mleaves.subrange(0, j as int), 4),
                decreases nm - j,
            {
                let ghost sofar = out@;
                out.append("    ");
                out.append("<");
                out.append(v.1[j].0.as_str());
                out.append(">");
                append_escaped(&mut out, v.1[j].1.as_str());
                out.append("</");
                out.append(v.1[j].0.as_str());
                out.append(">");
                out.append("\n");
                proof {
                    lemma_indent_two();
                    lemma_subrange_push(mleaves, j as int);
                    assert(mleaves.subrange(0, j + 1).drop_last() =~= mleaves.subrange(
                        0,
                        j as int,
                    ));
                    assert(out@ =~= sofar + xml_node(mleaves[j as int], 4) + "\n"@);
                    assert(out@ =~= vhead + xml_nodes(mleaves.subrange(0, j + 1), 4));
                }
                j += 1;
            }
            out.append("  ");
            out.append("</");
            out.append(v.0.as_str());
            out.append(">");
            out.append("\n");
            proof {
                lemma_indent_two();
                assert(mleaves.subrange(0, mleaves.len() as int) =~= mleaves);
                lemma_subrange_push(groups, k as int);
                assert(groups.subrange(0, k + 1).drop_last() =~= groups.subrange(0, k as int));
                assert(group_model(v@).children.len() == mleaves.len());
                assert(out@ =~= before + xml_node(groups[k as int], 2) + "\n"@);
                assert(out@ =~= mid + xml_nodes(groups.subrange(0, k + 1), 2));
            }
            k += 1;
        }
        proof {
            lemma_subrange_all(groups);
        }
        out.append("</");
        out.append("TEMPLATE");
        out.append(">");
        proof {
            lemma_xml_nodes_add(leaves, groups, 2);
            assert(root.children == leaves + groups);
            assert(root.children.len() > 0);
            assert(out@ =~= xml_text_of_doc(self@));
        }
        Ok(out)
    }
}

/// Taking a document to its tree form and back reproduces it exactly:
/// every pair and every vector returns, in order. The one proviso is that
/// each vector has at least one member, since a memberless group reads
/// back as a pair.
pub proof fn lemma_document_tree_document(d: DocModel)
    requires
        forall|i: int| 0 <= i < d.vectors.len() ==> #[trigger] d.vectors[i].1.len() > 0,
    ensures
        doc_of_node(node_of_doc(d)) == d,
{
    let leaves = d.pairs.map_values(|p: PairModel| leaf_model(p));
    let groups = d.vectors.map_values(|v: VectorModel| group_model(v));
    let children = leaves + groups;
    Seq::filter_distributes_over_add(leaves, groups, leaf_pred());
    Seq::filter_distributes_over_add(leaves, groups, group_pred());
    lemma_filter_all(leaves, leaf_pred());
    lemma_filter_none(groups, leaf_pred());
    lemma_filter_none(leaves, group_pred());
    lemma_filter_all(groups, group_pred());
    assert(children.filter(leaf_pred()) =~= leaves);
    assert(children.filter(group_pred()) =~= groups);
    let back = doc_of_node(node_of_doc(d));
    assert forall|i: int| 0 <= i < d.pairs.len() implies #[trigger] back.pairs[i]
        == d.pairs[i] by {
        let p = d.pairs[i];
        assert(texts_of(leaf_model(p).children) == Seq::<char>::empty());
        assert(text_content_of(leaf_model(p)) =~= p.1);
        assert(back.pairs[i] =~= p);
    }
    assert forall|i: int| 0 <= i < d.vectors.len() implies #[trigger] back.vectors[i]
        == d.vectors[i] by {
        let v = d.vectors[i];
        let g = group_model(v);
        assert forall|j: int| 0 <= j < v.1.len() implies #[trigger] members_of(g)[j]
            == v.1[j] by {
            let p = v.1[j];
            assert(g.children[j] == leaf_model(p));
            assert(texts_of(leaf_model(p).children) == Seq::<char>::empty());
            assert(text_content_of(leaf_model(p)) =~= p.1);
            assert(members_of(g)[j] =~= p);
        }
        assert(members_of(g) =~= v.1);
        assert(back.vectors[i] =~= v);
    }
    assert(back.pairs =~= d.pairs);
    assert(back.vectors =~= d.vectors);
    assert(back =~= d);
}

/// Taking a document's tree form through the document and back to a tree
/// changes nothing: the tree round-trip is lossless on adapter-built
/// trees.
pub proof fn lemma_tree_document_tree(d: DocModel)
    requires
        forall|i: int| 0 <= i < d.vectors.len() ==> #[trigger] d.vectors[i].1.len() > 0,
    ensures
        node_of_doc(doc_of_node(node_of_doc(d))) == node_of_doc(d),
{
    lemma_document_tree_document(d);
}

} // verus!
