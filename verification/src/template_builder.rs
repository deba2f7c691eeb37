//! A template built and queried directly in its tree form.

use crate::errors::Errors;
use crate::numbers;
use crate::tree::{
    field_of, group_model, leaf_model, node_key_differs, node_key_is, spec_child_count,
    text_content_of, vector_of, Node, NodeModel,
};
use crate::template::elements::{Vector, VectorModel};
use vstd::prelude::*;

verus! {

/// A template held as a live `TEMPLATE` tree, mutated and read in place.
#[derive(Debug)]
pub struct TemplateBuilder {
    root: Node,
}

impl View for TemplateBuilder {
    type V = NodeModel;

    closed spec fn view(&self) -> NodeModel {
        self.root@
    }
}

impl TemplateBuilder {
    /// An empty template tree.
    pub fn new() -> (r: Self)
        ensures
            r@.name == "TEMPLATE"@,
            r@.text == Seq::<char>::empty(),
            r@.children == Seq::<NodeModel>::empty(),
    {
        let r = TemplateBuilder { root: Node::leaf("TEMPLATE", "") };
        proof {
            reveal_strlit("");
            assert(""@ =~= Seq::<char>::empty());
        }
        r
    }

    /// Appends a leaf child `name` with text `value`.
    pub fn put_str(&mut self, name: &str, value: &str)
        ensures
            final(self)@.name == old(self)@.name,
            final(self)@.text == old(self)@.text,
            final(self)@.children == old(self)@.children.push(leaf_model((name@, value@))),
    {
        self.root.put_str(name, value);
    }

    /// Appends a group child holding the vector's members as leaves.
    pub fn put_vector(&mut self, vec: Vector)
        ensures
            final(self)@.name == old(self)@.name,
            final(self)@.text == old(self)@.text,
            final(self)@.children == old(self)@.children.push(group_model(vec@)),
    {
        self.root.put_vector(vec);
    }

    /// Detaches every child named `name`; reports `NotFound` when none
    /// matched.
    pub fn rm(&mut self, name: &str) -> (r: Result<(), Errors>)
        ensures
            final(self)@.name == old(self)@.name,
            final(self)@.text == old(self)@.text,
            final(self)@.children == old(self)@.children.filter(node_key_differs(name@)),
            match r {
                Ok(()) => final(self)@.children.len() < old(self)@.children.len(),
                Err(e) => e matches Errors::NotFound(kk) && kk@ == name@ && final(self)@.children
                    == old(self)@.children,
            },
    {
        self.root.rm(name)
    }

    /// The text content of the first child named `key`: `NotFound` when no
    /// child matches, `HasChilds` when the found child is not a single
    /// text leaf.
    pub fn get_str(&self, key: &str) -> (r: Result<String, Errors>)
        ensures
            ({
                let ms = self@.children.filter(node_key_is(key@));
                match r {
                    Ok(v) => ms.len() > 0 && spec_child_count(ms[0]) <= 1 && v@
                        == text_content_of(ms[0]),
                    Err(e) => match e {
                        Errors::NotFound(kk) => kk@ == key@ && ms.len() == 0,
                        Errors::HasChilds(kk) => kk@ == key@ && ms.len() > 0 && spec_child_count(
                            ms[0],
                        ) > 1,
                        _ => false,
                    },
                }
            }),
    {
        self.root.get_str(key)
    }

    /// The text content of the first child named `key`, read as a signed
    /// integer.
    pub fn get_i64(&self, key: &str) -> (r: Result<i64, Errors>)
        ensures
            ({
                let ms = self@.children.filter(node_key_is(key@));
                match r {
                    Ok(n) => ms.len() > 0 && spec_child_count(ms[0]) <= 1
                        && numbers::spec_parse_i64(text_content_of(ms[0])) == Some(n as int),
                    Err(e) => match e {
                        Errors::NotFound(kk) => kk@ == key@ && ms.len() == 0,
                        Errors::HasChilds(kk) => kk@ == key@ && ms.len() > 0 && spec_child_count(
                            ms[0],
                        ) > 1,
                        Errors::ParseInt(t) => ms.len() > 0 && spec_child_count(ms[0]) <= 1 && t@
                            == text_content_of(ms[0]) && !numbers::in_i64_range(
                            numbers::spec_parse_i64(text_content_of(ms[0])),
                        ),
                        _ => false,
                    },
                }
            }),
    {
        self.root.get_i64(key)
    }

    /// The vector read from the single child named `key`: `NotFound` when
    /// no child matches, `HasChilds` when more than one does.
    pub fn get_vector(&self, key: &str) -> (r: Result<Vector, Errors>)
        ensures
            ({
                let ms = self@.children.filter(node_key_is(key@));
                match r {
                    Ok(v) => ms.len() == 1 && v@ == vector_of(ms[0]),
                    Err(e) => match e {
                        Errors::NotFound(kk) => kk@ == key@ && ms.len() == 0,
                        Errors::HasChilds(kk) => kk@ == key@ && ms.len() > 1,
                        _ => false,
                    },
                }
            }),
    {
        self.root.get_vector(key)
    }

    /// One vector per child named `key`, in order.
    pub fn get_vectors(&self, key: &str) -> (r: Vec<Vector>)
        ensures
            r@.map_values(|v: Vector| v@) == self@.children.filter(node_key_is(key@)).map_values(
                |m: NodeModel| vector_of(m),
            ),
    {
        self.root.get_vectors(key)
    }
}

impl Default for TemplateBuilder {
    /// The default template tree is empty.
    fn default() -> (r: Self)
        ensures
            r@.name == "TEMPLATE"@,
            r@.text == Seq::<char>::empty(),
            r@.children == Seq::<NodeModel>::empty(),
    {
        TemplateBuilder::new()
    }
}

} // verus!
