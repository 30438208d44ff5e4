//! A small named hierarchy for describing data: each node has a name, an
//! optional value and ordered children.
use vstd::prelude::*;

verus! {

#[derive(Debug)]
pub struct ConicNode {
    pub name: String,
    pub value: Option<String>,
    pub children: Vec<ConicNode>,
}

/// The characters of an optional value.
pub open spec fn opt_view(o: Option<String>) -> Option<Seq<char>> {
    match o {
        Some(s) => Some(s@),
        None => None,
    }
}

impl ConicNode {
    /// A leaf named `name` holding `value`.
    pub fn new(name: &str, value: Option<&str>) -> (r: ConicNode)
        ensures
            r.name@ == name@,
            opt_view(r.value) == match value {
                Some(v) => Some(v@),
                None => None::<Seq<char>>,
            },
            r.children@.len() == 0,
    {
        let value = match value {
            Some(v) => Some(v.to_owned()),
            None => None,
        };
        ConicNode { name: name.to_owned(), value, children: Vec::new() }
    }

    /// Appends `child` after the existing children.
    pub fn add_child(&mut self, child: ConicNode)
        ensures
            final(self).children@ == old(self).children@.push(child),
            final(self).name == old(self).name,
            final(self).value == old(self).value,
    {
        self.children.push(child);
    }
}

pub struct ConicTree {
    pub root: ConicNode,
}

impl ConicTree {
    /// A tree with root `root`.
    pub fn new(root: ConicNode) -> (r: ConicTree)
        ensures
            r.root == root,
    {
        ConicTree { root }
    }

    /// Appends `child` after the root's existing children.
    pub fn add_child(&mut self, child: ConicNode)
        ensures
            final(self).root.children@ == old(self).root.children@.push(child),
            final(self).root.name == old(self).root.name,
            final(self).root.value == old(self).root.value,
    {
        self.root.children.push(child);
    }
}

} // verus!
