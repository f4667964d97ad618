use vstd::prelude::*;

use crate::node::{Node, NodeView};

verus! {

/// A dangling edge: a source node and an optional label, with no destination yet.
pub struct Edge {
    pub label: Option<String>,
    pub start_node: Node,
}

/// What a dangling edge is.
pub struct EdgeView {
    pub label: Option<Seq<char>>,
    pub start: NodeView,
}

/// The view of an optional text.
pub open spec fn opt_view(o: Option<String>) -> Option<Seq<char>> {
    match o {
        Some(s) => Some(s@),
        None => None,
    }
}

impl View for Edge {
    type V = EdgeView;

    open spec fn view(&self) -> EdgeView {
        EdgeView { label: opt_view(self.label), start: self.start_node@ }
    }
}

impl Edge {
    pub fn starting_at(n: Node) -> (r: Self)
        ensures
            r@ == (EdgeView { label: None, start: n@ }),
    {
        Edge { start_node: n, label: None }
    }

    pub fn labelled(self, l: String) -> (r: Self)
        ensures
            r@ == (EdgeView { label: Some(l@), start: self@.start }),
    {
        let mut e = self;
        e.label = Some(l);
        e
    }

    pub fn start_id(&self) -> (r: &str)
        ensures
            r@ == self@.start.id,
    {
        self.start_node.id.as_str()
    }

    /// A copy of the edge with its label and source node.
    pub fn duplicate(&self) -> (r: Edge)
        ensures
            r@ == self@,
    {
        let label = match &self.label {
            Some(l) => Some(l.clone()),
            None => None,
        };
        Edge { label, start_node: self.start_node.duplicate() }
    }
}

} // verus!
