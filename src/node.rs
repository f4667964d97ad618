use vstd::prelude::*;

use crate::attr::{Attr, AttrView, Shape};

verus! {

/// A vertex of the diagram: its identifier and its attributes.
pub struct Node {
    pub id: String,
    pub attrs: Vec<Attr>,
}

/// What a node is: its identifier and its attributes in the order they were added.
pub struct NodeView {
    pub id: Seq<char>,
    pub attrs: Seq<AttrView>,
}

impl View for Node {
    type V = NodeView;

    open spec fn view(&self) -> NodeView {
        NodeView { id: self.id@, attrs: self.attrs@.map_values(|a: Attr| a@) }
    }
}

/// Whether `attrs` already holds an attribute of the kind of `a`.
pub open spec fn has_kind(attrs: Seq<AttrView>, a: AttrView) -> bool {
    exists|i: int| 0 <= i < attrs.len() && #[trigger] attrs[i].kind() == a.kind()
}

/// Adding an attribute: where one of its kind is present, the first one stays and
/// the new one is dropped; otherwise it goes at the end.
pub open spec fn with_attr(attrs: Seq<AttrView>, a: AttrView) -> Seq<AttrView> {
    if has_kind(attrs, a) {
        attrs
    } else {
        attrs.push(a)
    }
}

/// No two attributes of one kind.
pub open spec fn kinds_unique(attrs: Seq<AttrView>) -> bool {
    forall|i: int, j: int|
        0 <= i < j < attrs.len() ==> #[trigger] attrs[i].kind() != #[trigger] attrs[j].kind()
}

/// The attributes that mark a node where a path ends: a red outline of width three.
pub open spec fn terminal_attrs(attrs: Seq<AttrView>) -> Seq<AttrView> {
    with_attr(with_attr(attrs, AttrView::Color("red"@)), AttrView::PenWidth(3))
}

/// Adding an attribute keeps the kinds unique.
pub proof fn lemma_with_attr_unique(attrs: Seq<AttrView>, a: AttrView)
    requires
        kinds_unique(attrs),
    ensures
        kinds_unique(with_attr(attrs, a)),
{
}

impl Node {
    /// The node holds at most one attribute of each kind.
    pub open spec fn wf(&self) -> bool {
        kinds_unique(self@.attrs)
    }

    pub fn new(id: String) -> (r: Self)
        ensures
            r@ == (NodeView { id: id@, attrs: seq![] }),
            r.wf(),
    {
        let r = Node { id: id, attrs: Vec::new() };
        assert(r@.attrs =~= seq![]);
        r
    }

    /// Adds `a` unless an attribute of its kind is present.
    pub fn insert_attr(&mut self, a: Attr)
        ensures
            final(self)@ == (NodeView { id: old(self)@.id, attrs: with_attr(old(self)@.attrs, a@) }),
            old(self).wf() ==> final(self).wf(),
    {
        proof {
            if self.wf() {
                lemma_with_attr_unique(self@.attrs, a@);
            }
        }
        let mut found = false;
        let mut i: usize = 0;
        while i < self.attrs.len()
            invariant
                i <= self.attrs.len(),
                found == exists|j: int| 0 <= j < i && #[trigger] self.attrs@[j]@.kind() == a@.kind(),
            decreases self.attrs.len() - i,
        {
            if self.attrs[i].same_kind(&a) {
                found = true;
            }
            i = i + 1;
        }
        proof {
            if found {
                let j = choose|j: int| 0 <= j < i && #[trigger] self.attrs@[j]@.kind() == a@.kind();
                assert(self@.attrs[j].kind() == a@.kind());
            } else {
                assert forall|j: int| 0 <= j < self@.attrs.len() implies #[trigger] self@.attrs[j].kind() != a@.kind() by {
                    assert(self@.attrs[j] == self.attrs@[j]@);
                }
            }
        }
        if !found {
            let ghost before = self.attrs@;
            self.attrs.push(a);
            assert(self.attrs@.map_values(|x: Attr| x@) =~= before.map_values(|x: Attr| x@).push(a@));
        }
    }

    /// A copy of the node with its identifier and attributes.
    pub fn duplicate(&self) -> (r: Node)
        ensures
            r@ == self@,
    {
        let mut attrs: Vec<Attr> = Vec::new();
        let mut i: usize = 0;
        while i < self.attrs.len()
            invariant
                i <= self.attrs.len(),
                attrs@.len() == i,
                forall|j: int| 0 <= j < i ==> #[trigger] attrs@[j]@ == self.attrs@[j]@,
            decreases self.attrs.len() - i,
        {
            attrs.push(self.attrs[i].duplicate());
            i = i + 1;
        }
        let r = Node { id: self.id.clone(), attrs };
        assert(r@.attrs =~= self@.attrs);
        r
    }

    pub fn labelled(self, l: String) -> (r: Self)
        ensures
            r@ == (NodeView { id: self@.id, attrs: with_attr(self@.attrs, AttrView::Label(l@)) }),
            self.wf() ==> r.wf(),
    {
        let mut n = self;
        n.insert_attr(Attr::Label(l));
        n
    }

    pub fn diamond(self) -> (r: Self)
        ensures
            r@ == (NodeView {
                id: self@.id,
                attrs: with_attr(self@.attrs, AttrView::Shape(Shape::Diamond)),
            }),
            self.wf() ==> r.wf(),
    {
        let mut n = self;
        n.insert_attr(Attr::Shape(Shape::Diamond));
        n
    }

    pub fn rectangle(self) -> (r: Self)
        ensures
            r@ == (NodeView {
                id: self@.id,
                attrs: with_attr(self@.attrs, AttrView::Shape(Shape::Rectangle)),
            }),
            self.wf() ==> r.wf(),
    {
        let mut n = self;
        n.insert_attr(Attr::Shape(Shape::Rectangle));
        n
    }

    /// Marks the node as one where a path ends.
    pub fn terminal(self) -> (r: Self)
        ensures
            r@ == (NodeView { id: self@.id, attrs: terminal_attrs(self@.attrs) }),
            self.wf() ==> r.wf(),
    {
        self.red().bold()
    }

    pub fn red(self) -> (r: Self)
        ensures
            r@ == (NodeView { id: self@.id, attrs: with_attr(self@.attrs, AttrView::Color("red"@)) }),
            self.wf() ==> r.wf(),
    {
        proof {
            reveal_strlit("red");
        }
        let mut n = self;
        n.insert_attr(Attr::Color(String::from_str("red")));
        n
    }

    pub fn bold(self) -> (r: Self)
        ensures
            r@ == (NodeView { id: self@.id, attrs: with_attr(self@.attrs, AttrView::PenWidth(3)) }),
            self.wf() ==> r.wf(),
    {
        let mut n = self;
        n.insert_attr(Attr::PenWidth(3));
        n
    }
}

} // verus!
