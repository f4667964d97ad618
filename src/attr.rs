use vstd::prelude::*;

use crate::text::{decimal, decimal_string};

verus! {

/// The outline of a node.
#[derive(Clone, Copy, PartialEq, Eq, Structural)]
pub enum Shape {
    Rectangle,
    Diamond,
}

/// The diagram keyword for a shape.
pub open spec fn shape_text(s: Shape) -> Seq<char> {
    match s {
        Shape::Rectangle => seq!['r', 'e', 'c', 't', 'a', 'n', 'g', 'l', 'e'],
        Shape::Diamond => seq!['d', 'i', 'a', 'm', 'o', 'n', 'd'],
    }
}

impl Shape {
    pub fn as_dot(&self) -> (r: String)
        ensures
            r@ == shape_text(*self),
    {
        proof {
            reveal_strlit("rectangle");
            reveal_strlit("diamond");
        }
        match self {
            Shape::Rectangle => String::from_str("rectangle"),
            Shape::Diamond => String::from_str("diamond"),
        }
    }
}

/// A rendering attribute of a node. A node holds at most one attribute of each kind.
pub enum Attr {
    Color(String),
    Label(String),
    PenWidth(usize),
    Shape(Shape),
}

/// What an attribute is, with its texts as character sequences.
pub enum AttrView {
    Color(Seq<char>),
    Label(Seq<char>),
    PenWidth(nat),
    Shape(Shape),
}

impl View for Attr {
    type V = AttrView;

    open spec fn view(&self) -> AttrView {
        match self {
            Attr::Color(c) => AttrView::Color(c@),
            Attr::Label(l) => AttrView::Label(l@),
            Attr::PenWidth(w) => AttrView::PenWidth(*w as nat),
            Attr::Shape(s) => AttrView::Shape(*s),
        }
    }
}

impl AttrView {
    /// Which of the four kinds the attribute is; its payload plays no part.
    pub open spec fn kind(self) -> int {
        match self {
            AttrView::Color(_) => 0,
            AttrView::Label(_) => 1,
            AttrView::PenWidth(_) => 2,
            AttrView::Shape(_) => 3,
        }
    }

    /// The attribute as it stands in a node declaration.
    pub open spec fn dot_text(self) -> Seq<char> {
        match self {
            AttrView::PenWidth(w) => "penwidth="@ + decimal(w),
            AttrView::Color(c) => "color="@ + escape(c),
            AttrView::Label(l) => "label=\""@ + escape(l) + "\""@,
            AttrView::Shape(s) => "shape=\""@ + escape(shape_text(s)) + "\""@,
        }
    }
}

impl Attr {
    /// Attributes are equal when they are of the same kind.
    pub fn same_kind(&self, other: &Attr) -> (r: bool)
        ensures
            r == (self@.kind() == other@.kind()),
    {
        match (self, other) {
            (Attr::Color(_), Attr::Color(_)) => true,
            (Attr::Label(_), Attr::Label(_)) => true,
            (Attr::PenWidth(_), Attr::PenWidth(_)) => true,
            (Attr::Shape(_), Attr::Shape(_)) => true,
            _ => false,
        }
    }

    /// A copy of the attribute, payload included.
    pub fn duplicate(&self) -> (r: Attr)
        ensures
            r@ == self@,
    {
        match self {
            Attr::Color(c) => Attr::Color(c.clone()),
            Attr::Label(l) => Attr::Label(l.clone()),
            Attr::PenWidth(w) => Attr::PenWidth(*w),
            Attr::Shape(s) => Attr::Shape(*s),
        }
    }

    pub fn as_dot(&self) -> (r: String)
        ensures
            r@ == self@.dot_text(),
    {
        proof {
            reveal_strlit("penwidth=");
            reveal_strlit("color=");
            reveal_strlit("label=\"");
            reveal_strlit("shape=\"");
            reveal_strlit("\"");
        }
        match self {
            Attr::PenWidth(w) => {
                let digits = decimal_string(*w);
                String::from_str("penwidth=").concat(digits.as_str())
            },
            Attr::Color(c) => {
                let e = escaped(c);
                String::from_str("color=").concat(e.as_str())
            },
            Attr::Label(l) => {
                let e = escaped(l);
                String::from_str("label=\"").concat(e.as_str()).concat("\"")
            },
            Attr::Shape(s) => {
                let e = escaped(&s.as_dot());
                String::from_str("shape=\"").concat(e.as_str()).concat("\"")
            },
        }
    }
}

impl PartialEq for Attr {
    fn eq(&self, other: &Attr) -> (r: bool) {
        self.same_kind(other)
    }
}

impl vstd::std_specs::cmp::PartialEqSpecImpl for Attr {
    open spec fn obeys_eq_spec() -> bool {
        true
    }

    open spec fn eq_spec(&self, other: &Attr) -> bool {
        self@.kind() == other@.kind()
    }
}

/// The characters that stand for `c` in a quoted value: a quote gets a backslash before it.
pub open spec fn escape_char(c: char) -> Seq<char> {
    if c == '"' {
        seq!['\\', '"']
    } else {
        seq![c]
    }
}

/// `s` with every quote character preceded by a backslash.
pub open spec fn escape(s: Seq<char>) -> Seq<char>
    decreases s.len(),
{
    if s.len() == 0 {
        seq![]
    } else {
        escape(s.drop_last()) + escape_char(s.last())
    }
}

/// Returns `s` with every quote character preceded by a backslash.
pub fn escaped(s: &String) -> (r: String)
    ensures
        r@ == escape(s@),
{
    let text = s.as_str();
    let n = text.unicode_len();
    let mut r = String::new();
    let mut i: usize = 0;
    while i < n
        invariant
            n == s@.len(),
            text@ == s@,
            i <= n,
            r@ == escape(s@.subrange(0, i as int)),
        decreases n - i,
    {
        let c = text.get_char(i);
        proof {
            reveal_strlit("\\\"");
            assert(s@.subrange(0, i + 1).drop_last() == s@.subrange(0, i as int));
        }
        if c == '"' {
            r.append("\\\"");
        } else {
            r.append(text.substring_char(i, i + 1));
        }
        i = i + 1;
    }
    assert(s@.subrange(0, n as int) == s@);
    r
}

} // verus!
