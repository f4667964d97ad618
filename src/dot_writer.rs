use vstd::prelude::*;

use crate::attr::AttrView;
use crate::edge::Edge;
use crate::node::{Node, NodeView};
use crate::text::{trim_of, trimmed};

verus! {

/// One entry of the diagram: a node declaration, or a connection from the node
/// with the first identifier to the node with the second, with an optional label.
pub enum RecordView {
    Declare(NodeView),
    Connect(Seq<char>, Seq<char>, Option<Seq<char>>),
}

/// The attributes of a declaration, each followed by a comma and a space.
pub open spec fn attrs_text(attrs: Seq<AttrView>) -> Seq<char>
    decreases attrs.len(),
{
    if attrs.len() == 0 {
        seq![]
    } else {
        attrs_text(attrs.drop_last()) + attrs.last().dot_text() + ", "@
    }
}

/// The line that declares a node.
pub open spec fn node_line(n: NodeView) -> Seq<char> {
    n.id + " ["@ + attrs_text(n.attrs) + "];"@
}

/// The line that connects two nodes.
pub open spec fn edge_line(from: Seq<char>, to: Seq<char>, label: Option<Seq<char>>) -> Seq<char> {
    from + " -> "@ + to + match label {
        Some(l) => " [label=\""@ + l + "\"]"@,
        None => Seq::<char>::empty(),
    } + ";"@
}

/// The line of a record.
pub open spec fn record_line(r: RecordView) -> Seq<char> {
    match r {
        RecordView::Declare(n) => node_line(n),
        RecordView::Connect(from, to, label) => edge_line(from, to, label),
    }
}

/// A line as the writer emits it: trimmed, then ended by a newline.
pub open spec fn emitted(line: Seq<char>) -> Seq<char> {
    trim_of(line) + "\n"@
}

/// The text of a sequence of records, one line each, in order.
pub open spec fn render(rs: Seq<RecordView>) -> Seq<char>
    decreases rs.len(),
{
    if rs.len() == 0 {
        seq![]
    } else {
        render(rs.drop_last()) + emitted(record_line(rs.last()))
    }
}

/// Rendering two sequences of records one after the other gives the two texts one
/// after the other.
pub proof fn lemma_render_append(a: Seq<RecordView>, b: Seq<RecordView>)
    ensures
        render(a + b) == render(a) + render(b),
    decreases b.len(),
{
    if b.len() == 0 {
        assert(a + b =~= a);
        assert(render(b) =~= seq![]);
    } else {
        assert((a + b).drop_last() =~= a + b.drop_last());
        lemma_render_append(a, b.drop_last());
        assert(render(a) + render(b.drop_last()) + emitted(record_line(b.last())) =~= render(a) + (
        render(b.drop_last()) + emitted(record_line(b.last()))));
    }
}

/// Accumulates the text of a diagram line by line.
pub struct DotWriter {
    dot: String,
}

impl View for DotWriter {
    type V = Seq<char>;

    closed spec fn view(&self) -> Seq<char> {
        self.dot@
    }
}

impl DotWriter {
    pub fn new() -> (r: DotWriter)
        ensures
            r@ == Seq::<char>::empty(),
    {
        DotWriter { dot: String::new() }
    }

    /// Writes a connection from the source of `edge` to `end`.
    pub fn write_edge(&mut self, edge: &Edge, end: &Node)
        ensures
            final(self)@ == old(self)@ + emitted(edge_line(edge@.start.id, end@.id, edge@.label)),
    {
        proof {
            reveal_strlit(" -> ");
            reveal_strlit(" [label=\"");
            reveal_strlit("\"]");
            reveal_strlit(";");
        }
        let mut writeable = String::from_str(edge.start_id());
        writeable.append(" -> ");
        writeable.append(end.id.as_str());
        match &edge.label {
            Some(label) => {
                writeable.append(" [label=\"");
                writeable.append(label.as_str());
                writeable.append("\"]");
            },
            None => {},
        }
        writeable.append(";");
        assert(writeable@ =~= edge_line(edge@.start.id, end@.id, edge@.label));
        self.write_line(writeable.as_str());
    }

    /// Writes the declaration of `node` with its attributes.
    pub fn write_node(&mut self, node: &Node)
        ensures
            final(self)@ == old(self)@ + emitted(node_line(node@)),
    {
        proof {
            reveal_strlit(" [");
            reveal_strlit(", ");
            reveal_strlit("];");
        }
        let mut writeable = String::from_str(node.id.as_str());
        writeable.append(" [");
        let mut i: usize = 0;
        while i < node.attrs.len()
            invariant
                i <= node.attrs.len(),
                writeable@ == node@.id + " ["@ + attrs_text(node@.attrs.subrange(0, i as int)),
            decreases node.attrs.len() - i,
        {
            let a = node.attrs[i].as_dot();
            writeable.append(a.as_str());
            writeable.append(", ");
            proof {
                let s = node@.attrs.subrange(0, i + 1);
                assert(s.drop_last() =~= node@.attrs.subrange(0, i as int));
                assert(s.last() == node.attrs@[i as int]@);
            }
            i = i + 1;
        }
        assert(node@.attrs.subrange(0, node.attrs.len() as int) =~= node@.attrs);
        writeable.append("];");
        self.write_line(writeable.as_str());
    }

    /// Writes `line` without its surrounding whitespace, ended by a newline.
    pub fn write_line(&mut self, line: &str)
        ensures
            final(self)@ == old(self)@ + emitted(line@),
    {
        proof {
            reveal_strlit("\n");
        }
        self.dot.append(trimmed(line));
        self.dot.append("\n");
    }

    /// The text written so far.
    pub fn consume(self) -> (r: String)
        ensures
            r@ == self@,
    {
        self.dot
    }
}

} // verus!
