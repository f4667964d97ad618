use vstd::prelude::*;

use crate::attr::AttrView;
use crate::dot_writer::RecordView;
use crate::edge::EdgeView;
use crate::attr::Shape;
use crate::flow::{
    block_size, cond_node, connects, edge_from, enter, lemma_block_next, lower_block, lower_stmt,
    program_records, step_node, stmt_size, terminal_marks, Stmt,
};
use crate::node::{terminal_attrs, with_attr, NodeView};
use crate::text::{lemma_node_id_injective, node_id};

verus! {

/// The number of connection records.
pub open spec fn connection_count(rs: Seq<RecordView>) -> nat
    decreases rs.len(),
{
    if rs.len() == 0 {
        0
    } else {
        connection_count(rs.drop_last()) + if rs.last() is Connect { 1nat } else { 0nat }
    }
}

/// The identifiers of the declared nodes, in order of declaration.
pub open spec fn declared_ids(rs: Seq<RecordView>) -> Seq<Seq<char>>
    decreases rs.len(),
{
    if rs.len() == 0 {
        seq![]
    } else {
        declared_ids(rs.drop_last()) + match rs.last() {
            RecordView::Declare(n) => seq![n.id],
            RecordView::Connect(..) => Seq::<Seq<char>>::empty(),
        }
    }
}

/// The identifiers `node_id(k)`, ..., `node_id(k + m - 1)`.
pub open spec fn ids_from(k: nat, m: nat) -> Seq<Seq<char>> {
    Seq::new(m, |i: int| node_id((k + i) as nat))
}

proof fn lemma_counts_append(a: Seq<RecordView>, b: Seq<RecordView>)
    ensures
        connection_count(a + b) == connection_count(a) + connection_count(b),
        declared_ids(a + b) == declared_ids(a) + declared_ids(b),
    decreases b.len(),
{
    if b.len() == 0 {
        assert(a + b =~= a);
        assert(declared_ids(a) + declared_ids(b) =~= declared_ids(a));
    } else {
        assert((a + b).drop_last() =~= a + b.drop_last());
        lemma_counts_append(a, b.drop_last());
        let tail = match b.last() {
            RecordView::Declare(n) => seq![n.id],
            RecordView::Connect(..) => Seq::<Seq<char>>::empty(),
        };
        assert(declared_ids(a) + declared_ids(b.drop_last()) + tail =~= declared_ids(a) + (
        declared_ids(b.drop_last()) + tail));
    }
}

proof fn lemma_connects_counts(fr: Seq<EdgeView>, to: Seq<char>)
    ensures
        connection_count(connects(fr, to)) == fr.len(),
        declared_ids(connects(fr, to)) == Seq::<Seq<char>>::empty(),
    decreases fr.len(),
{
    if fr.len() > 0 {
        assert(connects(fr, to).drop_last() =~= connects(fr.drop_last(), to));
        lemma_connects_counts(fr.drop_last(), to);
        assert(declared_ids(connects(fr, to)) =~= Seq::<Seq<char>>::empty());
    }
}

proof fn lemma_enter_counts(n: crate::node::NodeView, fr: Seq<EdgeView>)
    ensures
        connection_count(enter(n, fr)) == fr.len(),
        declared_ids(enter(n, fr)) == seq![n.id],
{
    let d = seq![RecordView::Declare(n)];
    assert(d.drop_last() =~= Seq::<RecordView>::empty());
    assert(declared_ids(d.drop_last()) =~= Seq::<Seq<char>>::empty());
    assert(connection_count(d.drop_last()) == 0);
    assert(d.last() is Declare);
    assert(connection_count(d) == 0);
    assert(declared_ids(d) == declared_ids(d.drop_last()) + seq![n.id]);
    assert(declared_ids(d) =~= seq![n.id]);
    lemma_connects_counts(fr, n.id);
    lemma_counts_append(d, connects(fr, n.id));
    assert(seq![n.id] + Seq::<Seq<char>>::empty() =~= seq![n.id]);
}

/// In a block of steps alone, every statement lands the frontier that the one
/// before it left: the first lands the incoming frontier, each other one edge, so
/// the connections number the incoming edges plus the statements after the first,
/// and each statement declares one node.
pub proof fn law_sequence_connections(b: Seq<Stmt>, fr: Seq<EdgeView>, k: nat)
    requires
        forall|i: int| 0 <= i < b.len() ==> #[trigger] b[i] is Step,
    ensures
        connection_count(lower_block(b, fr, k).records) == if b.len() == 0 {
            0
        } else {
            fr.len() + b.len() - 1
        },
        declared_ids(lower_block(b, fr, k).records).len() == b.len(),
    decreases b.len(),
{
    if b.len() > 0 {
        let first = lower_stmt(b[0], fr, k);
        assert(b[0] is Step);
        lemma_enter_counts(first.records[0]->Declare_0, fr);
        assert(first.records == enter(first.records[0]->Declare_0, fr));
        let rest = b.drop_first();
        assert forall|i: int| 0 <= i < rest.len() implies #[trigger] rest[i] is Step by {
            assert(rest[i] == b[i + 1]);
        }
        law_sequence_connections(rest, first.exits, first.next);
        lemma_counts_append(first.records, lower_block(rest, first.exits, first.next).records);
    } else {
        assert(declared_ids(Seq::<RecordView>::empty()) =~= Seq::<Seq<char>>::empty());
    }
}

/// An `exit` leaves no edge behind, whatever reaches it.
pub proof fn law_exit_ends_flow(fr: Seq<EdgeView>, k: nat)
    ensures
        lower_stmt(Stmt::Exit, fr, k).exits.len() == 0,
{
}

/// A `while` lands every exit of its body back on its condition node, one connection
/// per exit, after the body's own records; and control leaves it by one edge only,
/// labelled `False`, out of the condition node.
pub proof fn law_while_back_edges(c: String, body: Vec<Stmt>, fr: Seq<EdgeView>, k: nat)
    ensures
        ({
            let n = cond_node(k, c@);
            let inner = lower_block(body@, seq![edge_from(n, Some("True"@))], k + 1);
            let l = lower_stmt(Stmt::While(c, body), fr, k);
            let back = 1 + fr.len() + inner.records.len();
            &&& l.exits == seq![edge_from(n, Some("False"@))]
            &&& l.records.subrange(0, back as int) == enter(n, fr) + inner.records
            &&& l.records.len() == back + inner.exits.len()
            &&& forall|i: int|
                0 <= i < inner.exits.len() ==> #[trigger] l.records[back + i] == RecordView::Connect(
                    inner.exits[i].start.id,
                    node_id(k),
                    inner.exits[i].label,
                )
        }),
{
    let n = cond_node(k, c@);
    let inner = lower_block(body@, seq![edge_from(n, Some("True"@))], k + 1);
    let l = lower_stmt(Stmt::While(c, body), fr, k);
    let head = enter(n, fr) + inner.records;
    assert(l.records == head + connects(inner.exits, n.id));
    assert(head.len() == 1 + fr.len() + inner.records.len());
    assert(l.records.subrange(0, head.len() as int) =~= head);
    assert forall|i: int| 0 <= i < inner.exits.len() implies #[trigger] l.records[head.len() + i]
        == RecordView::Connect(inner.exits[i].start.id, node_id(k), inner.exits[i].label) by {
        assert(l.records[head.len() + i] == connects(inner.exits, n.id)[i]);
    }
}

/// Adding a label to attributes that already hold one changes nothing: the first
/// label stays.
pub proof fn law_first_label_wins(attrs: Seq<AttrView>, a: Seq<char>, b: Seq<char>)
    ensures
        with_attr(with_attr(attrs, AttrView::Label(a)), AttrView::Label(b)) == with_attr(
            attrs,
            AttrView::Label(a),
        ),
        with_attr(with_attr(seq![], AttrView::Label(a)), AttrView::Label(b)) == seq![AttrView::Label(a)],
{
    let once = with_attr(attrs, AttrView::Label(a));
    if !crate::node::has_kind(attrs, AttrView::Label(a)) {
        assert(once[attrs.len() as int].kind() == AttrView::Label(b).kind());
    }
    let first = with_attr(seq![], AttrView::Label(a));
    assert(first[0].kind() == AttrView::Label(b).kind());
    assert(first =~= seq![AttrView::Label(a)]);
}

proof fn lemma_ids_from_append(k: nat, a: nat, b: nat)
    ensures
        ids_from(k, a) + ids_from(k + a, b) == ids_from(k, a + b),
{
    assert(ids_from(k, a) + ids_from(k + a, b) =~= ids_from(k, a + b));
}

/// Lowering a statement declares the nodes `node_id(k)`, `node_id(k + 1)`, ... in
/// order, one for each node it creates.
pub proof fn lemma_stmt_declares(s: Stmt, fr: Seq<EdgeView>, k: nat)
    ensures
        declared_ids(lower_stmt(s, fr, k).records) == ids_from(k, stmt_size(s)),
    decreases s,
{
    match s {
        Stmt::Step(t) => {
            lemma_enter_counts(crate::flow::step_node(k, t@), fr);
            assert(ids_from(k, 1) =~= seq![node_id(k)]);
        },
        Stmt::Exit => {
            lemma_enter_counts(crate::flow::step_node(k, "Exit"@), fr);
            assert(ids_from(k, 1) =~= seq![node_id(k)]);
        },
        Stmt::If(c, t, e) => {
            let n = cond_node(k, c@);
            lemma_enter_counts(n, fr);
            assert(ids_from(k, 1) =~= seq![node_id(k)]);
            let tin = seq![edge_from(n, Some("True"@))];
            lemma_block_declares(t@, tin, k + 1);
            lemma_block_next(t@, tin, k + 1);
            let th = lower_block(t@, tin, k + 1);
            lemma_counts_append(enter(n, fr), th.records);
            lemma_ids_from_append(k, 1, block_size(t@));
            match e {
                Some(eb) => {
                    let fin = seq![edge_from(n, Some("False"@))];
                    lemma_block_declares(eb@, fin, th.next);
                    let el = lower_block(eb@, fin, th.next);
                    lemma_counts_append(enter(n, fr) + th.records, el.records);
                    lemma_ids_from_append(k, 1 + block_size(t@), block_size(eb@));
                },
                None => {},
            }
        },
        Stmt::While(c, b) => {
            let n = cond_node(k, c@);
            lemma_enter_counts(n, fr);
            assert(ids_from(k, 1) =~= seq![node_id(k)]);
            let bin = seq![edge_from(n, Some("True"@))];
            lemma_block_declares(b@, bin, k + 1);
            let body = lower_block(b@, bin, k + 1);
            lemma_counts_append(enter(n, fr), body.records);
            lemma_connects_counts(body.exits, n.id);
            lemma_counts_append(enter(n, fr) + body.records, connects(body.exits, n.id));
            lemma_ids_from_append(k, 1, block_size(b@));
            assert(ids_from(k, 1 + block_size(b@)) + Seq::<Seq<char>>::empty() =~= ids_from(
                k,
                1 + block_size(b@),
            ));
        },
    }
}

/// Lowering a block declares the nodes `node_id(k)`, `node_id(k + 1)`, ... in
/// order, one for each node it creates.
pub proof fn lemma_block_declares(b: Seq<Stmt>, fr: Seq<EdgeView>, k: nat)
    ensures
        declared_ids(lower_block(b, fr, k).records) == ids_from(k, block_size(b)),
    decreases b,
{
    if b.len() == 0 {
        assert(ids_from(k, 0) =~= Seq::<Seq<char>>::empty());
        assert(declared_ids(Seq::<RecordView>::empty()) =~= Seq::<Seq<char>>::empty());
    } else {
        lemma_stmt_declares(b[0], fr, k);
        crate::flow::lemma_stmt_next(b[0], fr, k);
        let first = lower_stmt(b[0], fr, k);
        lemma_block_declares(b.drop_first(), first.exits, first.next);
        lemma_counts_append(first.records, lower_block(b.drop_first(), first.exits, first.next).records);
        lemma_ids_from_append(k, stmt_size(b[0]), block_size(b.drop_first()));
    }
}

/// No two nodes that lowering a block declares share an identifier.
pub proof fn law_unique_ids(b: Seq<Stmt>, fr: Seq<EdgeView>, k: nat)
    ensures
        ({
            let ids = declared_ids(lower_block(b, fr, k).records);
            forall|i: int, j: int| 0 <= i < j < ids.len() ==> #[trigger] ids[i] != #[trigger] ids[j]
        }),
{
    lemma_block_declares(b, fr, k);
    let ids = declared_ids(lower_block(b, fr, k).records);
    assert forall|i: int, j: int| 0 <= i < j < ids.len() implies #[trigger] ids[i] != #[trigger] ids[j] by {
        if ids[i] == ids[j] {
            lemma_node_id_injective((k + i) as nat, (k + j) as nat);
        }
    }
}


proof fn lemma_block_one(s: Stmt, fr: Seq<EdgeView>, k: nat)
    ensures
        lower_block(seq![s], fr, k) == lower_stmt(s, fr, k),
{
    let b = seq![s];
    assert(b.drop_first() =~= Seq::<Stmt>::empty());
    let first = lower_stmt(s, fr, k);
    let rest = lower_block(b.drop_first(), first.exits, first.next);
    assert(rest.records == Seq::<RecordView>::empty());
    assert(rest.exits == first.exits);
    assert(first.records + Seq::<RecordView>::empty() =~= first.records);
}

proof fn lemma_block_cons(s: Stmt, rest: Seq<Stmt>, fr: Seq<EdgeView>, k: nat)
    ensures
        ({
            let first = lower_stmt(s, fr, k);
            let tail = lower_block(rest, first.exits, first.next);
            let l = lower_block(seq![s] + rest, fr, k);
            l.records == first.records + tail.records && l.exits == tail.exits && l.next == tail.next
        }),
{
    let b = seq![s] + rest;
    assert(b[0] == s);
    assert(b.drop_first() =~= rest);
}

/// The program `step; exit;` declares two nodes joined by one connection, and
/// leaves no edge dangling, so no node is marked as an implicit end.
pub proof fn law_step_then_exit(t: String)
    ensures
        ({
            let prog = seq![Stmt::Step(t), Stmt::Exit];
            let l = lower_block(prog, seq![], 0);
            &&& l.exits.len() == 0
            &&& program_records(prog, 0) == l.records
            &&& declared_ids(l.records).len() == 2
            &&& connection_count(l.records) == 1
        }),
{
    let prog = seq![Stmt::Step(t), Stmt::Exit];
    assert(prog =~= seq![Stmt::Step(t)] + seq![Stmt::Exit]);
    let first = lower_stmt(Stmt::Step(t), seq![], 0);
    lemma_block_cons(Stmt::Step(t), seq![Stmt::Exit], seq![], 0);
    lemma_block_one(Stmt::Exit, first.exits, 1);
    let l = lower_block(prog, seq![], 0);
    assert(terminal_marks(l.exits) =~= Seq::<RecordView>::empty());
    assert(l.records + Seq::<RecordView>::empty() =~= l.records);
    law_sequence_connections(seq![Stmt::Step(t)], seq![], 0);
    lemma_block_one(Stmt::Step(t), seq![], 0);
    lemma_enter_counts(step_node(1, "Exit"@), first.exits);
    lemma_counts_append(first.records, lower_stmt(Stmt::Exit, first.exits, 1).records);
}

/// The program made of one step declares its node once, connects nothing, and
/// then declares the node again with the marks of an implicit end.
pub proof fn law_single_step(t: String)
    ensures
        ({
            let n = step_node(0, t@);
            &&& n.attrs == seq![AttrView::Label(t@), AttrView::Shape(Shape::Rectangle)]
            &&& program_records(seq![Stmt::Step(t)], 0) == seq![
                RecordView::Declare(n),
                RecordView::Declare(NodeView { id: node_id(0), attrs: terminal_attrs(n.attrs) }),
            ]
            &&& terminal_attrs(n.attrs) == seq![
                AttrView::Label(t@),
                AttrView::Shape(Shape::Rectangle),
                AttrView::Color("red"@),
                AttrView::PenWidth(3),
            ]
            &&& connection_count(program_records(seq![Stmt::Step(t)], 0)) == 0
        }),
{
    let n = step_node(0, t@);
    let a0 = with_attr(seq![], AttrView::Label(t@));
    assert(a0 =~= seq![AttrView::Label(t@)]);
    assert(n.attrs =~= seq![AttrView::Label(t@), AttrView::Shape(Shape::Rectangle)]);
    let a1 = with_attr(n.attrs, AttrView::Color("red"@));
    assert(a1 =~= n.attrs.push(AttrView::Color("red"@)));
    assert(terminal_attrs(n.attrs) =~= a1.push(AttrView::PenWidth(3)));
    lemma_block_one(Stmt::Step(t), seq![], 0);
    let l = lower_block(seq![Stmt::Step(t)], seq![], 0);
    assert(l.records =~= seq![RecordView::Declare(n)]);
    let rs = program_records(seq![Stmt::Step(t)], 0);
    assert(rs =~= seq![
        RecordView::Declare(n),
        RecordView::Declare(NodeView { id: node_id(0), attrs: terminal_attrs(n.attrs) }),
    ]);
    assert(rs.drop_last().drop_last() =~= Seq::<RecordView>::empty());
    assert(connection_count(rs.drop_last().drop_last()) == 0);
    assert(connection_count(rs.drop_last()) == 0);
    assert(connection_count(rs) == 0);
}

/// In `a; if c { b; } d;` the condition's `True` edge lands on the node of `b`, and
/// with no `else` its `False` edge lands directly on the node of `d`, which is
/// entered from `b` and from the condition.
pub proof fn law_if_without_else(a: String, c: String, then_block: Vec<Stmt>, b: String, d: String)
    requires
        then_block@ == seq![Stmt::Step(b)],
    ensures
        ({
            let n0 = step_node(0, a@);
            let n3 = step_node(3, d@);
            program_records(seq![Stmt::Step(a), Stmt::If(c, then_block, None), Stmt::Step(d)], 0)
                == seq![
                RecordView::Declare(n0),
                RecordView::Declare(cond_node(1, c@)),
                RecordView::Connect(node_id(0), node_id(1), None),
                RecordView::Declare(step_node(2, b@)),
                RecordView::Connect(node_id(1), node_id(2), Some("True"@)),
                RecordView::Declare(n3),
                RecordView::Connect(node_id(2), node_id(3), None),
                RecordView::Connect(node_id(1), node_id(3), Some("False"@)),
                RecordView::Declare(NodeView { id: node_id(3), attrs: terminal_attrs(n3.attrs) }),
            ]
        }),
{
    let sa = Stmt::Step(a);
    let si = Stmt::If(c, then_block, None);
    let sd = Stmt::Step(d);
    let prog = seq![sa, si, sd];
    assert(prog =~= seq![sa] + seq![si, sd]);
    assert(seq![si, sd] =~= seq![si] + seq![sd]);
    let n0 = step_node(0, a@);
    let n1 = cond_node(1, c@);
    let n2 = step_node(2, b@);
    let n3 = step_node(3, d@);
    let l0 = lower_stmt(sa, seq![], 0);
    lemma_block_cons(sa, seq![si, sd], seq![], 0);
    assert(l0.records =~= seq![RecordView::Declare(n0)]);
    assert(l0.exits == seq![edge_from(n0, None)]);
    let tin = seq![edge_from(n1, Some("True"@))];
    lemma_block_one(Stmt::Step(b), tin, 2);
    let th = lower_block(then_block@, tin, 2);
    assert(th.records =~= seq![
        RecordView::Declare(n2),
        RecordView::Connect(node_id(1), node_id(2), Some("True"@)),
    ]);
    let l1 = lower_stmt(si, l0.exits, 1);
    assert(enter(n1, l0.exits) =~= seq![
        RecordView::Declare(n1),
        RecordView::Connect(node_id(0), node_id(1), None),
    ]);
    assert(l1.exits =~= seq![edge_from(n2, None), edge_from(n1, Some("False"@))]);
    lemma_block_cons(si, seq![sd], l0.exits, 1);
    lemma_block_one(sd, l1.exits, 3);
    let l2 = lower_stmt(sd, l1.exits, 3);
    assert(l2.records =~= seq![
        RecordView::Declare(n3),
        RecordView::Connect(node_id(2), node_id(3), None),
        RecordView::Connect(node_id(1), node_id(3), Some("False"@)),
    ]);
    let l = lower_block(prog, seq![], 0);
    assert(l.exits == seq![edge_from(n3, None)]);
    assert(terminal_marks(l.exits) =~= seq![
        RecordView::Declare(NodeView { id: node_id(3), attrs: terminal_attrs(n3.attrs) }),
    ]);
    assert(program_records(prog, 0) =~= seq![
        RecordView::Declare(n0),
        RecordView::Declare(n1),
        RecordView::Connect(node_id(0), node_id(1), None),
        RecordView::Declare(n2),
        RecordView::Connect(node_id(1), node_id(2), Some("True"@)),
        RecordView::Declare(n3),
        RecordView::Connect(node_id(2), node_id(3), None),
        RecordView::Connect(node_id(1), node_id(3), Some("False"@)),
        RecordView::Declare(NodeView { id: node_id(3), attrs: terminal_attrs(n3.attrs) }),
    ]);
}

} // verus!
