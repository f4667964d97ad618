use vstd::prelude::*;

use crate::attr::{AttrView, Shape};
use crate::dot_writer::{emitted, lemma_render_append, render, DotWriter, RecordView};
use crate::edge::{Edge, EdgeView};
use crate::node::{terminal_attrs, with_attr, Node, NodeView};
use crate::text::{decimal_string, node_id};

verus! {

/// A statement of the flow language.
pub enum Stmt {
    /// An action, shown with its text.
    Step(String),
    /// The end of the flow.
    Exit,
    /// A condition, the block taken when it holds, and the block taken otherwise.
    If(String, Vec<Stmt>, Option<Vec<Stmt>>),
    /// A condition and the block repeated while it holds.
    While(String, Vec<Stmt>),
}

/// What lowering a statement or a block gives: the records emitted, in order, the
/// dangling edges through which control leaves it, and the next identifier counter.
pub struct Lowered {
    pub records: Seq<RecordView>,
    pub exits: Seq<EdgeView>,
    pub next: nat,
}

/// The node of a step: a rectangle with the step's text.
pub open spec fn step_node(k: nat, text: Seq<char>) -> NodeView {
    NodeView {
        id: node_id(k),
        attrs: with_attr(with_attr(seq![], AttrView::Label(text)), AttrView::Shape(Shape::Rectangle)),
    }
}

/// The node of a condition: a diamond with the condition's text.
pub open spec fn cond_node(k: nat, text: Seq<char>) -> NodeView {
    NodeView {
        id: node_id(k),
        attrs: with_attr(with_attr(seq![], AttrView::Label(text)), AttrView::Shape(Shape::Diamond)),
    }
}

/// A dangling edge out of `n`.
pub open spec fn edge_from(n: NodeView, label: Option<Seq<char>>) -> EdgeView {
    EdgeView { label, start: n }
}

/// Landing every edge of a frontier on the node with identifier `to`.
pub open spec fn connects(fr: Seq<EdgeView>, to: Seq<char>) -> Seq<RecordView> {
    fr.map_values(|e: EdgeView| RecordView::Connect(e.start.id, to, e.label))
}

/// Declaring `n` and landing the frontier on it.
pub open spec fn enter(n: NodeView, fr: Seq<EdgeView>) -> Seq<RecordView> {
    seq![RecordView::Declare(n)] + connects(fr, n.id)
}

/// Lowering one statement with incoming frontier `fr`, the next fresh node taking
/// identifier counter `k`.
pub open spec fn lower_stmt(s: Stmt, fr: Seq<EdgeView>, k: nat) -> Lowered
    decreases s,
{
    match s {
        Stmt::Step(t) => {
            let n = step_node(k, t@);
            Lowered { records: enter(n, fr), exits: seq![edge_from(n, None)], next: k + 1 }
        },
        Stmt::Exit => {
            let n = step_node(k, "Exit"@);
            Lowered { records: enter(n, fr), exits: seq![], next: k + 1 }
        },
        Stmt::If(c, t, e) => {
            let n = cond_node(k, c@);
            let th = lower_block(t@, seq![edge_from(n, Some("True"@))], k + 1);
            match e {
                Some(eb) => {
                    let el = lower_block(eb@, seq![edge_from(n, Some("False"@))], th.next);
                    Lowered {
                        records: enter(n, fr) + th.records + el.records,
                        exits: th.exits + el.exits,
                        next: el.next,
                    }
                },
                None => Lowered {
                    records: enter(n, fr) + th.records,
                    exits: th.exits.push(edge_from(n, Some("False"@))),
                    next: th.next,
                },
            }
        },
        Stmt::While(c, b) => {
            let n = cond_node(k, c@);
            let body = lower_block(b@, seq![edge_from(n, Some("True"@))], k + 1);
            Lowered {
                records: enter(n, fr) + body.records + connects(body.exits, n.id),
                exits: seq![edge_from(n, Some("False"@))],
                next: body.next,
            }
        },
    }
}

/// Lowering a block: each statement takes the frontier that the one before it left.
pub open spec fn lower_block(b: Seq<Stmt>, fr: Seq<EdgeView>, k: nat) -> Lowered
    decreases b,
{
    if b.len() == 0 {
        Lowered { records: seq![], exits: fr, next: k }
    } else {
        let first = lower_stmt(b[0], fr, k);
        let rest = lower_block(b.drop_first(), first.exits, first.next);
        Lowered { records: first.records + rest.records, exits: rest.exits, next: rest.next }
    }
}


/// The number of nodes that lowering a statement creates.
pub open spec fn stmt_size(s: Stmt) -> nat
    decreases s,
{
    match s {
        Stmt::Step(_) => 1,
        Stmt::Exit => 1,
        Stmt::If(_, t, e) => match e {
            Some(eb) => 1 + block_size(t@) + block_size(eb@),
            None => 1 + block_size(t@),
        },
        Stmt::While(_, b) => 1 + block_size(b@),
    }
}

/// The number of nodes that lowering a block creates.
pub open spec fn block_size(b: Seq<Stmt>) -> nat
    decreases b,
{
    if b.len() == 0 {
        0
    } else {
        stmt_size(b[0]) + block_size(b.drop_first())
    }
}

/// Lowering takes one identifier for each node it creates.
pub proof fn lemma_stmt_next(s: Stmt, fr: Seq<EdgeView>, k: nat)
    ensures
        lower_stmt(s, fr, k).next == k + stmt_size(s),
    decreases s,
{
    match s {
        Stmt::If(c, t, e) => {
            let n = cond_node(k, c@);
            lemma_block_next(t@, seq![edge_from(n, Some("True"@))], k + 1);
            let th = lower_block(t@, seq![edge_from(n, Some("True"@))], k + 1);
            match e {
                Some(eb) => {
                    lemma_block_next(eb@, seq![edge_from(n, Some("False"@))], th.next);
                },
                None => {},
            }
        },
        Stmt::While(c, b) => {
            lemma_block_next(b@, seq![edge_from(cond_node(k, c@), Some("True"@))], k + 1);
        },
        _ => {},
    }
}

/// Lowering a block takes one identifier for each node it creates.
pub proof fn lemma_block_next(b: Seq<Stmt>, fr: Seq<EdgeView>, k: nat)
    ensures
        lower_block(b, fr, k).next == k + block_size(b),
    decreases b,
{
    if b.len() > 0 {
        lemma_stmt_next(b[0], fr, k);
        let first = lower_stmt(b[0], fr, k);
        lemma_block_next(b.drop_first(), first.exits, first.next);
    }
}

/// The records of a whole program: its lowering, then a terminal declaration for
/// the source of every edge left dangling at the end.
pub open spec fn program_records(b: Seq<Stmt>, k: nat) -> Seq<RecordView> {
    let l = lower_block(b, seq![], k);
    l.records + terminal_marks(l.exits)
}

/// Declarations that mark the sources of `exits` as ends of the flow.
pub open spec fn terminal_marks(exits: Seq<EdgeView>) -> Seq<RecordView> {
    exits.map_values(
        |e: EdgeView| RecordView::Declare(NodeView { id: e.start.id, attrs: terminal_attrs(e.start.attrs) }),
    )
}

/// What a sequence of edges is.
pub open spec fn edges_view(v: Seq<Edge>) -> Seq<EdgeView> {
    v.map_values(|e: Edge| e@)
}

/// Hands out node identifiers `n0`, `n1`, `n2`, ... in order, none twice.
pub struct IdGenerator {
    next: usize,
}

impl View for IdGenerator {
    type V = nat;

    /// The counter of the next identifier.
    closed spec fn view(&self) -> nat {
        self.next as nat
    }
}

/// The largest number of nodes that one generator can name.
pub open spec fn id_capacity() -> nat {
    usize::MAX as nat
}

pub fn make_id_generator() -> (r: IdGenerator)
    ensures
        r@ == 0,
{
    IdGenerator { next: 0 }
}

impl IdGenerator {
    /// The next identifier.
    pub fn next_id(&mut self) -> (r: String)
        requires
            old(self)@ < id_capacity(),
        ensures
            r@ == node_id(old(self)@),
            final(self)@ == old(self)@ + 1,
    {
        proof {
            reveal_strlit("n");
        }
        let name = String::from_str("n").concat(decimal_string(self.next).as_str());
        self.next = self.next + 1;
        name
    }
}

proof fn lemma_render_one(r: RecordView)
    ensures
        render(seq![r]) == emitted(crate::dot_writer::record_line(r)),
{
    let e = emitted(crate::dot_writer::record_line(r));
    assert(seq![r].drop_last() =~= Seq::<RecordView>::empty());
    assert(render(seq![r]) == render(Seq::<RecordView>::empty()) + e);
    assert(Seq::<char>::empty() + e =~= e);
}

/// Lands every edge of `entry_points` on `end`.
fn land_all(entry_points: &Vec<Edge>, end: &Node, dot: &mut DotWriter)
    ensures
        final(dot)@ == old(dot)@ + render(connects(edges_view(entry_points@), end@.id)),
{
    let ghost start = dot@;
    let mut i: usize = 0;
    while i < entry_points.len()
        invariant
            i <= entry_points.len(),
            dot@ == start + render(connects(edges_view(entry_points@.subrange(0, i as int)), end@.id)),
        decreases entry_points.len() - i,
    {
        dot.write_edge(&entry_points[i], end);
        proof {
            let c0 = connects(edges_view(entry_points@.subrange(0, i as int)), end@.id);
            let c1 = connects(edges_view(entry_points@.subrange(0, i + 1)), end@.id);
            assert(c1.drop_last() =~= c0);
            assert(c1.last() == RecordView::Connect(entry_points@[i as int]@.start.id, end@.id, entry_points@[i as int]@.label));
        }
        i = i + 1;
    }
    assert(entry_points@.subrange(0, entry_points.len() as int) =~= entry_points@);
}

/// Creates a condition node labelled `text` and lands `entry_points` on it; returns
/// an unlabelled dangling edge out of it.
fn dotify_condition(text: &String, entry_points: &Vec<Edge>, ids: &mut IdGenerator, dot: &mut DotWriter) -> (r: Edge)
    requires
        old(ids)@ < id_capacity(),
    ensures
        r@ == edge_from(cond_node(old(ids)@, text@), None),
        final(dot)@ == old(dot)@ + render(enter(cond_node(old(ids)@, text@), edges_view(entry_points@))),
        final(ids)@ == old(ids)@ + 1,
{
    let condition_node = Node::new(ids.next_id()).labelled(text.clone()).diamond();
    dot.write_node(&condition_node);
    land_all(entry_points, &condition_node, dot);
    proof {
        let n = cond_node(old(ids)@, text@);
        lemma_render_one(RecordView::Declare(n));
        lemma_render_append(seq![RecordView::Declare(n)], connects(edges_view(entry_points@), n.id));
    }
    Edge::starting_at(condition_node)
}


/// The records and exits of `l` are what a lowering call wrote and returned, and
/// the identifier counter ends where `l` says.
pub open spec fn carried_out(l: Lowered, exits: Seq<Edge>, before: Seq<char>, after: Seq<char>, ids: nat) -> bool {
    &&& edges_view(exits) == l.exits
    &&& after == before + render(l.records)
    &&& ids == l.next
}

proof fn lemma_render_three(a: Seq<RecordView>, b: Seq<RecordView>, c: Seq<RecordView>)
    ensures
        render(a + b + c) == render(a) + render(b) + render(c),
{
    lemma_render_append(a, b);
    lemma_render_append(a + b, c);
}

proof fn lemma_edges_view_one(e: Edge)
    ensures
        edges_view(seq![e]) == seq![e@],
{
    assert(edges_view(seq![e]) =~= seq![e@]);
}

/// Lowers a step or an exit.
fn dotify_step(stmt: &Stmt, entry_points: Vec<Edge>, ids: &mut IdGenerator, dot: &mut DotWriter) -> (r: Vec<Edge>)
    requires
        stmt is Step || stmt is Exit,
        old(ids)@ + stmt_size(*stmt) <= id_capacity(),
    ensures
        carried_out(lower_stmt(*stmt, edges_view(entry_points@), old(ids)@), r@, old(dot)@, final(dot)@, final(ids)@),
{
    let ghost k = ids@;
    let ghost fr = edges_view(entry_points@);
    match stmt {
        Stmt::Step(text) => {
            let exit_node = Node::new(ids.next_id()).labelled(text.clone()).rectangle();
            dot.write_node(&exit_node);
            land_all(&entry_points, &exit_node, dot);
            proof {
                let n = step_node(k, text@);
                lemma_render_one(RecordView::Declare(n));
                lemma_render_append(seq![RecordView::Declare(n)], connects(fr, n.id));
            }
            let ghost d1 = dot@;
            let out = Edge::starting_at(exit_node);
            let r = vec![out];
            proof {
                lemma_edges_view_one(out);
                assert(r@ =~= seq![out]);
                assert(out@ == edge_from(step_node(k, text@), None));
                assert(d1 == old(dot)@ + render(lower_stmt(*stmt, fr, k).records));
            }
            r
        },
        Stmt::Exit => {
            proof {
                reveal_strlit("Exit");
            }
            let exit_node = Node::new(ids.next_id()).labelled(String::from_str("Exit")).rectangle();
            dot.write_node(&exit_node);
            land_all(&entry_points, &exit_node, dot);
            proof {
                let n = step_node(k, "Exit"@);
                lemma_render_one(RecordView::Declare(n));
                lemma_render_append(seq![RecordView::Declare(n)], connects(fr, n.id));
            }
            let r: Vec<Edge> = Vec::new();
            assert(edges_view(r@) =~= seq![]);
            assert(dot@ == old(dot)@ + render(lower_stmt(*stmt, fr, k).records));
            assert(ids@ == lower_stmt(*stmt, fr, k).next);
            r
        },
        _ => Vec::new(),
    }
}

/// Lowers an `if`, with or without `else`.
fn dotify_if(stmt: &Stmt, entry_points: Vec<Edge>, ids: &mut IdGenerator, dot: &mut DotWriter) -> (r: Vec<Edge>)
    requires
        stmt is If,
        old(ids)@ + stmt_size(*stmt) <= id_capacity(),
    ensures
        carried_out(lower_stmt(*stmt, edges_view(entry_points@), old(ids)@), r@, old(dot)@, final(dot)@, final(ids)@),
    decreases *stmt, 1nat,
{
    let ghost k = ids@;
    let ghost fr = edges_view(entry_points@);
    let ghost d0 = dot@;
    match stmt {
        Stmt::If(c, t, e) => {
            proof {
                reveal_strlit("True");
                reveal_strlit("False");
            }
            let ghost n = cond_node(k, c@);
            let condition_edge = dotify_condition(c, &entry_points, ids, dot);
            let ghost d1 = dot@;
            let true_edge = condition_edge.duplicate().labelled(String::from_str("True"));
            let true_in = vec![true_edge];
            proof {
                lemma_edges_view_one(true_edge);
                assert(true_in@ =~= seq![true_edge]);
            }
            let ghost th = lower_block(t@, seq![edge_from(n, Some("True"@))], k + 1);
            let mut exits = dotify_process(t, true_in, ids, dot);
            let ghost d2 = dot@;
            proof {
                lemma_block_next(t@, seq![edge_from(n, Some("True"@))], k + 1);
            }
            let false_edge = condition_edge.labelled(String::from_str("False"));
            match e {
                Some(eb) => {
                    let false_in = vec![false_edge];
                    proof {
                        lemma_edges_view_one(false_edge);
                        assert(false_in@ =~= seq![false_edge]);
                    }
                    let ghost exits_then = exits@;
                    let mut else_exits = dotify_process(eb, false_in, ids, dot);
                    let ghost exits_else = else_exits@;
                    exits.append(&mut else_exits);
                    proof {
                        let el = lower_block(eb@, seq![edge_from(n, Some("False"@))], th.next);
                        assert(edges_view(exits@) =~= edges_view(exits_then) + edges_view(exits_else));
                        lemma_render_three(enter(n, fr), th.records, el.records);
                        assert(dot@ =~= d0 + render(enter(n, fr) + th.records + el.records));
                    }
                },
                None => {
                    let ghost exits_then = exits@;
                    exits.push(false_edge);
                    proof {
                        assert(edges_view(exits@) =~= edges_view(exits_then).push(false_edge@));
                        lemma_render_append(enter(n, fr), th.records);
                        assert(dot@ =~= d0 + render(enter(n, fr) + th.records));
                    }
                },
            }
            exits
        },
        _ => Vec::new(),
    }
}

/// Lowers a `while`: the body's exits go back to the condition, and control leaves
/// only when the condition is false.
fn dotify_while(stmt: &Stmt, entry_points: Vec<Edge>, ids: &mut IdGenerator, dot: &mut DotWriter) -> (r: Vec<Edge>)
    requires
        stmt is While,
        old(ids)@ + stmt_size(*stmt) <= id_capacity(),
    ensures
        carried_out(lower_stmt(*stmt, edges_view(entry_points@), old(ids)@), r@, old(dot)@, final(dot)@, final(ids)@),
    decreases *stmt, 1nat,
{
    let ghost k = ids@;
    let ghost fr = edges_view(entry_points@);
    let ghost d0 = dot@;
    match stmt {
        Stmt::While(c, b) => {
            proof {
                reveal_strlit("True");
                reveal_strlit("False");
            }
            let ghost n = cond_node(k, c@);
            let condition_edge = dotify_condition(c, &entry_points, ids, dot);
            let true_edge = condition_edge.duplicate().labelled(String::from_str("True"));
            let true_in = vec![true_edge];
            proof {
                lemma_edges_view_one(true_edge);
                assert(true_in@ =~= seq![true_edge]);
            }
            let ghost body = lower_block(b@, seq![edge_from(n, Some("True"@))], k + 1);
            let process_exits = dotify_process(b, true_in, ids, dot);
            land_all(&process_exits, &condition_edge.start_node, dot);
            proof {
                lemma_render_three(enter(n, fr), body.records, connects(body.exits, n.id));
                assert(dot@ =~= d0 + render(enter(n, fr) + body.records + connects(body.exits, n.id)));
            }
            let r = vec![condition_edge.labelled(String::from_str("False"))];
            proof {
                lemma_edges_view_one(r@[0]);
                assert(r@ =~= seq![r@[0]]);
            }
            r
        },
        _ => Vec::new(),
    }
}

/// Lowers a block: each statement takes the frontier that the one before it left.
fn dotify_process(block: &Vec<Stmt>, entry_points: Vec<Edge>, ids: &mut IdGenerator, dot: &mut DotWriter) -> (r: Vec<Edge>)
    requires
        old(ids)@ + block_size(block@) <= id_capacity(),
    ensures
        carried_out(lower_block(block@, edges_view(entry_points@), old(ids)@), r@, old(dot)@, final(dot)@, final(ids)@),
    decreases block@, 0nat,
{
    let ghost full = lower_block(block@, edges_view(entry_points@), ids@);
    let ghost d0 = dot@;
    let ghost mut done: Seq<RecordView> = seq![];
    let mut frontier = entry_points;
    let mut i: usize = 0;
    assert(block@.subrange(0, block@.len() as int) =~= block@);
    assert(d0 + render(done) =~= d0);
    assert(done + full.records =~= full.records);
    while i < block.len()
        invariant
            i <= block.len(),
            full == lower_block(block@, edges_view(entry_points@), old(ids)@),
            dot@ == d0 + render(done),
            full.records == done + lower_block(block@.subrange(i as int, block@.len() as int), edges_view(frontier@), ids@).records,
            full.exits == lower_block(block@.subrange(i as int, block@.len() as int), edges_view(frontier@), ids@).exits,
            full.next == lower_block(block@.subrange(i as int, block@.len() as int), edges_view(frontier@), ids@).next,
            ids@ + block_size(block@.subrange(i as int, block@.len() as int)) <= id_capacity(),
        decreases block.len() - i,
    {
        let stmt = &block[i];
        let ghost sub = block@.subrange(i as int, block@.len() as int);
        let ghost fr = edges_view(frontier@);
        let ghost k = ids@;
        let ghost before = dot@;
        proof {
            assert(sub[0] == block@[i as int]);
            assert(sub.drop_first() =~= block@.subrange(i + 1, block@.len() as int));
        }
        let next_frontier = match stmt {
            Stmt::Step(_) => dotify_step(stmt, frontier, ids, dot),
            Stmt::Exit => dotify_step(stmt, frontier, ids, dot),
            Stmt::If(_, _, _) => dotify_if(stmt, frontier, ids, dot),
            Stmt::While(_, _) => dotify_while(stmt, frontier, ids, dot),
        };
        proof {
            let first = lower_stmt(*stmt, fr, k);
            lemma_stmt_next(*stmt, fr, k);
            lemma_render_append(done, first.records);
            assert(done + first.records + lower_block(sub.drop_first(), first.exits, first.next).records
                =~= done + (first.records + lower_block(sub.drop_first(), first.exits, first.next).records));
            assert(d0 + render(done) + render(first.records) =~= d0 + (render(done) + render(first.records)));
            done = done + first.records;
        }
        frontier = next_frontier;
        i = i + 1;
    }
    proof {
        assert(block@.subrange(i as int, block@.len() as int) =~= Seq::<Stmt>::empty());
        assert(done + Seq::<RecordView>::empty() =~= done);
    }
    frontier
}


/// Lowers a whole program, then marks the source of every edge left dangling at
/// its end as an end of the flow; returns the lines written.
pub fn dotify_all(program: &Vec<Stmt>, ids: &mut IdGenerator) -> (r: String)
    requires
        old(ids)@ + block_size(program@) <= id_capacity(),
    ensures
        r@ == render(program_records(program@, old(ids)@)),
        final(ids)@ == old(ids)@ + block_size(program@),
{
    let ghost l = lower_block(program@, seq![], ids@);
    proof {
        lemma_block_next(program@, seq![], ids@);
    }
    let mut dot = DotWriter::new();
    let start: Vec<Edge> = Vec::new();
    assert(edges_view(start@) =~= seq![]);
    let exit_points = dotify_process(program, start, ids, &mut dot);
    assert(Seq::<char>::empty() + render(l.records) =~= render(l.records));
    let mut i: usize = 0;
    assert(terminal_marks(l.exits.subrange(0, 0)) =~= seq![]);
    assert(l.records + Seq::<RecordView>::empty() =~= l.records);
    while i < exit_points.len()
        invariant
            i <= exit_points.len(),
            edges_view(exit_points@) == l.exits,
            dot@ == render(l.records + terminal_marks(l.exits.subrange(0, i as int))),
        decreases exit_points.len() - i,
    {
        let marked = exit_points[i].start_node.duplicate().terminal();
        dot.write_node(&marked);
        proof {
            let m0 = terminal_marks(l.exits.subrange(0, i as int));
            let m1 = terminal_marks(l.exits.subrange(0, i + 1));
            assert(l.exits[i as int] == exit_points@[i as int]@);
            assert(m1 =~= m0.push(RecordView::Declare(marked@)));
            assert((l.records + m1).drop_last() =~= l.records + m0);
        }
        i = i + 1;
    }
    assert(l.exits.subrange(0, exit_points.len() as int) =~= l.exits);
    dot.consume()
}

/// The diagram of a program: a `strict digraph` block around its records.
pub fn make_dot(program: &Vec<Stmt>) -> (r: String)
    requires
        block_size(program@) <= id_capacity(),
    ensures
        r@ == emitted("strict digraph {"@) + emitted(render(program_records(program@, 0))) + emitted("}"@),
{
    let mut name_gen = make_id_generator();
    let mut dot = DotWriter::new();
    let dotified_all = dotify_all(program, &mut name_gen);
    dot.write_line("strict digraph {");
    dot.write_line(dotified_all.as_str());
    dot.write_line("}");
    assert(Seq::<char>::empty() + emitted("strict digraph {"@) =~= emitted("strict digraph {"@));
    dot.consume()
}

/// The number of nodes that lowering `stmt` creates, if it fits in a `usize`.
pub fn stmt_node_count(stmt: &Stmt) -> (r: Option<usize>)
    ensures
        r == (if stmt_size(*stmt) <= usize::MAX { Some(stmt_size(*stmt) as usize) } else { None::<usize> }),
    decreases *stmt, 1nat,
{
    match stmt {
        Stmt::Step(_) => Some(1),
        Stmt::Exit => Some(1),
        Stmt::If(_, t, e) => {
            let a = match node_count(t) {
                Some(a) => a,
                None => { return None; },
            };
            let b = match e {
                Some(eb) => match node_count(eb) {
                    Some(b) => b,
                    None => { return None; },
                },
                None => 0,
            };
            if a < usize::MAX - b {
                Some(1 + a + b)
            } else {
                None
            }
        },
        Stmt::While(_, body) => {
            match node_count(body) {
                Some(a) => if a < usize::MAX { Some(a + 1) } else { None },
                None => None,
            }
        },
    }
}

proof fn lemma_block_size_suffix(b: Seq<Stmt>, i: int)
    requires
        0 <= i <= b.len(),
    ensures
        block_size(b.subrange(i, b.len() as int)) <= block_size(b),
    decreases i,
{
    if i == 0 {
        assert(b.subrange(0, b.len() as int) =~= b);
    } else {
        lemma_block_size_suffix(b.drop_first(), i - 1);
        assert(b.drop_first().subrange(i - 1, b.len() - 1) =~= b.subrange(i, b.len() as int));
    }
}

/// The number of nodes that lowering `block` creates, if it fits in a `usize`.
pub fn node_count(block: &Vec<Stmt>) -> (r: Option<usize>)
    ensures
        r == (if block_size(block@) <= usize::MAX { Some(block_size(block@) as usize) } else { None::<usize> }),
    decreases block@, 0nat,
{
    let mut total: usize = 0;
    let mut i: usize = block.len();
    assert(block@.subrange(i as int, block@.len() as int) =~= Seq::<Stmt>::empty());
    while i > 0
        invariant
            i <= block.len(),
            total as nat == block_size(block@.subrange(i as int, block@.len() as int)),
        decreases i,
    {
        let ghost sub = block@.subrange(i - 1, block@.len() as int);
        assert(sub[0] == block@[i - 1]);
        assert(sub.drop_first() =~= block@.subrange(i as int, block@.len() as int));
        proof {
            lemma_block_size_suffix(block@, i - 1);
        }
        match stmt_node_count(&block[i - 1]) {
            Some(c) => {
                if c <= usize::MAX - total {
                    total = total + c;
                } else {
                    return None;
                }
            },
            None => {
                return None;
            },
        }
        i = i - 1;
    }
    assert(block@.subrange(0, block@.len() as int) =~= block@);
    Some(total)
}

} // verus!
