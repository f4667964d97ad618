use vstd::prelude::*;

use crate::flow::Stmt;

verus! {

/// A line of the tree dump: the padding, the text, a newline.
pub open spec fn dump_line(pad: Seq<char>, text: Seq<char>) -> Seq<char> {
    pad + text + "\n"@
}

/// Two more spaces of padding.
pub open spec fn deeper(pad: Seq<char>) -> Seq<char> {
    pad + "  "@
}

/// The dump of a text node of the tree.
pub open spec fn dump_expression(pad: Seq<char>, text: Seq<char>) -> Seq<char> {
    dump_line(pad, "expression: \""@ + text + "\""@)
}

/// The dump of a condition and its text.
pub open spec fn dump_condition(pad: Seq<char>, text: Seq<char>) -> Seq<char> {
    dump_line(pad, "condition:"@) + dump_expression(deeper(pad), text)
}

/// The dump of a statement, each nested part two spaces deeper than its parent.
pub open spec fn dump_stmt(s: Stmt, pad: Seq<char>) -> Seq<char>
    decreases s,
{
    match s {
        Stmt::Step(t) => dump_line(pad, "step:"@) + dump_expression(deeper(pad), t@),
        Stmt::Exit => dump_line(pad, "step:"@) + dump_line(deeper(pad), "EXIT"@),
        Stmt::If(c, t, e) => {
            let head = dump_line(pad, "if_branch:"@) + dump_condition(deeper(pad), c@) + dump_process(
                t@,
                deeper(pad),
            );
            match e {
                Some(eb) => head + dump_line(deeper(pad), "else_branch:"@) + dump_process(
                    eb@,
                    deeper(deeper(pad)),
                ),
                None => head,
            }
        },
        Stmt::While(c, b) => dump_line(pad, "while_loop:"@) + dump_condition(deeper(pad), c@)
            + dump_process(b@, deeper(pad)),
    }
}

/// The dump of a block: its header, then its statements in order.
pub open spec fn dump_process(b: Seq<Stmt>, pad: Seq<char>) -> Seq<char>
    decreases b, 1nat,
{
    dump_line(pad, "process:"@) + dump_stmts(b, deeper(pad))
}

/// The dumps of the statements of a block, one after the other.
pub open spec fn dump_stmts(b: Seq<Stmt>, pad: Seq<char>) -> Seq<char>
    decreases b, 0nat,
{
    if b.len() == 0 {
        seq![]
    } else {
        dump_stmt(b[0], pad) + dump_stmts(b.drop_first(), pad)
    }
}

/// The dump of a whole program.
pub open spec fn dump_program(b: Seq<Stmt>) -> Seq<char> {
    "all:\n"@ + dump_process(b, "  "@)
}

fn push_line(out: &mut String, pad: &String, text: &str)
    ensures
        final(out)@ == old(out)@ + dump_line(pad@, text@),
{
    proof {
        reveal_strlit("\n");
    }
    out.append(pad.as_str());
    out.append(text);
    out.append("\n");
    assert(old(out)@ + pad@ + text@ + "\n"@ =~= old(out)@ + dump_line(pad@, text@));
}

fn deeper_pad(pad: &String) -> (r: String)
    ensures
        r@ == deeper(pad@),
{
    proof {
        reveal_strlit("  ");
    }
    pad.clone().concat("  ")
}

fn push_expression(out: &mut String, pad: &String, text: &String)
    ensures
        final(out)@ == old(out)@ + dump_expression(pad@, text@),
{
    proof {
        reveal_strlit("expression: \"");
        reveal_strlit("\"");
    }
    let line = String::from_str("expression: \"").concat(text.as_str()).concat("\"");
    push_line(out, pad, line.as_str());
}

fn push_condition(out: &mut String, pad: &String, text: &String)
    ensures
        final(out)@ == old(out)@ + dump_condition(pad@, text@),
{
    proof {
        reveal_strlit("condition:");
    }
    push_line(out, pad, "condition:");
    let inner = deeper_pad(pad);
    push_expression(out, &inner, text);
    assert(old(out)@ + dump_line(pad@, "condition:"@) + dump_expression(inner@, text@) =~= old(out)@
        + dump_condition(pad@, text@));
}

fn push_stmt(out: &mut String, pad: &String, stmt: &Stmt)
    ensures
        final(out)@ == old(out)@ + dump_stmt(*stmt, pad@),
    decreases *stmt,
{
    proof {
        reveal_strlit("step:");
        reveal_strlit("EXIT");
        reveal_strlit("if_branch:");
        reveal_strlit("else_branch:");
        reveal_strlit("while_loop:");
    }
    let ghost o = out@;
    let inner = deeper_pad(pad);
    match stmt {
        Stmt::Step(t) => {
            push_line(out, pad, "step:");
            push_expression(out, &inner, t);
            assert(out@ =~= o + dump_stmt(*stmt, pad@));
        },
        Stmt::Exit => {
            push_line(out, pad, "step:");
            push_line(out, &inner, "EXIT");
            assert(out@ =~= o + dump_stmt(*stmt, pad@));
        },
        Stmt::If(c, t, e) => {
            push_line(out, pad, "if_branch:");
            push_condition(out, &inner, c);
            push_process(out, &inner, t);
            let ghost head = dump_line(pad@, "if_branch:"@) + dump_condition(inner@, c@) + dump_process(t@, inner@);
            assert(out@ =~= o + head);
            match e {
                Some(eb) => {
                    push_line(out, &inner, "else_branch:");
                    let inner2 = deeper_pad(&inner);
                    push_process(out, &inner2, eb);
                    assert(out@ =~= o + dump_stmt(*stmt, pad@));
                },
                None => {},
            }
        },
        Stmt::While(c, b) => {
            push_line(out, pad, "while_loop:");
            push_condition(out, &inner, c);
            push_process(out, &inner, b);
            assert(out@ =~= o + dump_stmt(*stmt, pad@));
        },
    }
}

fn push_process(out: &mut String, pad: &String, block: &Vec<Stmt>)
    ensures
        final(out)@ == old(out)@ + dump_process(block@, pad@),
    decreases block@,
{
    proof {
        reveal_strlit("process:");
    }
    let ghost o = out@;
    push_line(out, pad, "process:");
    let inner = deeper_pad(pad);
    let ghost o1 = out@;
    let mut i: usize = 0;
    assert(block@.subrange(0, block@.len() as int) =~= block@);
    while i < block.len()
        invariant
            i <= block.len(),
            out@ + dump_stmts(block@.subrange(i as int, block@.len() as int), inner@) == o1 + dump_stmts(block@, inner@),
        decreases block.len() - i,
    {
        let ghost sub = block@.subrange(i as int, block@.len() as int);
        let ghost before = out@;
        assert(sub[0] == block@[i as int]);
        assert(sub.drop_first() =~= block@.subrange(i + 1, block@.len() as int));
        push_stmt(out, &inner, &block[i]);
        assert(before + dump_stmts(sub, inner@) =~= out@ + dump_stmts(sub.drop_first(), inner@));
        i = i + 1;
    }
    assert(block@.subrange(i as int, block@.len() as int) =~= Seq::<Stmt>::empty());
    assert(out@ + dump_stmts(Seq::<Stmt>::empty(), inner@) =~= out@);
    assert(o1 + dump_stmts(block@, inner@) =~= o + dump_process(block@, pad@));
}

/// The syntax tree of a program as indented text, one node per line.
pub fn ast_dump(program: &Vec<Stmt>) -> (r: String)
    ensures
        r@ == dump_program(program@),
{
    proof {
        reveal_strlit("all:\n");
        reveal_strlit("  ");
    }
    let mut out = String::from_str("all:\n");
    let pad = String::from_str("  ");
    push_process(&mut out, &pad, program);
    out
}

} // verus!
