//! Rendering of the tree back to source syntax.
use vstd::prelude::*;

use crate::intermediate::{stat_view, stats_view, BrainFuck, Instr, Op, Stat};
use crate::text::{int_text, push_int};

verus! {

broadcast use vstd::std_specs::vec::group_vec_axioms, vstd::seq::group_seq_axioms;

/// The symbol of an operation.
pub open spec fn op_text(op: Op) -> Seq<char> {
    match op {
        Op::Add => "+"@,
        Op::Mul => "*"@,
        Op::Div => "/"@,
        Op::Mod => "%"@,
    }
}

/// The source text of one statement: bare symbols for steps of one, a
/// parenthesised signed count otherwise (a move by zero is `>(0)`), brackets around loop bodies and
/// "::" around inserted text.
pub open spec fn show_stat(st: Instr) -> Seq<char>
    decreases st,
{
    match st {
        Instr::PtrMove(n) => if n == 1 {
            ">"@
        } else if n == -1 {
            "<"@
        } else if n < 0 {
            "<("@ + int_text(n as int) + ")"@
        } else {
            ">("@ + int_text(n as int) + ")"@
        },
        Instr::DerefOp(op, n) => if op == Op::Add && n == 1 {
            "+"@
        } else if op == Op::Add && n == -1 {
            "-"@
        } else {
            op_text(op) + "("@ + int_text(n as int) + ")"@
        },
        Instr::Output => "."@,
        Instr::Input => ","@,
        Instr::WhileNonZero(body) => "["@ + show_stats(body) + "]"@,
        Instr::Asm(t) => "::"@ + t + "::"@,
    }
}

/// The source text of a sequence of statements, one after another.
pub open spec fn show_stats(p: Seq<Instr>) -> Seq<char>
    decreases p,
{
    if p.len() == 0 {
        Seq::empty()
    } else {
        show_stat(p[0]) + show_stats(p.drop_first())
    }
}

/// The source text of a whole program, ended by a line break.
pub open spec fn show_program(p: Seq<Instr>) -> Seq<char> {
    show_stats(p) + "\n"@
}

proof fn lemma_show_stats_push(p: Seq<Instr>, x: Instr)
    ensures
        show_stats(p.push(x)) == show_stats(p) + show_stat(x),
    decreases p.len(),
{
    if p.len() == 0 {
        assert(p.push(x).drop_first() == p);
        assert(show_stats(p.push(x)) == show_stat(x) + show_stats(p));
    } else {
        assert(p.push(x).drop_first() == p.drop_first().push(x));
        lemma_show_stats_push(p.drop_first(), x);
    }
}

/// Appends the source text of each statement of `stats`.
fn write_stats(stats: &Vec<Stat>, out: &mut String)
    ensures
        final(out)@ == old(out)@ + show_stats(stats_view(stats@)),
    decreases stats, 1nat,
{
    let mut j: usize = 0;
    while j < stats.len()
        invariant
            j <= stats.len(),
            out@ == old(out)@ + show_stats(stats_view(stats@.subrange(0, j as int))),
        decreases stats.len() - j,
    {
        proof {
            assert(stats@.subrange(0, j + 1) == stats@.subrange(0, j as int).push(stats@[j as int]));
            crate::intermediate::lemma_stats_view_push(stats@.subrange(0, j as int), stats@[j as int]);
            lemma_show_stats_push(stats_view(stats@.subrange(0, j as int)), stat_view(stats@[j as int]));
            assert(decreases_to!(*stats => stats[j as int]));
        }
        write_stat(&stats[j], out);
        j += 1;
    }
    assert(stats@.subrange(0, stats.len() as int) == stats@);
}

/// Appends the source text of one statement.
fn write_stat(stat: &Stat, out: &mut String)
    ensures
        final(out)@ == old(out)@ + show_stat(stat_view(*stat)),
    decreases stat, 0nat,
{
    match stat {
        Stat::PtrMove(n) => {
            if *n == 1 {
                out.append(">");
            } else if *n == -1 {
                out.append("<");
            } else {
                if *n < 0 {
                    out.append("<(");
                } else {
                    out.append(">(");
                }
                push_int(out, *n);
                out.append(")");
            }
        },
        Stat::DerefOp(op, n) => {
            let add = matches!(op, Op::Add);
            if add && *n == 1 {
                out.append("+");
            } else if add && *n == -1 {
                out.append("-");
            } else {
                op.write(out);
                out.append("(");
                push_int(out, *n);
                out.append(")");
            }
        },
        Stat::Output => {
            out.append(".");
        },
        Stat::Input => {
            out.append(",");
        },
        Stat::WhileNonZero(body) => {
            out.append("[");
            proof {
                assert(decreases_to!(*stat => stat->WhileNonZero_0));
            }
            write_stats(body, out);
            out.append("]");
        },
        Stat::Asm(text) => {
            out.append("::");
            out.append(text.as_str());
            out.append("::");
        },
    }
}

impl Op {
    /// Appends the symbol of the operation.
    pub(crate) fn write(&self, out: &mut String)
        ensures
            final(out)@ == old(out)@ + op_text(*self),
    {
        match self {
            Op::Add => out.append("+"),
            Op::Mul => out.append("*"),
            Op::Div => out.append("/"),
            Op::Mod => out.append("%"),
        }
    }

    /// The symbol of the operation.
    pub fn to_string(&self) -> (r: String)
        ensures
            r@ == op_text(*self),
    {
        let mut out = String::new();
        self.write(&mut out);
        out
    }
}

impl Stat {
    /// The source text of the statement.
    pub fn to_string(&self) -> (r: String)
        ensures
            r@ == show_stat(self@),
    {
        let mut out = String::new();
        write_stat(self, &mut out);
        out
    }
}

impl BrainFuck {
    /// The source text of the program, ended by a line break.
    pub fn to_string(&self) -> (r: String)
        ensures
            r@ == show_program(self@),
    {
        let mut out = String::new();
        write_stats(&self.0, &mut out);
        out.append("\n");
        out
    }
}

} // verus!
