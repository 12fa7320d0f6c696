//! The tree that the parser builds and that every backend reads.
use vstd::prelude::*;

pub mod display;

verus! {

broadcast use vstd::std_specs::vec::group_vec_axioms, vstd::seq::group_seq_axioms;

/// A whole program: its statements in the order in which they run.
#[derive(Debug, PartialEq)]
pub struct BrainFuck(pub Stats);

/// A sequence of statements.
pub type Stats = Vec<Stat>;

/// The arithmetic applied to the active cell.
#[derive(Debug, Clone, Copy, PartialEq, Eq)]
pub enum Op {
    Add,
    Mul,
    Div,
    Mod,
}

/// One statement of a program.
#[derive(Debug, PartialEq)]
pub enum Stat {
    /// Move the cell pointer by the offset (forward when positive).
    PtrMove(i32),
    /// Apply the operation with the operand to the active cell.
    DerefOp(Op, i32),
    /// Write the active cell to standard output.
    Output,
    /// Read one byte into the active cell.
    Input,
    /// Run the body while the active cell is non-zero.
    WhileNonZero(Stats),
    /// Target-language text spliced into the output as it stands.
    Asm(String),
}

/// The mathematical value of a statement.
pub enum Instr {
    PtrMove(i32),
    DerefOp(Op, i32),
    Output,
    Input,
    WhileNonZero(Seq<Instr>),
    Asm(Seq<char>),
}

/// The value of a statement: its loop bodies and inserted text as sequences.
pub open spec fn stat_view(s: Stat) -> Instr
    decreases s,
{
    match s {
        Stat::PtrMove(n) => Instr::PtrMove(n),
        Stat::DerefOp(op, n) => Instr::DerefOp(op, n),
        Stat::Output => Instr::Output,
        Stat::Input => Instr::Input,
        Stat::WhileNonZero(body) => Instr::WhileNonZero(stats_view(body@)),
        Stat::Asm(text) => Instr::Asm(text@),
    }
}

/// The value of each statement of a sequence, in order.
pub open spec fn stats_view(q: Seq<Stat>) -> Seq<Instr>
    decreases q,
{
    if q.len() == 0 {
        Seq::empty()
    } else {
        seq![stat_view(q[0])] + stats_view(q.drop_first())
    }
}

/// Viewing a sequence with one more statement adds that statement's value.
pub proof fn lemma_stats_view_push(q: Seq<Stat>, x: Stat)
    ensures
        stats_view(q.push(x)) == stats_view(q).push(stat_view(x)),
    decreases q.len(),
{
    if q.len() > 0 {
        assert(q.push(x).drop_first() == q.drop_first().push(x));
        lemma_stats_view_push(q.drop_first(), x);
    } else {
        assert(q.push(x).drop_first() == q);
    }
}

impl View for Stat {
    type V = Instr;

    open spec fn view(&self) -> Instr {
        stat_view(*self)
    }
}

impl View for BrainFuck {
    type V = Seq<Instr>;

    open spec fn view(&self) -> Seq<Instr> {
        stats_view(self.0@)
    }
}

} // verus!
