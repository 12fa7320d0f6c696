//! Translation to C.
use vstd::prelude::*;

use crate::intermediate::display::op_text;
use crate::intermediate::{stat_view, stats_view, BrainFuck, Instr, Stat};
use crate::text::{chars_of, int_text, nat_text, push_char, push_int, push_nat};

verus! {

broadcast use vstd::std_specs::vec::group_vec_axioms, vstd::seq::group_seq_axioms;

/// Inserted text with the indentation put after each line break.
pub open spec fn reindent(t: Seq<char>, ind: Seq<char>) -> Seq<char>
    decreases t.len(),
{
    if t.len() == 0 {
        Seq::empty()
    } else {
        reindent(t.drop_last(), ind) + if t.last() == '\n' {
            seq!['\n'] + ind
        } else {
            seq![t.last()]
        }
    }
}

/// The C lines for one statement at indentation `ind`.
pub open spec fn c_stat(st: Instr, ind: Seq<char>) -> Seq<char>
    decreases st,
{
    match st {
        Instr::PtrMove(n) => if n < 0 {
            ind + "ptr -= "@ + nat_text((-n) as nat) + ";\n"@
        } else if n > 0 {
            ind + "ptr += "@ + nat_text(n as nat) + ";\n"@
        } else {
            ind + "/* redundant ptr move*/\n"@
        },
        Instr::DerefOp(op, n) => ind + "*ptr "@ + op_text(op) + "= "@ + int_text(n as int) + ";\n"@,
        Instr::Output => ind + "putchar(*ptr);\n"@,
        Instr::Input => ind + "*ptr = getchar();\n"@,
        Instr::WhileNonZero(body) => ind + "while(*ptr) {\n"@ + c_stats(body, ind.push('\t')) + ind
            + "}\n"@,
        Instr::Asm(t) => ind + "/* Start of inserted section*/\n"@ + ind + reindent(t, ind)
            + "/* End of inserted section */\n"@,
    }
}

/// The C lines for a sequence of statements at indentation `ind`.
pub open spec fn c_stats(p: Seq<Instr>, ind: Seq<char>) -> Seq<char>
    decreases p,
{
    if p.len() == 0 {
        Seq::empty()
    } else {
        c_stat(p[0], ind) + c_stats(p.drop_first(), ind)
    }
}

/// Where the pointer starts: the tape itself, or `pre` cells into it.
pub open spec fn c_start(pre: nat) -> Seq<char> {
    if pre == 0 {
        Seq::empty()
    } else {
        " + "@ + nat_text(pre)
    }
}

/// The whole C program for `p` on a tape of `pre + post` cells whose
/// pointer starts `pre` cells from its beginning.
pub open spec fn c_program(p: Seq<Instr>, pre: nat, post: nat) -> Seq<char> {
    "#include <stdio.h>\nint main(int argc, char **argv) {\n\tchar cells["@ + nat_text(pre + post)
        + "] = {0};\n\tchar* ptr = cells"@ + c_start(pre) + ";\n"@ + c_stats(p, seq!['\t'])
        + "}\n"@
}

proof fn lemma_c_stats_push(p: Seq<Instr>, x: Instr, ind: Seq<char>)
    ensures
        c_stats(p.push(x), ind) == c_stats(p, ind) + c_stat(x, ind),
    decreases p.len(),
{
    if p.len() == 0 {
        assert(p.push(x).drop_first() == p);
        assert(c_stats(p.push(x), ind) == c_stat(x, ind) + c_stats(p, ind));
    } else {
        assert(p.push(x).drop_first() == p.drop_first().push(x));
        lemma_c_stats_push(p.drop_first(), x, ind);
    }
}

/// Appends the inserted text, each line break followed by the indentation.
fn write_insert(raw: &String, indent: &String, out: &mut String)
    ensures
        final(out)@ == old(out)@ + reindent(raw@, indent@),
{
    let t = chars_of(raw.as_str());
    let mut i: usize = 0;
    while i < t.len()
        invariant
            i <= t.len(),
            t@ == raw@,
            out@ == old(out)@ + reindent(t@.subrange(0, i as int), indent@),
        decreases t.len() - i,
    {
        let c = t[i];
        push_char(out, c);
        if c == '\n' {
            out.append(indent.as_str());
        }
        assert(t@.subrange(0, i + 1).drop_last() == t@.subrange(0, i as int));
        i += 1;
    }
    assert(t@.subrange(0, t.len() as int) == t@);
}

/// Appends the C lines for one statement at indentation `indent`.
fn transpile_stat(stat: &Stat, indent: &String, out: &mut String)
    ensures
        final(out)@ == old(out)@ + c_stat(stat_view(*stat), indent@),
    decreases stat,
{
    out.append(indent.as_str());
    match stat {
        Stat::PtrMove(n) => {
            if *n < 0 {
                out.append("ptr -= ");
                push_nat(out, (0i64 - *n as i64) as u64);
            } else if *n > 0 {
                out.append("ptr += ");
                push_nat(out, *n as u64);
            } else {
                out.append("/* redundant ptr move*/\n");
            }
            if *n != 0 {
                out.append(";\n");
            }
        },
        Stat::DerefOp(op, n) => {
            out.append("*ptr ");
            op.write(out);
            out.append("= ");
            push_int(out, *n);
            out.append(";\n");
        },
        Stat::Output => {
            out.append("putchar(*ptr);\n");
        },
        Stat::Input => {
            out.append("*ptr = getchar();\n");
        },
        Stat::WhileNonZero(body) => {
            out.append("while(*ptr) {\n");
            let mut inner = indent.clone();
            inner.append("\t");
            proof {
                reveal_strlit("\t");
            }
            let ghost base = out@;
            let mut j: usize = 0;
            while j < body.len()
                invariant
                    j <= body.len(),
                    inner@ == indent@.push('\t'),
                    *stat == Stat::WhileNonZero(*body),
                    out@ == base + c_stats(stats_view(body@.subrange(0, j as int)), inner@),
                decreases body.len() - j,
            {
                proof {
                    assert(body@.subrange(0, j + 1) == body@.subrange(0, j as int).push(body@[j as int]));
                    crate::intermediate::lemma_stats_view_push(body@.subrange(0, j as int), body@[j as int]);
                    lemma_c_stats_push(stats_view(body@.subrange(0, j as int)), stat_view(body@[j as int]), inner@);
                }
                proof {
                    assert(decreases_to!(*stat => stat->WhileNonZero_0));
                    assert(decreases_to!(*body => body[j as int]));
                    assert(decreases_to!(*stat => body[j as int]));
                }
                transpile_stat(&body[j], &inner, out);
                j += 1;
            }
            assert(body@.subrange(0, body.len() as int) == body@);
            out.append(indent.as_str());
            out.append("}\n");
        },
        Stat::Asm(raw) => {
            out.append("/* Start of inserted section*/\n");
            out.append(indent.as_str());
            write_insert(raw, indent, out);
            out.append("/* End of inserted section */\n");
        },
    }
}

/// Translates the program to C, on a tape of `pre + post` byte cells whose
/// pointer starts `pre` cells from its beginning.
pub fn compile(bf: &BrainFuck, pre: u32, post: u32) -> (r: String)
    ensures
        r@ == c_program(bf@, pre as nat, post as nat),
{
    let mut out = String::new();
    out.append("#include <stdio.h>\nint main(int argc, char **argv) {\n\tchar cells[");
    push_nat(&mut out, pre as u64 + post as u64);
    out.append("] = {0};\n\tchar* ptr = cells");
    if pre != 0 {
        out.append(" + ");
        push_nat(&mut out, pre as u64);
    }
    out.append(";\n");
    let mut indent = String::new();
    indent.append("\t");
    proof {
        reveal_strlit("\t");
    }
    let stats = &bf.0;
    let ghost base = out@;
    let mut j: usize = 0;
    while j < stats.len()
        invariant
            j <= stats.len(),
            indent@ == seq!['\t'],
            out@ == base + c_stats(stats_view(stats@.subrange(0, j as int)), indent@),
        decreases stats.len() - j,
    {
        proof {
            assert(stats@.subrange(0, j + 1) == stats@.subrange(0, j as int).push(stats@[j as int]));
            crate::intermediate::lemma_stats_view_push(stats@.subrange(0, j as int), stats@[j as int]);
            lemma_c_stats_push(stats_view(stats@.subrange(0, j as int)), stat_view(stats@[j as int]), indent@);
        }
        transpile_stat(&stats[j], &indent, &mut out);
        j += 1;
    }
    assert(stats@.subrange(0, stats.len() as int) == stats@);
    out.append("}\n");
    out
}

} // verus!
