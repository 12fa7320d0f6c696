//! What holds of the parser and the printer together.
use vstd::prelude::*;

use crate::intermediate::display::{show_program, show_stat, show_stats};
use crate::intermediate::{Instr, Op};
use crate::parser::{
    colons_at, colons_dist, hash_dist, is_space, lemma_colons_dist_bound, lemma_colons_dist_first,
    parse_spec, rest_len, stats_at, stats_from, token, ws_len,
};

verus! {

broadcast use vstd::seq::group_seq_axioms;

/// Whether inserted text can be read back from between "::" delimiters:
/// each ':' in it is followed, inside it, by a character other than ':'.
pub open spec fn raw_ok(t: Seq<char>) -> bool {
    forall|k: int| 0 <= k < t.len() && #[trigger] t[k] == ':' ==> k + 1 < t.len() && t[k + 1] != ':'
}

/// Whether a statement is spelled by bare symbols only (steps of one), and
/// all inserted text in it can be read back.
pub open spec fn bare_stat(st: Instr) -> bool
    decreases st,
{
    match st {
        Instr::PtrMove(n) => n == 1 || n == -1,
        Instr::DerefOp(op, n) => op == Op::Add && (n == 1 || n == -1),
        Instr::Output => true,
        Instr::Input => true,
        Instr::WhileNonZero(body) => bare_stats(body),
        Instr::Asm(t) => raw_ok(t),
    }
}

/// Whether every statement of the sequence is bare.
pub open spec fn bare_stats(p: Seq<Instr>) -> bool
    decreases p,
{
    p.len() == 0 || (bare_stat(p[0]) && bare_stats(p.drop_first()))
}

/// Whether `w` consists of whole blanks and comments only.
pub open spec fn blank(w: Seq<char>) -> bool {
    ws_len(w, 0) == w.len()
}

/// The source text of a statement with `w` just inside each bracket and
/// between the statements of each loop body.
pub open spec fn spaced_stat(st: Instr, w: Seq<char>) -> Seq<char>
    decreases st,
{
    match st {
        Instr::WhileNonZero(body) => "["@ + spaced_stats(body, w) + "]"@,
        _ => show_stat(st),
    }
}

/// The source text of the statements with `w` before each of them, after
/// the last, and inside each bracket.
pub open spec fn spaced_stats(p: Seq<Instr>, w: Seq<char>) -> Seq<char>
    decreases p,
{
    if p.len() == 0 {
        w
    } else {
        w + spaced_stat(p[0], w) + spaced_stats(p.drop_first(), w)
    }
}

/// Whether reading stops at `e` without taking anything.
pub open spec fn stops(s: Seq<char>, e: int) -> bool {
    stats_at(s, e).0.len() == 0 && stats_at(s, e).1 == 0
}

proof fn lemma_split(s: Seq<char>, i: int, x: Seq<char>, y: Seq<char>)
    requires
        0 <= i,
        i + x.len() + y.len() <= s.len(),
        s.subrange(i, i + x.len() + y.len()) == x + y,
    ensures
        s.subrange(i, i + x.len()) == x,
        s.subrange(i + x.len(), i + x.len() + y.len()) == y,
{
    let l = x.len() + y.len();
    assert forall|k: int| 0 <= k < x.len() implies s.subrange(i, i + x.len())[k] == x[k] by {
        assert(s.subrange(i, i + l)[k] == (x + y)[k]);
    }
    assert forall|k: int| 0 <= k < y.len() implies s.subrange(i + x.len(), i + l)[k] == y[k] by {
        assert(s.subrange(i, i + l)[x.len() + k] == (x + y)[x.len() + k]);
    }
    assert(s.subrange(i, i + x.len()) =~= x);
    assert(s.subrange(i + x.len(), i + l) =~= y);
}

proof fn lemma_hash_local(w: Seq<char>, s: Seq<char>, i: int, x: int)
    requires
        0 <= i,
        0 <= x,
        i + w.len() <= s.len(),
        s.subrange(i, i + w.len()) == w,
        hash_dist(w, x) is Some,
    ensures
        hash_dist(s, i + x) == hash_dist(w, x),
    decreases w.len() - x,
{
    assert(s[i + x] == s.subrange(i, i + w.len())[x]);
    if w[x] != '#' {
        lemma_hash_local(w, s, i, x + 1);
    }
}

proof fn lemma_ws_local(w: Seq<char>, s: Seq<char>, i: int, j: int)
    requires
        0 <= i,
        0 <= j <= w.len(),
        i + w.len() <= s.len(),
        s.subrange(i, i + w.len()) == w,
        ws_len(w, j) == w.len() - j,
    ensures
        ws_len(s, i + j) == (w.len() - j) + ws_len(s, i + w.len()),
    decreases w.len() - j,
{
    if j < w.len() {
        assert(s[i + j] == s.subrange(i, i + w.len())[j]);
        if is_space(w[j]) {
            lemma_ws_local(w, s, i, j + 1);
        } else {
            crate::parser::lemma_hash_dist_bound(w, j + 1);
            lemma_hash_local(w, s, i, j + 1);
            let d = hash_dist(w, j + 1)->0;
            lemma_ws_local(w, s, i, j + 2 + d);
        }
    }
}

proof fn lemma_colons_local(t: Seq<char>, s: Seq<char>, j: int, k: int)
    requires
        raw_ok(t),
        0 <= j,
        0 <= k <= t.len(),
        j + t.len() + 2 <= s.len(),
        s.subrange(j, j + t.len() + 2) == t + seq![':', ':'],
    ensures
        colons_dist(s, j + k) == Some((t.len() - k) as nat),
    decreases t.len() - k,
{
    let u = t + seq![':', ':'];
    assert(s[j + k] == s.subrange(j, j + t.len() + 2)[k]);
    assert(s[j + k + 1] == s.subrange(j, j + t.len() + 2)[k + 1]);
    assert(u[k] == s[j + k]);
    assert(u[k + 1] == s[j + k + 1]);
    if k < t.len() {
        assert(!colons_at(s, j + k));
        lemma_colons_local(t, s, j, k + 1);
    } else {
        assert(colons_at(s, j + k));
    }
}

/// Blank runs inserted around bare statements do not change what is read:
/// the statements come back, and reading takes all of the text and the
/// blanks that follow it.
proof fn lemma_spaced(p: Seq<Instr>, w: Seq<char>, s: Seq<char>, i: int)
    requires
        bare_stats(p),
        blank(w),
        0 <= i,
        i + spaced_stats(p, w).len() <= s.len(),
        s.subrange(i, i + spaced_stats(p, w).len()) == spaced_stats(p, w),
        stops(
            s,
            i + spaced_stats(p, w).len() + ws_len(s, i + spaced_stats(p, w).len()),
        ),
    ensures
        stats_from(s, i) == (
        p,
        (spaced_stats(p, w).len() + ws_len(s, i + spaced_stats(p, w).len())) as nat,
    ),
    decreases p,
{
    let l = spaced_stats(p, w).len();
    let e = i + l;
    if p.len() == 0 {
        lemma_ws_local(w, s, i, 0);
    } else {
        let x = p[0];
        let rest = p.drop_first();
        let sx = spaced_stat(x, w);
        let sr = spaced_stats(rest, w);
        assert(spaced_stats(p, w) == w + (sx + sr));
        lemma_split(s, i, w, sx + sr);
        lemma_split(s, i + w.len(), sx, sr);
        lemma_ws_local(w, s, i, 0);
        let a = i + w.len();
        assert(p == seq![x] + rest);
        reveal_strlit("[");
        reveal_strlit("]");
        reveal_strlit("::");
        reveal_strlit(">");
        reveal_strlit("<");
        reveal_strlit("+");
        reveal_strlit("-");
        reveal_strlit(",");
        reveal_strlit(".");
        assert(bare_stat(x));
        match x {
            Instr::WhileNonZero(b) => {
                let sb = spaced_stats(b, w);
                assert(sx == seq!['['] + (sb + seq![']']));
                assert(s[a] == s.subrange(a, a + sx.len())[0]);
                lemma_split(s, a, seq!['['], sb + seq![']']);
                lemma_split(s, a + 1, sb, seq![']']);
                let k = a + 1 + sb.len();
                assert(s[k] == s.subrange(k, k + 1)[0]);
                assert(ws_len(s, a) == 0);
                assert(ws_len(s, k) == 0);
                assert(stops(s, k));
                assert(decreases_to!(p => p[0]));
                assert(decreases_to!(p[0] => p[0]->WhileNonZero_0));
                lemma_spaced(b, w, s, a + 1);
                lemma_spaced(rest, w, s, k + 1);
                assert(stats_at(s, a).0 == seq![x] + rest);
            },
            Instr::Asm(t) => {
                assert(sx == seq![':', ':'] + (t + seq![':', ':']));
                assert(s[a] == s.subrange(a, a + sx.len())[0]);
                lemma_split(s, a, seq![':', ':'], t + seq![':', ':']);
                lemma_split(s, a + 2, t, seq![':', ':']);
                assert(s[a + 1] == s.subrange(a, a + 2)[1]);
                assert(ws_len(s, a) == 0);
                lemma_colons_local(t, s, a + 2, 0);
                lemma_spaced(rest, w, s, a + 4 + t.len());
                assert(stats_at(s, a).0 == seq![x] + rest);
            },
            _ => {
                assert(sx.len() == 1);
                assert(s[a] == s.subrange(a, a + sx.len())[0]);
                assert(token(s[a]) == Some(x));
                assert(ws_len(s, a) == 0);
                lemma_spaced(rest, w, s, a + 1);
                assert(stats_at(s, a).0 == seq![x] + rest);
            },
        }
    }
}

proof fn lemma_show_spaced(p: Seq<Instr>)
    ensures
        show_stats(p) == spaced_stats(p, Seq::empty()),
    decreases p,
{
    if p.len() > 0 {
        let x = p[0];
        lemma_show_spaced(p.drop_first());
        if let Instr::WhileNonZero(b) = x {
            assert(decreases_to!(p => p[0]));
            assert(decreases_to!(p[0] => p[0]->WhileNonZero_0));
            lemma_show_spaced(b);
        }
        assert(spaced_stat(x, Seq::empty()) == show_stat(x));
        assert(spaced_stats(p, Seq::empty()) == Seq::<char>::empty() + spaced_stat(x, Seq::empty())
            + spaced_stats(p.drop_first(), Seq::empty()));
    }
}

/// Printing a program spelled with bare symbols (steps of one, inserted
/// text that holds no "::" and does not end in ':') and parsing the text
/// gives the same program back.
pub proof fn lemma_round_trip(p: Seq<Instr>)
    requires
        bare_stats(p),
    ensures
        parse_spec(show_program(p)) == Ok::<Seq<Instr>, Seq<char>>(p),
{
    lemma_show_spaced(p);
    let e = Seq::<char>::empty();
    let s = show_program(p);
    let l = show_stats(p).len() as int;
    reveal_strlit("\n");
    assert(s == spaced_stats(p, e) + seq!['\n']);
    assert(s.subrange(0, s.len() as int) == s);
    lemma_split(s, 0, spaced_stats(p, e), seq!['\n']);
    assert(ws_len(s, l + 1) == 0);
    assert(ws_len(s, l) == 1);
    assert(stops(s, l + 1));
    assert(blank(e));
    lemma_spaced(p, e, s, 0);
}

/// Inserting the same run of blanks and comments before every statement,
/// after the last one and just inside every bracket does not change what a
/// program spelled with bare symbols parses to.
pub proof fn lemma_blank_insertion(p: Seq<Instr>, w: Seq<char>)
    requires
        bare_stats(p),
        blank(w),
    ensures
        parse_spec(spaced_stats(p, w)) == parse_spec(show_program(p)),
        parse_spec(spaced_stats(p, w)) == Ok::<Seq<Instr>, Seq<char>>(p),
{
    let s = spaced_stats(p, w);
    assert(s.subrange(0, s.len() as int) == s);
    assert(ws_len(s, s.len() as int) == 0);
    assert(stops(s, s.len() as int));
    lemma_spaced(p, w, s, 0);
    lemma_round_trip(p);
}

proof fn lemma_found_text_ok(s: Seq<char>, j: int)
    requires
        colons_dist(s, j) is Some,
    ensures
        raw_ok(s.subrange(j, j + colons_dist(s, j)->0)),
{
    lemma_colons_dist_bound(s, j);
    lemma_colons_dist_first(s, j);
    let d = colons_dist(s, j)->0;
    let t = s.subrange(j, j + d);
    assert forall|k: int| 0 <= k < t.len() && #[trigger] t[k] == ':' implies k + 1 < t.len()
        && t[k + 1] != ':' by {
        if k + 1 == t.len() {
            assert(colons_at(s, j + k));
        } else if t[k + 1] == ':' {
            assert(colons_at(s, j + k));
        }
    }
}

proof fn lemma_read_bare_from(s: Seq<char>, i: int)
    ensures
        bare_stats(stats_from(s, i).0),
    decreases rest_len(s, i), 1nat,
{
    lemma_read_bare_at(s, i + ws_len(s, i));
}

proof fn lemma_read_bare_at(s: Seq<char>, a: int)
    ensures
        bare_stats(stats_at(s, a).0),
    decreases rest_len(s, a), 0nat,
{
    if 0 <= a < s.len() {
        let r = stats_at(s, a).0;
        if token(s[a]) is Some {
            lemma_read_bare_from(s, a + 1);
            assert(r.drop_first() == stats_from(s, a + 1).0);
            assert(bare_stat(r[0]));
        } else if colons_at(s, a) {
            if let Some(d) = colons_dist(s, a + 2) {
                lemma_found_text_ok(s, a + 2);
                lemma_read_bare_from(s, a + 4 + d);
                assert(r.drop_first() == stats_from(s, a + 4 + d).0);
                assert(bare_stat(r[0]));
            }
        } else if s[a] == '[' {
            let b = stats_from(s, a + 1);
            let k = a + 1 + b.1;
            lemma_read_bare_from(s, a + 1);
            if 0 <= k < s.len() && s[k] == ']' {
                lemma_read_bare_from(s, k + 1);
                assert(r.drop_first() == stats_from(s, k + 1).0);
                assert(bare_stat(r[0]));
            }
        }
    }
}

/// Every program that parsing yields is spelled with bare symbols, so
/// printing it and parsing the text gives the same program back.
pub proof fn lemma_reparse(s: Seq<char>)
    ensures
        parse_spec(s) matches Ok(p) ==> bare_stats(p) && parse_spec(show_program(p)) == Ok::<
            Seq<Instr>,
            Seq<char>,
        >(p),
{
    lemma_read_bare_from(s, 0);
    if let Ok(p) = parse_spec(s) {
        lemma_round_trip(p);
    }
}

} // verus!
