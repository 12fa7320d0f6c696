//! The parser from source text to the statement tree.
//!
//! Grammar, over characters:
//! ```text
//! Program  ::= Blank* (Stat Blank*)*
//! Stat     ::= '>' | '<' | '+' | '-' | ',' | '.' | While | Insert
//! While    ::= '[' Program ']'
//! Insert   ::= '::' Text '::'        Text holds no "::"
//! Blank    ::= ' ' | '\t' | '\r' | '\n' | '#' Text '#'   Text holds no '#'
//! ```
//! `>` and `<` move the pointer by +1 and -1, `+` and `-` add +1 and -1 to
//! the active cell. An insert ends at the first "::" after its opening, a
//! comment at the first '#' after its opening. Reading a loop body
//! recurses once per level of nesting.
use vstd::prelude::*;

use crate::intermediate::{lemma_stats_view_push, stat_view, stats_view, BrainFuck, Instr, Op, Stat, Stats};
use crate::text::{chars_of, text_between};
use vstd::string::StrSliceExecFns;

verus! {

broadcast use vstd::std_specs::vec::group_vec_axioms, vstd::seq::group_seq_axioms;

/// How many characters are left from `i` on.
pub open spec fn rest_len(s: Seq<char>, i: int) -> nat {
    if i < s.len() {
        (s.len() - i) as nat
    } else {
        0
    }
}

/// The characters that separate statements without meaning anything.
pub open spec fn is_space(c: char) -> bool {
    c == ' ' || c == '\t' || c == '\r' || c == '\n'
}

/// The distance from `j` to the first '#' at or after it, if there is one.
pub open spec fn hash_dist(s: Seq<char>, j: int) -> Option<nat>
    decreases s.len() - j,
{
    if j < 0 || j >= s.len() {
        None
    } else if s[j] == '#' {
        Some(0)
    } else {
        match hash_dist(s, j + 1) {
            Some(d) => Some(d + 1),
            None => None,
        }
    }
}

/// Whether "::" starts at `j`.
pub open spec fn colons_at(s: Seq<char>, j: int) -> bool {
    0 <= j && j + 1 < s.len() && s[j] == ':' && s[j + 1] == ':'
}

/// The distance from `j` to the first "::" at or after it, if there is one.
pub open spec fn colons_dist(s: Seq<char>, j: int) -> Option<nat>
    decreases s.len() - j,
{
    if j < 0 || j + 1 >= s.len() {
        None
    } else if colons_at(s, j) {
        Some(0)
    } else {
        match colons_dist(s, j + 1) {
            Some(d) => Some(d + 1),
            None => None,
        }
    }
}

/// How many characters of blanks and whole comments start at `i`.
pub open spec fn ws_len(s: Seq<char>, i: int) -> nat
    decreases rest_len(s, i),
{
    if i < 0 || i >= s.len() {
        0
    } else if is_space(s[i]) {
        1 + ws_len(s, i + 1)
    } else if s[i] == '#' {
        match hash_dist(s, i + 1) {
            Some(d) => 2 + d + ws_len(s, i + 2 + d),
            None => 0,
        }
    } else {
        0
    }
}

/// The statement that a one-character token stands for.
pub open spec fn token(c: char) -> Option<Instr> {
    if c == '>' {
        Some(Instr::PtrMove(1i32))
    } else if c == '<' {
        Some(Instr::PtrMove(-1i32))
    } else if c == '+' {
        Some(Instr::DerefOp(Op::Add, 1i32))
    } else if c == '-' {
        Some(Instr::DerefOp(Op::Add, -1i32))
    } else if c == ',' {
        Some(Instr::Input)
    } else if c == '.' {
        Some(Instr::Output)
    } else {
        None
    }
}

/// The statements read from `i` on, blanks first, and how many characters
/// they take, with the blanks between and after them.
pub open spec fn stats_from(s: Seq<char>, i: int) -> (Seq<Instr>, nat)
    decreases rest_len(s, i), 1nat,
{
    let w = ws_len(s, i);
    let r = stats_at(s, i + w);
    (r.0, w + r.1)
}

/// The statements read from `a`, where the first one must start, and how
/// many characters they take. Reading stops, and takes nothing more, where
/// no statement starts or a loop or an insert is left open.
pub open spec fn stats_at(s: Seq<char>, a: int) -> (Seq<Instr>, nat)
    decreases rest_len(s, a), 0nat,
{
    if a < 0 || a >= s.len() {
        (Seq::empty(), 0)
    } else if token(s[a]) is Some {
        let r = stats_from(s, a + 1);
        (seq![token(s[a])->0] + r.0, 1 + r.1)
    } else if colons_at(s, a) {
        match colons_dist(s, a + 2) {
            Some(d) => {
                let r = stats_from(s, a + 4 + d);
                (seq![Instr::Asm(s.subrange(a + 2, a + 2 + d))] + r.0, 4 + d + r.1)
            },
            None => (Seq::empty(), 0),
        }
    } else if s[a] == '[' {
        let b = stats_from(s, a + 1);
        let k = a + 1 + b.1;
        if 0 <= k < s.len() && s[k] == ']' {
            let r = stats_from(s, k + 1);
            (seq![Instr::WhileNonZero(b.0)] + r.0, 2 + b.1 + r.1)
        } else {
            (Seq::empty(), 0)
        }
    } else {
        (Seq::empty(), 0)
    }
}

/// The outcome of parsing a whole text: the program, or the text that is
/// left from where no statement could be read.
pub open spec fn parse_spec(s: Seq<char>) -> Result<Seq<Instr>, Seq<char>> {
    let r = stats_from(s, 0);
    if r.1 >= s.len() {
        Ok(r.0)
    } else {
        Err(s.subrange(r.1 as int, s.len() as int))
    }
}

/// A distance found by executable code, as a natural number.
pub open spec fn as_dist(r: Option<usize>) -> Option<nat> {
    match r {
        Some(d) => Some(d as nat),
        None => None,
    }
}

/// Adds `e` to a distance that was found.
pub open spec fn shift(o: Option<nat>, e: nat) -> Option<nat> {
    match o {
        Some(d) => Some(d + e),
        None => None,
    }
}

pub(crate) proof fn lemma_hash_dist_bound(s: Seq<char>, j: int)
    ensures
        hash_dist(s, j) matches Some(d) ==> 0 <= j && j + d < s.len() && s[j + d] == '#',
    decreases s.len() - j,
{
    if 0 <= j < s.len() && s[j] != '#' {
        lemma_hash_dist_bound(s, j + 1);
    }
}

pub(crate) proof fn lemma_colons_dist_bound(s: Seq<char>, j: int)
    ensures
        colons_dist(s, j) matches Some(d) ==> 0 <= j && colons_at(s, j + d),
    decreases s.len() - j,
{
    if 0 <= j && j + 1 < s.len() && !colons_at(s, j) {
        lemma_colons_dist_bound(s, j + 1);
    }
}

pub(crate) proof fn lemma_colons_dist_first(s: Seq<char>, j: int)
    ensures
        colons_dist(s, j) matches Some(d) ==> forall|m: int|
            j <= m < j + d ==> !#[trigger] colons_at(s, m),
    decreases s.len() - j,
{
    if 0 <= j && j + 1 < s.len() && !colons_at(s, j) {
        lemma_colons_dist_first(s, j + 1);
        if let Some(d) = colons_dist(s, j) {
            assert forall|m: int| j <= m < j + d implies !#[trigger] colons_at(s, m) by {
                if m > j {
                    assert(j + 1 <= m < (j + 1) + (d - 1));
                }
            }
        }
    }
}

proof fn lemma_ws_len_bound(s: Seq<char>, i: int)
    requires
        0 <= i <= s.len(),
    ensures
        i + ws_len(s, i) <= s.len(),
    decreases rest_len(s, i),
{
    if i < s.len() {
        if is_space(s[i]) {
            lemma_ws_len_bound(s, i + 1);
        } else if s[i] == '#' {
            lemma_hash_dist_bound(s, i + 1);
            if let Some(d) = hash_dist(s, i + 1) {
                lemma_ws_len_bound(s, i + 2 + d);
            }
        }
    }
}

proof fn lemma_stats_from_bound(s: Seq<char>, i: int)
    requires
        0 <= i <= s.len(),
    ensures
        i + stats_from(s, i).1 <= s.len(),
    decreases rest_len(s, i), 1nat,
{
    lemma_ws_len_bound(s, i);
    lemma_stats_at_bound(s, i + ws_len(s, i));
}

proof fn lemma_stats_at_bound(s: Seq<char>, a: int)
    requires
        0 <= a <= s.len(),
    ensures
        a + stats_at(s, a).1 <= s.len(),
    decreases rest_len(s, a), 0nat,
{
    if a < s.len() {
        if token(s[a]) is Some {
            lemma_stats_from_bound(s, a + 1);
        } else if colons_at(s, a) {
            lemma_colons_dist_bound(s, a + 2);
            if let Some(d) = colons_dist(s, a + 2) {
                lemma_stats_from_bound(s, a + 4 + d);
            }
        } else if s[a] == '[' {
            lemma_stats_from_bound(s, a + 1);
            let k = a + 1 + stats_from(s, a + 1).1;
            if 0 <= k < s.len() && s[k] == ']' {
                lemma_stats_from_bound(s, k + 1);
            }
        }
    }
}

/// The distance from `j` to the first '#' at or after it.
fn find_hash(s: &Vec<char>, j: usize) -> (r: Option<usize>)
    requires
        j <= s.len(),
    ensures
        hash_dist(s@, j as int) == as_dist(r),
        r matches Some(d) ==> j + d < s.len(),
{
    let mut k = j;
    while k < s.len()
        invariant
            j <= k <= s.len(),
            hash_dist(s@, j as int) == shift(hash_dist(s@, k as int), (k - j) as nat),
        decreases s.len() - k,
    {
        if s[k] == '#' {
            return Some(k - j);
        }
        k += 1;
    }
    None
}

/// The distance from `j` to the first "::" at or after it.
fn find_colons(s: &Vec<char>, j: usize) -> (r: Option<usize>)
    requires
        j <= s.len(),
    ensures
        colons_dist(s@, j as int) == as_dist(r),
        r matches Some(d) ==> j + d + 1 < s.len(),
{
    let mut k = j;
    while s.len() - k > 1
        invariant
            j <= k <= s.len(),
            colons_dist(s@, j as int) == shift(colons_dist(s@, k as int), (k - j) as nat),
        decreases s.len() - k,
    {
        if s[k] == ':' && s[k + 1] == ':' {
            return Some(k - j);
        }
        k += 1;
    }
    None
}

/// The position after the blanks and comments that start at `i`.
fn ws_end(s: &Vec<char>, i: usize) -> (r: usize)
    requires
        i <= s.len(),
    ensures
        r == i + ws_len(s@, i as int),
        r <= s.len(),
{
    proof {
        lemma_ws_len_bound(s@, i as int);
    }
    let mut pos = i;
    while pos < s.len()
        invariant
            i <= pos <= s.len(),
            i + ws_len(s@, i as int) == pos + ws_len(s@, pos as int),
        decreases s.len() - pos,
    {
        let c = s[pos];
        if c == ' ' || c == '\t' || c == '\r' || c == '\n' {
            pos += 1;
        } else if c == '#' {
            match find_hash(s, pos + 1) {
                Some(d) => {
                    pos = pos + 2 + d;
                },
                None => {
                    return pos;
                },
            }
        } else {
            return pos;
        }
    }
    pos
}

/// The statement that a one-character token stands for.
fn token_stat(c: char) -> (r: Option<Stat>)
    ensures
        match r {
            Some(st) => token(c) == Some(stat_view(st)),
            None => token(c) is None,
        },
{
    if c == '>' {
        Some(Stat::PtrMove(1))
    } else if c == '<' {
        Some(Stat::PtrMove(-1))
    } else if c == '+' {
        Some(Stat::DerefOp(Op::Add, 1))
    } else if c == '-' {
        Some(Stat::DerefOp(Op::Add, -1))
    } else if c == ',' {
        Some(Stat::Input)
    } else if c == '.' {
        Some(Stat::Output)
    } else {
        None
    }
}

/// Reads statements from `i` on; returns them and the position where
/// reading stopped.
fn parse_stats(s: &Vec<char>, i: usize) -> (r: (Stats, usize))
    requires
        i <= s.len(),
    ensures
        stats_view(r.0@) == stats_from(s@, i as int).0,
        r.1 == i + stats_from(s@, i as int).1,
        r.1 <= s.len(),
    decreases s.len() - i,
{
    let mut out: Stats = Vec::new();
    let mut pos = i;
    loop
        invariant
            i <= pos <= s.len(),
            stats_from(s@, i as int).0 == stats_view(out@) + stats_from(s@, pos as int).0,
            i + stats_from(s@, i as int).1 == pos + stats_from(s@, pos as int).1,
        decreases s.len() - pos,
    {
        let a = ws_end(s, pos);
        let ghost sv = s@;
        assert(stats_from(sv, pos as int).0 == stats_at(sv, a as int).0);
        assert(stats_from(sv, pos as int).1 == (a - pos) + stats_at(sv, a as int).1);
        if a >= s.len() {
            assert(stats_view(out@) + Seq::<Instr>::empty() == stats_view(out@));
            return (out, a);
        }
        let c = s[a];
        let st: Stat;
        let next: usize;
        match token_stat(c) {
            Some(t) => {
                st = t;
                next = a + 1;
            },
            None => {
                if a + 1 < s.len() && c == ':' && s[a + 1] == ':' {
                    match find_colons(s, a + 2) {
                        Some(d) => {
                            st = Stat::Asm(text_between(s, a + 2, a + 2 + d));
                            next = a + 4 + d;
                        },
                        None => {
                            assert(stats_view(out@) + Seq::<Instr>::empty() == stats_view(out@));
                            return (out, a);
                        },
                    }
                } else if c == '[' {
                    let (body, k) = parse_stats(s, a + 1);
                    if k < s.len() && s[k] == ']' {
                        st = Stat::WhileNonZero(body);
                        next = k + 1;
                    } else {
                        assert(stats_view(out@) + Seq::<Instr>::empty() == stats_view(out@));
                        return (out, a);
                    }
                } else {
                    assert(stats_view(out@) + Seq::<Instr>::empty() == stats_view(out@));
                    return (out, a);
                }
            },
        }
        proof {
            lemma_stats_view_push(out@, st);
            assert(stats_at(sv, a as int).0 == seq![stat_view(st)] + stats_from(
                sv,
                next as int,
            ).0);
            assert(stats_view(out@) + stats_at(sv, a as int).0 == stats_view(out@).push(
                stat_view(st),
            ) + stats_from(sv, next as int).0);
        }
        out.push(st);
        pos = next;
    }
}

/// Parses a whole program. On failure the error is the text left from
/// where no statement could be read.
pub fn parse(input: &str) -> (r: Result<BrainFuck, &str>)
    ensures
        match r {
            Ok(bf) => parse_spec(input@) == Ok::<Seq<Instr>, Seq<char>>(bf@),
            Err(rem) => parse_spec(input@) == Err::<Seq<Instr>, Seq<char>>(rem@),
        },
{
    let s = chars_of(input);
    let (stats, n) = parse_stats(&s, 0);
    if n >= s.len() {
        Ok(BrainFuck(stats))
    } else {
        Err(input.substring_char(n, s.len()))
    }
}

} // verus!
