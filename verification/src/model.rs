//! The mathematical model of SKI terms and of the reduction strategy.
//!
//! A term is a sequence of model tokens in surface (left-to-right) order;
//! a parenthesized sub-term is a `Grp`.  The reduction engine is modelled by
//! the deterministic step function `next_of`, which either halts, flattens a
//! group standing at the head (a `Silent` move, not a rewrite), or applies
//! one of the S/K/I rules (a `Rule` move).  Running the machine for `n`
//! steps is `run`, and a term's normal form is characterized by
//! `normalizes_to`.

use vstd::prelude::*;

verus! {

/// A model token: one of the three combinators, or a parenthesized group.
pub enum MTok {
    S,
    K,
    I,
    Grp(Seq<MTok>),
}

/// What the machine does on one step: halt, flatten a head group without
/// counting a rewrite, or apply an S/K/I rule.
pub enum Next {
    Halt,
    Silent(Seq<MTok>),
    Rule(Seq<MTok>),
}

/// The single deterministic step of the reduction machine on a term.
///
/// A group at the head is spliced into the frame (`Silent`).  A head
/// combinator with enough arguments fires its rule (`Rule`):
/// `S x y z -> x z (y z)`, `K x y -> x`, `I x -> x`.  A stuck head leaves
/// the machine to look for a step inside the argument groups, left to right.
pub open spec fn next_of(t: Seq<MTok>) -> Next
    decreases t, 1int, 0int,
{
    if t.len() == 0 {
        Next::Halt
    } else {
        match t[0] {
            MTok::Grp(u) => Next::Silent(u + t.drop_first()),
            MTok::S => if t.len() >= 4 {
                Next::Rule(seq![t[1], t[3], MTok::Grp(seq![t[2], t[3]])] + t.skip(4))
            } else {
                next_in_args(t, 1)
            },
            MTok::K => if t.len() >= 3 {
                Next::Rule(seq![t[1]] + t.skip(3))
            } else {
                next_in_args(t, 1)
            },
            MTok::I => if t.len() >= 2 {
                Next::Rule(t.drop_first())
            } else {
                next_in_args(t, 1)
            },
        }
    }
}

/// The first step available inside the argument groups `t[i..]`, scanning
/// left to right, with the stuck head `t[0]` left in place.
pub open spec fn next_in_args(t: Seq<MTok>, i: int) -> Next
    decreases t, 0int, t.len() - i,
{
    if i < 1 || i >= t.len() {
        Next::Halt
    } else {
        match t[i] {
            MTok::Grp(u) => match next_of(u) {
                Next::Halt => next_in_args(t, i + 1),
                Next::Silent(u2) => Next::Silent(t.update(i, MTok::Grp(u2))),
                Next::Rule(u2) => Next::Rule(t.update(i, MTok::Grp(u2))),
            },
            _ => next_in_args(t, i + 1),
        }
    }
}

/// Whether no step at all is available anywhere in the term.
pub open spec fn halted(t: Seq<MTok>) -> bool {
    next_of(t) is Halt
}

/// The term after at most `n` machine steps; a halted term stays put.
pub open spec fn run(t: Seq<MTok>, n: nat) -> Seq<MTok>
    decreases n,
{
    if n == 0 {
        t
    } else {
        match next_of(t) {
            Next::Halt => t,
            Next::Silent(u) => run(u, (n - 1) as nat),
            Next::Rule(u) => run(u, (n - 1) as nat),
        }
    }
}

/// `nf` is the normal form the machine reaches from `t`.
pub open spec fn normalizes_to(t: Seq<MTok>, nf: Seq<MTok>) -> bool {
    exists|n: nat| run(t, n) == nf && halted(nf)
}

/// The weight of one token: the number of tokens in it, nested ones
/// included.
pub open spec fn wtok(t: MTok) -> nat
    decreases t,
{
    match t {
        MTok::Grp(u) => 1 + wseq(u),
        _ => 1,
    }
}

/// The weight of a term: the number of tokens in it, nested ones included.
pub open spec fn wseq(s: Seq<MTok>) -> nat
    decreases s,
{
    if s.len() == 0 {
        0
    } else {
        wtok(s[0]) + wseq(s.drop_first())
    }
}

/// The ASCII upper-case image of a character; anything but a lower-case
/// ASCII letter is left alone.
pub open spec fn upcase(c: char) -> char {
    if 'a' <= c && c <= 'z' {
        ((c as u32) - 32) as char
    } else {
        c
    }
}

/// A character sequence with every character upper-cased.
pub open spec fn upcase_seq(s: Seq<char>) -> Seq<char> {
    s.map_values(|c: char| upcase(c))
}

/// The one error class of the library: an unrecognized character, or
/// unbalanced parentheses in either direction.
pub enum ParseErr {
    Unexpected(char),
    Mismatched,
}

/// One left-to-right scan of an upper-cased character sequence.
///
/// `stack` holds, innermost last, the partial token sequences of the groups
/// still open; `cur` is the partial token sequence of the innermost one.
pub open spec fn parse_loop(s: Seq<char>, stack: Seq<Seq<MTok>>, cur: Seq<MTok>) -> Result<
    Seq<MTok>,
    ParseErr,
>
    decreases s.len(),
{
    if s.len() == 0 {
        if stack.len() > 0 {
            Err(ParseErr::Mismatched)
        } else {
            Ok(cur)
        }
    } else if s[0] == 'S' {
        parse_loop(s.drop_first(), stack, cur.push(MTok::S))
    } else if s[0] == 'K' {
        parse_loop(s.drop_first(), stack, cur.push(MTok::K))
    } else if s[0] == 'I' {
        parse_loop(s.drop_first(), stack, cur.push(MTok::I))
    } else if s[0] == '(' {
        parse_loop(s.drop_first(), stack.push(cur), Seq::empty())
    } else if s[0] == ')' {
        if stack.len() == 0 {
            Err(ParseErr::Mismatched)
        } else {
            parse_loop(s.drop_first(), stack.drop_last(), stack.last().push(MTok::Grp(cur)))
        }
    } else {
        Err(ParseErr::Unexpected(s[0]))
    }
}

/// What parsing a raw input string yields: the input is upper-cased, then
/// scanned left to right.
pub open spec fn parse_spec(s: Seq<char>) -> Result<Seq<MTok>, ParseErr> {
    parse_loop(upcase_seq(s), Seq::empty(), Seq::empty())
}

/// The surface text of one token.
pub open spec fn render_tok(t: MTok) -> Seq<char>
    decreases t,
{
    match t {
        MTok::S => seq!['S'],
        MTok::K => seq!['K'],
        MTok::I => seq!['I'],
        MTok::Grp(u) => seq!['('] + render_seq(u) + seq![')'],
    }
}

/// The surface text of a term: its tokens rendered left to right.
pub open spec fn render_seq(t: Seq<MTok>) -> Seq<char>
    decreases t,
{
    if t.len() == 0 {
        Seq::empty()
    } else {
        render_tok(t[0]) + render_seq(t.drop_first())
    }
}

/// The message text reported for a parse error.
pub open spec fn err_msg(e: ParseErr) -> Seq<char> {
    match e {
        ParseErr::Unexpected(c) => "Unexpected token: "@ + seq![c],
        ParseErr::Mismatched => "Mismatched parentheses in expression"@,
    }
}

} // verus!
