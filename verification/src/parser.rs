//! Parsing a combinator string into the token tree that the reduction
//! engine works on.

use vstd::prelude::*;

use crate::engine::{
    comp_model, fwd_model, lemma_fwd_model_push, lemma_toks_model_reverse, toks_model,
    Computation,
};
use crate::model::{err_msg, parse_loop, upcase, upcase_seq, MTok, ParseErr};
use crate::text::chars_to_string;
use vstd::string::StrSliceExecFns;

verus! {

/// One token of a term: a primitive combinator, or a nested parenthesized
/// sub-term.
#[derive(Debug)]
pub enum Token {
    S,
    K,
    I,
    NestedTerm(Computation),
}

/// The model token that an exec token stands for.
pub open spec fn tok_model(t: Token) -> MTok
    decreases t,
{
    match t {
        Token::S => MTok::S,
        Token::K => MTok::K,
        Token::I => MTok::I,
        Token::NestedTerm(c) => MTok::Grp(comp_model(c)),
    }
}

impl View for Token {
    type V = MTok;

    open spec fn view(&self) -> MTok {
        tok_model(*self)
    }
}

impl Token {
    /// Wraps an already-reversed token sequence as a nested sub-term.
    pub fn make_nested(tokens: Vec<Token>) -> (r: Token)
        ensures
            r@ == MTok::Grp(toks_model(tokens@)),
    {
        Token::NestedTerm(Computation::from_tokens(tokens))
    }
}

/// The ASCII upper-case image of one character.
fn upcase_char(c: char) -> (r: char)
    ensures
        r == upcase(c),
{
    match c {
        'a' => 'A',
        'b' => 'B',
        'c' => 'C',
        'd' => 'D',
        'e' => 'E',
        'f' => 'F',
        'g' => 'G',
        'h' => 'H',
        'i' => 'I',
        'j' => 'J',
        'k' => 'K',
        'l' => 'L',
        'm' => 'M',
        'n' => 'N',
        'o' => 'O',
        'p' => 'P',
        'q' => 'Q',
        'r' => 'R',
        's' => 'S',
        't' => 'T',
        'u' => 'U',
        'v' => 'V',
        'w' => 'W',
        'x' => 'X',
        'y' => 'Y',
        'z' => 'Z',
        _ => c,
    }
}

/// Reverses an owned token sequence, between surface order and storage
/// order.
fn reverse_tokens(v: Vec<Token>) -> (r: Vec<Token>)
    ensures
        r@ == v@.reverse(),
{
    let ghost orig = v@;
    let mut rem = v;
    let mut out: Vec<Token> = Vec::new();
    while rem.len() > 0
        invariant
            rem@ == orig.take(rem@.len() as int),
            out@.len() + rem@.len() == orig.len(),
            forall|k: int| 0 <= k < out@.len() ==> out@[k] == orig[orig.len() - 1 - k],
        decreases rem@.len(),
    {
        let t = rem.pop().unwrap();
        out.push(t);
        proof {
            assert(rem@ =~= orig.take(rem@.len() as int));
        }
    }
    proof {
        assert(out@ =~= orig.reverse());
    }
    out
}

/// Parses a combinator string into the token tree the computation engine
/// works on.  The string is upper-cased up front; parsing itself never
/// evaluates anything.
pub struct Parser {
    chars: Vec<char>,
}

impl View for Parser {
    type V = Seq<char>;

    closed spec fn view(&self) -> Seq<char> {
        self.chars@
    }
}

impl Parser {
    /// Upper-cases the input, producing the character sequence the scan
    /// works through.
    fn prepare_string_for_parsing(token_seq: &str) -> (r: Vec<char>)
        ensures
            r@ == upcase_seq(token_seq@),
    {
        let n = token_seq.unicode_len();
        let mut out: Vec<char> = Vec::new();
        let mut i: usize = 0;
        while i < n
            invariant
                i <= n,
                n == token_seq@.len(),
                out@ == upcase_seq(token_seq@).take(i as int),
            decreases n - i,
        {
            let c = token_seq.get_char(i);
            out.push(upcase_char(c));
            proof {
                assert(out@ =~= upcase_seq(token_seq@).take(i + 1));
            }
            i += 1;
        }
        proof {
            assert(upcase_seq(token_seq@).take(n as int) =~= upcase_seq(token_seq@));
        }
        out
    }

    /// The message reported for unbalanced parentheses.
    fn make_mismatched_error() -> (r: String)
        ensures
            r@ == err_msg(ParseErr::Mismatched),
    {
        "Mismatched parentheses in expression".to_owned()
    }

    /// The message reported for a character outside the alphabet.
    fn make_unexpected_error(c: char) -> (r: String)
        ensures
            r@ == err_msg(ParseErr::Unexpected(c)),
    {
        let prefix = "Unexpected token: ";
        let n = prefix.unicode_len();
        let mut v: Vec<char> = Vec::new();
        let mut i: usize = 0;
        while i < n
            invariant
                i <= n,
                n == prefix@.len(),
                prefix@ == "Unexpected token: "@,
                v@ == prefix@.take(i as int),
            decreases n - i,
        {
            let c2 = prefix.get_char(i);
            v.push(c2);
            proof {
                assert(v@ =~= prefix@.take(i + 1));
            }
            i += 1;
        }
        v.push(c);
        proof {
            assert(prefix@.take(n as int) =~= prefix@);
            assert(v@ =~= "Unexpected token: "@ + seq![c]);
        }
        chars_to_string(&v)
    }

    /// Readies a parser over the upper-cased image of the given string.
    pub fn new(token_seq: &str) -> (p: Parser)
        ensures
            p@ == upcase_seq(token_seq@),
    {
        Parser { chars: Parser::prepare_string_for_parsing(token_seq) }
    }

    /// Scans the prepared characters into a token sequence, in the reversed
    /// storage order the engine uses.  The result is exactly what the model
    /// parse of the prepared characters yields; on failure the message text
    /// of the model's error is returned.
    #[verifier::loop_isolation(false)]
    pub fn parse(&self) -> (r: Result<Vec<Token>, String>)
        ensures
            match r {
                Ok(toks) => parse_loop(self@, Seq::empty(), Seq::empty()) matches Ok(t)
                    && toks_model(toks@) == t,
                Err(m) => parse_loop(self@, Seq::empty(), Seq::empty()) matches Err(e) && m@
                    == err_msg(e),
            },
    {
        let ghost target = parse_loop(self@, Seq::empty(), Seq::empty());
        let n = self.chars.len();
        let mut stack: Vec<Vec<Token>> = Vec::new();
        let mut cur: Vec<Token> = Vec::new();
        let mut i: usize = 0;
        proof {
            assert(self.chars@.skip(0) =~= self.chars@);
            assert(stack@.map_values(|v: Vec<Token>| fwd_model(v@)) =~= Seq::<Seq<MTok>>::empty());
            assert(fwd_model(cur@) =~= Seq::<MTok>::empty());
        }
        while i < n
            invariant
                i <= n,
                parse_loop(
                    self.chars@.skip(i as int),
                    stack@.map_values(|v: Vec<Token>| fwd_model(v@)),
                    fwd_model(cur@),
                ) == target,
            decreases n - i,
        {
            let ghost sm = stack@.map_values(|v: Vec<Token>| fwd_model(v@));
            let ghost cm = fwd_model(cur@);
            proof {
                assert(self.chars@.skip(i as int)[0] == self.chars@[i as int]);
                assert(self.chars@.skip(i as int).drop_first() =~= self.chars@.skip(i + 1));
            }
            let c = self.chars[i];
            if c == 'S' {
                proof {
                    lemma_fwd_model_push(cur@, Token::S);
                }
                cur.push(Token::S);
            } else if c == 'K' {
                proof {
                    lemma_fwd_model_push(cur@, Token::K);
                }
                cur.push(Token::K);
            } else if c == 'I' {
                proof {
                    lemma_fwd_model_push(cur@, Token::I);
                }
                cur.push(Token::I);
            } else if c == '(' {
                stack.push(cur);
                cur = Vec::new();
                proof {
                    assert(stack@.map_values(|v: Vec<Token>| fwd_model(v@)) =~= sm.push(cm));
                    assert(fwd_model(cur@) =~= Seq::<MTok>::empty());
                }
            } else if c == ')' {
                if stack.len() == 0 {
                    return Err(Parser::make_mismatched_error());
                }
                let mut parent = stack.pop().unwrap();
                let ghost parent_snap = parent@;
                let ghost cur_snap = cur@;
                let rev = reverse_tokens(cur);
                proof {
                    lemma_toks_model_reverse(cur_snap);
                }
                let g = Token::make_nested(rev);
                let ghost gg = g;
                parent.push(g);
                cur = parent;
                proof {
                    assert(stack@.map_values(|v: Vec<Token>| fwd_model(v@)) =~= sm.drop_last());
                    lemma_fwd_model_push(parent_snap, gg);
                    assert(fwd_model(parent_snap) == sm.last());
                    assert(tok_model(gg) == MTok::Grp(cm));
                    assert(fwd_model(cur@) == sm.last().push(MTok::Grp(cm)));
                }
            } else {
                return Err(Parser::make_unexpected_error(c));
            }
            i += 1;
        }
        proof {
            assert(self.chars@.skip(n as int) =~= Seq::<char>::empty());
        }
        if stack.len() > 0 {
            return Err(Parser::make_mismatched_error());
        }
        let ghost cur_snap = cur@;
        let rev = reverse_tokens(cur);
        proof {
            lemma_toks_model_reverse(cur_snap);
        }
        Ok(rev)
    }
}

} // verus!
