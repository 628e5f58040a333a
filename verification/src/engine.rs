//! The reduction engine: the token sequence of a term, the machinery that
//! drives it toward normal form, and the owning session that fans step
//! notifications out to observers.

use vstd::prelude::*;

use crate::laws::{lemma_render_append, lemma_run_add, lemma_run_halted};
use crate::model::{
    err_msg, next_in_args, next_of, parse_spec, render_seq, render_tok, run, wseq, wtok, MTok,
    Next,
};
use crate::observer::{
    lemma_steps_delivered_halt, lemma_steps_delivered_snoc_rule, lemma_steps_delivered_snoc_silent,
    steps_delivered, Observer, Signal,
};
use crate::parser::{tok_model, Parser, Token};
use crate::text::chars_to_string;

verus! {

/// The token sequence of one term.  For efficiency the tokens are stored in
/// reverse surface order, so the leftmost pending token is removed from the
/// end of the vector in constant time.
#[derive(Debug)]
pub struct Computation {
    tokens: Vec<Token>,
}

/// The term that a reversed token storage sequence stands for, in surface
/// (left-to-right) order.
pub open spec fn toks_model(s: Seq<Token>) -> Seq<MTok>
    decreases s,
{
    if s.len() == 0 {
        Seq::empty()
    } else {
        seq![tok_model(s.last())] + toks_model(s.drop_last())
    }
}

/// The term that a token sequence in surface order stands for.
pub open spec fn fwd_model(s: Seq<Token>) -> Seq<MTok>
    decreases s,
{
    if s.len() == 0 {
        Seq::empty()
    } else {
        seq![tok_model(s[0])] + fwd_model(s.drop_first())
    }
}

/// The term that a computation's stored tokens stand for.
pub closed spec fn comp_model(c: Computation) -> Seq<MTok>
    decreases c,
{
    toks_model(c.tokens@)
}

impl View for Computation {
    type V = Seq<MTok>;

    open spec fn view(&self) -> Seq<MTok> {
        comp_model(*self)
    }
}

/// The length and the elements of the surface term a storage sequence
/// stands for: position `j` of the term is position `len - 1 - j` of the
/// storage.
pub proof fn lemma_toks_model(s: Seq<Token>)
    ensures
        toks_model(s).len() == s.len(),
        forall|j: int|
            0 <= j < s.len() ==> toks_model(s)[j] == tok_model(s[s.len() - 1 - j]),
    decreases s,
{
    if s.len() > 0 {
        lemma_toks_model(s.drop_last());
        assert forall|j: int|
            0 <= j < s.len() implies toks_model(s)[j] == tok_model(s[s.len() - 1 - j]) by {
            if j > 0 {
                assert(toks_model(s)[j] == toks_model(s.drop_last())[j - 1]);
                assert(s.drop_last()[s.len() - 1 - j] == s[s.len() - 1 - j]);
            }
        }
    }
}

/// The length and the elements of the surface term a surface-order token
/// sequence stands for.
pub proof fn lemma_fwd_model(s: Seq<Token>)
    ensures
        fwd_model(s).len() == s.len(),
        forall|j: int| 0 <= j < s.len() ==> fwd_model(s)[j] == tok_model(s[j]),
    decreases s,
{
    if s.len() > 0 {
        lemma_fwd_model(s.drop_first());
    }
}

/// Appending storage sequences prepends the surface term of the appended
/// part.
pub proof fn lemma_toks_model_append(a: Seq<Token>, b: Seq<Token>)
    ensures
        toks_model(a + b) == toks_model(b) + toks_model(a),
    decreases b,
{
    if b.len() == 0 {
        assert(a + b =~= a);
        assert(toks_model(b) + toks_model(a) =~= toks_model(a));
    } else {
        lemma_toks_model_append(a, b.drop_last());
        assert((a + b).drop_last() =~= a + b.drop_last());
        assert((a + b).last() == b.last());
        assert(seq![tok_model(b.last())] + (toks_model(b.drop_last()) + toks_model(a)) =~= toks_model(
            b,
        ) + toks_model(a));
    }
}

/// Pushing onto a surface-order sequence appends the token to the surface
/// term.
pub proof fn lemma_fwd_model_push(s: Seq<Token>, t: Token)
    ensures
        fwd_model(s.push(t)) == fwd_model(s).push(tok_model(t)),
{
    lemma_fwd_model(s);
    lemma_fwd_model(s.push(t));
    assert(fwd_model(s.push(t)) =~= fwd_model(s).push(tok_model(t)));
}

/// Reversing a surface-order sequence into storage order keeps the term it
/// stands for.
pub proof fn lemma_toks_model_reverse(s: Seq<Token>)
    ensures
        toks_model(s.reverse()) == fwd_model(s),
{
    lemma_toks_model(s.reverse());
    lemma_fwd_model(s);
    assert(toks_model(s.reverse()) =~= fwd_model(s));
}

/// Every token of a term weighs at least one and no more than the whole
/// term.
pub proof fn lemma_wseq_element(s: Seq<MTok>, j: int)
    requires
        0 <= j < s.len(),
    ensures
        wtok(s[j]) <= wseq(s),
    decreases s,
{
    if j > 0 {
        lemma_wseq_element(s.drop_first(), j - 1);
    }
}

impl Token {
    /// A deep copy of one token, standing for the same model token.
    pub fn duplicate(&self) -> (r: Token)
        ensures
            r@ == self@,
        decreases *self,
    {
        match self {
            Token::S => Token::S,
            Token::K => Token::K,
            Token::I => Token::I,
            Token::NestedTerm(c) => Token::NestedTerm(c.duplicate()),
        }
    }
}

impl Computation {
    /// Wraps an already-reversed token sequence as a computation.
    pub fn from_tokens(tokens: Vec<Token>) -> (r: Computation)
        ensures
            r@ == toks_model(tokens@),
    {
        Computation { tokens }
    }

    /// A deep copy of the whole token sequence, standing for the same term.
    pub fn duplicate(&self) -> (r: Computation)
        ensures
            r@ == self@,
        decreases *self,
    {
        let n = self.tokens.len();
        let mut out: Vec<Token> = Vec::new();
        let mut i: usize = 0;
        while i < n
            invariant
                n == self.tokens@.len(),
                i <= n,
                out@.len() == i,
                forall|k: int| 0 <= k < i ==> tok_model(out@[k]) == tok_model(self.tokens@[k]),
            decreases n - i,
        {
            let t = vstd::std_specs::vec::vec_index(&self.tokens, i);
            out.push(t.duplicate());
            i += 1;
        }
        proof {
            lemma_models_equal(out@, self.tokens@);
        }
        Computation { tokens: out }
    }

    /// Removes and returns the leftmost pending token.
    fn get_next_token(&mut self) -> (r: Token)
        requires
            old(self)@.len() > 0,
        ensures
            old(self)@ == seq![r@] + final(self)@,
            final(self)@ == old(self)@.drop_first(),
            r@ == old(self)@[0],
            wseq(final(self)@) < wseq(old(self)@),
    {
        proof {
            lemma_toks_model(self.tokens@);
            lemma_toks_model(self.tokens@.drop_last());
        }
        let r = self.tokens.pop().unwrap();
        proof {
            assert(old(self).tokens@.subrange(0, old(self).tokens@.len() - 1) =~= old(
                self,
            ).tokens@.drop_last());
            assert(old(self)@ =~= seq![r@] + final(self)@);
            assert(final(self)@ =~= old(self)@.drop_first());
            assert(wseq(old(self)@) == wtok(old(self)@[0]) + wseq(old(self)@.drop_first()));
            assert(wtok(old(self)@[0]) >= 1) by {
                match old(self)@[0] {
                    MTok::Grp(_) => {},
                    _ => {},
                }
            }
        }
        r
    }
}

/// Pushing onto the storage end prepends the token to the surface term.
pub proof fn lemma_toks_model_push(s: Seq<Token>, t: Token)
    ensures
        toks_model(s.push(t)) == seq![tok_model(t)] + toks_model(s),
{
    assert(s.push(t).drop_last() =~= s);
    assert(s.push(t).last() == t);
}

/// How many machine steps one evaluation call will take at most.  A term
/// with no normal form keeps the machine busy for that many steps; in
/// practice the limit is out of reach, so reaching it stands in for not
/// returning at all.
pub const EVAL_STEP_LIMIT: u64 = u64::MAX;

/// What one call of the machinery did to the frame: nothing, a silent
/// structural flattening, or one S/K/I rewrite.
pub enum StepOutcome {
    NoChange,
    Flattened,
    Applied,
}

impl Computation {
    /// Applies the S rule to the frame of pending arguments, the `S` head
    /// itself already removed: `S x y z -> x z (y z)`.  With fewer than
    /// three pending arguments the head is pushed back unchanged.
    fn evaluate_s(&mut self) -> (b: bool)
        ensures
            b ==> old(self)@.len() >= 3 && final(self)@ == seq![
                old(self)@[0],
                old(self)@[2],
                MTok::Grp(seq![old(self)@[1], old(self)@[2]]),
            ] + old(self)@.skip(3),
            !b ==> old(self)@.len() < 3 && final(self)@ == seq![MTok::S] + old(self)@,
    {
        proof {
            lemma_toks_model(self.tokens@);
        }
        let num_tokens = self.tokens.len();
        if num_tokens < 3 {
            self.tokens.push(Token::S);
            proof {
                lemma_toks_model_push(old(self).tokens@, Token::S);
            }
            return false;
        }
        let ghost t0 = self@;
        let x = self.get_next_token();
        let y = self.get_next_token();
        let z = self.get_next_token();
        let ghost xg = x;
        let ghost yg = y;
        let ghost zg = z;
        let ghost rest = self@;
        let ghost rest_storage = self.tokens@;
        let z2 = z.duplicate();
        let ghost z2g = z2;
        let mut inner: Vec<Token> = Vec::new();
        inner.push(z2);
        inner.push(y);
        let ghost inner_storage = inner@;
        proof {
            assert(inner_storage =~= seq![z2g, yg]);
            lemma_toks_model(inner_storage);
            assert(toks_model(inner_storage) =~= seq![t0[1], t0[2]]);
        }
        let nested = Token::NestedTerm(Computation { tokens: inner });
        let ghost ng = nested;
        proof {
            assert(tok_model(ng) == MTok::Grp(seq![t0[1], t0[2]]));
        }
        self.tokens.push(nested);
        proof {
            lemma_toks_model_push(rest_storage, ng);
        }
        let ghost mid1 = self.tokens@;
        self.tokens.push(z);
        proof {
            lemma_toks_model_push(mid1, zg);
        }
        let ghost mid2 = self.tokens@;
        self.tokens.push(x);
        proof {
            lemma_toks_model_push(mid2, xg);
            assert(rest =~= t0.skip(3));
            assert(final(self)@ =~= seq![t0[0], t0[2], MTok::Grp(seq![t0[1], t0[2]])] + t0.skip(
                3,
            ));
        }
        true
    }

    /// Applies the K rule to the frame of pending arguments, the `K` head
    /// itself already removed: `K x y -> x`.  With fewer than two pending
    /// arguments the head is pushed back unchanged.
    fn evaluate_k(&mut self) -> (b: bool)
        ensures
            b ==> old(self)@.len() >= 2 && final(self)@ == seq![old(self)@[0]] + old(
                self,
            )@.skip(2),
            !b ==> old(self)@.len() < 2 && final(self)@ == seq![MTok::K] + old(self)@,
    {
        proof {
            lemma_toks_model(self.tokens@);
        }
        let num_tokens = self.tokens.len();
        if num_tokens < 2 {
            self.tokens.push(Token::K);
            proof {
                lemma_toks_model_push(old(self).tokens@, Token::K);
            }
            return false;
        }
        let ghost t0 = self@;
        let arg = self.get_next_token();
        let ghost ag = arg;
        let _ = self.get_next_token();
        let ghost mid = self.tokens@;
        self.tokens.push(arg);
        proof {
            lemma_toks_model_push(mid, ag);
            assert(final(self)@ =~= seq![t0[0]] + t0.skip(2));
        }
        true
    }

    /// Applies the I rule to the frame of pending arguments, the `I` head
    /// itself already removed: `I x -> x`, so the frame is left as it is.
    /// With no pending argument the head is pushed back unchanged.
    fn evaluate_i(&mut self) -> (b: bool)
        ensures
            b ==> old(self)@.len() >= 1 && final(self)@ == old(self)@,
            !b ==> old(self)@.len() == 0 && final(self)@ == seq![MTok::I] + old(self)@,
    {
        proof {
            lemma_toks_model(self.tokens@);
        }
        let num_tokens = self.tokens.len();
        if num_tokens < 1 {
            self.tokens.push(Token::I);
            proof {
                lemma_toks_model_push(old(self).tokens@, Token::I);
            }
            return false;
        }
        true
    }

    /// Performs the machine's one available move on this term, if any: a
    /// head rewrite, a silent head flattening, or — with the head stuck —
    /// the first move available inside an argument group, scanning left to
    /// right.  Returns what was done; when nothing was, the term is
    /// unchanged and halted.
    #[verifier::loop_isolation(false)]
    #[verifier::rlimit(30)]
    pub fn step_once(&mut self) -> (r: StepOutcome)
        ensures
            match r {
                StepOutcome::NoChange => next_of(old(self)@) is Halt && final(self)@ == old(
                    self,
                )@,
                StepOutcome::Flattened => next_of(old(self)@) == Next::Silent(final(self)@),
                StepOutcome::Applied => next_of(old(self)@) == Next::Rule(final(self)@),
            },
        decreases wseq(self@),
    {
        let ghost t0 = self@;
        proof {
            lemma_toks_model(self.tokens@);
        }
        if self.tokens.len() == 0 {
            return StepOutcome::NoChange;
        }
        let head = self.get_next_token();
        let fired: bool;
        match head {
            Token::NestedTerm(mut inner) => {
                let ghost u = inner@;
                let ghost rest_storage = self.tokens@;
                proof {
                    lemma_toks_model_append(rest_storage, inner.tokens@);
                }
                self.tokens.append(&mut inner.tokens);
                proof {
                    assert(final(self)@ == u + t0.drop_first());
                }
                return StepOutcome::Flattened;
            },
            Token::S => {
                fired = self.evaluate_s();
            },
            Token::K => {
                fired = self.evaluate_k();
            },
            Token::I => {
                fired = self.evaluate_i();
            },
        }
        let ghost args = t0.drop_first();
        if fired {
            proof {
                match t0[0] {
                    MTok::S => {
                        assert(t0.len() >= 4);
                        assert(seq![t0[1], t0[3], MTok::Grp(seq![t0[2], t0[3]])] + t0.skip(4)
                            =~= seq![args[0], args[2], MTok::Grp(seq![args[1], args[2]])]
                            + args.skip(3));
                    },
                    MTok::K => {
                        assert(t0.len() >= 3);
                        assert(seq![t0[1]] + t0.skip(3) =~= seq![args[0]] + args.skip(2));
                    },
                    MTok::I => {
                        assert(t0.len() >= 2);
                        assert(t0.drop_first() =~= args);
                    },
                    MTok::Grp(_) => {
                        assert(false);
                    },
                }
            }
            return StepOutcome::Applied;
        }
        proof {
            assert(self@ =~= t0);
            assert(next_of(t0) == next_in_args(t0, 1));
        }
        let n = self.tokens.len();
        proof {
            lemma_toks_model(self.tokens@);
        }
        let mut j: usize = 1;
        while j < n
            invariant
                1 <= j <= n,
                n == self.tokens@.len(),
                self@ == t0,
                n == t0.len(),
                next_of(t0) == next_in_args(t0, j as int),
            decreases n - j,
        {
            let idx = n - 1 - j;
            let ghost storage_before = self.tokens@;
            proof {
                lemma_toks_model(storage_before);
            }
            let tok = self.tokens.remove(idx);
            proof {
                assert(tok_model(tok) == t0[j as int]);
            }
            match tok {
                Token::NestedTerm(mut c) => {
                    let ghost u = c@;
                    proof {
                        lemma_wseq_element(t0, j as int);
                        assert(wtok(MTok::Grp(u)) == 1 + wseq(u));
                    }
                    let sub = c.step_once();
                    let ghost u2 = c@;
                    self.tokens.insert(idx, Token::NestedTerm(c));
                    proof {
                        assert(self.tokens@ =~= storage_before.update(
                            idx as int,
                            Token::NestedTerm(c),
                        ));
                        lemma_view_update(storage_before, idx as int, Token::NestedTerm(c));
                    }
                    match sub {
                        StepOutcome::NoChange => {
                            proof {
                                assert(t0.update(j as int, MTok::Grp(u2)) =~= t0);
                                assert(next_in_args(t0, j as int) == next_in_args(
                                    t0,
                                    j as int + 1,
                                ));
                            }
                            j += 1;
                        },
                        StepOutcome::Flattened => {
                            proof {
                                assert(next_in_args(t0, j as int) == Next::Silent(
                                    t0.update(j as int, MTok::Grp(u2)),
                                ));
                            }
                            return StepOutcome::Flattened;
                        },
                        StepOutcome::Applied => {
                            proof {
                                assert(next_in_args(t0, j as int) == Next::Rule(
                                    t0.update(j as int, MTok::Grp(u2)),
                                ));
                            }
                            return StepOutcome::Applied;
                        },
                    }
                },
                other => {
                    self.tokens.insert(idx, other);
                    proof {
                        assert(self.tokens@ =~= storage_before.update(idx as int, other));
                        lemma_view_update(storage_before, idx as int, other);
                        assert(t0.update(j as int, tok_model(other)) =~= t0);
                        assert(!(t0[j as int] is Grp));
                        assert(next_in_args(t0, j as int) == next_in_args(t0, j as int + 1));
                    }
                    j += 1;
                },
            }
        }
        StepOutcome::NoChange
    }

    /// Drives the term toward its normal form with leftmost-head rewriting:
    /// machine steps are taken until none is available anywhere, or until
    /// the step limit is spent.  The result is exactly the term after
    /// `EVAL_STEP_LIMIT` machine steps, which is the normal form whenever
    /// the term has one the limit can reach.
    #[verifier::loop_isolation(false)]
    pub fn evaluate(&mut self)
        ensures
            final(self)@ == run(old(self)@, EVAL_STEP_LIMIT as nat),
    {
        let ghost t0 = self@;
        let mut fuel: u64 = EVAL_STEP_LIMIT;
        loop
            invariant
                fuel <= EVAL_STEP_LIMIT,
                self@ == run(t0, (EVAL_STEP_LIMIT - fuel) as nat),
            decreases fuel,
        {
            if fuel == 0 {
                return;
            }
            let ghost used = (EVAL_STEP_LIMIT - fuel) as nat;
            let ghost cur = self@;
            let outcome = self.step_once();
            match outcome {
                StepOutcome::NoChange => {
                    proof {
                        lemma_run_add(t0, used, (EVAL_STEP_LIMIT as nat - used) as nat);
                        lemma_run_halted(cur, (EVAL_STEP_LIMIT as nat - used) as nat);
                    }
                    return;
                },
                StepOutcome::Flattened | StepOutcome::Applied => {
                    proof {
                        lemma_run_add(t0, used, 1);
                        assert(run(self@, 0) == self@);
                        assert(run(cur, 1) == self@);
                    }
                    fuel = fuel - 1;
                },
            }
        }
    }
}

impl Token {
    /// Appends the surface text of this token to the buffer.
    fn render_into(&self, out: &mut Vec<char>)
        ensures
            final(out)@ == old(out)@ + render_tok(self@),
        decreases *self,
    {
        match self {
            Token::S => {
                out.push('S');
                proof {
                    assert(final(out)@ =~= old(out)@ + render_tok(self@));
                }
            },
            Token::K => {
                out.push('K');
                proof {
                    assert(final(out)@ =~= old(out)@ + render_tok(self@));
                }
            },
            Token::I => {
                out.push('I');
                proof {
                    assert(final(out)@ =~= old(out)@ + render_tok(self@));
                }
            },
            Token::NestedTerm(c) => {
                out.push('(');
                c.render_into(out);
                out.push(')');
                proof {
                    assert(final(out)@ =~= old(out)@ + render_tok(self@));
                }
            },
        }
    }
}

impl Computation {
    /// Builds a term by parsing a combinator string; the term is exactly
    /// what the model parse of the string yields, and a rejected string
    /// yields exactly the model's error message.
    pub fn new(token_seq: &str) -> (r: Result<Computation, String>)
        ensures
            match r {
                Ok(c) => parse_spec(token_seq@) matches Ok(t) && c@ == t,
                Err(m) => parse_spec(token_seq@) matches Err(e) && m@ == err_msg(e),
            },
    {
        let parser = Parser::new(token_seq);
        match parser.parse() {
            Ok(tokens) => Ok(Computation::from_tokens(tokens)),
            Err(m) => Err(m),
        }
    }

    /// Appends the surface text of this term to the buffer, tokens left to
    /// right with nested groups parenthesized.
    fn render_into(&self, out: &mut Vec<char>)
        ensures
            final(out)@ == old(out)@ + render_seq(self@),
        decreases *self,
    {
        let n = self.tokens.len();
        proof {
            lemma_toks_model(self.tokens@);
        }
        let mut j: usize = 0;
        proof {
            assert(self@.take(0) =~= Seq::<MTok>::empty());
            assert(out@ =~= out@ + render_seq(self@.take(0)));
        }
        while j < n
            invariant
                j <= n,
                n == self.tokens@.len(),
                n == self@.len(),
                forall|k: int|
                    0 <= k < n ==> toks_model(self.tokens@)[k] == tok_model(
                        self.tokens@[n - 1 - k],
                    ),
                out@ == old(out)@ + render_seq(self@.take(j as int)),
            decreases n - j,
        {
            let idx = n - 1 - j;
            let t = vstd::std_specs::vec::vec_index(&self.tokens, idx);
            t.render_into(out);
            proof {
                assert(t@ == self@[j as int]);
                lemma_render_append(self@.take(j as int), seq![self@[j as int]]);
                assert(seq![self@[j as int]].drop_first() =~= Seq::<MTok>::empty());
                assert(render_seq(Seq::<MTok>::empty()) =~= Seq::<char>::empty());
                assert(render_seq(seq![self@[j as int]]) =~= render_tok(self@[j as int]));
                assert(self@.take(j + 1) =~= self@.take(j as int) + seq![self@[j as int]]);
            }
            j += 1;
        }
        proof {
            assert(self@.take(n as int) =~= self@);
        }
    }

    /// The surface text of the term: its tokens left to right, nested
    /// groups parenthesized.
    pub fn to_text(&self) -> (r: String)
        ensures
            r@ == render_seq(self@),
    {
        let mut out: Vec<char> = Vec::new();
        self.render_into(&mut out);
        proof {
            assert(Seq::<char>::empty() + render_seq(self@) =~= render_seq(self@));
        }
        chars_to_string(&out)
    }
}

impl PartialEq for Token {
    /// Structural equality: equal combinators, or nested terms that stand
    /// for the same term.
    fn eq(&self, other: &Token) -> (r: bool)
        decreases *self,
    {
        match (self, other) {
            (Token::S, Token::S) => true,
            (Token::K, Token::K) => true,
            (Token::I, Token::I) => true,
            (Token::NestedTerm(a), Token::NestedTerm(b)) => a.eq(b),
            _ => false,
        }
    }
}

impl vstd::std_specs::cmp::PartialEqSpecImpl for Token {
    open spec fn obeys_eq_spec() -> bool {
        true
    }

    open spec fn eq_spec(&self, other: &Token) -> bool {
        self@ == other@
    }
}

impl PartialEq for Computation {
    /// Structural equality: the two token sequences stand for the same
    /// term.
    fn eq(&self, other: &Computation) -> (r: bool)
        decreases *self,
    {
        let n = self.tokens.len();
        if n != other.tokens.len() {
            proof {
                lemma_toks_model(self.tokens@);
                lemma_toks_model(other.tokens@);
            }
            return false;
        }
        let mut k: usize = 0;
        while k < n
            invariant
                k <= n,
                n == self.tokens@.len(),
                n == other.tokens@.len(),
                forall|m: int|
                    0 <= m < k ==> tok_model(self.tokens@[m]) == tok_model(other.tokens@[m]),
            decreases n - k,
        {
            let a = vstd::std_specs::vec::vec_index(&self.tokens, k);
            let b = vstd::std_specs::vec::vec_index(&other.tokens, k);
            if !a.eq(b) {
                proof {
                    lemma_toks_model(self.tokens@);
                    lemma_toks_model(other.tokens@);
                    assert(toks_model(self.tokens@)[n - 1 - k] != toks_model(other.tokens@)[n - 1
                        - k]);
                }
                return false;
            }
            k += 1;
        }
        proof {
            lemma_models_equal(self.tokens@, other.tokens@);
        }
        true
    }
}

impl vstd::std_specs::cmp::PartialEqSpecImpl for Computation {
    open spec fn obeys_eq_spec() -> bool {
        true
    }

    open spec fn eq_spec(&self, other: &Computation) -> bool {
        self@ == other@
    }
}

/// What one evaluation call of a session whose term is `t` delivers to one
/// listener: a `ComputationStart` with the starting term, one
/// `ComputationStep` per rule fired within the step limit, each with the
/// term right after that rule, and a `ComputationEnd` with the final term,
/// in that order.
pub open spec fn evaluation_delivered<O: Observer>(pre: O, post: O, t: Seq<MTok>) -> bool {
    exists|s1: O, s2: O|
        #![auto]
        O::notified(pre, s1, render_seq(t), Signal::ComputationStart) && steps_delivered(
            s1,
            s2,
            t,
            EVAL_STEP_LIMIT as nat,
        ) && O::notified(
            s2,
            post,
            render_seq(run(t, EVAL_STEP_LIMIT as nat)),
            Signal::ComputationEnd,
        )
}

/// An evaluation session: it owns the root term and the list of attached
/// listeners, so a rewrite step anywhere in the tree reaches the same
/// listeners the session exposes.
#[derive(Debug)]
pub struct CombinatoryTermImpl<O: Observer> {
    observers: Vec<O>,
    computation: Computation,
}

impl<O: Observer> CombinatoryTermImpl<O> {
    /// The term this session owns.
    pub closed spec fn term_model(&self) -> Seq<MTok> {
        self.computation@
    }

    /// The listeners attached so far, in attachment order.
    pub closed spec fn observer_model(&self) -> Seq<O> {
        self.observers@
    }

    /// Builds a session around the term a combinator string parses to,
    /// with no listeners attached yet.
    pub fn new(token_seq: &str) -> (r: Result<Self, String>)
        ensures
            match r {
                Ok(t) => parse_spec(token_seq@) matches Ok(m) && t.term_model() == m
                    && t.observer_model().len() == 0,
                Err(m) => parse_spec(token_seq@) matches Err(e) && m@ == err_msg(e),
            },
    {
        match Computation::new(token_seq) {
            Ok(computation) => Ok(CombinatoryTermImpl { computation, observers: Vec::new() }),
            Err(m) => Err(m),
        }
    }

    /// Attaches one more listener; the term is untouched.
    pub fn attach(&mut self, observer: O)
        ensures
            final(self).term_model() == old(self).term_model(),
            final(self).observer_model() == old(self).observer_model().push(observer),
    {
        self.observers.push(observer);
    }

    /// Renders the current term once and delivers the signal with it to
    /// every listener, exactly once each, in attachment order.  The term is
    /// untouched.
    #[verifier::loop_isolation(false)]
    pub fn notify_observers(&mut self, signal: Signal)
        ensures
            final(self).term_model() == old(self).term_model(),
            final(self).observer_model().len() == old(self).observer_model().len(),
            forall|i: int|
                0 <= i < old(self).observer_model().len() ==> O::notified(
                    old(self).observer_model()[i],
                    #[trigger] final(self).observer_model()[i],
                    render_seq(old(self).term_model()),
                    signal,
                ),
    {
        let txt = self.computation.to_text();
        let n = self.observers.len();
        let mut i: usize = 0;
        while i < n
            invariant
                i <= n,
                n == self.observers@.len(),
                self.computation == old(self).computation,
                txt@ == render_seq(old(self).term_model()),
                forall|k: int|
                    0 <= k < i ==> O::notified(
                        old(self).observers@[k],
                        #[trigger] self.observers@[k],
                        render_seq(old(self).term_model()),
                        signal,
                    ),
                forall|k: int| i <= k < n ==> self.observers@[k] == old(self).observers@[k],
            decreases n - i,
        {
            let ghost before = self.observers@;
            let mut ob = self.observers.remove(i);
            let ghost pre_ob = ob;
            ob.notify(txt.as_str(), signal);
            let ghost post_ob = ob;
            self.observers.insert(i, ob);
            proof {
                assert(self.observers@ =~= before.update(i as int, post_ob));
            }
            i += 1;
        }
    }

    /// The machine-step loop of an evaluation call: steps are taken until
    /// none is available or the limit is spent, and each rewrite rule that
    /// fires is delivered to every listener as one `ComputationStep`
    /// carrying the rendered term right after the rule, in firing order.
    #[verifier::loop_isolation(false)]
    fn run_steps(&mut self)
        ensures
            final(self).term_model() == run(old(self).term_model(), EVAL_STEP_LIMIT as nat),
            final(self).observer_model().len() == old(self).observer_model().len(),
            forall|i: int|
                0 <= i < old(self).observer_model().len() ==> steps_delivered(
                    old(self).observer_model()[i],
                    #[trigger] final(self).observer_model()[i],
                    old(self).term_model(),
                    EVAL_STEP_LIMIT as nat,
                ),
    {
        let ghost t0 = self.computation@;
        let mut fuel: u64 = EVAL_STEP_LIMIT;
        loop
            invariant
                fuel <= EVAL_STEP_LIMIT,
                self.computation@ == run(t0, (EVAL_STEP_LIMIT - fuel) as nat),
                self.observers@.len() == old(self).observers@.len(),
                forall|i: int|
                    0 <= i < old(self).observers@.len() ==> steps_delivered(
                        old(self).observers@[i],
                        #[trigger] self.observers@[i],
                        t0,
                        (EVAL_STEP_LIMIT - fuel) as nat,
                    ),
            decreases fuel,
        {
            if fuel == 0 {
                return;
            }
            let ghost used = (EVAL_STEP_LIMIT - fuel) as nat;
            let ghost cur = self.computation@;
            let ghost obs_pre = self.observers@;
            let outcome = self.computation.step_once();
            match outcome {
                StepOutcome::NoChange => {
                    proof {
                        lemma_run_add(t0, used, (EVAL_STEP_LIMIT as nat - used) as nat);
                        lemma_run_halted(cur, (EVAL_STEP_LIMIT as nat - used) as nat);
                        assert forall|i: int|
                            0 <= i < old(self).observers@.len() implies steps_delivered(
                            old(self).observers@[i],
                            #[trigger] self.observers@[i],
                            t0,
                            EVAL_STEP_LIMIT as nat,
                        ) by {
                            lemma_steps_delivered_halt(
                                old(self).observers@[i],
                                self.observers@[i],
                                t0,
                                used,
                                EVAL_STEP_LIMIT as nat,
                            );
                        }
                    }
                    return;
                },
                StepOutcome::Flattened => {
                    proof {
                        lemma_run_add(t0, used, 1);
                        assert(run(self.computation@, 0) == self.computation@);
                        assert(run(cur, 1) == self.computation@);
                        assert forall|i: int|
                            0 <= i < old(self).observers@.len() implies steps_delivered(
                            old(self).observers@[i],
                            #[trigger] self.observers@[i],
                            t0,
                            (used + 1) as nat,
                        ) by {
                            lemma_steps_delivered_snoc_silent(
                                old(self).observers@[i],
                                self.observers@[i],
                                t0,
                                used,
                            );
                        }
                    }
                    fuel = fuel - 1;
                },
                StepOutcome::Applied => {
                    let ghost stepped = self.computation@;
                    proof {
                        lemma_run_add(t0, used, 1);
                        assert(run(self.computation@, 0) == self.computation@);
                        assert(run(cur, 1) == self.computation@);
                    }
                    fuel = fuel - 1;
                    self.notify_observers(Signal::ComputationStep);
                    proof {
                        assert forall|i: int|
                            0 <= i < old(self).observers@.len() implies steps_delivered(
                            old(self).observers@[i],
                            #[trigger] self.observers@[i],
                            t0,
                            (used + 1) as nat,
                        ) by {
                            lemma_steps_delivered_snoc_rule(
                                old(self).observers@[i],
                                obs_pre[i],
                                self.observers@[i],
                                t0,
                                used,
                                stepped,
                            );
                        }
                    }
                },
            }
        }
    }

    /// Evaluates the owned term toward its normal form, and delivers to
    /// every attached listener, in attachment order: one `ComputationStart`
    /// with the starting term, one `ComputationStep` per rewrite rule fired
    /// anywhere in the tree, each with the term as it then stands, and one
    /// `ComputationEnd` with the final term.
    pub fn evaluate(&mut self)
        ensures
            final(self).term_model() == run(old(self).term_model(), EVAL_STEP_LIMIT as nat),
            final(self).observer_model().len() == old(self).observer_model().len(),
            forall|i: int|
                0 <= i < old(self).observer_model().len() ==> evaluation_delivered(
                    old(self).observer_model()[i],
                    #[trigger] final(self).observer_model()[i],
                    old(self).term_model(),
                ),
    {
        let ghost t0 = self.term_model();
        let ghost obs0 = self.observer_model();
        self.notify_observers(Signal::ComputationStart);
        let ghost obs1 = self.observer_model();
        self.run_steps();
        let ghost obs2 = self.observer_model();
        self.notify_observers(Signal::ComputationEnd);
        proof {
            assert forall|i: int|
                0 <= i < obs0.len() implies evaluation_delivered(
                obs0[i],
                #[trigger] self.observer_model()[i],
                t0,
            ) by {
                assert(O::notified(obs0[i], obs1[i], render_seq(t0), Signal::ComputationStart));
                assert(steps_delivered(obs1[i], obs2[i], t0, EVAL_STEP_LIMIT as nat));
                assert(O::notified(
                    obs2[i],
                    self.observer_model()[i],
                    render_seq(run(t0, EVAL_STEP_LIMIT as nat)),
                    Signal::ComputationEnd,
                ));
            }
        }
    }

    /// The surface text of the owned term.
    pub fn to_text(&self) -> (r: String)
        ensures
            r@ == render_seq(self.term_model()),
    {
        self.computation.to_text()
    }

    /// The attached listeners, in attachment order.
    pub fn observers(&self) -> (r: &Vec<O>)
        ensures
            r@ == self.observer_model(),
    {
        &self.observers
    }
}

impl<O: Observer> PartialEq for CombinatoryTermImpl<O> {
    /// Sessions are compared by the term they own; listeners are left out,
    /// as they have no bearing on what the term is.
    fn eq(&self, other: &CombinatoryTermImpl<O>) -> (r: bool) {
        self.computation.eq(&other.computation)
    }
}

impl<O: Observer> vstd::std_specs::cmp::PartialEqSpecImpl for CombinatoryTermImpl<O> {
    open spec fn obeys_eq_spec() -> bool {
        true
    }

    open spec fn eq_spec(&self, other: &CombinatoryTermImpl<O>) -> bool {
        self.term_model() == other.term_model()
    }
}

/// Replacing the token at storage position `idx` replaces surface position
/// `len - 1 - idx` of the term it stands for.
proof fn lemma_view_update(storage: Seq<Token>, idx: int, t: Token)
    requires
        0 <= idx < storage.len(),
    ensures
        toks_model(storage.update(idx, t)) == toks_model(storage).update(
            storage.len() - 1 - idx,
            tok_model(t),
        ),
{
    lemma_toks_model(storage);
    lemma_toks_model(storage.update(idx, t));
    assert(toks_model(storage.update(idx, t)) =~= toks_model(storage).update(
        storage.len() - 1 - idx,
        tok_model(t),
    ));
}

/// Two storage sequences whose tokens stand for the same model tokens stand
/// for the same term.
proof fn lemma_models_equal(a: Seq<Token>, b: Seq<Token>)
    requires
        a.len() == b.len(),
        forall|k: int| 0 <= k < a.len() ==> tok_model(a[k]) == tok_model(b[k]),
    ensures
        toks_model(a) == toks_model(b),
{
    lemma_toks_model(a);
    lemma_toks_model(b);
    assert(toks_model(a) =~= toks_model(b));
}

} // verus!
