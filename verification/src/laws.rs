//! Laws of the reduction machine: how single steps, runs and normal forms
//! relate, the rewrite-rule equivalences, parenthesis transparency, and the
//! render/parse round trip.

use vstd::prelude::*;

use crate::model::{
    halted, next_of, normalizes_to, parse_loop, parse_spec, render_seq, render_tok, run,
    upcase, upcase_seq, MTok, Next, ParseErr,
};

verus! {

/// A halted term never moves again: running it any number of steps leaves
/// it unchanged.
pub proof fn lemma_run_halted(t: Seq<MTok>, n: nat)
    requires
        halted(t),
    ensures
        run(t, n) == t,
{
}

/// Running `m + k` steps is running `m` steps and then `k` more.
pub proof fn lemma_run_add(t: Seq<MTok>, m: nat, k: nat)
    ensures
        run(t, m + k) == run(run(t, m), k),
    decreases m,
{
    if m > 0 {
        match next_of(t) {
            Next::Halt => {
                lemma_run_halted(t, m + k);
                lemma_run_halted(t, m);
                lemma_run_halted(t, k);
            },
            Next::Silent(u) => {
                lemma_run_add(u, (m - 1) as nat, k);
            },
            Next::Rule(u) => {
                lemma_run_add(u, (m - 1) as nat, k);
            },
        }
    }
}

/// Taking the machine's one available step preserves the normal form: the
/// stepped term normalizes to exactly what the unstepped term does.
pub proof fn lemma_step_preserves_normal_form(t: Seq<MTok>, u: Seq<MTok>, nf: Seq<MTok>)
    requires
        next_of(t) == Next::Silent(u) || next_of(t) == Next::Rule(u),
    ensures
        normalizes_to(t, nf) <==> normalizes_to(u, nf),
{
    if normalizes_to(t, nf) {
        let n = choose|n: nat| run(t, n) == nf && halted(nf);
        if n == 0 {
            assert(false);
        } else {
            assert(run(u, (n - 1) as nat) == nf);
        }
    }
    if normalizes_to(u, nf) {
        let n = choose|n: nat| run(u, n) == nf && halted(nf);
        assert(run(t, n + 1) == nf);
    }
}

/// The machine is deterministic, so a term has at most one normal form.
pub proof fn lemma_normal_form_unique(t: Seq<MTok>, nf1: Seq<MTok>, nf2: Seq<MTok>)
    requires
        normalizes_to(t, nf1),
        normalizes_to(t, nf2),
    ensures
        nf1 == nf2,
{
    let n1 = choose|n: nat| run(t, n) == nf1 && halted(nf1);
    let n2 = choose|n: nat| run(t, n) == nf2 && halted(nf2);
    if n1 <= n2 {
        lemma_run_add(t, n1, (n2 - n1) as nat);
        lemma_run_halted(nf1, (n2 - n1) as nat);
    } else {
        lemma_run_add(t, n2, (n1 - n2) as nat);
        lemma_run_halted(nf2, (n1 - n2) as nat);
    }
}

/// A run that halts within some step budget has found the normal form:
/// any longer run returns the same term, so the term a budgeted
/// evaluation ends on is the normal form whenever the machine halted
/// before the budget ran out.
pub proof fn lemma_halted_run_is_normal_form(t: Seq<MTok>, n: nat, m: nat)
    requires
        halted(run(t, n)),
        n <= m,
    ensures
        run(t, m) == run(t, n),
        normalizes_to(t, run(t, n)),
{
    lemma_run_add(t, n, (m - n) as nat);
    lemma_run_halted(run(t, n), (m - n) as nat);
    assert(run(t, n) == run(t, n) && halted(run(t, n)));
}

/// S-rule equivalence: `S x y z` normalizes to exactly what `x z (y z)`
/// normalizes to.
pub proof fn lemma_s_rule(x: MTok, y: MTok, z: MTok, nf: Seq<MTok>)
    ensures
        normalizes_to(seq![MTok::S, x, y, z], nf) <==> normalizes_to(
            seq![x, z, MTok::Grp(seq![y, z])],
            nf,
        ),
{
    let t = seq![MTok::S, x, y, z];
    let u = seq![x, z, MTok::Grp(seq![y, z])];
    assert(seq![t[1], t[3], MTok::Grp(seq![t[2], t[3]])] + t.skip(4) =~= u);
    lemma_step_preserves_normal_form(t, u, nf);
}

/// K discards its second argument: `K x y` normalizes to exactly what `x`
/// alone normalizes to.
pub proof fn lemma_k_rule(x: MTok, y: MTok, nf: Seq<MTok>)
    ensures
        normalizes_to(seq![MTok::K, x, y], nf) <==> normalizes_to(seq![x], nf),
{
    let t = seq![MTok::K, x, y];
    assert(seq![t[1]] + t.skip(3) =~= seq![x]);
    lemma_step_preserves_normal_form(t, seq![x], nf);
}

/// I is the identity: `I x` normalizes to exactly what `x` alone
/// normalizes to.
pub proof fn lemma_i_rule(x: MTok, nf: Seq<MTok>)
    ensures
        normalizes_to(seq![MTok::I, x], nf) <==> normalizes_to(seq![x], nf),
{
    let t = seq![MTok::I, x];
    assert(t.drop_first() =~= seq![x]);
    lemma_step_preserves_normal_form(t, seq![x], nf);
}

/// Idempotence of normal form: a term on which no step is available is its
/// own normal form, and running the machine on it is a no-op.
pub proof fn lemma_evaluated_is_fixed(t: Seq<MTok>)
    requires
        halted(t),
    ensures
        forall|n: nat| run(t, n) == t,
        normalizes_to(t, t),
{
    assert forall|n: nat| run(t, n) == t by {
        lemma_run_halted(t, n);
    }
    assert(run(t, 0) == t);
}

/// Parenthesis transparency: a term wrapped in one extra pair of
/// parentheses normalizes to exactly what the bare term normalizes to.
pub proof fn lemma_paren_transparent(u: Seq<MTok>, nf: Seq<MTok>)
    ensures
        normalizes_to(seq![MTok::Grp(u)], nf) <==> normalizes_to(u, nf),
{
    let t = seq![MTok::Grp(u)];
    assert(u + t.drop_first() =~= u);
    lemma_step_preserves_normal_form(t, u, nf);
}

/// Two terms that normalize to the same things end any run on the same
/// term, once the budget lets both halt.  This carries each rule law over
/// to the budgeted evaluation, whose result is exactly such a run.
pub proof fn lemma_same_run_result(a: Seq<MTok>, b: Seq<MTok>, na: nat, nb: nat, m: nat)
    requires
        halted(run(a, na)),
        na <= m,
        halted(run(b, nb)),
        nb <= m,
        forall|nf: Seq<MTok>| normalizes_to(a, nf) <==> normalizes_to(b, nf),
    ensures
        run(a, m) == run(b, m),
{
    lemma_halted_run_is_normal_form(a, na, m);
    lemma_halted_run_is_normal_form(b, nb, m);
    assert(normalizes_to(a, run(a, na)));
    assert(normalizes_to(b, run(a, na)));
    lemma_normal_form_unique(b, run(a, na), run(b, nb));
}

/// S-rule equivalence at the evaluator: evaluating `S x y z` and
/// evaluating `x z (y z)` with the same step budget end on the same term,
/// once the budget lets both runs halt.
pub proof fn lemma_s_rule_run(x: MTok, y: MTok, z: MTok, na: nat, nb: nat, m: nat)
    requires
        halted(run(seq![MTok::S, x, y, z], na)),
        na <= m,
        halted(run(seq![x, z, MTok::Grp(seq![y, z])], nb)),
        nb <= m,
    ensures
        run(seq![MTok::S, x, y, z], m) == run(seq![x, z, MTok::Grp(seq![y, z])], m),
{
    assert forall|nf: Seq<MTok>|
        normalizes_to(seq![MTok::S, x, y, z], nf) <==> normalizes_to(
            seq![x, z, MTok::Grp(seq![y, z])],
            nf,
        ) by {
        lemma_s_rule(x, y, z, nf);
    }
    lemma_same_run_result(seq![MTok::S, x, y, z], seq![x, z, MTok::Grp(seq![y, z])], na, nb, m);
}

/// K-rule equivalence at the evaluator: evaluating `K x y` and evaluating
/// `x` alone with the same step budget end on the same term, once the
/// budget lets both runs halt.
pub proof fn lemma_k_rule_run(x: MTok, y: MTok, na: nat, nb: nat, m: nat)
    requires
        halted(run(seq![MTok::K, x, y], na)),
        na <= m,
        halted(run(seq![x], nb)),
        nb <= m,
    ensures
        run(seq![MTok::K, x, y], m) == run(seq![x], m),
{
    assert forall|nf: Seq<MTok>|
        normalizes_to(seq![MTok::K, x, y], nf) <==> normalizes_to(seq![x], nf) by {
        lemma_k_rule(x, y, nf);
    }
    lemma_same_run_result(seq![MTok::K, x, y], seq![x], na, nb, m);
}

/// I-rule equivalence at the evaluator: evaluating `I x` and evaluating
/// `x` alone with the same step budget end on the same term, once the
/// budget lets both runs halt.
pub proof fn lemma_i_rule_run(x: MTok, na: nat, nb: nat, m: nat)
    requires
        halted(run(seq![MTok::I, x], na)),
        na <= m,
        halted(run(seq![x], nb)),
        nb <= m,
    ensures
        run(seq![MTok::I, x], m) == run(seq![x], m),
{
    assert forall|nf: Seq<MTok>|
        normalizes_to(seq![MTok::I, x], nf) <==> normalizes_to(seq![x], nf) by {
        lemma_i_rule(x, nf);
    }
    lemma_same_run_result(seq![MTok::I, x], seq![x], na, nb, m);
}

/// Parenthesis transparency at the evaluator: evaluating `(t)` and
/// evaluating `t` with the same step budget end on the same term, once the
/// budget lets both runs halt.
pub proof fn lemma_paren_transparent_run(u: Seq<MTok>, na: nat, nb: nat, m: nat)
    requires
        halted(run(seq![MTok::Grp(u)], na)),
        na <= m,
        halted(run(u, nb)),
        nb <= m,
    ensures
        run(seq![MTok::Grp(u)], m) == run(u, m),
{
    assert forall|nf: Seq<MTok>|
        normalizes_to(seq![MTok::Grp(u)], nf) <==> normalizes_to(u, nf) by {
        lemma_paren_transparent(u, nf);
    }
    lemma_same_run_result(seq![MTok::Grp(u)], u, na, nb, m);
}

/// Rendering a concatenation of terms concatenates their renderings.
pub proof fn lemma_render_append(a: Seq<MTok>, b: Seq<MTok>)
    ensures
        render_seq(a + b) == render_seq(a) + render_seq(b),
    decreases a,
{
    if a.len() == 0 {
        assert(a + b =~= b);
        assert(render_seq(a) + render_seq(b) =~= render_seq(b));
    } else {
        lemma_render_append(a.drop_first(), b);
        assert((a + b).drop_first() =~= a.drop_first() + b);
        assert((a + b)[0] == a[0]);
        assert(render_tok(a[0]) + (render_seq(a.drop_first()) + render_seq(b)) =~= (render_tok(
            a[0],
        ) + render_seq(a.drop_first())) + render_seq(b));
    }
}

/// Every character that rendering a token produces is its own upper-case
/// image.
proof fn lemma_render_tok_upcased(t: MTok)
    ensures
        upcase_seq(render_tok(t)) == render_tok(t),
    decreases t,
{
    match t {
        MTok::S => {
            assert(upcase_seq(render_tok(t)) =~= render_tok(t));
        },
        MTok::K => {
            assert(upcase_seq(render_tok(t)) =~= render_tok(t));
        },
        MTok::I => {
            assert(upcase_seq(render_tok(t)) =~= render_tok(t));
        },
        MTok::Grp(u) => {
            lemma_render_upcased(u);
            assert(upcase_seq(render_tok(t)) =~= render_tok(t));
        },
    }
}

/// Every character that rendering a term produces is its own upper-case
/// image, so upper-casing rendered text is a no-op.
proof fn lemma_render_upcased(t: Seq<MTok>)
    ensures
        upcase_seq(render_seq(t)) == render_seq(t),
    decreases t,
{
    if t.len() == 0 {
        assert(upcase_seq(render_seq(t)) =~= render_seq(t));
    } else {
        lemma_render_tok_upcased(t[0]);
        lemma_render_upcased(t.drop_first());
        assert(upcase_seq(render_seq(t)) =~= render_seq(t));
    }
}

/// Parsing consumes rendered text token by token: scanning the text of `t`
/// followed by anything else appends exactly `t` to the tokens gathered so
/// far and goes on with the remaining text.
proof fn lemma_parse_consumes_rendered(
    t: Seq<MTok>,
    rest: Seq<char>,
    stack: Seq<Seq<MTok>>,
    cur: Seq<MTok>,
)
    ensures
        parse_loop(render_seq(t) + rest, stack, cur) == parse_loop(rest, stack, cur + t),
    decreases t,
{
    if t.len() == 0 {
        assert(render_seq(t) + rest =~= rest);
        assert(cur + t =~= cur);
    } else {
        let t0 = t[0];
        let tr = t.drop_first();
        let s = render_seq(t) + rest;
        assert(s =~= render_tok(t0) + (render_seq(tr) + rest));
        match t0 {
            MTok::S => {
                assert(s[0] == 'S');
                assert(s.drop_first() =~= render_seq(tr) + rest);
                lemma_parse_consumes_rendered(tr, rest, stack, cur.push(MTok::S));
                assert(cur.push(MTok::S) + tr =~= cur + t);
            },
            MTok::K => {
                assert(s[0] == 'K');
                assert(s.drop_first() =~= render_seq(tr) + rest);
                lemma_parse_consumes_rendered(tr, rest, stack, cur.push(MTok::K));
                assert(cur.push(MTok::K) + tr =~= cur + t);
            },
            MTok::I => {
                assert(s[0] == 'I');
                assert(s.drop_first() =~= render_seq(tr) + rest);
                lemma_parse_consumes_rendered(tr, rest, stack, cur.push(MTok::I));
                assert(cur.push(MTok::I) + tr =~= cur + t);
            },
            MTok::Grp(u) => {
                assert(s[0] == '(');
                let s2 = seq![')'] + (render_seq(tr) + rest);
                assert(s.drop_first() =~= render_seq(u) + s2);
                lemma_parse_consumes_rendered(u, s2, stack.push(cur), Seq::empty());
                assert(Seq::<MTok>::empty() + u =~= u);
                assert(s2[0] == ')');
                assert(stack.push(cur).drop_last() =~= stack);
                assert(stack.push(cur).last() == cur);
                assert(s2.drop_first() =~= render_seq(tr) + rest);
                lemma_parse_consumes_rendered(tr, rest, stack, cur.push(MTok::Grp(u)));
                assert(cur.push(MTok::Grp(u)) + tr =~= cur + t);
            },
        }
    }
}

/// Round trip: rendering any term and re-parsing the rendered text yields
/// a structurally identical term.  In particular this holds of every term
/// the machine has halted on.
pub proof fn lemma_render_parse_round_trip(t: Seq<MTok>)
    ensures
        parse_spec(render_seq(t)) == Ok::<Seq<MTok>, ParseErr>(t),
{
    lemma_render_upcased(t);
    lemma_parse_consumes_rendered(t, Seq::empty(), Seq::empty(), Seq::empty());
    assert(render_seq(t) + Seq::<char>::empty() =~= render_seq(t));
    assert(Seq::<MTok>::empty() + t =~= t);
}

} // verus!
