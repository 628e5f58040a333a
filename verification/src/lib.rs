//! An evaluator for closed terms of the SKI combinator calculus.
//!
//! Terms are built from the primitive combinators `S`, `K` and `I` and
//! left-associative application, written as a token string with parentheses
//! for grouping.  The library parses such strings into a term tree, reduces
//! the tree toward normal form with leftmost-head rewriting, and reports
//! progress to attached observers.

pub mod engine;
pub mod laws;
pub mod model;
pub mod observer;
pub mod parser;
mod text;

pub use observer::LogEntry;
pub use observer::Observer;
pub use observer::Printer;
pub use observer::Signal;

use engine::{evaluation_delivered, CombinatoryTermImpl, EVAL_STEP_LIMIT};
use model::{err_msg, parse_spec, render_seq, run, MTok};
use vstd::prelude::*;

verus! {

/// The public handle around a combinator term: it owns the term tree and
/// the attached observers, evaluates the term in place, and renders it.
#[derive(Debug)]
pub struct CombinatoryTerm<O: Observer> {
    term: Box<CombinatoryTermImpl<O>>,
}

impl<O: Observer> CombinatoryTerm<O> {
    /// The term this handle owns.
    pub closed spec fn term_model(&self) -> Seq<MTok> {
        self.term.term_model()
    }

    /// The listeners attached so far, in attachment order.
    pub closed spec fn observer_model(&self) -> Seq<O> {
        self.term.observer_model()
    }

    /// Builds a term from a combinator string; the term is exactly what
    /// the model parse of the string yields, and a rejected string yields
    /// exactly the model's error message.
    pub fn new(token_seq: &str) -> (r: Result<Self, String>)
        ensures
            match r {
                Ok(t) => parse_spec(token_seq@) matches Ok(m) && t.term_model() == m,
                Err(m) => parse_spec(token_seq@) matches Err(e) && m@ == err_msg(e),
            },
    {
        match CombinatoryTermImpl::new(token_seq) {
            Ok(t) => Ok(CombinatoryTerm { term: Box::new(t) }),
            Err(m) => Err(m),
        }
    }

    /// Evaluates the term toward its normal form: machine steps are taken
    /// until none is available anywhere, or until the step limit is spent.
    /// Every attached listener hears, in attachment order, one
    /// `ComputationStart` with the starting term, one `ComputationStep` per
    /// rewrite rule fired anywhere in the tree, each with the term as it
    /// then stands, and one `ComputationEnd` with the final term.
    pub fn evaluate(&mut self)
        ensures
            final(self).term_model() == run(old(self).term_model(), EVAL_STEP_LIMIT as nat),
            final(self).observer_model().len() == old(self).observer_model().len(),
            forall|i: int|
                0 <= i < old(self).observer_model().len() ==> evaluation_delivered(
                    old(self).observer_model()[i],
                    #[trigger] final(self).observer_model()[i],
                    old(self).term_model(),
                ),
    {
        self.term.evaluate();
    }

    /// Attaches a listener that will hear about later evaluation calls.
    pub fn attach(&mut self, observer: O)
        ensures
            final(self).term_model() == old(self).term_model(),
            final(self).observer_model() == old(self).observer_model().push(observer),
    {
        self.term.attach(observer);
    }

    /// The surface text of the term.
    pub fn to_text(&self) -> (r: String)
        ensures
            r@ == render_seq(self.term_model()),
    {
        self.term.to_text()
    }

    /// The attached listeners, in attachment order.
    pub fn observers(&self) -> (r: &Vec<O>)
        ensures
            r@ == self.observer_model(),
    {
        self.term.observers()
    }
}

/// What the command line asked for: a script to run, or nothing, which
/// means interactive use.
#[derive(Debug)]
pub struct Config {
    filename: Option<String>,
}

impl Config {
    /// The file argument, if one was given.
    pub closed spec fn file_arg(&self) -> Option<Seq<char>> {
        match self.filename {
            Some(s) => Some(s@),
            None => None,
        }
    }

    /// Reads the argument list, program name first: no further argument
    /// means interactive use, one names a script, more is an error, and so
    /// is an empty list.
    pub fn parse(args: Vec<String>) -> (r: Result<Config, &'static str>)
        ensures
            match r {
                Ok(c) => (args@.len() == 1 && c.file_arg() is None) || (args@.len() == 2 && (
                c.file_arg() matches Some(f) && f == args@[1]@)),
                Err(m) => (args@.len() == 0 && m@ == "not enough args"@) || (args@.len() > 2
                    && m@ == "too many args"@),
            },
    {
        if args.len() == 0 {
            return Err("not enough args");
        }
        if args.len() > 2 {
            return Err("too many args");
        }
        if args.len() == 2 {
            let mut args = args;
            let name = args.pop().unwrap();
            Ok(Config { filename: Some(name) })
        } else {
            Ok(Config { filename: None })
        }
    }

    /// The file argument, for the shell that runs the configuration.
    pub fn filename(&self) -> (r: &Option<String>)
        ensures
            match r {
                Some(s) => self.file_arg() matches Some(f) && s@ == f,
                None => self.file_arg() is None,
            },
    {
        &self.filename
    }
}

} // verus!
