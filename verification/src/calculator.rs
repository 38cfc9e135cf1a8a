//! The calculator facade: tokenizer, converter and evaluator in sequence,
//! with the most recent successful result remembered.

use vstd::prelude::*;
use crate::converter::spec_convert;
use crate::error::CalcError;
use crate::evaluator::spec_evaluate;
use crate::expression::Expression;
use crate::rational::Rat;
use crate::tokenizer::spec_tokenize;

verus! {

/// The outcome of evaluating the text `s`: tokenize, convert to postfix,
/// evaluate; the first failing stage's error is surfaced verbatim.
pub open spec fn spec_eval_text(s: Seq<char>) -> Result<Rat, CalcError> {
    match spec_tokenize(s) {
        Result::Err(e) => Err(e),
        Result::Ok(ts) => match spec_convert(ts) {
            Result::Err(e) => Err(e),
            Result::Ok(pf) => spec_evaluate(pf),
        },
    }
}

/// Evaluation is a pure function of the input text: two evaluations of
/// equal texts yield equal outcomes, values and errors alike. The `ensures`
/// of `Calc::evaluate` pins each exec outcome to `spec_eval_text`.
pub proof fn lemma_evaluate_pure(
    r1: Result<Rat, CalcError>,
    r2: Result<Rat, CalcError>,
    s1: Seq<char>,
    s2: Seq<char>,
)
    requires
        r1 == spec_eval_text(s1),
        r2 == spec_eval_text(s2),
        s1 == s2,
    ensures
        r1 == r2,
{
}

/// A calculator with one expression slot and the last successful result.
pub struct Calc {
    expression: Expression,
    result: Option<Rat>,
}

impl Calc {
    /// The most recent successful result, `None` before the first success.
    pub closed spec fn spec_result(self) -> Option<Rat> {
        self.result
    }

    /// A remembered result is a well-formed rational.
    pub open spec fn wf(self) -> bool {
        match self.spec_result() {
            Option::Some(r) => r.wf(),
            Option::None => true,
        }
    }

    /// Creates a new `Calc` with an empty expression and no result.
    pub fn new() -> (c: Calc)
        ensures
            c.spec_result() == Option::<Rat>::None,
            c.wf(),
    {
        Calc { expression: Expression::new(), result: None }
    }

    /// The most recent successful result.
    pub fn result(&self) -> (r: Option<Rat>)
        ensures
            r == self.spec_result(),
    {
        self.result
    }

    /// Evaluates `value`: tokenize, convert, evaluate. On success the
    /// result is remembered and returned; on any stage's failure that
    /// stage's error is returned unchanged and the previously remembered
    /// result is left untouched.
    pub fn evaluate(&mut self, value: &str) -> (r: Result<Rat, CalcError>)
        ensures
            r == spec_eval_text(value@),
            (match r {
                Result::Ok(v) => final (self).spec_result() == Some(v) && v.wf(),
                Result::Err(_) => final (self).spec_result() == old(self).spec_result(),
            }),
            old(self).wf() ==> final (self).wf(),
    {
        match self.expression.set(value) {
            Result::Err(e) => {
                return Err(e);
            },
            Result::Ok(_) => {},
        }
        match self.expression.dijkstrify() {
            Result::Err(e) => {
                return Err(e);
            },
            Result::Ok(_) => {},
        }
        match self.expression.calc() {
            Result::Err(e) => Err(e),
            Result::Ok(v) => {
                self.result = Some(v);
                Ok(v)
            },
        }
    }
}

} // verus!
