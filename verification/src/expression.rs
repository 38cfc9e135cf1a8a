//! An owned, ordered sequence of tokens: the one mutable entity of the
//! engine. It is cleared and repopulated on every new input and has no
//! identity beyond the current input.

use vstd::prelude::*;
use crate::converter::convert;
use crate::converter::spec_convert;
use crate::error::CalcError;
use crate::evaluator::evaluate_postfix;
use crate::evaluator::spec_evaluate;
use crate::rational::Rat;
use crate::token::Token;
use crate::render::spec_token_str;
use crate::token::toks_wf;
use crate::tokenizer::spec_tokenize;
use crate::tokenizer::tokenize;

verus! {

/// The text of a token sequence: each token rendered, one space between
/// neighbours, nothing at either end.
pub open spec fn spec_expr_str(ts: Seq<Token>) -> Seq<char>
    decreases ts.len(),
{
    if ts.len() == 0 {
        Seq::<char>::empty()
    } else if ts.len() == 1 {
        spec_token_str(ts[0])
    } else {
        spec_expr_str(ts.drop_last()) + seq![' '] + spec_token_str(ts.last())
    }
}

/// A mathematical expression, held as its token sequence: infix after
/// `set` or `push`, postfix after `dijkstrify`.
#[derive(Debug)]
pub struct Expression {
    tokens: Vec<Token>,
}

impl Expression {
    /// The token sequence this expression holds.
    pub closed spec fn toks(self) -> Seq<Token> {
        self.tokens@
    }

    /// Every number token held is a well-formed rational. Everything that
    /// fills an `Expression` establishes this.
    pub open spec fn wf(self) -> bool {
        toks_wf(self.toks())
    }

    /// Creates a new empty expression.
    pub fn new() -> (e: Expression)
        ensures
            e.toks() == Seq::<Token>::empty(),
            e.wf(),
    {
        Expression { tokens: Vec::new() }
    }

    /// Replaces the held tokens with the tokenization of `text`; on a
    /// tokenization error the expression is left cleared.
    pub fn set(&mut self, text: &str) -> (r: Result<(), CalcError>)
        ensures
            (match r {
                Result::Ok(_) => spec_tokenize(text@) == Result::<Seq<Token>, CalcError>::Ok(
                    final (self).toks(),
                ),
                Result::Err(e) => spec_tokenize(text@) == Result::<Seq<Token>, CalcError>::Err(e)
                    && final (self).toks() == Seq::<Token>::empty(),
            }),
            final (self).wf(),
    {
        match tokenize(text) {
            Result::Ok(v) => {
                self.tokens = v;
                Ok(())
            },
            Result::Err(e) => {
                self.tokens = Vec::new();
                Err(e)
            },
        }
    }

    /// Appends the tokenization of `text` to the held tokens; on a
    /// tokenization error the expression is left unchanged.
    pub fn push(&mut self, text: &str) -> (r: Result<(), CalcError>)
        ensures
            (match r {
                Result::Ok(_) => spec_tokenize(text@) is Ok && final (self).toks() == old(
                    self,
                ).toks() + spec_tokenize(text@)->Ok_0,
                Result::Err(e) => spec_tokenize(text@) == Result::<Seq<Token>, CalcError>::Err(e)
                    && *final (self) == *old(self),
            }),
            old(self).wf() ==> final (self).wf(),
    {
        match tokenize(text) {
            Result::Ok(mut v) => {
                self.tokens.append(&mut v);
                Ok(())
            },
            Result::Err(e) => Err(e),
        }
    }

    /// Reorders the held tokens from infix to postfix (Reverse Polish)
    /// order with the shunting-yard algorithm; on a parenthesis error the
    /// expression is left unchanged.
    pub fn dijkstrify(&mut self) -> (r: Result<(), CalcError>)
        ensures
            (match r {
                Result::Ok(_) => spec_convert(old(self).toks()) == Result::<
                    Seq<Token>,
                    CalcError,
                >::Ok(final (self).toks()),
                Result::Err(e) => spec_convert(old(self).toks()) == Result::<
                    Seq<Token>,
                    CalcError,
                >::Err(e) && *final (self) == *old(self),
            }),
            old(self).wf() ==> final (self).wf(),
    {
        match convert(&self.tokens) {
            Result::Ok(v) => {
                self.tokens = v;
                Ok(())
            },
            Result::Err(e) => Err(e),
        }
    }

    /// Evaluates the held tokens, assumed to be in postfix order, on a
    /// value stack. The expression itself is left unchanged.
    pub fn calc(&mut self) -> (r: Result<Rat, CalcError>)
        requires
            old(self).wf(),
        ensures
            r == spec_evaluate(old(self).toks()),
            *final (self) == *old(self),
            r is Ok ==> r->Ok_0.wf(),
    {
        evaluate_postfix(&self.tokens)
    }

    /// Whether no tokens are held.
    pub fn empty(&self) -> (b: bool)
        ensures
            b == (self.toks().len() == 0),
    {
        self.tokens.len() == 0
    }

    /// Clears the held tokens.
    pub fn clear(&mut self)
        ensures
            final (self).toks() == Seq::<Token>::empty(),
            final (self).wf(),
    {
        self.tokens.clear();
    }

    /// Renders the held tokens, one space between neighbours.
    pub fn to_str(&self) -> (s: String)
        requires
            self.wf(),
        ensures
            s@ == spec_expr_str(self.toks()),
    {
        proof {
            reveal_strlit(" ");
        }
        let n: usize = self.tokens.len();
        let mut s = String::new();
        let mut i: usize = 0;
        while i < n
            invariant
                i <= n,
                n == self.tokens@.len(),
                toks_wf(self.tokens@),
                s@ == spec_expr_str(self.tokens@.take(i as int)),
            decreases n - i,
        {
            proof {
                reveal_strlit(" ");
                assert(self.tokens@.take(i as int + 1).drop_last() =~= self.tokens@.take(i as int));
                assert(self.tokens@.take(i as int + 1).last() == self.tokens@[i as int]);
            }
            if i > 0 {
                s.append(" ");
            }
            let ts = self.tokens[i].as_str();
            s.append(ts.as_str());
            proof {
                assert(s@ =~= spec_expr_str(self.tokens@.take(i as int + 1)));
            }
            i = i + 1;
        }
        proof {
            assert(self.tokens@.take(n as int) =~= self.tokens@);
        }
        s
    }

    /// A copy of the held tokens.
    pub fn get(&self) -> (v: Vec<Token>)
        ensures
            v@ == self.toks(),
    {
        let n: usize = self.tokens.len();
        let mut v: Vec<Token> = Vec::new();
        let mut i: usize = 0;
        while i < n
            invariant
                i <= n,
                n == self.tokens@.len(),
                v@ == self.tokens@.take(i as int),
            decreases n - i,
        {
            v.push(self.tokens[i]);
            proof {
                assert(self.tokens@.take(i as int).push(self.tokens@[i as int]) =~= self.tokens@
                    .take(i as int + 1));
            }
            i = i + 1;
        }
        proof {
            assert(self.tokens@.take(n as int) =~= self.tokens@);
        }
        v
    }
}

} // verus!
