//! Waveform signal sources: formulas parsed into expression trees and
//! evaluated against a parameter context.

pub mod parse;

use vstd::prelude::*;

use crate::error::{EvalError, EvalResult, ParseError};
use crate::fixed::{
    fp_abs, fp_abs_spec, fp_add, fp_add_spec, fp_cos, fp_cos_spec, fp_div, fp_div_spec, fp_half,
    fp_mod, fp_mod_spec, fp_mul, fp_mul_spec, fp_neg, fp_neg_spec, fp_sgn, fp_sgn_spec, fp_sin,
    fp_sin_spec, fp_sub, fp_sub_spec, tdiv, valid_amp, SCALE,
};
use crate::samplegen::{lookup, Params};
use crate::waveform::parse::{
    expr_view, expr_wf, parse_single, spec_parse, ExprV, Expression, InfixOp, PrefixOp,
};

verus! {

/// The result of a prefix operator on an amplitude.
pub open spec fn apply_prefix(op: PrefixOp, v: int) -> int {
    match op {
        PrefixOp::Negate => fp_neg_spec(v),
        PrefixOp::Abs => fp_abs_spec(v),
        PrefixOp::Sgn => fp_sgn_spec(v),
        PrefixOp::Sin => fp_sin_spec(v),
        PrefixOp::Cos => fp_cos_spec(v),
    }
}

/// The result of an infix operator on two amplitudes.
pub open spec fn apply_infix(op: InfixOp, a: int, b: int) -> int {
    match op {
        InfixOp::Add => fp_add_spec(a, b),
        InfixOp::Sub => fp_sub_spec(a, b),
        InfixOp::Mul => fp_mul_spec(a, b),
        InfixOp::Div => fp_div_spec(a, b),
        InfixOp::Mod => fp_mod_spec(a, b),
    }
}

/// The one value an expression evaluates to under a parameter context: a
/// literal is itself, an identifier is its bound value or an `Incomplete`
/// failure, operators apply to fully evaluated operands (the left one
/// first, so the left operand's failure wins).
pub open spec fn spec_eval(e: ExprV, p: Seq<(String, i64)>) -> Result<int, EvalError>
    decreases e,
{
    match e {
        ExprV::Number(n) => Ok(n),
        ExprV::Identifier(x) => match lookup(p, x) {
            Some(v) => Ok(v as int),
            None => Err(EvalError::Incomplete),
        },
        ExprV::Prefix(op, arg) => match spec_eval(*arg, p) {
            Ok(v) => Ok(apply_prefix(op, v)),
            Err(er) => Err(er),
        },
        ExprV::Infix(lhs, op, rhs) => match spec_eval(*lhs, p) {
            Ok(a) => match spec_eval(*rhs, p) {
                Ok(b) => Ok(apply_infix(op, a, b)),
                Err(er) => Err(er),
            },
            Err(er) => Err(er),
        },
    }
}

/// The carrier sample of a waveform: the raw evaluation result, or nothing
/// when evaluation fails.
pub open spec fn spec_wave_sample(e: ExprV, p: Seq<(String, i64)>) -> Option<int> {
    match spec_eval(e, p) {
        Ok(v) => Some(v),
        Err(_) => None,
    }
}

/// The modulation sample of a waveform: the evaluation result remapped
/// from the unit carrier range `[-1, 1]` into `[0, 1]`, or nothing when
/// evaluation fails.
pub open spec fn spec_wave_mod_sample(e: ExprV, p: Seq<(String, i64)>) -> Option<int> {
    match spec_eval(e, p) {
        Ok(v) => Some(tdiv(fp_add_spec(v, SCALE as int), 2)),
        Err(_) => None,
    }
}

/// A signal source defined by an arithmetic formula over the parameter
/// context.
pub struct Waveform {
    equation: Expression,
}

impl Waveform {
    /// The parsed formula.
    pub closed spec fn equation_view(&self) -> ExprV {
        expr_view(&self.equation)
    }

    /// Every literal of the formula is a representable amplitude.
    pub closed spec fn wf(&self) -> bool {
        expr_wf(self.equation_view())
    }

    /// Parse a formula into a waveform; a formula that does not parse is
    /// rejected with the parse failure.
    pub fn new(e: String) -> (r: Result<Waveform, ParseError>)
        ensures
            match r {
                Ok(w) => w.wf() && spec_parse(e@) == Ok::<_, ParseError>(w.equation_view()),
                Err(pe) => spec_parse(e@) == Err::<ExprV, _>(pe),
            },
    {
        match parse_single(e.as_str()) {
            Ok(eq) => Ok(Waveform { equation: eq }),
            Err(pe) => Err(pe),
        }
    }

    /// Evaluate an expression node against a parameter context, exactly as
    /// [`spec_eval`] states.
    fn eval(&self, exp: &Expression, p: &Params) -> (r: EvalResult<i64>)
        requires
            expr_wf(expr_view(exp)),
            p.wf(),
        ensures
            match r {
                Ok(v) => valid_amp(v as int) && spec_eval(expr_view(exp), p@) == Ok::<
                    _,
                    EvalError,
                >(v as int),
                Err(er) => spec_eval(expr_view(exp), p@) == Err::<int, _>(er),
            },
        decreases exp,
    {
        match exp {
            Expression::Number(n) => Ok(*n),
            Expression::Identifier(x) => match p.get(x.as_str()) {
                Some(v) => Ok(v),
                None => Err(EvalError::Incomplete),
            },
            Expression::Prefix(op, arg) => {
                let v = self.eval(arg, p)?;
                let n = match op {
                    PrefixOp::Negate => fp_neg(v),
                    PrefixOp::Abs => fp_abs(v),
                    PrefixOp::Sgn => fp_sgn(v),
                    PrefixOp::Sin => fp_sin(v),
                    PrefixOp::Cos => fp_cos(v),
                };
                Ok(n)
            },
            Expression::Infix(lhs, op, rhs) => {
                let a = self.eval(lhs, p)?;
                let b = self.eval(rhs, p)?;
                let n = match op {
                    InfixOp::Add => fp_add(a, b),
                    InfixOp::Sub => fp_sub(a, b),
                    InfixOp::Mul => fp_mul(a, b),
                    InfixOp::Div => fp_div(a, b),
                    InfixOp::Mod => fp_mod(a, b),
                };
                Ok(n)
            },
        }
    }

    /// A waveform needs no cache priming.
    pub fn cache(&mut self, _p: &Params)
        ensures
            *final(self) == *old(self),
    {
    }

    /// The carrier sample: the raw evaluation result.
    pub fn get_sample(&self, p: &Params) -> (r: Option<i64>)
        requires
            self.wf(),
            p.wf(),
        ensures
            match r {
                Some(v) => valid_amp(v as int) && spec_wave_sample(self.equation_view(), p@)
                    == Some(v as int),
                None => spec_wave_sample(self.equation_view(), p@) is None,
            },
    {
        match self.eval(&self.equation, p) {
            Ok(v) => Some(v),
            Err(_) => None,
        }
    }

    /// The modulation sample: the evaluation result remapped into `[0, 1]`
    /// for use as a depth multiplier.
    pub fn get_mod_sample(&self, p: &Params) -> (r: Option<i64>)
        requires
            self.wf(),
            p.wf(),
        ensures
            match r {
                Some(v) => valid_amp(v as int) && spec_wave_mod_sample(self.equation_view(), p@)
                    == Some(v as int),
                None => spec_wave_mod_sample(self.equation_view(), p@) is None,
            },
    {
        match self.eval(&self.equation, p) {
            Ok(v) => Some(fp_half(fp_add(v, SCALE))),
            Err(_) => None,
        }
    }
}

/// The whole formula `"x"` is one identifier, and evaluating it against
/// a context binding `x` to `v` returns exactly `v` — for every value.
pub proof fn lemma_identifier_round_trip(p: Seq<(String, i64)>, v: i64)
    requires
        lookup(p, "x"@) == Some(v),
    ensures
        spec_parse("x"@) == Ok::<_, ParseError>(ExprV::Identifier("x"@)),
        spec_eval(ExprV::Identifier("x"@), p) == Ok::<_, EvalError>(v as int),
{
    reveal_strlit("x");
    reveal_strlit("abs");
    reveal_strlit("sgn");
    reveal_strlit("sin");
    reveal_strlit("cos");
    let sx = "x"@;
    assert(sx.len() == 1);
    assert(sx[0] == 'x');
    assert(('x' as u32) == 120);
    reveal_with_fuel(crate::waveform::parse::spec_tokenize, 3);
    reveal_with_fuel(crate::waveform::parse::end_word, 3);
    let toks = crate::waveform::parse::spec_tokenize(sx);
    assert(crate::waveform::parse::end_word(sx, 1) == 1);
    assert(sx.subrange(0, 1) =~= sx);
    assert(sx.skip(1).len() == 0);
    assert(toks =~= seq![crate::waveform::parse::TokenV::Word(sx)]);
    reveal_with_fuel(crate::waveform::parse::spec_expr, 3);
    reveal_with_fuel(crate::waveform::parse::spec_nud, 3);
    reveal_with_fuel(crate::waveform::parse::spec_loop, 3);
    assert("abs"@.len() == 3 && "sgn"@.len() == 3 && "sin"@.len() == 3 && "cos"@.len() == 3);
    assert(crate::waveform::parse::spec_expr(toks, 0, 0) == Ok::<_, ParseError>(
        (ExprV::Identifier(sx), 1int),
    ));
}

/// Parsing then evaluating agrees with computing the formula directly
/// under standard precedence: for `a + b * c` the value is
/// `a + (b · c)` in saturating fixed point, for every context.
pub proof fn lemma_parse_eval_precedence(a: i64, b: i64, c: i64, p: Seq<(String, i64)>)
    ensures
        ({
            let toks = seq![
                crate::waveform::parse::TokenV::Number(a as int),
                crate::waveform::parse::TokenV::Plus,
                crate::waveform::parse::TokenV::Number(b as int),
                crate::waveform::parse::TokenV::Star,
                crate::waveform::parse::TokenV::Number(c as int),
            ];
            match crate::waveform::parse::spec_expr(toks, 0, 0) {
                Ok((e, _)) => spec_eval(e, p) == Ok::<_, EvalError>(
                    fp_add_spec(a as int, fp_mul_spec(b as int, c as int)),
                ),
                Err(_) => false,
            }
        }),
{
    reveal_with_fuel(spec_eval, 4);
    crate::waveform::parse::lemma_precedence_mul_right(a as int, b as int, c as int);
}

} // verus!
