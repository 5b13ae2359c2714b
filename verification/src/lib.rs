//! An expression-evaluation engine and a graph-based unit-conversion
//! engine.
//!
//! Numeric values are IEEE 754 double-precision bit patterns carried as
//! `u64`; every arithmetic step and every number parse is delegated to
//! caller-supplied closures, so the engine itself is verified end to end
//! while the embedder chooses the floating-point implementation.

pub mod builder;
pub mod chars;
pub mod converter;
pub mod converter_error;
pub mod error;
pub mod expression;
pub mod functions;
pub mod graph;
pub mod numeric;
pub mod parser;
pub mod shunting_yard_algorithm;
pub mod tokenizer;
pub mod units;

use vstd::prelude::*;

use crate::error::ExpressionError;
use crate::expression::{expression_spec, expr_err_message, InMemoryExpressionContext};
use crate::numeric::{
    arith_deterministic, arith_oracle, arith_total, parse_deterministic, parse_oracle, parse_total,
    NumericOp,
};
use crate::shunting_yard_algorithm::eval_spec;

verus! {

/// Scans, builds and evaluates one expression with an empty variable
/// context: the result is the mathematical evaluation of the text's tree
/// under the caller's numeric interpretation.
pub fn eval<FA: Fn(NumericOp, u64, u64) -> u64, FP: Fn(String) -> Option<u64>>(
    input: &str,
    fa: &FA,
    fp: &FP,
) -> (r: Result<u64, ExpressionError>)
    requires
        arith_total(*fa),
        arith_deterministic(*fa),
        parse_total(*fp),
        parse_deterministic(*fp),
    ensures
        match expression_spec(input@, parse_oracle(*fp)) {
            Err(e) => r is Err && r->Err_0.spec_message() == expr_err_message(e),
            Ok(a) => match eval_spec(a, Map::<Seq<char>, u64>::empty(), arith_oracle(*fa)) {
                Some(v) => r is Ok && r->Ok_0 == v,
                None => r is Err && r->Err_0.spec_message()
                    == "Expression could not be evaluated"@,
            },
        },
{
    let expression = match crate::expression::Expression::new(input, fp) {
        Ok(e) => e,
        Err(e) => {
            return Err(e);
        },
    };
    expression.eval(fa)
}

} // verus!
