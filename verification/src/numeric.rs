//! Numeric values are IEEE 754 double-precision bit patterns, carried as
//! `u64`. The library never computes on them itself: every arithmetic step
//! is delegated to a caller-supplied closure (the numeric oracle), and the
//! contracts pin each result to the unique value a deterministic oracle can
//! return, written `arith_oracle(fa)`.

use vstd::prelude::*;

verus! {

/// One primitive numeric operation requested from the oracle.
///
/// Unary operations (`Neg`, `Sin`, `Cos`, `Tan`) receive the operand as the
/// first argument and `ZERO_BITS` as the unused second argument. `MaxStep`
/// and `MinStep` are the fold steps of the variadic functions: given the
/// accumulator and the next value, they keep the greater (respectively
/// smaller) of the two, preferring the accumulator on ties.
#[derive(Debug, PartialEq, Eq, Structural, Clone, Copy)]
pub enum NumericOp {
    Add,
    Sub,
    Mul,
    Div,
    Rem,
    Pow,
    Neg,
    Sin,
    Cos,
    Tan,
    MaxStep,
    MinStep,
}

/// Bit pattern of the double-precision value 1.0.
pub const ONE_BITS: u64 = 0x3FF0000000000000;

/// Bit pattern of the double-precision value 0.0.
pub const ZERO_BITS: u64 = 0;

/// Bit pattern of the double-precision value closest to the circle constant,
/// as the standard library defines it.
pub const PI_BITS: u64 = 0x400921FB54442D18;

/// Every argument triple is accepted by the oracle.
pub open spec fn arith_total<FA: Fn(NumericOp, u64, u64) -> u64>(fa: FA) -> bool {
    forall|op: NumericOp, a: u64, b: u64| call_requires(fa, (op, a, b))
}

/// The oracle can return at most one result for given arguments.
pub open spec fn arith_deterministic<FA: Fn(NumericOp, u64, u64) -> u64>(fa: FA) -> bool {
    forall|op: NumericOp, a: u64, b: u64, r1: u64, r2: u64|
        call_ensures(fa, (op, a, b), r1) && call_ensures(fa, (op, a, b), r2) ==> r1 == r2
}

/// The mathematical function computed by a deterministic, total oracle.
pub open spec fn arith_oracle<FA: Fn(NumericOp, u64, u64) -> u64>(fa: FA) -> spec_fn(
    NumericOp,
    u64,
    u64,
) -> u64 {
    |op: NumericOp, a: u64, b: u64| choose|r: u64| call_ensures(fa, (op, a, b), r)
}

/// Calling a total, deterministic oracle yields exactly `arith_oracle(fa)`.
pub proof fn lemma_arith_oracle_value<FA: Fn(NumericOp, u64, u64) -> u64>(
    fa: FA,
    op: NumericOp,
    a: u64,
    b: u64,
    r: u64,
)
    requires
        arith_deterministic(fa),
        call_ensures(fa, (op, a, b), r),
    ensures
        arith_oracle(fa)(op, a, b) == r,
{
    let picked = choose|r2: u64| call_ensures(fa, (op, a, b), r2);
    assert(call_ensures(fa, (op, a, b), picked));
}

/// Every string is accepted by the number parser.
pub open spec fn parse_total<FP: Fn(String) -> Option<u64>>(fp: FP) -> bool {
    forall|s: String| call_requires(fp, (s,))
}

/// The number parser's result depends on the characters of its input alone.
pub open spec fn parse_deterministic<FP: Fn(String) -> Option<u64>>(fp: FP) -> bool {
    forall|s1: String, s2: String, r1: Option<u64>, r2: Option<u64>|
        s1@ == s2@ && call_ensures(fp, (s1,), r1) && call_ensures(fp, (s2,), r2) ==> r1 == r2
}

/// The parser can return `r` on some string spelled `q`.
pub open spec fn parse_result_of<FP: Fn(String) -> Option<u64>>(
    fp: FP,
    q: Seq<char>,
    r: Option<u64>,
) -> bool {
    exists|s: String| s@ == q && #[trigger] call_ensures(fp, (s,), r)
}

/// The partial function from character sequences to bit patterns computed by
/// a deterministic, total number parser.
pub open spec fn parse_oracle<FP: Fn(String) -> Option<u64>>(fp: FP) -> spec_fn(Seq<char>) ->
    Option<u64> {
    |q: Seq<char>| choose|r: Option<u64>| parse_result_of(fp, q, r)
}

/// Calling a total, deterministic number parser yields exactly
/// `parse_oracle(fp)` of the input's characters.
pub proof fn lemma_parse_oracle_value<FP: Fn(String) -> Option<u64>>(
    fp: FP,
    s: String,
    r: Option<u64>,
)
    requires
        parse_deterministic(fp),
        call_ensures(fp, (s,), r),
    ensures
        parse_oracle(fp)(s@) == r,
{
    assert(parse_result_of(fp, s@, r));
    let picked = choose|r2: Option<u64>| parse_result_of(fp, s@, r2);
    assert(parse_result_of(fp, s@, picked));
    let s2 = choose|s2: String| s2@ == s@ && #[trigger] call_ensures(fp, (s2,), picked);
    assert(call_ensures(fp, (s2,), picked));
}

} // verus!
