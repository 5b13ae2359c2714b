//! The stack-based expression builder and the tree evaluator.
//!
//! `shunting_yard` turns a token sequence into a single expression tree,
//! honouring precedence and associativity; `eval_ast` walks a tree against
//! a variable context, delegating every numeric step to the caller's
//! oracle.

use vstd::prelude::*;

use crate::error::ExpressionError;
use crate::expression::{
    ast_view, ast_views, AbstractSyntaxTreeNode, Associativity, AstView, Function,
    InMemoryExpressionContext, Operator,
};
use crate::numeric::{
    arith_deterministic, arith_oracle, arith_total, lemma_arith_oracle_value, NumericOp, ZERO_BITS,
};

verus! {

broadcast use {vstd::std_specs::vec::axiom_vec_index_decreases, crate::expression::lemma_ast_views_elts};

/// The value of a well-formed tree under a variable binding and a numeric
/// oracle; `None` when a variable is unbound or a function application is
/// malformed (a trigonometric function given a parameter list, a parameter
/// list that is empty, or a unary node that does not negate).
pub open spec fn eval_spec(
    n: AstView,
    ctx: Map<Seq<char>, u64>,
    ga: spec_fn(NumericOp, u64, u64) -> u64,
) -> Option<u64>
    decreases n via eval_spec_decreases
{
    match n {
        AstView::Number(bits) => Some(bits),
        AstView::Variable(name) => if ctx.contains_key(name) {
            Some(ctx[name])
        } else {
            None
        },
        AstView::BinaryExpression { operator, left, right } => {
            if operator == Operator::Negative {
                None
            } else {
                match (eval_spec(*left, ctx, ga), eval_spec(*right, ctx, ga)) {
                    (Some(a), Some(b)) => Some(ga(operator.binary_op_spec(), a, b)),
                    _ => None,
                }
            }
        },
        AstView::UnaryExpression { operator, value } => {
            if operator != Operator::Negative {
                None
            } else {
                match eval_spec(*value, ctx, ga) {
                    Some(a) => Some(ga(NumericOp::Neg, a, ZERO_BITS)),
                    None => None,
                }
            }
        },
        AstView::FunctionExpression { func, expr } => {
            match eval_spec(*expr, ctx, ga) {
                Some(a) => match func {
                    Function::Sin => Some(ga(NumericOp::Sin, a, ZERO_BITS)),
                    Function::Cos => Some(ga(NumericOp::Cos, a, ZERO_BITS)),
                    Function::Tan => Some(ga(NumericOp::Tan, a, ZERO_BITS)),
                    Function::Max => Some(a),
                    Function::Min => Some(a),
                },
                None => None,
            }
        },
        AstView::FunctionParams { func, params } => {
            let op = match func {
                Function::Max => Some(NumericOp::MaxStep),
                Function::Min => Some(NumericOp::MinStep),
                _ => None::<NumericOp>,
            };
            match op {
                None => None,
                Some(op) => match eval_args_spec(params, ctx, ga) {
                    Some(vals) => if vals.len() == 0 {
                        None
                    } else {
                        Some(fold_from(vals, op, ga))
                    },
                    None => None,
                },
            }
        },
    }
}

/// The values of a parameter list, left to right; `None` as soon as one
/// parameter has no value.
pub open spec fn eval_args_spec(
    ps: Seq<AstView>,
    ctx: Map<Seq<char>, u64>,
    ga: spec_fn(NumericOp, u64, u64) -> u64,
) -> Option<Seq<u64>>
    decreases ps via eval_args_spec_decreases
{
    if ps.len() == 0 {
        Some(Seq::empty())
    } else {
        match (eval_spec(ps.first(), ctx, ga), eval_args_spec(
            ps.subrange(1, ps.len() as int),
            ctx,
            ga,
        )) {
            (Some(v), Some(vs)) => Some(seq![v] + vs),
            _ => None,
        }
    }
}

#[via_fn]
proof fn eval_spec_decreases(n: AstView, ctx: Map<Seq<char>, u64>, ga: spec_fn(NumericOp, u64, u64) -> u64) {
    match n {
        AstView::FunctionParams { func, params } => {
            assert(decreases_to!(n => params));
        },
        _ => {},
    }
}

#[via_fn]
proof fn eval_args_spec_decreases(
    ps: Seq<AstView>,
    ctx: Map<Seq<char>, u64>,
    ga: spec_fn(NumericOp, u64, u64) -> u64,
) {
    broadcast use vstd::seq::axiom_seq_index_decreases;
    broadcast use vstd::seq::axiom_seq_subrange_decreases;

    if ps.len() > 0 {
        assert(decreases_to!(ps => ps[0]));
        assert(decreases_to!(ps => ps.subrange(1, ps.len() as int)));
    }
}

/// The left fold of one oracle step over a non-empty value list, seeded
/// with its first element.
pub open spec fn fold_from(
    vals: Seq<u64>,
    op: NumericOp,
    ga: spec_fn(NumericOp, u64, u64) -> u64,
) -> u64
    recommends
        vals.len() >= 1,
    decreases vals.len(),
{
    if vals.len() <= 1 {
        vals[0]
    } else {
        ga(op, fold_from(vals.drop_last(), op, ga), vals.last())
    }
}

/// The value of a variadic application: every parameter evaluated left to
/// right, then folded one oracle step at a time. `None` when the list is
/// empty or some parameter has no value.
pub open spec fn fold_params_spec(
    ps: Seq<AstView>,
    ctx: Map<Seq<char>, u64>,
    ga: spec_fn(NumericOp, u64, u64) -> u64,
    op: NumericOp,
) -> Option<u64> {
    match eval_args_spec(ps, ctx, ga) {
        Some(vals) => if vals.len() == 0 {
            None
        } else {
            Some(fold_from(vals, op, ga))
        },
        None => None,
    }
}

/// How `eval_args_spec` relates to its elements.
pub broadcast proof fn lemma_eval_args_spec(
    ps: Seq<AstView>,
    ctx: Map<Seq<char>, u64>,
    ga: spec_fn(NumericOp, u64, u64) -> u64,
)
    ensures
        (#[trigger] eval_args_spec(ps, ctx, ga)) is Some <==> (forall|i: int|
            0 <= i < ps.len() ==> #[trigger] eval_spec(ps[i], ctx, ga) is Some),
        eval_args_spec(ps, ctx, ga) is Some ==> {
            let vals = eval_args_spec(ps, ctx, ga).unwrap();
            &&& vals.len() == ps.len()
            &&& forall|i: int|
                0 <= i < ps.len() ==> #[trigger] vals[i] == eval_spec(ps[i], ctx, ga).unwrap()
        },
    decreases ps.len(),
{
    if ps.len() > 0 {
        let rest = ps.subrange(1, ps.len() as int);
        lemma_eval_args_spec(rest, ctx, ga);
        assert(forall|i: int| 1 <= i < ps.len() ==> rest[i - 1] == ps[i]);
        if eval_spec(ps.first(), ctx, ga) is Some && eval_args_spec(rest, ctx, ga) is Some {
            let vals = eval_args_spec(ps, ctx, ga).unwrap();
            assert(vals == seq![eval_spec(ps.first(), ctx, ga).unwrap()] + eval_args_spec(
                rest,
                ctx,
                ga,
            ).unwrap());
            assert(forall|i: int|
                0 <= i < ps.len() ==> #[trigger] vals[i] == eval_spec(ps[i], ctx, ga).unwrap());
        } else {
            if eval_spec(ps.first(), ctx, ga) is None {
                assert(eval_spec(ps[0], ctx, ga) is None);
            } else {
                let j = choose|j: int|
                    0 <= j < rest.len() && #[trigger] eval_spec(rest[j], ctx, ga) is None;
                assert(eval_spec(ps[j + 1], ctx, ga) is None);
            }
        }
    }
}

/// Evaluates a tree against a variable context, requesting every numeric
/// step from the oracle `fa`; the result is exactly the mathematical
/// evaluation under the oracle's function.
pub fn eval_ast<FA: Fn(NumericOp, u64, u64) -> u64>(
    node: &AbstractSyntaxTreeNode,
    ctx: &InMemoryExpressionContext,
    fa: &FA,
) -> (r: Option<u64>)
    requires
        arith_total(*fa),
        arith_deterministic(*fa),
    ensures
        r == eval_spec(node@, ctx@, arith_oracle(*fa)),
    decreases node, 2int,
{
    let ghost ga = arith_oracle(*fa);
    match node {
        AbstractSyntaxTreeNode::Number(bits) => Some(*bits),
        AbstractSyntaxTreeNode::Variable(name) => ctx.get(name.as_str()),
        AbstractSyntaxTreeNode::BinaryExpression { operator, left, right } => {
            if *operator == Operator::Negative {
                return None;
            }
            let a = match eval_ast(left, ctx, fa) {
                Some(a) => a,
                None => {
                    return None;
                },
            };
            let b = match eval_ast(right, ctx, fa) {
                Some(b) => b,
                None => {
                    return None;
                },
            };
            let op = operator.binary_op();
            let v = fa(op, a, b);
            proof {
                lemma_arith_oracle_value(*fa, op, a, b, v);
            }
            Some(v)
        },
        AbstractSyntaxTreeNode::UnaryExpression { operator, value } => {
            if *operator != Operator::Negative {
                return None;
            }
            match eval_ast(value, ctx, fa) {
                Some(a) => {
                    let v = fa(NumericOp::Neg, a, ZERO_BITS);
                    proof {
                        lemma_arith_oracle_value(*fa, NumericOp::Neg, a, ZERO_BITS, v);
                    }
                    Some(v)
                },
                None => None,
            }
        },
        AbstractSyntaxTreeNode::FunctionExpression { func, expr } => {
            match eval_ast(expr, ctx, fa) {
                Some(a) => {
                    let un = match func {
                        Function::Sin => NumericOp::Sin,
                        Function::Cos => NumericOp::Cos,
                        Function::Tan => NumericOp::Tan,
                        Function::Max => {
                            return Some(a);
                        },
                        Function::Min => {
                            return Some(a);
                        },
                    };
                    let v = fa(un, a, ZERO_BITS);
                    proof {
                        lemma_arith_oracle_value(*fa, un, a, ZERO_BITS, v);
                    }
                    Some(v)
                },
                None => None,
            }
        },
        AbstractSyntaxTreeNode::FunctionParams { func, params } => {
            match func {
                Function::Max => crate::functions::max(params, ctx, fa),
                Function::Min => crate::functions::min(params, ctx, fa),
                _ => None,
            }
        },
    }
}

} // verus!

verus! {

use crate::tokenizer::{token_views, Token, TokenView};

/// How building a tree from tokens can fail.
pub enum BuildErr {
    MismatchedParens,
    MalformedExpression,
    ExtraOutput,
}

pub open spec fn build_err_message(e: BuildErr) -> Seq<char> {
    match e {
        BuildErr::MismatchedParens => "Mismatched parentheses"@,
        BuildErr::MalformedExpression => "Malformed expression"@,
        BuildErr::ExtraOutput => "Output queue contains more than 1 item"@,
    }
}

/// Reduces one operator: the unary negation consumes the most recent
/// subtree, every other operator consumes the two most recent subtrees; a
/// missing operand fails before any node is built.
pub open spec fn reduce_operator_spec(op: Operator, output: Seq<AstView>) -> Result<
    Seq<AstView>,
    BuildErr,
> {
    if op == Operator::Negative {
        if output.len() >= 1 {
            Ok(
                output.drop_last().push(
                    AstView::UnaryExpression {
                        operator: Operator::Negative,
                        value: Box::new(output.last()),
                    },
                ),
            )
        } else {
            Err(BuildErr::MalformedExpression)
        }
    } else {
        if output.len() >= 2 {
            Ok(
                output.take(output.len() - 2).push(
                    AstView::BinaryExpression {
                        operator: op,
                        left: Box::new(output[output.len() - 2]),
                        right: Box::new(output.last()),
                    },
                ),
            )
        } else {
            Err(BuildErr::MalformedExpression)
        }
    }
}

/// Reduces a function of `argc` arguments: the `argc` most recent subtrees,
/// in left-to-right order, become the call's arguments.
pub open spec fn reduce_function_spec(f: Function, argc: int, output: Seq<AstView>) -> Result<
    Seq<AstView>,
    BuildErr,
> {
    if 1 <= argc <= output.len() {
        let args = output.subrange(output.len() - argc, output.len() as int);
        let rest = output.take(output.len() - argc);
        if argc == 1 {
            Ok(rest.push(AstView::FunctionExpression { func: f, expr: Box::new(args[0]) }))
        } else {
            Ok(rest.push(AstView::FunctionParams { func: f, params: args }))
        }
    } else {
        Err(BuildErr::MalformedExpression)
    }
}

/// Pops operators that bind at least as tightly as the incoming `o1`.
pub open spec fn pop_greater_spec(
    o1: Operator,
    stack: Seq<TokenView>,
    output: Seq<AstView>,
) -> Result<(Seq<TokenView>, Seq<AstView>), BuildErr>
    decreases stack.len(),
{
    if stack.len() == 0 {
        Ok((stack, output))
    } else {
        match stack.last() {
            TokenView::Operator(o2) => if o2.prec_spec() > o1.prec_spec() || (o2.prec_spec()
                == o1.prec_spec() && o1.assoc_spec() == Associativity::Left) {
                match reduce_operator_spec(o2, output) {
                    Ok(out2) => pop_greater_spec(o1, stack.drop_last(), out2),
                    Err(e) => Err(e),
                }
            } else {
                Ok((stack, output))
            },
            _ => Ok((stack, output)),
        }
    }
}

/// Pops and reduces until an opening parenthesis is exposed (or the stack
/// empties), as a comma does to finish one argument.
pub open spec fn pop_to_left_spec(stack: Seq<TokenView>, output: Seq<AstView>) -> Result<
    (Seq<TokenView>, Seq<AstView>),
    BuildErr,
>
    decreases stack.len(),
{
    if stack.len() == 0 {
        Ok((stack, output))
    } else {
        match stack.last() {
            TokenView::Left => Ok((stack, output)),
            TokenView::Operator(op) => match reduce_operator_spec(op, output) {
                Ok(out2) => pop_to_left_spec(stack.drop_last(), out2),
                Err(e) => Err(e),
            },
            TokenView::Func(f) => match reduce_function_spec(f, 1, output) {
                Ok(out2) => pop_to_left_spec(stack.drop_last(), out2),
                Err(e) => Err(e),
            },
            _ => pop_to_left_spec(stack.drop_last(), output),
        }
    }
}

/// Closes one parenthesis group: pops and reduces until the matching
/// opening parenthesis, discards it, and, if a function is now exposed,
/// reduces it with one argument per comma boundary of the group. An
/// exhausted stack is a mismatched parenthesis.
pub open spec fn close_paren_spec(
    stack: Seq<TokenView>,
    counts: Seq<int>,
    output: Seq<AstView>,
) -> Result<(Seq<TokenView>, Seq<int>, Seq<AstView>), BuildErr>
    decreases stack.len(),
{
    if stack.len() == 0 {
        Err(BuildErr::MismatchedParens)
    } else {
        match stack.last() {
            TokenView::Left => {
                let st1 = stack.drop_last();
                let c = if counts.len() > 0 {
                    counts.last()
                } else {
                    0
                };
                let cnt1 = if counts.len() > 0 {
                    counts.drop_last()
                } else {
                    counts
                };
                if st1.len() > 0 {
                    match st1.last() {
                        TokenView::Func(f) => match reduce_function_spec(f, c + 1, output) {
                            Ok(out2) => Ok((st1.drop_last(), cnt1, out2)),
                            Err(e) => Err(e),
                        },
                        _ => Ok((st1, cnt1, output)),
                    }
                } else {
                    Ok((st1, cnt1, output))
                }
            },
            TokenView::Operator(op) => match reduce_operator_spec(op, output) {
                Ok(out2) => close_paren_spec(stack.drop_last(), counts, out2),
                Err(e) => Err(e),
            },
            TokenView::Func(f) => match reduce_function_spec(f, 1, output) {
                Ok(out2) => close_paren_spec(stack.drop_last(), counts, out2),
                Err(e) => Err(e),
            },
            _ => close_paren_spec(stack.drop_last(), counts, output),
        }
    }
}

/// Drains the stack at end of input: a leftover parenthesis is a mismatch,
/// and success requires exactly one finished tree on the output.
pub open spec fn finish_stack_spec(stack: Seq<TokenView>, output: Seq<AstView>) -> Result<
    AstView,
    BuildErr,
>
    decreases stack.len(),
{
    if stack.len() == 0 {
        if output.len() == 1 {
            Ok(output[0])
        } else if output.len() > 1 {
            Err(BuildErr::ExtraOutput)
        } else {
            Err(BuildErr::MalformedExpression)
        }
    } else {
        match stack.last() {
            TokenView::Left => Err(BuildErr::MismatchedParens),
            TokenView::Right => Err(BuildErr::MismatchedParens),
            TokenView::Operator(op) => match reduce_operator_spec(op, output) {
                Ok(out2) => finish_stack_spec(stack.drop_last(), out2),
                Err(e) => Err(e),
            },
            TokenView::Func(f) => match reduce_function_spec(f, 1, output) {
                Ok(out2) => finish_stack_spec(stack.drop_last(), out2),
                Err(e) => Err(e),
            },
            _ => finish_stack_spec(stack.drop_last(), output),
        }
    }
}

/// One pass of the builder from token `i` on, with the operator stack, the
/// per-parenthesis comma counts, and the output forest so far.
pub open spec fn sy_run(
    tokens: Seq<TokenView>,
    i: int,
    stack: Seq<TokenView>,
    counts: Seq<int>,
    output: Seq<AstView>,
) -> Result<AstView, BuildErr>
    decreases tokens.len() - i,
{
    if i < 0 || i >= tokens.len() {
        finish_stack_spec(stack, output)
    } else {
        match tokens[i] {
            TokenView::Number(b) => sy_run(tokens, i + 1, stack, counts, output.push(AstView::Number(b))),
            TokenView::Parameter(s) => sy_run(
                tokens,
                i + 1,
                stack,
                counts,
                output.push(AstView::Variable(s)),
            ),
            TokenView::Variable(s) => sy_run(
                tokens,
                i + 1,
                stack,
                counts,
                output.push(AstView::Variable(s)),
            ),
            TokenView::Func(f) => sy_run(tokens, i + 1, stack.push(TokenView::Func(f)), counts, output),
            TokenView::Operator(o1) => match pop_greater_spec(o1, stack, output) {
                Ok(so) => sy_run(
                    tokens,
                    i + 1,
                    so.0.push(TokenView::Operator(o1)),
                    counts,
                    so.1,
                ),
                Err(e) => Err(e),
            },
            TokenView::Comma => match pop_to_left_spec(stack, output) {
                Ok(so) => {
                    let cnt2 = if counts.len() > 0 {
                        counts.update(counts.len() - 1, counts.last() + 1)
                    } else {
                        counts
                    };
                    sy_run(tokens, i + 1, so.0, cnt2, so.1)
                },
                Err(e) => Err(e),
            },
            TokenView::Left => sy_run(
                tokens,
                i + 1,
                stack.push(TokenView::Left),
                counts.push(0),
                output,
            ),
            TokenView::Right => match close_paren_spec(stack, counts, output) {
                Ok(sco) => sy_run(tokens, i + 1, sco.0, sco.1, sco.2),
                Err(e) => Err(e),
            },
        }
    }
}

/// The tree the builder produces from a token sequence.
pub open spec fn shunting_yard_spec(tokens: Seq<TokenView>) -> Result<AstView, BuildErr> {
    sy_run(tokens, 0, Seq::empty(), Seq::empty(), Seq::empty())
}

pub open spec fn count_views(cs: Seq<usize>) -> Seq<int> {
    cs.map_values(|x: usize| x as int)
}

} // verus!

verus! {

fn reduce_operator(op: Operator, output: &mut Vec<AbstractSyntaxTreeNode>) -> (r: Result<
    (),
    ExpressionError,
>)
    ensures
        match reduce_operator_spec(op, ast_views(old(output)@)) {
            Ok(o) => r is Ok && ast_views(final(output)@) == o,
            Err(e) => r is Err && r->Err_0.spec_message() == build_err_message(e),
        },
{
    let ghost before = ast_views(old(output)@);
    if op == Operator::Negative {
        match output.pop() {
            Some(val) => {
                let ghost gval = val;
                output.push(
                    AbstractSyntaxTreeNode::UnaryExpression {
                        operator: Operator::Negative,
                        value: Box::new(val),
                    },
                );
                proof {
                    assert(ast_views(output@) =~= before.drop_last().push(
                        AstView::UnaryExpression {
                            operator: Operator::Negative,
                            value: Box::new(ast_view(gval)),
                        },
                    ));
                    assert(ast_view(gval) == before.last());
                }
                Ok(())
            },
            None => Err(ExpressionError::new("Malformed expression")),
        }
    } else {
        let right = match output.pop() {
            Some(v) => v,
            None => {
                return Err(ExpressionError::new("Malformed expression"));
            },
        };
        let left = match output.pop() {
            Some(v) => v,
            None => {
                return Err(ExpressionError::new("Malformed expression"));
            },
        };
        let ghost gl = left;
        let ghost gr = right;
        output.push(
            AbstractSyntaxTreeNode::BinaryExpression {
                operator: op,
                left: Box::new(left),
                right: Box::new(right),
            },
        );
        proof {
            assert(output@.drop_last() =~= old(output)@.take(before.len() - 2));
            assert(ast_views(output@) =~= before.take(before.len() - 2).push(
                AstView::BinaryExpression {
                    operator: op,
                    left: Box::new(ast_view(gl)),
                    right: Box::new(ast_view(gr)),
                },
            ));
            assert(ast_view(gl) == before[before.len() - 2]);
            assert(ast_view(gr) == before.last());
        }
        Ok(())
    }
}

fn reduce_function(f: Function, argc: usize, output: &mut Vec<AbstractSyntaxTreeNode>) -> (r:
    Result<(), ExpressionError>)
    ensures
        match reduce_function_spec(f, argc as int, ast_views(old(output)@)) {
            Ok(o) => r is Ok && ast_views(final(output)@) == o,
            Err(e) => r is Err && r->Err_0.spec_message() == build_err_message(e),
        },
{
    let ghost before = ast_views(old(output)@);
    if argc == 0 || output.len() < argc {
        return Err(ExpressionError::new("Malformed expression"));
    }
    let split = output.len() - argc;
    let mut args = output.split_off(split);
    let ghost gargs = args@;
    proof {
        assert(ast_views(output@) =~= before.take(before.len() - argc));
        assert(ast_views(gargs) =~= before.subrange(before.len() - argc, before.len() as int));
    }
    if argc == 1 {
        match args.pop() {
            Some(expr) => {
                let ghost ge = expr;
                output.push(
                    AbstractSyntaxTreeNode::FunctionExpression { func: f, expr: Box::new(expr) },
                );
                proof {
                    assert(ge == gargs[0]);
                    assert(ast_views(output@) =~= before.take(before.len() - 1).push(
                        AstView::FunctionExpression { func: f, expr: Box::new(ast_view(ge)) },
                    ));
                    assert(ast_view(ge) == ast_views(gargs)[0]);
                }
                Ok(())
            },
            None => {
                proof {
                    assert(false);
                }
                Err(ExpressionError::new("Malformed expression"))
            },
        }
    } else {
        output.push(AbstractSyntaxTreeNode::FunctionParams { func: f, params: args });
        proof {
            assert(ast_views(output@) =~= before.take(before.len() - argc).push(
                AstView::FunctionParams { func: f, params: ast_views(gargs) },
            ));
        }
        Ok(())
    }
}

fn pop_greater(o1: Operator, stack: &mut Vec<Token>, output: &mut Vec<AbstractSyntaxTreeNode>) -> (r:
    Result<(), ExpressionError>)
    ensures
        match pop_greater_spec(o1, token_views(old(stack)@), ast_views(old(output)@)) {
            Ok(so) => r is Ok && token_views(final(stack)@) == so.0 && ast_views(final(output)@)
                == so.1,
            Err(e) => r is Err && r->Err_0.spec_message() == build_err_message(e),
        },
    decreases stack@.len(),
{
    if stack.len() == 0 {
        return Ok(());
    }
    let qualifies = match &stack[stack.len() - 1] {
        Token::Operator(o2) => {
            let p2 = o2.prec();
            let p1 = o1.prec();
            p2 > p1 || (p2 == p1 && o1.assoc() == Associativity::Left)
        },
        _ => false,
    };
    if !qualifies {
        return Ok(());
    }
    match stack.pop() {
        Some(Token::Operator(o2)) => {
            proof {
                assert(token_views(stack@) =~= token_views(old(stack)@).drop_last());
            }
            match reduce_operator(o2, output) {
                Ok(_) => pop_greater(o1, stack, output),
                Err(e) => Err(e),
            }
        },
        _ => {
            proof {
                assert(false);
            }
            Err(ExpressionError::new("Malformed expression"))
        },
    }
}

fn pop_to_left(stack: &mut Vec<Token>, output: &mut Vec<AbstractSyntaxTreeNode>) -> (r: Result<
    (),
    ExpressionError,
>)
    ensures
        match pop_to_left_spec(token_views(old(stack)@), ast_views(old(output)@)) {
            Ok(so) => r is Ok && token_views(final(stack)@) == so.0 && ast_views(final(output)@)
                == so.1,
            Err(e) => r is Err && r->Err_0.spec_message() == build_err_message(e),
        },
    decreases stack@.len(),
{
    if stack.len() == 0 {
        return Ok(());
    }
    let stop = match &stack[stack.len() - 1] {
        Token::Left => true,
        _ => false,
    };
    if stop {
        return Ok(());
    }
    match stack.pop() {
        Some(top) => {
            proof {
                assert(token_views(stack@) =~= token_views(old(stack)@).drop_last());
            }
            match top {
                Token::Operator(o2) => match reduce_operator(o2, output) {
                    Ok(_) => pop_to_left(stack, output),
                    Err(e) => Err(e),
                },
                Token::Func(f) => match reduce_function(f, 1, output) {
                    Ok(_) => pop_to_left(stack, output),
                    Err(e) => Err(e),
                },
                _ => pop_to_left(stack, output),
            }
        },
        None => {
            proof {
                assert(false);
            }
            Err(ExpressionError::new("Malformed expression"))
        },
    }
}

fn close_paren(
    stack: &mut Vec<Token>,
    counts: &mut Vec<usize>,
    output: &mut Vec<AbstractSyntaxTreeNode>,
) -> (r: Result<(), ExpressionError>)
    requires
        forall|k: int| 0 <= k < old(counts)@.len() ==> old(counts)@[k] < usize::MAX,
    ensures
        match close_paren_spec(
            token_views(old(stack)@),
            count_views(old(counts)@),
            ast_views(old(output)@),
        ) {
            Ok(sco) => r is Ok && token_views(final(stack)@) == sco.0 && count_views(
                final(counts)@,
            ) == sco.1 && ast_views(final(output)@) == sco.2,
            Err(e) => r is Err && r->Err_0.spec_message() == build_err_message(e),
        },
    decreases stack@.len(),
{
    if stack.len() == 0 {
        return Err(ExpressionError::new("Mismatched parentheses"));
    }
    match stack.pop() {
        Some(Token::Left) => {
            proof {
                assert(token_views(stack@) =~= token_views(old(stack)@).drop_last());
            }
            let c: usize = match counts.pop() {
                Some(c) => {
                    proof {
                        assert(count_views(counts@) =~= count_views(old(counts)@).drop_last());
                    }
                    c
                },
                None => 0,
            };
            if stack.len() > 0 {
                let is_func = match &stack[stack.len() - 1] {
                    Token::Func(_) => true,
                    _ => false,
                };
                if is_func {
                    match stack.pop() {
                        Some(Token::Func(f)) => {
                            proof {
                                assert(token_views(stack@) =~= token_views(
                                    old(stack)@,
                                ).drop_last().drop_last());
                            }
                            reduce_function(f, c + 1, output)
                        },
                        _ => {
                            proof {
                                assert(false);
                            }
                            Err(ExpressionError::new("Malformed expression"))
                        },
                    }
                } else {
                    Ok(())
                }
            } else {
                Ok(())
            }
        },
        Some(Token::Operator(o2)) => {
            proof {
                assert(token_views(stack@) =~= token_views(old(stack)@).drop_last());
            }
            match reduce_operator(o2, output) {
                Ok(_) => close_paren(stack, counts, output),
                Err(e) => Err(e),
            }
        },
        Some(Token::Func(f)) => {
            proof {
                assert(token_views(stack@) =~= token_views(old(stack)@).drop_last());
            }
            match reduce_function(f, 1, output) {
                Ok(_) => close_paren(stack, counts, output),
                Err(e) => Err(e),
            }
        },
        Some(_) => {
            proof {
                assert(token_views(stack@) =~= token_views(old(stack)@).drop_last());
            }
            close_paren(stack, counts, output)
        },
        None => {
            proof {
                assert(false);
            }
            Err(ExpressionError::new("Malformed expression"))
        },
    }
}

fn finish_stack(stack: &mut Vec<Token>, output: &mut Vec<AbstractSyntaxTreeNode>) -> (r: Result<
    AbstractSyntaxTreeNode,
    ExpressionError,
>)
    ensures
        match finish_stack_spec(token_views(old(stack)@), ast_views(old(output)@)) {
            Ok(ast) => r is Ok && r->Ok_0@ == ast,
            Err(e) => r is Err && r->Err_0.spec_message() == build_err_message(e),
        },
    decreases stack@.len(),
{
    match stack.pop() {
        None => {
            if output.len() == 1 {
                match output.pop() {
                    Some(node) => Ok(node),
                    None => {
                        proof {
                            assert(false);
                        }
                        Err(ExpressionError::new("Malformed expression"))
                    },
                }
            } else if output.len() > 1 {
                Err(ExpressionError::new("Output queue contains more than 1 item"))
            } else {
                Err(ExpressionError::new("Malformed expression"))
            }
        },
        Some(Token::Left) => Err(ExpressionError::new("Mismatched parentheses")),
        Some(Token::Right) => Err(ExpressionError::new("Mismatched parentheses")),
        Some(Token::Operator(op)) => {
            proof {
                assert(token_views(stack@) =~= token_views(old(stack)@).drop_last());
            }
            match reduce_operator(op, output) {
                Ok(_) => finish_stack(stack, output),
                Err(e) => Err(e),
            }
        },
        Some(Token::Func(f)) => {
            proof {
                assert(token_views(stack@) =~= token_views(old(stack)@).drop_last());
            }
            match reduce_function(f, 1, output) {
                Ok(_) => finish_stack(stack, output),
                Err(e) => Err(e),
            }
        },
        Some(_) => {
            proof {
                assert(token_views(stack@) =~= token_views(old(stack)@).drop_last());
            }
            finish_stack(stack, output)
        },
    }
}

/// Builds one expression tree from the token sequence, honouring operator
/// precedence and associativity; fails on mismatched parentheses and on any
/// token arrangement that leaves an operand missing or an extra subtree
/// unconsumed.
pub fn shunting_yard(tokens: Vec<Token>) -> (r: Result<AbstractSyntaxTreeNode, ExpressionError>)
    ensures
        match shunting_yard_spec(token_views(tokens@)) {
            Ok(ast) => r is Ok && r->Ok_0@ == ast,
            Err(e) => r is Err && r->Err_0.spec_message() == build_err_message(e),
        },
{
    let ghost tv = token_views(tokens@);
    let mut stack: Vec<Token> = Vec::new();
    let mut counts: Vec<usize> = Vec::new();
    let mut output: Vec<AbstractSyntaxTreeNode> = Vec::new();
    proof {
        assert(token_views(stack@) =~= Seq::<TokenView>::empty());
        assert(count_views(counts@) =~= Seq::<int>::empty());
        assert(ast_views(output@) =~= Seq::<AstView>::empty());
    }
    let mut i: usize = 0;
    while i < tokens.len()
        invariant
            tv == token_views(tokens@),
            0 <= i <= tokens@.len(),
            forall|k: int| 0 <= k < counts@.len() ==> #[trigger] counts@[k] <= i,
            sy_run(tv, i as int, token_views(stack@), count_views(counts@), ast_views(output@))
                == shunting_yard_spec(tv),
        decreases tokens@.len() - i,
    {
        let ghost pre_stack = token_views(stack@);
        let ghost pre_counts = count_views(counts@);
        let ghost pre_counts_exec = counts@;
        let ghost pre_output = ast_views(output@);
        proof {
            assert(tv[i as int] == tokens@[i as int]@);
        }
        match &tokens[i] {
            Token::Number(b) => {
                output.push(AbstractSyntaxTreeNode::Number(*b));
                proof {
                    assert(ast_views(output@) =~= pre_output.push(AstView::Number(tokens@[i as int]@->Number_0)));
                }
            },
            Token::Parameter(s) => {
                let owned = s.clone();
                output.push(AbstractSyntaxTreeNode::Variable(owned));
                proof {
                    assert(ast_views(output@) =~= pre_output.push(AstView::Variable(tokens@[i as int]@->Parameter_0)));
                }
            },
            Token::Variable(s) => {
                let owned = s.clone();
                output.push(AbstractSyntaxTreeNode::Variable(owned));
                proof {
                    assert(ast_views(output@) =~= pre_output.push(AstView::Variable(tokens@[i as int]@->Variable_0)));
                }
            },
            Token::Func(f) => {
                stack.push(Token::Func(*f));
                proof {
                    assert(token_views(stack@) =~= pre_stack.push(TokenView::Func(*f)));
                }
            },
            Token::Operator(o1) => {
                let o1 = *o1;
                match pop_greater(o1, &mut stack, &mut output) {
                    Ok(_) => {
                        stack.push(Token::Operator(o1));
                        proof {
                            match pop_greater_spec(o1, pre_stack, pre_output) {
                                Ok(so) => {
                                    assert(token_views(stack@) =~= so.0.push(
                                        TokenView::Operator(o1),
                                    ));
                                },
                                Err(_) => {},
                            }
                        }
                    },
                    Err(e) => {
                        return Err(e);
                    },
                }
            },
            Token::Comma => {
                match pop_to_left(&mut stack, &mut output) {
                    Ok(_) => {
                        if counts.len() > 0 {
                            let ghost mid_counts = count_views(counts@);
                            let c: usize = match counts.pop() {
                                Some(c) => c,
                                None => 0,
                            };
                            counts.push(c + 1);
                            proof {
                                assert(count_views(counts@) =~= mid_counts.update(
                                    mid_counts.len() - 1,
                                    mid_counts.last() + 1,
                                ));
                            }
                        }
                    },
                    Err(e) => {
                        return Err(e);
                    },
                }
            },
            Token::Left => {
                stack.push(Token::Left);
                counts.push(0);
                proof {
                    assert(token_views(stack@) =~= pre_stack.push(TokenView::Left));
                    assert(count_views(counts@) =~= pre_counts.push(0));
                }
            },
            Token::Right => {
                match close_paren(&mut stack, &mut counts, &mut output) {
                    Ok(_) => {
                        proof {
                            lemma_close_paren_counts(pre_stack, pre_counts, pre_output);
                            match close_paren_spec(pre_stack, pre_counts, pre_output) {
                                Ok(sco) => {
                                    assert(count_views(counts@) == sco.1);
                                    assert forall|k: int|
                                        0 <= k < counts@.len() implies #[trigger] counts@[k]
                                        <= i by {
                                        assert(count_views(counts@)[k] == counts@[k] as int);
                                        assert(sco.1[k] == pre_counts[k]);
                                        assert(pre_counts[k] == pre_counts_exec[k] as int);
                                    }
                                },
                                Err(_) => {},
                            }
                        }
                    },
                    Err(e) => {
                        return Err(e);
                    },
                }
            },
        }
        i += 1;
    }
    finish_stack(&mut stack, &mut output)
}

/// On success, closing a parenthesis either keeps the comma counts or
/// drops the innermost one.
proof fn lemma_close_paren_counts(stack: Seq<TokenView>, counts: Seq<int>, output: Seq<AstView>)
    ensures
        match close_paren_spec(stack, counts, output) {
            Ok(sco) => sco.1 == counts || (counts.len() > 0 && sco.1 == counts.drop_last()),
            Err(_) => true,
        },
    decreases stack.len(),
{
    if stack.len() > 0 {
        match stack.last() {
            TokenView::Left => {},
            TokenView::Operator(op) => {
                match reduce_operator_spec(op, output) {
                    Ok(out2) => lemma_close_paren_counts(stack.drop_last(), counts, out2),
                    Err(_) => {},
                }
            },
            TokenView::Func(f) => {
                match reduce_function_spec(f, 1, output) {
                    Ok(out2) => lemma_close_paren_counts(stack.drop_last(), counts, out2),
                    Err(_) => {},
                }
            },
            _ => {
                lemma_close_paren_counts(stack.drop_last(), counts, output);
            },
        }
    }
}

} // verus!

verus! {

/// Evaluation is deterministic: the same tree, variable context and
/// numeric interpretation always yield the same result, so two runs of
/// `eval_ast` with one oracle return identical bit patterns.
pub proof fn lemma_eval_deterministic(
    n: AstView,
    ctx: Map<Seq<char>, u64>,
    ga: spec_fn(NumericOp, u64, u64) -> u64,
    r1: Option<u64>,
    r2: Option<u64>,
)
    requires
        r1 == eval_spec(n, ctx, ga),
        r2 == eval_spec(n, ctx, ga),
    ensures
        r1 == r2,
{
}

} // verus!
