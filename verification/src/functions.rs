//! The variadic functions: a left fold over the evaluated parameters.

use vstd::prelude::*;

use crate::expression::{ast_view, ast_views, AbstractSyntaxTreeNode, InMemoryExpressionContext};
use crate::numeric::{
    arith_deterministic, arith_oracle, arith_total, lemma_arith_oracle_value, NumericOp,
};
use crate::shunting_yard_algorithm::{
    eval_args_spec, eval_ast, eval_spec, fold_from, fold_params_spec, lemma_eval_args_spec,
};

verus! {

broadcast use vstd::std_specs::vec::axiom_vec_index_decreases;

/// The greatest of the evaluated parameters, folded left to right; `None`
/// on an empty list or an unevaluable parameter.
pub fn max<FA: Fn(NumericOp, u64, u64) -> u64>(
    params: &Vec<AbstractSyntaxTreeNode>,
    ctx: &InMemoryExpressionContext,
    fa: &FA,
) -> (r: Option<u64>)
    requires
        arith_total(*fa),
        arith_deterministic(*fa),
    ensures
        r == fold_params_spec(ast_views(params@), ctx@, arith_oracle(*fa), NumericOp::MaxStep),
    decreases params, 1int,
{
    fold_params(params, ctx, fa, NumericOp::MaxStep)
}

/// The smallest of the evaluated parameters, folded left to right; `None`
/// on an empty list or an unevaluable parameter.
pub fn min<FA: Fn(NumericOp, u64, u64) -> u64>(
    params: &Vec<AbstractSyntaxTreeNode>,
    ctx: &InMemoryExpressionContext,
    fa: &FA,
) -> (r: Option<u64>)
    requires
        arith_total(*fa),
        arith_deterministic(*fa),
    ensures
        r == fold_params_spec(ast_views(params@), ctx@, arith_oracle(*fa), NumericOp::MinStep),
    decreases params, 1int,
{
    fold_params(params, ctx, fa, NumericOp::MinStep)
}

fn fold_params<FA: Fn(NumericOp, u64, u64) -> u64>(
    params: &Vec<AbstractSyntaxTreeNode>,
    ctx: &InMemoryExpressionContext,
    fa: &FA,
    op: NumericOp,
) -> (r: Option<u64>)
    requires
        arith_total(*fa),
        arith_deterministic(*fa),
    ensures
        r == fold_params_spec(ast_views(params@), ctx@, arith_oracle(*fa), op),
    decreases params, 0int,
{
    let ghost ga = arith_oracle(*fa);
    let ghost views = ast_views(params@);
    proof {
        crate::expression::lemma_ast_views_elts(params@);
        lemma_eval_args_spec(views, ctx@, ga);
    }
    let mut acc: Option<u64> = None;
    let ghost mut vals: Seq<u64> = Seq::empty();
    let mut j: usize = 0;
    while j < params.len()
        invariant
            arith_total(*fa),
            arith_deterministic(*fa),
            ga == arith_oracle(*fa),
            views == ast_views(params@),
            views.len() == params@.len(),
            forall|k: int| 0 <= k < params@.len() ==> views[k] == ast_view(params@[k]),
            0 <= j <= params@.len(),
            vals.len() == j,
            forall|k: int| 0 <= k < j ==> eval_spec(views[k], ctx@, ga) == Some(vals[k]),
            acc == (if j == 0 {
                None::<u64>
            } else {
                Some(fold_from(vals, op, ga))
            }),
        decreases params@.len() - j,
    {
        proof {
            assert(decreases_to!(params => params@[j as int]));
        }
        let ev = match eval_ast(&params[j], ctx, fa) {
            Some(v) => v,
            None => {
                proof {
                    lemma_eval_args_spec(views, ctx@, ga);
                    assert(eval_spec(views[j as int], ctx@, ga) is None);
                }
                return None;
            },
        };
        let ghost prev_vals = vals;
        proof {
            vals = prev_vals.push(ev);
            assert(vals.drop_last() =~= prev_vals);
        }
        match acc {
            Some(n) => {
                let stepped = fa(op, n, ev);
                proof {
                    lemma_arith_oracle_value(*fa, op, n, ev, stepped);
                }
                acc = Some(stepped);
            },
            None => {
                acc = Some(ev);
            },
        }
        j += 1;
    }
    proof {
        lemma_eval_args_spec(views, ctx@, ga);
        if params@.len() > 0 {
            assert(eval_args_spec(views, ctx@, ga) is Some);
            let spec_vals = eval_args_spec(views, ctx@, ga).unwrap();
            assert(vals =~= spec_vals);
        } else {
            assert(eval_args_spec(views, ctx@, ga) == Some(Seq::<u64>::empty()));
        }
    }
    acc
}

} // verus!
