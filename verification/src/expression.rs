//! Operators, functions, and the abstract syntax tree of the expression
//! language.

use vstd::prelude::*;

use crate::numeric::NumericOp;

verus! {

#[derive(Debug, PartialEq, Eq, Structural, Clone, Copy)]
pub enum Operator {
    Addition,
    Subtraction,
    Multiplication,
    Division,
    Exponentiation,
    Modulus,
    Conversion,
    Negative,
}

#[derive(Debug, PartialEq, Eq, Structural, Clone, Copy)]
pub enum Associativity {
    Left,
    Right,
}

impl Operator {
    /// The associativity that groups equal-precedence neighbours.
    pub fn assoc(self) -> (r: Associativity)
        ensures
            r == self.assoc_spec(),
    {
        match self {
            Operator::Addition
            | Operator::Subtraction
            | Operator::Multiplication
            | Operator::Division
            | Operator::Modulus
            | Operator::Conversion => Associativity::Left,
            Operator::Exponentiation | Operator::Negative => Associativity::Right,
        }
    }

    pub open spec fn assoc_spec(self) -> Associativity {
        match self {
            Operator::Addition
            | Operator::Subtraction
            | Operator::Multiplication
            | Operator::Division
            | Operator::Modulus
            | Operator::Conversion => Associativity::Left,
            Operator::Exponentiation | Operator::Negative => Associativity::Right,
        }
    }

    /// The binding strength of the operator; larger binds tighter.
    pub fn prec(self) -> (r: u32)
        ensures
            r == self.prec_spec(),
    {
        match self {
            Operator::Conversion => 1,
            Operator::Addition | Operator::Subtraction => 2,
            Operator::Multiplication | Operator::Division | Operator::Modulus => 3,
            Operator::Exponentiation | Operator::Negative => 4,
        }
    }

    pub open spec fn prec_spec(self) -> u32 {
        match self {
            Operator::Conversion => 1,
            Operator::Addition | Operator::Subtraction => 2,
            Operator::Multiplication | Operator::Division | Operator::Modulus => 3,
            Operator::Exponentiation | Operator::Negative => 4,
        }
    }

    /// The numeric operation a binary node with this operator requests from
    /// the oracle. A conversion arrow between plain values adds them.
    pub open spec fn binary_op_spec(self) -> NumericOp {
        match self {
            Operator::Addition => NumericOp::Add,
            Operator::Subtraction => NumericOp::Sub,
            Operator::Multiplication => NumericOp::Mul,
            Operator::Division => NumericOp::Div,
            Operator::Modulus => NumericOp::Rem,
            Operator::Exponentiation => NumericOp::Pow,
            Operator::Conversion => NumericOp::Add,
            Operator::Negative => NumericOp::Neg,
        }
    }

    pub fn binary_op(self) -> (r: NumericOp)
        ensures
            r == self.binary_op_spec(),
    {
        match self {
            Operator::Addition => NumericOp::Add,
            Operator::Subtraction => NumericOp::Sub,
            Operator::Multiplication => NumericOp::Mul,
            Operator::Division => NumericOp::Div,
            Operator::Modulus => NumericOp::Rem,
            Operator::Exponentiation => NumericOp::Pow,
            Operator::Conversion => NumericOp::Add,
            Operator::Negative => NumericOp::Neg,
        }
    }
}

#[derive(Debug, PartialEq, Eq, Structural, Clone, Copy)]
pub enum Function {
    Max,
    Min,
    Sin,
    Cos,
    Tan,
}

/// A parsed expression tree. Every child is present: the builder fails
/// before constructing a node with a missing operand.
#[derive(Debug, PartialEq)]
pub enum AbstractSyntaxTreeNode {
    Number(u64),
    Variable(String),
    BinaryExpression { operator: Operator, left: Box<AbstractSyntaxTreeNode>, right: Box<
        AbstractSyntaxTreeNode,
    > },
    UnaryExpression { operator: Operator, value: Box<AbstractSyntaxTreeNode> },
    FunctionExpression { func: Function, expr: Box<AbstractSyntaxTreeNode> },
    FunctionParams { func: Function, params: Vec<AbstractSyntaxTreeNode> },
}

} // verus!

verus! {

broadcast use vstd::std_specs::vec::axiom_vec_index_decreases;

/// The mathematical shadow of an expression tree: identical to
/// `AbstractSyntaxTreeNode` except that variable names are character
/// sequences.
pub enum AstView {
    Number(u64),
    Variable(Seq<char>),
    BinaryExpression { operator: Operator, left: Box<AstView>, right: Box<AstView> },
    UnaryExpression { operator: Operator, value: Box<AstView> },
    FunctionExpression { func: Function, expr: Box<AstView> },
    FunctionParams { func: Function, params: Seq<AstView> },
}

pub open spec fn ast_view(n: AbstractSyntaxTreeNode) -> AstView
    decreases n via ast_view_decreases
{
    match n {
        AbstractSyntaxTreeNode::Number(n) => AstView::Number(n),
        AbstractSyntaxTreeNode::Variable(s) => AstView::Variable(s@),
        AbstractSyntaxTreeNode::BinaryExpression { operator, left, right } => {
            AstView::BinaryExpression {
                operator: operator,
                left: Box::new(ast_view(*left)),
                right: Box::new(ast_view(*right)),
            }
        },
        AbstractSyntaxTreeNode::UnaryExpression { operator, value } => {
            AstView::UnaryExpression { operator: operator, value: Box::new(ast_view(*value)) }
        },
        AbstractSyntaxTreeNode::FunctionExpression { func, expr } => {
            AstView::FunctionExpression { func: func, expr: Box::new(ast_view(*expr)) }
        },
        AbstractSyntaxTreeNode::FunctionParams { func, params } => {
            AstView::FunctionParams { func: func, params: ast_views(params@) }
        },
    }
}

pub open spec fn ast_views(ns: Seq<AbstractSyntaxTreeNode>) -> Seq<AstView>
    decreases ns via ast_views_decreases
{
    if ns.len() == 0 {
        Seq::empty()
    } else {
        seq![ast_view(ns.first())] + ast_views(ns.subrange(1, ns.len() as int))
    }
}

#[via_fn]
proof fn ast_views_decreases(ns: Seq<AbstractSyntaxTreeNode>) {
    broadcast use vstd::seq::axiom_seq_index_decreases;
    broadcast use vstd::seq::axiom_seq_subrange_decreases;

    if ns.len() > 0 {
        assert(decreases_to!(ns => ns[0]));
        assert(decreases_to!(ns => ns.subrange(1, ns.len() as int)));
    }
}

#[via_fn]
proof fn ast_view_decreases(n: AbstractSyntaxTreeNode) {
    broadcast use vstd::std_specs::vec::axiom_vec_decreases_to_view;

    match n {
        AbstractSyntaxTreeNode::FunctionParams { func, params } => {
            assert(decreases_to!(n => params));
            assert(decreases_to!(params => params@));
        },
        _ => {},
    }
}

impl View for AbstractSyntaxTreeNode {
    type V = AstView;

    open spec fn view(&self) -> AstView {
        ast_view(*self)
    }
}

} // verus!

verus! {

/// The variable bindings available while an expression is evaluated: a map
/// from variable name to numeric value in which a later binding of the same
/// name replaces the earlier one.
pub open spec fn vars_map(vs: Seq<(String, u64)>) -> Map<Seq<char>, u64>
    decreases vs.len(),
{
    if vs.len() == 0 {
        Map::empty()
    } else {
        vars_map(vs.drop_last()).insert(vs.last().0@, vs.last().1)
    }
}

#[derive(Debug)]
pub struct InMemoryExpressionContext {
    pub vars: Vec<(String, u64)>,
}

impl View for InMemoryExpressionContext {
    type V = Map<Seq<char>, u64>;

    open spec fn view(&self) -> Map<Seq<char>, u64> {
        vars_map(self.vars@)
    }
}

impl InMemoryExpressionContext {
    pub fn new() -> (r: InMemoryExpressionContext)
        ensures
            r@ == Map::<Seq<char>, u64>::empty(),
    {
        InMemoryExpressionContext { vars: Vec::new() }
    }

    pub fn default() -> (r: InMemoryExpressionContext)
        ensures
            r@ == Map::<Seq<char>, u64>::empty(),
    {
        InMemoryExpressionContext::new()
    }

    /// Binds `name` to `val`, replacing any earlier binding of `name`.
    pub fn var(&mut self, name: &str, val: u64)
        ensures
            final(self)@ == old(self)@.insert(name@, val),
    {
        let owned: String = name.to_owned();
        self.vars.push((owned, val));
        proof {
            assert(self.vars@.drop_last() =~= old(self).vars@);
        }
    }

    /// The value bound to `name`, if any.
    pub fn get(&self, name: &str) -> (r: Option<u64>)
        ensures
            r == (if self@.contains_key(name@) {
                Some(self@[name@])
            } else {
                None::<u64>
            }),
    {
        proof {
            assert(self.vars@.subrange(0, self.vars@.len() as int) =~= self.vars@);
        }
        self.get_from(self.vars.len(), name)
    }

    /// The value bound to `name` among the first `i` bindings.
    fn get_from(&self, i: usize, name: &str) -> (r: Option<u64>)
        requires
            i <= self.vars@.len(),
        ensures
            r == (if vars_map(self.vars@.subrange(0, i as int)).contains_key(name@) {
                Some(vars_map(self.vars@.subrange(0, i as int))[name@])
            } else {
                None::<u64>
            }),
        decreases i,
    {
        if i == 0 {
            proof {
                assert(self.vars@.subrange(0, 0) =~= Seq::<(String, u64)>::empty());
            }
            None
        } else {
            let ghost pre = self.vars@.subrange(0, i as int);
            proof {
                assert(pre.drop_last() =~= self.vars@.subrange(0, i - 1));
                assert(pre.last() == self.vars@[i - 1]);
            }
            if crate::chars::str_eq(self.vars[i - 1].0.as_str(), name) {
                Some(self.vars[i - 1].1)
            } else {
                self.get_from(i - 1, name)
            }
        }
    }
}

} // verus!

verus! {

/// `ast_views` is the element-wise image of `ast_view`.
pub broadcast proof fn lemma_ast_views_elts(ns: Seq<AbstractSyntaxTreeNode>)
    ensures
        (#[trigger] ast_views(ns)).len() == ns.len(),
        forall|i: int| 0 <= i < ns.len() ==> #[trigger] ast_views(ns)[i] == ast_view(ns[i]),
    decreases ns.len(),
{
    if ns.len() > 0 {
        let rest = ns.subrange(1, ns.len() as int);
        lemma_ast_views_elts(rest);
        assert(forall|i: int| 1 <= i < ns.len() ==> rest[i - 1] == ns[i]);
    }
}

} // verus!

verus! {

use crate::error::{ExpressionError, ParseError};
use crate::numeric::{
    arith_deterministic, arith_oracle, arith_total, parse_deterministic, parse_oracle, parse_total,
};
use crate::shunting_yard_algorithm::{
    build_err_message, eval_spec, shunting_yard, shunting_yard_spec, BuildErr,
};
use crate::tokenizer::{
    parse, token_views, tokenize_err_lexeme, tokenize_spec, Token, TokenView, TokenizeErr,
};

/// How turning text into an expression can fail: in the scanner or in the
/// tree builder.
pub enum ExprErr {
    Tok(TokenizeErr),
    Build(BuildErr),
}

pub open spec fn expr_err_message(e: ExprErr) -> Seq<char> {
    match e {
        ExprErr::Tok(t) => "Error while parsing token: "@ + tokenize_err_lexeme(t),
        ExprErr::Build(b) => build_err_message(b),
    }
}

/// The tree a piece of expression text denotes, under the number parser's
/// function `gp`.
pub open spec fn expression_spec(input: Seq<char>, gp: spec_fn(Seq<char>) -> Option<u64>) -> Result<
    AstView,
    ExprErr,
> {
    match tokenize_spec(input, 0, true, gp) {
        Err(e) => Err(ExprErr::Tok(e)),
        Ok(ts) => match shunting_yard_spec(ts) {
            Ok(a) => Ok(a),
            Err(e) => Err(ExprErr::Build(e)),
        },
    }
}

/// The names of the parameter and variable tokens, in order of appearance.
pub open spec fn params_of(ts: Seq<TokenView>) -> Seq<Seq<char>>
    decreases ts.len(),
{
    if ts.len() == 0 {
        Seq::empty()
    } else {
        params_of(ts.drop_last()) + (match ts.last() {
            TokenView::Parameter(s) => seq![s],
            TokenView::Variable(s) => seq![s],
            _ => Seq::empty(),
        })
    }
}

pub open spec fn str_views(ss: Seq<String>) -> Seq<Seq<char>> {
    ss.map_values(|s: String| s@)
}

/// A parsed expression, its source text, a private variable context, and
/// the names the expression reads from its context.
#[derive(Debug)]
pub struct Expression {
    pub ast: AbstractSyntaxTreeNode,
    pub expr: String,
    pub ctx: InMemoryExpressionContext,
    pub params: Vec<String>,
}

impl Expression {
    /// Scans and builds `input`; on success the tree is exactly the one
    /// the grammar gives the text, and `params` lists the variable names
    /// it will read.
    pub fn new<FP: Fn(String) -> Option<u64>>(input: &str, fp: &FP) -> (r: Result<
        Expression,
        ExpressionError,
    >)
        requires
            parse_total(*fp),
            parse_deterministic(*fp),
        ensures
            match expression_spec(input@, parse_oracle(*fp)) {
                Ok(a) => {
                    &&& r is Ok
                    &&& r->Ok_0.ast@ == a
                    &&& r->Ok_0.expr@ == input@
                    &&& r->Ok_0.ctx@ == Map::<Seq<char>, u64>::empty()
                    &&& str_views(r->Ok_0.params@) == params_of(
                        tokenize_spec(input@, 0, true, parse_oracle(*fp))->Ok_0,
                    )
                },
                Err(e) => r is Err && r->Err_0.spec_message() == expr_err_message(e),
            },
    {
        let expr: String = input.to_owned();
        let tokens = match parse(input, fp) {
            Ok(ts) => ts,
            Err(pe) => {
                return Err(ExpressionError::from_source("Error while parsing token: ", pe.token()));
            },
        };
        let ghost tviews = token_views(tokens@);
        let mut params: Vec<String> = Vec::new();
        proof {
            assert(str_views(params@) =~= params_of(tviews.take(0)));
        }
        let mut i: usize = 0;
        while i < tokens.len()
            invariant
                tviews == token_views(tokens@),
                0 <= i <= tokens@.len(),
                str_views(params@) == params_of(tviews.take(i as int)),
            decreases tokens@.len() - i,
        {
            let ghost pre = str_views(params@);
            match &tokens[i] {
                Token::Parameter(p) => {
                    params.push(p.clone());
                    proof {
                        assert(str_views(params@) =~= pre.push(tokens@[i as int]@->Parameter_0));
                    }
                },
                Token::Variable(p) => {
                    params.push(p.clone());
                    proof {
                        assert(str_views(params@) =~= pre.push(tokens@[i as int]@->Variable_0));
                    }
                },
                _ => {},
            }
            proof {
                assert(tviews.take(i + 1).drop_last() =~= tviews.take(i as int));
                assert(tviews.take(i + 1).last() == tviews[i as int]);
                assert(tviews[i as int] == tokens@[i as int]@);
            }
            i += 1;
        }
        proof {
            assert(tviews.take(tokens@.len() as int) =~= tviews);
        }
        let ast = match shunting_yard(tokens) {
            Ok(a) => a,
            Err(e) => {
                return Err(e);
            },
        };
        Ok(Expression { ast, expr, ctx: InMemoryExpressionContext::new(), params })
    }

    /// Evaluates against the expression's own (empty) context.
    pub fn eval<FA: Fn(NumericOp, u64, u64) -> u64>(&self, fa: &FA) -> (r: Result<
        u64,
        ExpressionError,
    >)
        requires
            arith_total(*fa),
            arith_deterministic(*fa),
        ensures
            match eval_spec(self.ast@, self.ctx@, arith_oracle(*fa)) {
                Some(v) => r is Ok && r->Ok_0 == v,
                None => r is Err && r->Err_0.spec_message()
                    == "Expression could not be evaluated"@,
            },
    {
        self.eval_with_ctx(&self.ctx, fa)
    }

    /// Evaluates against a caller-supplied context.
    pub fn eval_with_ctx<FA: Fn(NumericOp, u64, u64) -> u64>(
        &self,
        ctx: &InMemoryExpressionContext,
        fa: &FA,
    ) -> (r: Result<u64, ExpressionError>)
        requires
            arith_total(*fa),
            arith_deterministic(*fa),
        ensures
            match eval_spec(self.ast@, ctx@, arith_oracle(*fa)) {
                Some(v) => r is Ok && r->Ok_0 == v,
                None => r is Err && r->Err_0.spec_message()
                    == "Expression could not be evaluated"@,
            },
    {
        match crate::shunting_yard_algorithm::eval_ast(&self.ast, ctx, fa) {
            Some(v) => Ok(v),
            None => Err(ExpressionError::new("Expression could not be evaluated")),
        }
    }
}

} // verus!
