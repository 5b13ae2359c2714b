//! Assembles a unit converter from conversion definitions and unit
//! abbreviations.

use vstd::prelude::*;

use crate::parser::UnitAbbreviation;

verus! {

/// One declared conversion: category, endpoints, and a constant factor or
/// a formula text.
#[derive(Debug)]
pub struct ConversionDefinition {
    pub category: String,
    pub from: String,
    pub to: String,
    pub val: ConversionValueDefinition,
}

#[derive(Debug)]
pub enum ConversionValueDefinition {
    Multiplier(u64),
    Expression(String),
}

/// Collects definitions and abbreviations, then builds the per-category
/// graphs.
pub struct UnitConverterBuilder {
    pub unit_types: Vec<String>,
    pub conversions: Vec<ConversionDefinition>,
    pub abbreviations: Vec<UnitAbbreviation>,
    pub auto_reverse: bool,
    pub cache: bool,
}

impl UnitConverterBuilder {
    pub fn new() -> (r: UnitConverterBuilder)
        ensures
            r.unit_types@.len() == 0,
            r.conversions@.len() == 0,
            r.abbreviations@.len() == 0,
            r.auto_reverse == false,
            r.cache == true,
    {
        UnitConverterBuilder {
            unit_types: Vec::new(),
            conversions: Vec::new(),
            abbreviations: Vec::new(),
            auto_reverse: false,
            cache: true,
        }
    }

    /// Whether a reversed edge with the reciprocal factor accompanies each
    /// declared multiplier.
    pub fn reverse_base_conversions(self, reversed: bool) -> (r: UnitConverterBuilder)
        ensures
            r.auto_reverse == reversed,
            r.cache == self.cache,
            r.unit_types == self.unit_types,
            r.conversions == self.conversions,
            r.abbreviations == self.abbreviations,
    {
        UnitConverterBuilder { auto_reverse: reversed, ..self }
    }

    /// Whether composed multipliers are memoized as new direct edges.
    pub fn cache_results(self, cache: bool) -> (r: UnitConverterBuilder)
        ensures
            r.cache == cache,
            r.auto_reverse == self.auto_reverse,
            r.unit_types == self.unit_types,
            r.conversions == self.conversions,
            r.abbreviations == self.abbreviations,
    {
        UnitConverterBuilder { cache, ..self }
    }

    /// Appends conversion definitions.
    pub fn add_base_conversions(self, conversions: Vec<ConversionDefinition>) -> (r:
        UnitConverterBuilder)
        ensures
            r.conversions@ == self.conversions@ + conversions@,
            r.unit_types == self.unit_types,
            r.abbreviations == self.abbreviations,
            r.auto_reverse == self.auto_reverse,
            r.cache == self.cache,
    {
        let mut me = self;
        let mut more = conversions;
        me.conversions.append(&mut more);
        me
    }
}

} // verus!

verus! {

use crate::chars::str_eq;
use crate::converter::{Conversion, UnitConverter};
use crate::converter_error::ConversionError;
use crate::expression::{
    expression_spec, str_views, AstView, Expression, ExprErr,
};
use crate::graph::{EdgeData, Graph, NodeData};
use crate::numeric::{
    arith_deterministic, arith_oracle, arith_total, lemma_arith_oracle_value, parse_deterministic,
    parse_oracle, parse_total, NumericOp, ONE_BITS,
};
use crate::parser::abbrev_views;

/// Whether a category name is already collected.
pub open spec fn contains_name(ts: Seq<Seq<char>>, t: Seq<char>) -> bool {
    exists|i: int| 0 <= i < ts.len() && ts[i] == t
}

/// The category list after folding in the categories of the given
/// abbreviations, in order of first appearance.
pub open spec fn collect_types(ts: Seq<Seq<char>>, us: Seq<crate::parser::AbbrevView>, j: int) -> Seq<
    Seq<char>,
>
    decreases us.len() - j,
{
    if j < 0 || j >= us.len() {
        ts
    } else {
        collect_types(
            if contains_name(ts, us[j].unit_type) {
                ts
            } else {
                ts.push(us[j].unit_type)
            },
            us,
            j + 1,
        )
    }
}

impl UnitConverterBuilder {
    /// Appends unit abbreviations and registers each new category, in
    /// order of first appearance.
    pub fn add_unit_definitions(self, units: Vec<UnitAbbreviation>) -> (r: UnitConverterBuilder)
        ensures
            r.abbreviations@ == self.abbreviations@ + units@,
            str_views(r.unit_types@) == collect_types(
                str_views(self.unit_types@),
                abbrev_views(units@),
                0,
            ),
            r.conversions == self.conversions,
            r.auto_reverse == self.auto_reverse,
            r.cache == self.cache,
    {
        let ghost uviews = abbrev_views(units@);
        let mut me = self;
        let mut j: usize = 0;
        while j < units.len()
            invariant
                uviews == abbrev_views(units@),
                0 <= j <= units@.len(),
                collect_types(str_views(me.unit_types@), uviews, j as int) == collect_types(
                    str_views(self.unit_types@),
                    uviews,
                    0,
                ),
                me.abbreviations == self.abbreviations,
                me.conversions == self.conversions,
                me.auto_reverse == self.auto_reverse,
                me.cache == self.cache,
            decreases units@.len() - j,
        {
            let ghost pre_types = str_views(me.unit_types@);
            proof {
                assert(uviews[j as int] == units@[j as int]@);
            }
            if !contains_type(&me.unit_types, units[j].unit_type.as_str()) {
                let t = units[j].unit_type.clone();
                me.unit_types.push(t);
                proof {
                    assert(str_views(me.unit_types@) =~= pre_types.push(uviews[j as int].unit_type));
                }
            }
            j += 1;
        }
        let mut more = units;
        me.abbreviations.append(&mut more);
        me
    }
}

/// Whether the list already holds the name.
fn contains_type(ts: &Vec<String>, t: &str) -> (r: bool)
    ensures
        r == contains_name(str_views(ts@), t@),
{
    let mut i: usize = 0;
    while i < ts.len()
        invariant
            0 <= i <= ts@.len(),
            forall|j: int| 0 <= j < i ==> (#[trigger] str_views(ts@)[j]) != t@,
        decreases ts@.len() - i,
    {
        if str_eq(ts[i].as_str(), t) {
            proof {
                assert(str_views(ts@)[i as int] == t@);
            }
            return true;
        }
        proof {
            assert(str_views(ts@)[i as int] == ts@[i as int]@);
        }
        i += 1;
    }
    proof {
        assert forall|i: int| 0 <= i < ts@.len() implies (#[trigger] str_views(ts@)[i]) != t@ by {}
    }
    false
}

/// The mathematical shadow of a per-category graph under construction.
#[verifier::ext_equal]
pub struct GraphModel {
    pub id: Seq<char>,
    pub nodes: Seq<NodeModel>,
    pub edges: Seq<(int, ConvView)>,
}

/// The mathematical shadow of one node: its unit name and its outgoing
/// edge indices.
#[verifier::ext_equal]
pub struct NodeModel {
    pub name: Seq<char>,
    pub adj: Seq<int>,
}

/// The mathematical shadow of an edge conversion.
pub enum ConvView {
    Multiplier(u64),
    Expression(AstView),
}

pub open spec fn conv_view(c: Conversion) -> ConvView {
    match c {
        Conversion::Multiplier(m) => ConvView::Multiplier(m),
        Conversion::Expression(e) => ConvView::Expression(e.ast@),
    }
}

pub open spec fn graph_model(g: Graph<String, Conversion>) -> GraphModel {
    GraphModel {
        id: g.id@,
        nodes: g.nodes@.map_values(
            |nd: NodeData<String>| NodeModel {
                name: nd.value@,
                adj: nd.edges@.map_values(|e: usize| e as int),
            },
        ),
        edges: g.edges@.map_values(|ed: EdgeData<Conversion>| (ed.target as int, conv_view(ed.weight))),
    }
}

pub open spec fn empty_model(id: Seq<char>) -> GraphModel {
    GraphModel { id, nodes: Seq::empty(), edges: Seq::empty() }
}

/// The index of the first model node named `name`.
pub open spec fn model_find(nodes: Seq<NodeModel>, name: Seq<char>) -> Option<int>
    decreases nodes.len(),
{
    if nodes.len() == 0 {
        None
    } else if nodes[0].name == name {
        Some(0)
    } else {
        match model_find(nodes.subrange(1, nodes.len() as int), name) {
            Some(i) => Some(i + 1),
            None => None,
        }
    }
}

/// Deduplicating node insertion on the model.
pub open spec fn model_add_node(m: GraphModel, name: Seq<char>) -> (GraphModel, int) {
    match model_find(m.nodes, name) {
        Some(i) => (m, i),
        None => (
            GraphModel {
                id: m.id,
                nodes: m.nodes.push(NodeModel { name, adj: Seq::empty() }),
                edges: m.edges,
            },
            m.nodes.len() as int,
        ),
    }
}

/// Edge insertion on the model; out-of-range endpoints leave it unchanged.
pub open spec fn model_add_edge(m: GraphModel, s: int, t: int, w: ConvView) -> GraphModel {
    if 0 <= s < m.nodes.len() && 0 <= t < m.nodes.len() {
        GraphModel {
            id: m.id,
            nodes: m.nodes.update(
                s,
                NodeModel {
                    name: m.nodes[s].name,
                    adj: m.nodes[s].adj.push(m.edges.len() as int),
                },
            ),
            edges: m.edges.push((t, w)),
        }
    } else {
        m
    }
}

/// Node lookup agrees between a graph and its model.
pub proof fn lemma_model_find(nodes: Seq<NodeData<String>>, name: Seq<char>)
    ensures
        crate::converter::find_node_by_name(nodes, name) == model_find(
            nodes.map_values(
                |nd: NodeData<String>| NodeModel {
                    name: nd.value@,
                    adj: nd.edges@.map_values(|e: usize| e as int),
                },
            ),
            name,
        ),
    decreases nodes.len(),
{
    let mnodes = nodes.map_values(
        |nd: NodeData<String>| NodeModel {
            name: nd.value@,
            adj: nd.edges@.map_values(|e: usize| e as int),
        },
    );
    if nodes.len() > 0 {
        if nodes[0].value@ == name {
        } else {
            lemma_model_find(nodes.subrange(1, nodes.len() as int), name);
            assert(nodes.subrange(1, nodes.len() as int).map_values(
                |nd: NodeData<String>| NodeModel {
                    name: nd.value@,
                    adj: nd.edges@.map_values(|e: usize| e as int),
                },
            ) =~= mnodes.subrange(1, mnodes.len() as int));
        }
    }
}

} // verus!

verus! {

/// The mathematical shadow of a conversion definition.
pub struct DefView {
    pub category: Seq<char>,
    pub from: Seq<char>,
    pub to: Seq<char>,
    pub val: DefValView,
}

pub enum DefValView {
    Multiplier(u64),
    Expression(Seq<char>),
}

impl View for ConversionDefinition {
    type V = DefView;

    open spec fn view(&self) -> DefView {
        DefView {
            category: self.category@,
            from: self.from@,
            to: self.to@,
            val: match self.val {
                ConversionValueDefinition::Multiplier(m) => DefValView::Multiplier(m),
                ConversionValueDefinition::Expression(ref e) => DefValView::Expression(e@),
            },
        }
    }
}

pub open spec fn def_views(ds: Seq<ConversionDefinition>) -> Seq<DefView> {
    ds.map_values(|d: ConversionDefinition| d@)
}

pub open spec fn graph_models(gs: Seq<Graph<String, Conversion>>) -> Seq<GraphModel> {
    gs.map_values(|g: Graph<String, Conversion>| graph_model(g))
}

/// One category's graph: every definition of the category, in order,
/// inserts its endpoints (deduplicated) and its edge; a multiplier also
/// inserts the reciprocal edge when reversal is on, and a formula text is
/// scanned and built, failing the whole build when it is malformed.
pub open spec fn build_cat(
    cat: Seq<char>,
    defs: Seq<DefView>,
    j: int,
    m: GraphModel,
    auto_reverse: bool,
    gp: spec_fn(Seq<char>) -> Option<u64>,
    ga: spec_fn(NumericOp, u64, u64) -> u64,
) -> Result<GraphModel, ()>
    decreases defs.len() - j,
{
    if j < 0 || j >= defs.len() {
        Ok(m)
    } else if defs[j].category != cat {
        build_cat(cat, defs, j + 1, m, auto_reverse, gp, ga)
    } else {
        let (m1, n0) = model_add_node(m, defs[j].from);
        let (m2, n1) = model_add_node(m1, defs[j].to);
        match defs[j].val {
            DefValView::Multiplier(x) => {
                let m3 = model_add_edge(m2, n0, n1, ConvView::Multiplier(x));
                let m4 = if auto_reverse {
                    model_add_edge(
                        m3,
                        n1,
                        n0,
                        ConvView::Multiplier(ga(NumericOp::Div, ONE_BITS, x)),
                    )
                } else {
                    m3
                };
                build_cat(cat, defs, j + 1, m4, auto_reverse, gp, ga)
            },
            DefValView::Expression(txt) => match expression_spec(txt, gp) {
                Err(_) => Err(()),
                Ok(ast) => build_cat(
                    cat,
                    defs,
                    j + 1,
                    model_add_edge(m2, n0, n1, ConvView::Expression(ast)),
                    auto_reverse,
                    gp,
                    ga,
                ),
            },
        }
    }
}

/// The graphs of all collected categories, in order.
pub open spec fn build_all(
    cats: Seq<Seq<char>>,
    k: int,
    defs: Seq<DefView>,
    auto_reverse: bool,
    gp: spec_fn(Seq<char>) -> Option<u64>,
    ga: spec_fn(NumericOp, u64, u64) -> u64,
) -> Result<Seq<GraphModel>, ()>
    decreases cats.len() - k,
{
    if k < 0 || k >= cats.len() {
        Ok(Seq::empty())
    } else {
        match build_cat(cats[k], defs, 0, empty_model(cats[k]), auto_reverse, gp, ga) {
            Err(e) => Err(e),
            Ok(m) => match build_all(cats, k + 1, defs, auto_reverse, gp, ga) {
                Err(e) => Err(e),
                Ok(ms) => Ok(seq![m] + ms),
            },
        }
    }
}

/// Appending one edge to a graph appends it to the model.
proof fn lemma_model_after_add_edge(
    pre: Graph<String, Conversion>,
    post: Graph<String, Conversion>,
    s: usize,
    t: usize,
    w: Conversion,
)
    requires
        (s as int) < pre.nodes@.len(),
        (t as int) < pre.nodes@.len(),
        post.edges@ == pre.edges@.push(EdgeData { target: t, weight: w }),
        post.nodes@.len() == pre.nodes@.len(),
        post.nodes@[s as int].value == pre.nodes@[s as int].value,
        post.nodes@[s as int].edges@ == pre.nodes@[s as int].edges@.push(
            pre.edges@.len() as usize,
        ),
        forall|k: int|
            0 <= k < pre.nodes@.len() && k != s ==> post.nodes@[k] == pre.nodes@[k],
        post.id == pre.id,
    ensures
        graph_model(post) == model_add_edge(graph_model(pre), s as int, t as int, conv_view(w)),
{
    let mp = graph_model(pre);
    let mq = graph_model(post);
    let target = model_add_edge(mp, s as int, t as int, conv_view(w));
    assert(pre.edges@.len() == pre.edges.len());
    assert(mq.edges =~= target.edges);
    assert forall|q: int| 0 <= q < mq.nodes.len() implies mq.nodes[q] == target.nodes[q] by {
        if q == s {
            assert(mq.nodes[q].name == target.nodes[q].name);
            assert(mq.nodes[q].adj =~= target.nodes[q].adj);
            assert(mq.nodes[q] =~= target.nodes[q]);
        } else {
            assert(mq.nodes[q] == target.nodes[q]);
        }
    }
    assert(mq.nodes =~= target.nodes);
    assert(mq =~= target);
}

impl UnitConverterBuilder {
    /// Builds the per-category graphs from the collected definitions: one
    /// graph per registered category, populated in definition order, with
    /// formula texts parsed into expression edges. A malformed formula
    /// fails the build.
    pub fn build<FA: Fn(NumericOp, u64, u64) -> u64, FP: Fn(String) -> Option<u64>>(
        self,
        fa: &FA,
        fp: &FP,
    ) -> (r: Result<UnitConverter, ConversionError>)
        requires
            arith_total(*fa),
            arith_deterministic(*fa),
            parse_total(*fp),
            parse_deterministic(*fp),
        ensures
            match build_all(
                str_views(self.unit_types@),
                0,
                def_views(self.conversions@),
                self.auto_reverse,
                parse_oracle(*fp),
                arith_oracle(*fa),
            ) {
                Ok(ms) => {
                    &&& r is Ok
                    &&& r->Ok_0.wf()
                    &&& r->Ok_0.cache == self.cache
                    &&& r->Ok_0.abbreviations == self.abbreviations
                    &&& graph_models(r->Ok_0.graph@) == ms
                },
                Err(_) => r is Err && r->Err_0.spec_message() == Some(""@),
            },
    {
        let ghost ga = arith_oracle(*fa);
        let ghost gp = parse_oracle(*fp);
        let ghost cats = str_views(self.unit_types@);
        let ghost defs = def_views(self.conversions@);
        let mut graphs: Vec<Graph<String, Conversion>> = Vec::new();
        let mut k: usize = 0;
        while k < self.unit_types.len()
            invariant
                arith_total(*fa),
                arith_deterministic(*fa),
                parse_total(*fp),
                parse_deterministic(*fp),
                ga == arith_oracle(*fa),
                gp == parse_oracle(*fp),
                cats == str_views(self.unit_types@),
                defs == def_views(self.conversions@),
                0 <= k <= self.unit_types@.len(),
                forall|kk: int| 0 <= kk < graphs@.len() ==> (#[trigger] graphs@[kk]).wf(),
                match build_all(cats, k as int, defs, self.auto_reverse, gp, ga) {
                    Ok(ms_rest) => build_all(cats, 0, defs, self.auto_reverse, gp, ga) == Ok::<
                        Seq<GraphModel>,
                        (),
                    >(graph_models(graphs@) + ms_rest),
                    Err(e) => build_all(cats, 0, defs, self.auto_reverse, gp, ga) == Err::<
                        Seq<GraphModel>,
                        (),
                    >(e),
                },
            decreases self.unit_types@.len() - k,
        {
            let mut graph: Graph<String, Conversion> = Graph::new(self.unit_types[k].clone());
            proof {
                assert(cats[k as int] == self.unit_types@[k as int]@);
                assert(graph_model(graph) =~~= empty_model(cats[k as int]));
            }
            let mut j: usize = 0;
            while j < self.conversions.len()
                invariant
                    arith_total(*fa),
                    arith_deterministic(*fa),
                    parse_total(*fp),
                    parse_deterministic(*fp),
                    ga == arith_oracle(*fa),
                    gp == parse_oracle(*fp),
                    cats == str_views(self.unit_types@),
                    defs == def_views(self.conversions@),
                    k < self.unit_types@.len(),
                    0 <= j <= self.conversions@.len(),
                    graph.wf(),
                    forall|kk: int| 0 <= kk < graphs@.len() ==> (#[trigger] graphs@[kk]).wf(),
                    match build_all(cats, k as int, defs, self.auto_reverse, gp, ga) {
                        Ok(ms_rest) => build_all(cats, 0, defs, self.auto_reverse, gp, ga) == Ok::<
                            Seq<GraphModel>,
                            (),
                        >(graph_models(graphs@) + ms_rest),
                        Err(e) => build_all(cats, 0, defs, self.auto_reverse, gp, ga) == Err::<
                            Seq<GraphModel>,
                            (),
                        >(e),
                    },
                    build_cat(
                        cats[k as int],
                        defs,
                        j as int,
                        graph_model(graph),
                        self.auto_reverse,
                        gp,
                        ga,
                    ) == build_cat(
                        cats[k as int],
                        defs,
                        0,
                        empty_model(cats[k as int]),
                        self.auto_reverse,
                        gp,
                        ga,
                    ),
                decreases self.conversions@.len() - j,
            {
                let def = &self.conversions[j];
                proof {
                    assert(defs[j as int] == self.conversions@[j as int]@);
                }
                if str_eq(def.category.as_str(), self.unit_types[k].as_str()) {
                    let ghost m0 = graph_model(graph);
                    let from_name = def.from.clone();
                    let ghost gfrom = from_name;
                    proof {
                        crate::graph::lemma_find_node(graph.nodes@, gfrom);
                        crate::converter::lemma_find_node_by_name(graph.nodes@, gfrom);
                        lemma_model_find(graph.nodes@, gfrom@);
                        assert(graph.nodes@.len() == graph.nodes.len());
                    }
                    let n0 = graph.add_node(from_name);
                    proof {
                        assert(graph_model(graph) =~~= model_add_node(m0, defs[j as int].from).0);
                        assert(n0 as int == model_add_node(m0, defs[j as int].from).1);
                    }
                    let ghost m1 = graph_model(graph);
                    let to_name = def.to.clone();
                    let ghost gto = to_name;
                    proof {
                        crate::graph::lemma_find_node(graph.nodes@, gto);
                        crate::converter::lemma_find_node_by_name(graph.nodes@, gto);
                        lemma_model_find(graph.nodes@, gto@);
                        assert(graph.nodes@.len() == graph.nodes.len());
                    }
                    let n1 = graph.add_node(to_name);
                    proof {
                        assert(graph_model(graph) =~~= model_add_node(m1, defs[j as int].to).0);
                        assert(n1 as int == model_add_node(m1, defs[j as int].to).1);
                    }
                    let ghost m2 = graph_model(graph);
                    proof {
                        assert((n0 as int) < m2.nodes.len());
                        assert((n1 as int) < m2.nodes.len());
                    }
                    match &def.val {
                        ConversionValueDefinition::Multiplier(x) => {
                            let ghost gpre = graph;
                            let _ = graph.add_edge(n0, n1, Conversion::Multiplier(*x));
                            proof {
                                lemma_model_after_add_edge(
                                    gpre,
                                    graph,
                                    n0,
                                    n1,
                                    Conversion::Multiplier(*x),
                                );
                                assert(graph_model(graph) == model_add_edge(
                                    m2,
                                    n0 as int,
                                    n1 as int,
                                    ConvView::Multiplier(*x),
                                ));
                            }
                            if self.auto_reverse {
                                let ghost m3 = graph_model(graph);
                                let rev = fa(NumericOp::Div, ONE_BITS, *x);
                                proof {
                                    lemma_arith_oracle_value(*fa, NumericOp::Div, ONE_BITS, *x, rev);
                                }
                                let ghost gpre2 = graph;
                                let _ = graph.add_edge(n1, n0, Conversion::Multiplier(rev));
                                proof {
                                    lemma_model_after_add_edge(
                                        gpre2,
                                        graph,
                                        n1,
                                        n0,
                                        Conversion::Multiplier(rev),
                                    );
                                    assert(graph_model(graph) == model_add_edge(
                                        m3,
                                        n1 as int,
                                        n0 as int,
                                        ConvView::Multiplier(ga(NumericOp::Div, ONE_BITS, *x)),
                                    ));
                                }
                            }
                        },
                        ConversionValueDefinition::Expression(txt) => {
                            let expr = match Expression::new(txt.as_str(), fp) {
                                Ok(e) => e,
                                Err(_) => {
                                    proof {
                                        assert(build_cat(
                                            cats[k as int],
                                            defs,
                                            j as int,
                                            m0,
                                            self.auto_reverse,
                                            gp,
                                            ga,
                                        ) == Err::<GraphModel, ()>(()));
                                        assert(build_all(
                                            cats,
                                            k as int,
                                            defs,
                                            self.auto_reverse,
                                            gp,
                                            ga,
                                        ) == Err::<Seq<GraphModel>, ()>(()));
                                    }
                                    return Err(ConversionError::new(""));
                                },
                            };
                            let ghost gexpr = expr;
                            let ghost gpre = graph;
                            let _ = graph.add_edge(n0, n1, Conversion::Expression(expr));
                            proof {
                                lemma_model_after_add_edge(
                                    gpre,
                                    graph,
                                    n0,
                                    n1,
                                    Conversion::Expression(gexpr),
                                );
                                assert(conv_view(Conversion::Expression(gexpr))
                                    == ConvView::Expression(
                                    expression_spec(txt@, gp)->Ok_0,
                                ));
                                assert(graph_model(graph) == model_add_edge(
                                    m2,
                                    n0 as int,
                                    n1 as int,
                                    ConvView::Expression(expression_spec(txt@, gp)->Ok_0),
                                ));
                            }
                        },
                    }
                }
                j += 1;
            }
            let ghost finished = graph_model(graph);
            let ghost pre_graphs = graphs@;
            graphs.push(graph);
            proof {
                assert(build_cat(
                    cats[k as int],
                    defs,
                    self.conversions@.len() as int,
                    finished,
                    self.auto_reverse,
                    gp,
                    ga,
                ) == Ok::<GraphModel, ()>(finished));
                assert(graph_models(graphs@) =~= graph_models(pre_graphs).push(finished));
                match build_all(cats, k + 1, defs, self.auto_reverse, gp, ga) {
                    Ok(ms2) => {
                        assert(graph_models(pre_graphs) + (seq![finished] + ms2) =~= graph_models(
                            graphs@,
                        ) + ms2);
                    },
                    Err(_) => {},
                }
            }
            k += 1;
        }
        proof {
            assert(graph_models(graphs@) + Seq::<GraphModel>::empty() =~= graph_models(graphs@));
        }
        Ok(UnitConverter::new(graphs, self.abbreviations, self.cache))
    }
}

} // verus!
