//! The conversion orchestrator: per-category unit graphs, fewest-hop path
//! lookup, and composition of the edge conversions along the path.

use vstd::prelude::*;

use crate::chars::str_eq;
use crate::converter_error::ConversionError;
use crate::expression::{Expression, InMemoryExpressionContext};
use crate::graph::{find_node_spec, lemma_find_node, Graph, NodeValue};
use crate::numeric::{
    arith_deterministic, arith_oracle, arith_total, lemma_arith_oracle_value, NumericOp, ONE_BITS,
};
use crate::parser::{abbrev_views, parse_conversion, AbbrevView, UnitAbbreviation, UnitConversion};
use crate::shunting_yard_algorithm::eval_spec;

verus! {

/// One edge's conversion rule: a constant factor or an expression of the
/// running value.
pub enum Conversion {
    Multiplier(u64),
    Expression(Expression),
}

/// Per-category unit graphs, the abbreviation table, and whether composed
/// multipliers are memoized as new direct edges.
pub struct UnitConverter {
    pub graph: Vec<Graph<String, Conversion>>,
    pub abbreviations: Vec<UnitAbbreviation>,
    pub cache: bool,
}

/// The index of the first graph for the category.
pub open spec fn find_graph_spec(graphs: Seq<Graph<String, Conversion>>, t: Seq<char>) -> Option<
    int,
>
    decreases graphs.len(),
{
    if graphs.len() == 0 {
        None
    } else if graphs[0].id@ == t {
        Some(0)
    } else {
        match find_graph_spec(graphs.subrange(1, graphs.len() as int), t) {
            Some(i) => Some(i + 1),
            None => None,
        }
    }
}

pub proof fn lemma_find_graph(graphs: Seq<Graph<String, Conversion>>, t: Seq<char>)
    ensures
        match find_graph_spec(graphs, t) {
            Some(i) => 0 <= i < graphs.len() && graphs[i].id@ == t && (forall|j: int|
                0 <= j < i ==> (#[trigger] graphs[j]).id@ != t),
            None => forall|j: int| 0 <= j < graphs.len() ==> (#[trigger] graphs[j]).id@ != t,
        },
    decreases graphs.len(),
{
    if graphs.len() > 0 && graphs[0].id@ != t {
        let rest = graphs.subrange(1, graphs.len() as int);
        lemma_find_graph(rest, t);
        assert forall|j: int| 0 <= j < rest.len() implies rest[j] == graphs[j + 1] by {
            assert(rest[j] == graphs.subrange(1, graphs.len() as int)[j]);
        }
        match find_graph_spec(rest, t) {
            Some(i) => {
                assert(graphs[i + 1].id@ == t);
                assert forall|j: int| 0 <= j < i + 1 implies (#[trigger] graphs[j]).id@ != t by {
                    if j >= 1 {
                        assert(rest[j - 1].id@ != t);
                    }
                }
            },
            None => {
                assert forall|j: int| 0 <= j < graphs.len() implies (#[trigger] graphs[j]).id@
                    != t by {
                    if j >= 1 {
                        assert(rest[j - 1].id@ != t);
                    }
                }
            },
        }
    }
}

/// The first abbreviation entry for the canonical unit name in the
/// category.
pub open spec fn find_unit_abbrev(units: Seq<AbbrevView>, unit: Seq<char>, t: Seq<char>) -> Option<
    int,
>
    decreases units.len(),
{
    if units.len() == 0 {
        None
    } else if units[0].unit == unit && units[0].unit_type == t {
        Some(0)
    } else {
        match find_unit_abbrev(units.subrange(1, units.len() as int), unit, t) {
            Some(i) => Some(i + 1),
            None => None,
        }
    }
}

pub proof fn lemma_find_unit_abbrev(units: Seq<AbbrevView>, unit: Seq<char>, t: Seq<char>)
    ensures
        match find_unit_abbrev(units, unit, t) {
            Some(i) => 0 <= i < units.len() && units[i].unit == unit && units[i].unit_type == t
                && (forall|j: int|
                0 <= j < i ==> !((#[trigger] units[j]).unit == unit && units[j].unit_type == t)),
            None => forall|j: int|
                0 <= j < units.len() ==> !((#[trigger] units[j]).unit == unit && units[j].unit_type
                    == t),
        },
    decreases units.len(),
{
    if units.len() > 0 && !(units[0].unit == unit && units[0].unit_type == t) {
        let rest = units.subrange(1, units.len() as int);
        lemma_find_unit_abbrev(rest, unit, t);
        assert forall|j: int| 0 <= j < rest.len() implies rest[j] == units[j + 1] by {
            assert(rest[j] == units.subrange(1, units.len() as int)[j]);
        }
        match find_unit_abbrev(rest, unit, t) {
            Some(i) => {
                assert forall|j: int| 0 <= j < i + 1 implies !((#[trigger] units[j]).unit == unit
                    && units[j].unit_type == t) by {
                    if j >= 1 {
                        assert(!(rest[j - 1].unit == unit && rest[j - 1].unit_type == t));
                    }
                }
            },
            None => {
                assert forall|j: int| 0 <= j < units.len() implies !((#[trigger] units[j]).unit
                    == unit && units[j].unit_type == t) by {
                    if j >= 1 {
                        assert(!(rest[j - 1].unit == unit && rest[j - 1].unit_type == t));
                    }
                }
            },
        }
    }
}

/// How the walk along a conversion path can fail.
pub enum WalkErr {
    MissingAbbrev,
    EvalFailed,
}

pub open spec fn walk_err_message(e: WalkErr) -> Seq<char> {
    match e {
        WalkErr::MissingAbbrev => "Unable to find unit."@,
        WalkErr::EvalFailed => ""@,
    }
}

/// The walk along a path, left to right, from step `j` on: a multiplier
/// edge multiplies the pending factor; an expression edge first flushes
/// the pending factor into the running value, then evaluates its
/// expression with the source unit's abbreviation bound to that value.
/// Returns the running value, the still-pending factor, and whether every
/// edge so far was a multiplier.
pub open spec fn walk_rec(
    abbrevs: Seq<AbbrevView>,
    unit_type: Seq<char>,
    src: Seq<char>,
    items: Seq<(&String, &Conversion)>,
    j: int,
    result: u64,
    multiplier: u64,
    pure_mul: bool,
    ga: spec_fn(NumericOp, u64, u64) -> u64,
) -> Result<(u64, u64, bool), WalkErr>
    decreases items.len() - j,
{
    if j < 0 || j >= items.len() {
        Ok((result, multiplier, pure_mul))
    } else {
        match *items[j].1 {
            Conversion::Multiplier(m) => walk_rec(
                abbrevs,
                unit_type,
                (*items[j].0)@,
                items,
                j + 1,
                result,
                ga(NumericOp::Mul, multiplier, m),
                pure_mul,
                ga,
            ),
            Conversion::Expression(ref expr) => {
                match find_unit_abbrev(abbrevs, src, unit_type) {
                    None => Err(WalkErr::MissingAbbrev),
                    Some(ai) => {
                        let flushed = ga(NumericOp::Mul, result, multiplier);
                        let ctx = Map::<Seq<char>, u64>::empty().insert(
                            abbrevs[ai].abbrev,
                            flushed,
                        );
                        match eval_spec(expr.ast@, ctx, ga) {
                            Some(v) => walk_rec(
                                abbrevs,
                                unit_type,
                                (*items[j].0)@,
                                items,
                                j + 1,
                                v,
                                ONE_BITS,
                                false,
                                ga,
                            ),
                            None => Err(WalkErr::EvalFailed),
                        }
                    },
                }
            },
        }
    }
}

/// The value a finished walk yields: the running value times the pending
/// factor.
pub open spec fn walk_value(
    abbrevs: Seq<AbbrevView>,
    unit_type: Seq<char>,
    src: Seq<char>,
    items: Seq<(&String, &Conversion)>,
    value: u64,
    ga: spec_fn(NumericOp, u64, u64) -> u64,
) -> Result<(u64, u64, bool), WalkErr> {
    match walk_rec(abbrevs, unit_type, src, items, 0, value, ONE_BITS, true, ga) {
        Ok((result, multiplier, pure_mul)) => Ok(
            (ga(NumericOp::Mul, result, multiplier), multiplier, pure_mul),
        ),
        Err(e) => Err(e),
    }
}

impl UnitConverter {
    /// Every per-category graph is well-formed.
    pub open spec fn wf(&self) -> bool {
        forall|k: int| 0 <= k < self.graph@.len() ==> (#[trigger] self.graph@[k]).wf()
    }

    pub fn builder() -> (r: crate::builder::UnitConverterBuilder)
        ensures
            r.unit_types@.len() == 0,
            r.conversions@.len() == 0,
            r.abbreviations@.len() == 0,
            r.auto_reverse == false,
            r.cache == true,
    {
        crate::builder::UnitConverterBuilder::new()
    }

    pub fn new(
        graph: Vec<Graph<String, Conversion>>,
        abbreviations: Vec<UnitAbbreviation>,
        cache: bool,
    ) -> (r: UnitConverter)
        requires
            forall|k: int| 0 <= k < graph@.len() ==> (#[trigger] graph@[k]).wf(),
        ensures
            r.wf(),
            r.graph == graph,
            r.abbreviations == abbreviations,
            r.cache == cache,
    {
        UnitConverter { graph, abbreviations, cache }
    }

    /// The known abbreviations.
    pub fn units(&self) -> (r: &Vec<UnitAbbreviation>)
        ensures
            r == &self.abbreviations,
    {
        &self.abbreviations
    }

    /// The first abbreviation entry whose lowercased unit name, or whose
    /// abbreviation spelled as-is, equals the lowercased input.
    pub open spec fn unit_info_spec(units: Seq<AbbrevView>, lc: Seq<char>) -> Option<int>
        decreases units.len(),
    {
        if units.len() == 0 {
            None
        } else if crate::chars::lower_seq(units[0].unit) == lc || units[0].abbrev == lc {
            Some(0)
        } else {
            match Self::unit_info_spec(units.subrange(1, units.len() as int), lc) {
                Some(i) => Some(i + 1),
                None => None,
            }
        }
    }

    /// Looks the input up as a unit name or abbreviation,
    /// case-insensitively on the name.
    pub fn unit_info(&self, input: &str) -> (r: Result<UnitAbbreviation, ConversionError>)
        ensures
            match Self::unit_info_spec(
                abbrev_views(self.abbreviations@),
                crate::chars::lower_seq(input@),
            ) {
                Some(i) => r is Ok && r->Ok_0@ == self.abbreviations@[i]@,
                None => r is Err && r->Err_0.spec_message() is None,
            },
    {
        let ghost views = abbrev_views(self.abbreviations@);
        let ghost lc = crate::chars::lower_seq(input@);
        let lc_input = crate::chars::lower_str(input);
        let mut i: usize = 0;
        while i < self.abbreviations.len()
            invariant
                views == abbrev_views(self.abbreviations@),
                lc == crate::chars::lower_seq(input@),
                lc_input@ == lc,
                0 <= i <= self.abbreviations@.len(),
                forall|j: int|
                    0 <= j < i ==> !(crate::chars::lower_seq((#[trigger] views[j]).unit) == lc
                        || views[j].abbrev == lc),
            decreases self.abbreviations@.len() - i,
        {
            let entry = &self.abbreviations[i];
            let unit_lower = crate::chars::lower_str(entry.unit.as_str());
            let hit = crate::chars::chars_eq(&unit_lower, &lc_input) || str_eq_chars(
                entry.abbrev.as_str(),
                &lc_input,
            );
            if hit {
                proof {
                    assert(views[i as int] == self.abbreviations@[i as int]@);
                    Self::lemma_unit_info_first(views, lc);
                }
                return Ok(
                    UnitAbbreviation {
                        unit: entry.unit.clone(),
                        abbrev: entry.abbrev.clone(),
                        unit_type: entry.unit_type.clone(),
                    },
                );
            }
            proof {
                assert(views[i as int] == self.abbreviations@[i as int]@);
            }
            i += 1;
        }
        proof {
            Self::lemma_unit_info_first(views, lc);
        }
        Err(ConversionError::default())
    }

    /// `unit_info_spec` is the first matching index.
    proof fn lemma_unit_info_first(units: Seq<AbbrevView>, lc: Seq<char>)
        ensures
            match Self::unit_info_spec(units, lc) {
                Some(i) => 0 <= i < units.len() && (crate::chars::lower_seq(units[i].unit) == lc
                    || units[i].abbrev == lc) && (forall|j: int|
                    0 <= j < i ==> !(crate::chars::lower_seq((#[trigger] units[j]).unit) == lc
                        || units[j].abbrev == lc)),
                None => forall|j: int|
                    0 <= j < units.len() ==> !(crate::chars::lower_seq((#[trigger] units[j]).unit)
                        == lc || units[j].abbrev == lc),
            },
        decreases units.len(),
    {
        if units.len() > 0 && !(crate::chars::lower_seq(units[0].unit) == lc || units[0].abbrev
            == lc) {
            let rest = units.subrange(1, units.len() as int);
            Self::lemma_unit_info_first(rest, lc);
            assert forall|j: int| 0 <= j < rest.len() implies rest[j] == units[j + 1] by {
                assert(rest[j] == units.subrange(1, units.len() as int)[j]);
            }
            match Self::unit_info_spec(rest, lc) {
                Some(i) => {
                    assert forall|j: int| 0 <= j < i + 1 implies !(crate::chars::lower_seq((
                    #[trigger] units[j]).unit) == lc || units[j].abbrev == lc) by {
                        if j >= 1 {
                            assert(!(crate::chars::lower_seq(rest[j - 1].unit) == lc || rest[j
                                - 1].abbrev == lc));
                        }
                    }
                },
                None => {
                    assert forall|j: int| 0 <= j < units.len() implies !(crate::chars::lower_seq((
                    #[trigger] units[j]).unit) == lc || units[j].abbrev == lc) by {
                        if j >= 1 {
                            assert(!(crate::chars::lower_seq(rest[j - 1].unit) == lc || rest[j
                                - 1].abbrev == lc));
                        }
                    }
                },
            }
        }
    }
}

/// Character equality between a string and a lowered character vector.
fn str_eq_chars(a: &str, b: &Vec<char>) -> (r: bool)
    ensures
        r == (a@ == b@),
{
    let n = a.unicode_len();
    if n != b.len() {
        proof {
            assert(a@ != b@) by {
                if a@ == b@ {
                    assert(a@.len() == b@.len());
                }
            }
        }
        return false;
    }
    let mut i: usize = 0;
    while i < n
        invariant
            n == a@.len() == b@.len(),
            0 <= i <= n,
            forall|k: int| 0 <= k < i ==> a@[k] == b@[k],
        decreases n - i,
    {
        if a.get_char(i) != b[i] {
            proof {
                assert(a@ != b@) by {
                    if a@ == b@ {
                        assert(a@[i as int] == b@[i as int]);
                    }
                }
            }
            return false;
        }
        i += 1;
    }
    proof {
        assert(a@ =~= b@);
    }
    true
}

} // verus!

verus! {

use crate::graph::{EdgeData, NodeData};
use crate::parser::{conv_err_message, parse_conversion_spec, ConversionView};
use crate::numeric::{parse_deterministic, parse_oracle, parse_total};

/// The index of the first node named `name` in a graph of unit names.
pub open spec fn find_node_by_name(nodes: Seq<NodeData<String>>, name: Seq<char>) -> Option<int>
    decreases nodes.len(),
{
    if nodes.len() == 0 {
        None
    } else if nodes[0].value@ == name {
        Some(0)
    } else {
        match find_node_by_name(nodes.subrange(1, nodes.len() as int), name) {
            Some(i) => Some(i + 1),
            None => None,
        }
    }
}

/// Node lookup by `String` value is lookup by spelling.
pub proof fn lemma_find_node_by_name(nodes: Seq<NodeData<String>>, v: String)
    ensures
        find_node_spec(nodes, v) == find_node_by_name(nodes, v@),
    decreases nodes.len(),
{
    if nodes.len() > 0 && nodes[0].value@ != v@ {
        lemma_find_node_by_name(nodes.subrange(1, nodes.len() as int), v);
    }
}

pub proof fn lemma_find_node_by_name_bounds(nodes: Seq<NodeData<String>>, name: Seq<char>)
    ensures
        match find_node_by_name(nodes, name) {
            Some(i) => 0 <= i < nodes.len() && nodes[i].value@ == name,
            None => true,
        },
    decreases nodes.len(),
{
    if nodes.len() > 0 && nodes[0].value@ != name {
        let rest = nodes.subrange(1, nodes.len() as int);
        lemma_find_node_by_name_bounds(rest, name);
    }
}

/// The memoizing side effect: `post` is `pre` with one direct multiplier
/// edge added from `n0` to `n1` in graph `gi`.
pub open spec fn cache_updated(
    pre: UnitConverter,
    post: UnitConverter,
    gi: int,
    n0: int,
    n1: int,
    mult: u64,
) -> bool {
    let g = pre.graph@[gi];
    let h = post.graph@[gi];
    &&& post.abbreviations == pre.abbreviations
    &&& post.cache == pre.cache
    &&& post.graph@.len() == pre.graph@.len()
    &&& forall|k: int| 0 <= k < pre.graph@.len() && k != gi ==> post.graph@[k] == pre.graph@[k]
    &&& h.id == g.id
    &&& h.edges@.len() == g.edges@.len() + 1
    &&& forall|k: int| 0 <= k < g.edges@.len() ==> h.edges@[k] == g.edges@[k]
    &&& h.edges@[g.edges@.len() as int].target == n1
    &&& h.edges@[g.edges@.len() as int].weight is Multiplier
    &&& h.edges@[g.edges@.len() as int].weight->Multiplier_0 == mult
    &&& h.nodes@.len() == g.nodes@.len()
    &&& forall|k: int| 0 <= k < g.nodes@.len() && k != n0 ==> h.nodes@[k] == g.nodes@[k]
    &&& h.nodes@[n0].value == g.nodes@[n0].value
    &&& h.nodes@[n0].edges@ == g.nodes@[n0].edges@.push(g.edges@.len() as usize)
}

/// Everything `convert_from_definition` promises, relating the converter
/// before and after to the outcome.
pub open spec fn convert_def_post(
    pre: UnitConverter,
    post: UnitConverter,
    unit_type: Seq<char>,
    from: Seq<char>,
    to: Seq<char>,
    value: u64,
    ga: spec_fn(NumericOp, u64, u64) -> u64,
    r: Result<u64, ConversionError>,
) -> bool {
    match find_graph_spec(pre.graph@, unit_type) {
        None => r is Err && r->Err_0.spec_message() == Some(
            "Unable to get internal graph for unit type"@,
        ) && post == pre,
        Some(gi) => {
            let g = pre.graph@[gi];
            match find_node_by_name(g.nodes@, from) {
                None => r is Err && r->Err_0.spec_message() == Some(
                    "Unable to find definition for unit "@ + from,
                ) && post == pre,
                Some(n0) => match find_node_by_name(g.nodes@, to) {
                    None => r is Err && r->Err_0.spec_message() == Some(
                        "Unable to find definition for unit "@ + to,
                    ) && post == pre,
                    Some(n1) => {
                        &&& (n0 != n1 && !g.reachable(n0, n1) ==> r is Err
                            && r->Err_0.spec_message() == Some("Unable to find conversion"@) && post
                            == pre)
                        &&& (r is Ok ==> exists|
                            items: Seq<(&String, &Conversion)>,
                            idxs: Seq<int>,
                            es: Seq<int>,
                        |
                            {
                                &&& g.path_items_ok(n0, n1, items, idxs, es)
                                &&& (n0 == n1 ==> items.len() == 0)
                                &&& (forall|k: nat|
                                    k < items.len() ==> !g.reachable_in(n0, n1, k))
                                &&& match walk_value(
                                    abbrev_views(pre.abbreviations@),
                                    unit_type,
                                    from,
                                    items,
                                    value,
                                    ga,
                                ) {
                                    Ok(out) => r->Ok_0 == out.0 && (if pre.cache && out.2
                                        && items.len() > 1 {
                                        cache_updated(pre, post, gi, n0, n1, out.1)
                                    } else {
                                        post == pre
                                    }),
                                    Err(_) => false,
                                }
                            })
                        &&& (r is Err ==> post == pre && ((n0 != n1 && !g.reachable(n0, n1)
                            && r->Err_0.spec_message() == Some("Unable to find conversion"@))
                            || exists|
                            items: Seq<(&String, &Conversion)>,
                            idxs: Seq<int>,
                            es: Seq<int>,
                        |
                            {
                                &&& g.path_items_ok(n0, n1, items, idxs, es)
                                &&& walk_value(
                                    abbrev_views(pre.abbreviations@),
                                    unit_type,
                                    from,
                                    items,
                                    value,
                                    ga,
                                ) is Err
                                &&& r->Err_0.spec_message() == Some(
                                    walk_err_message(
                                        walk_value(
                                            abbrev_views(pre.abbreviations@),
                                            unit_type,
                                            from,
                                            items,
                                            value,
                                            ga,
                                        )->Err_0,
                                    ),
                                )
                            }))
                    },
                },
            }
        },
    }
}

impl UnitConverter {
    /// Converts `value` between two canonical unit names of a category:
    /// finds the category's graph, takes the fewest-hop path between the
    /// two units, multiplies the constant edges together and routes the
    /// running value through each expression edge, then memoizes the
    /// composed factor as a direct edge when the whole path was constant
    /// and longer than one hop.
    pub fn convert_from_definition<FA: Fn(NumericOp, u64, u64) -> u64>(
        &mut self,
        unit_type: &str,
        from: &str,
        to: &str,
        value: u64,
        fa: &FA,
    ) -> (r: Result<u64, ConversionError>)
        requires
            old(self).wf(),
            arith_total(*fa),
            arith_deterministic(*fa),
        ensures
            final(self).wf(),
            convert_def_post(
                *old(self),
                *final(self),
                unit_type@,
                from@,
                to@,
                value,
                arith_oracle(*fa),
                r,
            ),
    {
        let ghost ga = arith_oracle(*fa);
        let ghost views = abbrev_views(self.abbreviations@);
        proof {
            lemma_find_graph(self.graph@, unit_type@);
        }
        let gi = match self.find_graph_index(unit_type) {
            Some(gi) => gi,
            None => {
                return Err(ConversionError::new("Unable to get internal graph for unit type"));
            },
        };
        proof {
            assert(self.graph@.len() == self.graph.len());
            assert(find_graph_spec(old(self).graph@, unit_type@) == Some(gi as int));
        }
        let ghost g = self.graph@[gi as int];
        let from_owned: String = from.to_owned();
        let ghost gfrom = from_owned;
        proof {
            lemma_find_node(g.nodes@, gfrom);
            lemma_find_node_by_name(g.nodes@, gfrom);
        }
        let n0 = match self.graph[gi].get_node_index(from_owned) {
            Some(n) => n,
            None => {
                let msg = prefixed_message("Unable to find definition for unit ", from);
                return Err(ConversionError::new(msg.as_str()));
            },
        };
        proof {
            assert(g.nodes@.len() <= usize::MAX) by {
                assert(g == self.graph@[gi as int]);
                assert(self.graph@[gi as int].nodes@.len() == self.graph@[gi as int].nodes.len());
            }
            assert(find_node_by_name(g.nodes@, from@) == Some(n0 as int));
        }
        let to_owned_name: String = to.to_owned();
        let ghost gto = to_owned_name;
        proof {
            lemma_find_node(g.nodes@, gto);
            lemma_find_node_by_name(g.nodes@, gto);
        }
        let n1 = match self.graph[gi].get_node_index(to_owned_name) {
            Some(n) => n,
            None => {
                let msg = prefixed_message("Unable to find definition for unit ", to);
                return Err(ConversionError::new(msg.as_str()));
            },
        };
        proof {
            assert(g.nodes@.len() <= usize::MAX) by {
                assert(g == self.graph@[gi as int]);
                assert(self.graph@[gi as int].nodes@.len() == self.graph@[gi as int].nodes.len());
            }
            assert(find_node_by_name(g.nodes@, to@) == Some(n1 as int));
            lemma_find_node_by_name_bounds(g.nodes@, from@);
            lemma_find_node_by_name_bounds(g.nodes@, to@);
        }
        let path = self.graph[gi].shortest_path(n0, n1);
        if path.len() == 0 && n0 != n1 {
            return Err(ConversionError::new("Unable to find conversion"));
        }
        let ghost items: Seq<(&String, &Conversion)> = path@;
        let ghost (pidxs, pes): (Seq<int>, Seq<int>) = if path@.len() > 0 {
            choose|idxs: Seq<int>, es: Seq<int>|
                g.path_items_ok(n0 as int, n1 as int, path@, idxs, es)
        } else {
            (seq![n0 as int], Seq::empty())
        };
        proof {
            if path@.len() == 0 {
                assert(g.path_items_ok(n0 as int, n1 as int, items, pidxs, pes));
            }
        }
        let mut multiplier: u64 = ONE_BITS;
        let mut result_val: u64 = value;
        let mut should_cache: bool = true;
        let mut cur_source: &str = from;
        let mut j: usize = 0;
        while j < path.len()
            invariant
                arith_total(*fa),
                arith_deterministic(*fa),
                ga == arith_oracle(*fa),
                *self == *old(self),
                old(self).wf(),
                views == abbrev_views(old(self).abbreviations@),
                gi < old(self).graph@.len(),
                g == old(self).graph@[gi as int],
                g.wf(),
                find_graph_spec(old(self).graph@, unit_type@) == Some(gi as int),
                find_node_by_name(g.nodes@, from@) == Some(n0 as int),
                find_node_by_name(g.nodes@, to@) == Some(n1 as int),
                n0 < g.nodes@.len(),
                n1 < g.nodes@.len(),
                g.path_items_ok(n0 as int, n1 as int, items, pidxs, pes),
                items.len() == 0 ==> n0 == n1,
                n0 == n1 ==> items.len() == 0,
                items == path@,
                0 <= j <= path@.len(),
                walk_rec(
                    views,
                    unit_type@,
                    cur_source@,
                    items,
                    j as int,
                    result_val,
                    multiplier,
                    should_cache,
                    ga,
                ) == walk_rec(views, unit_type@, from@, items, 0, value, ONE_BITS, true, ga),
            decreases path@.len() - j,
        {
            let item = &path[j];
            match item.1 {
                Conversion::Multiplier(m) => {
                    let stepped = fa(NumericOp::Mul, multiplier, *m);
                    proof {
                        lemma_arith_oracle_value(*fa, NumericOp::Mul, multiplier, *m, stepped);
                    }
                    multiplier = stepped;
                },
                Conversion::Expression(expr) => {
                    should_cache = false;
                    let flushed = fa(NumericOp::Mul, result_val, multiplier);
                    proof {
                        lemma_arith_oracle_value(*fa, NumericOp::Mul, result_val, multiplier, flushed);
                    }
                    let abbrev = match self.get_unit_abbrev(cur_source, unit_type) {
                        Some(a) => a,
                        None => {
                            proof {
                                g.lemma_path_reachable(n0 as int, n1 as int, items, pidxs, pes);
                            }
                            return Err(ConversionError::new("Unable to find unit."));
                        },
                    };
                    let mut ctx = InMemoryExpressionContext::new();
                    ctx.var(abbrev, flushed);
                    result_val = match expr.eval_with_ctx(&ctx, fa) {
                        Ok(v) => v,
                        Err(_) => {
                            proof {
                                g.lemma_path_reachable(n0 as int, n1 as int, items, pidxs, pes);
                            }
                            return Err(ConversionError::new(""));
                        },
                    };
                    multiplier = ONE_BITS;
                },
            }
            cur_source = path[j].0.as_str();
            j += 1;
        }
        let finished = fa(NumericOp::Mul, result_val, multiplier);
        proof {
            lemma_arith_oracle_value(*fa, NumericOp::Mul, result_val, multiplier, finished);
        }
        proof {
            if items.len() > 0 {
                g.lemma_path_reachable(n0 as int, n1 as int, items, pidxs, pes);
            }
        }
        if self.cache && should_cache && path.len() > 1 {
            let _ = self.graph[gi].add_edge(n0, n1, Conversion::Multiplier(multiplier));
            proof {
                assert(cache_updated(*old(self), *self, gi as int, n0 as int, n1 as int, multiplier));
            }
        }
        proof {
            assert(g.path_items_ok(n0 as int, n1 as int, items, pidxs, pes));
        }
        Ok(finished)
    }

    /// Parses a textual request and performs the conversion it denotes,
    /// returning the value with the resolved names.
    pub fn convert_from_expression<
        FA: Fn(NumericOp, u64, u64) -> u64,
        FP: Fn(String) -> Option<u64>,
    >(&mut self, input: &str, fa: &FA, fp: &FP) -> (r: Result<UnitConversion, ConversionError>)
        requires
            old(self).wf(),
            arith_total(*fa),
            arith_deterministic(*fa),
            parse_total(*fp),
            parse_deterministic(*fp),
        ensures
            final(self).wf(),
            match parse_conversion_spec(
                abbrev_views(old(self).abbreviations@),
                input@,
                parse_oracle(*fp),
            ) {
                Err(e) => r is Err && r->Err_0.spec_message() == Some(conv_err_message(e))
                    && *final(self) == *old(self),
                Ok(cv) => exists|inner: Result<u64, ConversionError>|
                    {
                        &&& convert_def_post(
                            *old(self),
                            *final(self),
                            cv.unit_type,
                            cv.from,
                            cv.to,
                            cv.value,
                            arith_oracle(*fa),
                            inner,
                        )
                        &&& match inner {
                            Ok(v) => r is Ok && r->Ok_0@.value == v && r->Ok_0@.from == cv.from
                                && r->Ok_0@.to == cv.to && r->Ok_0@.unit_type == cv.unit_type,
                            Err(e) => r is Err && r->Err_0 == e,
                        }
                    },
            },
    {
        let conversion = match parse_conversion(&self.abbreviations, input, fp) {
            Ok(c) => c,
            Err(e) => {
                return Err(e);
            },
        };
        let result = match self.convert_from_definition(
            conversion.unit_type.as_str(),
            conversion.from.as_str(),
            conversion.to.as_str(),
            conversion.value,
            fa,
        ) {
            Ok(v) => v,
            Err(e) => {
                return Err(e);
            },
        };
        Ok(
            UnitConversion {
                value: result,
                from: conversion.from,
                to: conversion.to,
                unit_type: conversion.unit_type,
            },
        )
    }

    /// The index of the category's graph.
    fn find_graph_index(&self, category: &str) -> (r: Option<usize>)
        ensures
            match find_graph_spec(self.graph@, category@) {
                Some(i) => r == Some(i as usize),
                None => r is None,
            },
    {
        proof {
            lemma_find_graph(self.graph@, category@);
        }
        let mut i: usize = 0;
        while i < self.graph.len()
            invariant
                0 <= i <= self.graph@.len(),
                forall|j: int| 0 <= j < i ==> (#[trigger] self.graph@[j]).id@ != category@,
            decreases self.graph@.len() - i,
        {
            if str_eq(self.graph[i].id.as_str(), category) {
                proof {
                    lemma_find_graph(self.graph@, category@);
                    assert(find_graph_spec(self.graph@, category@) == Some(i as int));
                }
                return Some(i);
            }
            i += 1;
        }
        None
    }

    /// The abbreviation of the canonical unit name within the category.
    fn get_unit_abbrev<'s>(&'s self, unit: &str, unit_type: &str) -> (r: Option<&'s str>)
        ensures
            match find_unit_abbrev(abbrev_views(self.abbreviations@), unit@, unit_type@) {
                Some(i) => r is Some && r->0@ == abbrev_views(self.abbreviations@)[i].abbrev,
                None => r is None,
            },
    {
        proof {
            lemma_find_unit_abbrev(abbrev_views(self.abbreviations@), unit@, unit_type@);
        }
        let mut i: usize = 0;
        while i < self.abbreviations.len()
            invariant
                0 <= i <= self.abbreviations@.len(),
                forall|j: int|
                    0 <= j < i ==> !((#[trigger] abbrev_views(self.abbreviations@)[j]).unit == unit@
                        && abbrev_views(self.abbreviations@)[j].unit_type == unit_type@),
            decreases self.abbreviations@.len() - i,
        {
            let entry = &self.abbreviations[i];
            if str_eq(entry.unit.as_str(), unit) && str_eq(entry.unit_type.as_str(), unit_type) {
                proof {
                    assert(abbrev_views(self.abbreviations@)[i as int] == self.abbreviations@[i as int]@);
                    lemma_find_unit_abbrev(abbrev_views(self.abbreviations@), unit@, unit_type@);
                    assert(find_unit_abbrev(abbrev_views(self.abbreviations@), unit@, unit_type@)
                        == Some(i as int));
                }
                return Some(entry.abbrev.as_str());
            }
            proof {
                assert(abbrev_views(self.abbreviations@)[i as int] == self.abbreviations@[i as int]@);
            }
            i += 1;
        }
        None
    }
}

/// A diagnostic made of a fixed prefix and a name.
fn prefixed_message(prefix: &str, name: &str) -> (r: String)
    ensures
        r@ == prefix@ + name@,
{
    let mut m: String = prefix.to_owned();
    m.append(name);
    m
}

} // verus!

verus! {

/// The composed factor of a multiplier-only path: the left fold of the
/// edge factors onto `acc`.
pub open spec fn multipliers_fold(
    items: Seq<(&String, &Conversion)>,
    j: int,
    acc: u64,
    ga: spec_fn(NumericOp, u64, u64) -> u64,
) -> u64
    decreases items.len() - j,
{
    if j < 0 || j >= items.len() {
        acc
    } else {
        multipliers_fold(items, j + 1, ga(NumericOp::Mul, acc, (*items[j].1)->Multiplier_0), ga)
    }
}

/// A path composed purely of multiplier edges converts by a single
/// composed factor: the walk leaves the running value untouched, reports
/// the fold of the edge factors as the pending multiplier, and the final
/// value is the input times that factor.
pub proof fn lemma_multiplier_path_value(
    abbrevs: Seq<AbbrevView>,
    unit_type: Seq<char>,
    src: Seq<char>,
    items: Seq<(&String, &Conversion)>,
    value: u64,
    ga: spec_fn(NumericOp, u64, u64) -> u64,
)
    requires
        forall|j: int| 0 <= j < items.len() ==> (*(#[trigger] items[j]).1) is Multiplier,
    ensures
        walk_value(abbrevs, unit_type, src, items, value, ga) == Result::<
            (u64, u64, bool),
            WalkErr,
        >::Ok(
            (
                ga(NumericOp::Mul, value, multipliers_fold(items, 0, ONE_BITS, ga)),
                multipliers_fold(items, 0, ONE_BITS, ga),
                true,
            ),
        ),
{
    lemma_multiplier_walk_rec(abbrevs, unit_type, src, items, 0, value, ONE_BITS, ga);
}

proof fn lemma_multiplier_walk_rec(
    abbrevs: Seq<AbbrevView>,
    unit_type: Seq<char>,
    src: Seq<char>,
    items: Seq<(&String, &Conversion)>,
    j: int,
    result: u64,
    multiplier: u64,
    ga: spec_fn(NumericOp, u64, u64) -> u64,
)
    requires
        forall|k: int| 0 <= k < items.len() ==> (*(#[trigger] items[k]).1) is Multiplier,
    ensures
        walk_rec(abbrevs, unit_type, src, items, j, result, multiplier, true, ga) == Result::<
            (u64, u64, bool),
            WalkErr,
        >::Ok((result, multipliers_fold(items, j, multiplier, ga), true)),
    decreases items.len() - j,
{
    if 0 <= j < items.len() {
        lemma_multiplier_walk_rec(
            abbrevs,
            unit_type,
            (*items[j].0)@,
            items,
            j + 1,
            result,
            ga(NumericOp::Mul, multiplier, (*items[j].1)->Multiplier_0),
            ga,
        );
    }
}

/// Memoization is transparent: when multiplying by one is the identity of
/// the numeric interpretation, converting along the single cached direct
/// edge yields exactly the value the multi-hop multiplier-only walk
/// produced.
pub proof fn lemma_cache_transparent(
    abbrevs: Seq<AbbrevView>,
    unit_type: Seq<char>,
    src: Seq<char>,
    src2: Seq<char>,
    items: Seq<(&String, &Conversion)>,
    direct: (&String, &Conversion),
    value: u64,
    ga: spec_fn(NumericOp, u64, u64) -> u64,
)
    requires
        forall|j: int| 0 <= j < items.len() ==> (*(#[trigger] items[j]).1) is Multiplier,
        (*direct.1) is Multiplier,
        (*direct.1)->Multiplier_0 == multipliers_fold(items, 0, ONE_BITS, ga),
        forall|x: u64| #[trigger] ga(NumericOp::Mul, ONE_BITS, x) == x,
    ensures
        ({
            let first = walk_value(abbrevs, unit_type, src, items, value, ga);
            let second = walk_value(abbrevs, unit_type, src2, seq![direct], value, ga);
            first is Ok && second is Ok && second->Ok_0.0 == first->Ok_0.0
        }),
{
    lemma_multiplier_path_value(abbrevs, unit_type, src, items, value, ga);
    let m = multipliers_fold(items, 0, ONE_BITS, ga);
    assert(forall|k: int| 0 <= k < seq![direct].len() ==> (*(#[trigger] seq![direct][k]).1) is Multiplier);
    lemma_multiplier_path_value(abbrevs, unit_type, src2, seq![direct], value, ga);
    assert((*seq![direct][0].1)->Multiplier_0 == m);
    assert(multipliers_fold(seq![direct], 1, ga(NumericOp::Mul, ONE_BITS, m), ga) == ga(
        NumericOp::Mul,
        ONE_BITS,
        m,
    ));
    assert(multipliers_fold(seq![direct], 0, ONE_BITS, ga) == ga(NumericOp::Mul, ONE_BITS, m));
}

} // verus!
