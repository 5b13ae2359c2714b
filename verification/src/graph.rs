//! A directed graph with deduplicated, arbitrarily-valued nodes and typed
//! edge weights, and a fewest-hop path search.

use vstd::prelude::*;

use crate::chars::str_eq;

verus! {

pub type NodeIndex = usize;

pub type EdgeIndex = usize;

/// A node value that can be compared for the deduplicating insert:
/// `veq` decides the mathematical equivalence `eqv`.
pub trait NodeValue: Sized {
    spec fn eqv(&self, other: &Self) -> bool;

    fn veq(&self, other: &Self) -> (r: bool)
        ensures
            r == self.eqv(other),
    ;
}

impl NodeValue for i32 {
    open spec fn eqv(&self, other: &Self) -> bool {
        *self == *other
    }

    fn veq(&self, other: &Self) -> (r: bool) {
        *self == *other
    }
}

impl NodeValue for u64 {
    open spec fn eqv(&self, other: &Self) -> bool {
        *self == *other
    }

    fn veq(&self, other: &Self) -> (r: bool) {
        *self == *other
    }
}

impl NodeValue for String {
    open spec fn eqv(&self, other: &Self) -> bool {
        self@ == other@
    }

    fn veq(&self, other: &Self) -> (r: bool) {
        str_eq(self.as_str(), other.as_str())
    }
}

#[derive(Debug)]
pub struct NodeData<T> {
    pub value: T,
    pub edges: Vec<EdgeIndex>,
}

#[derive(Debug)]
pub struct EdgeData<T> {
    pub target: NodeIndex,
    pub weight: T,
}

/// Nodes carry values of `N`; every edge is directed and carries a weight
/// of `E`, and is listed in its source node's adjacency list.
pub struct Graph<N, E> {
    pub id: String,
    pub nodes: Vec<NodeData<N>>,
    pub edges: Vec<EdgeData<E>>,
}

#[derive(Debug, PartialEq, Eq, Structural, Clone, Copy)]
pub enum GraphOperationError {
    NodeDoesNotExist,
    NodeAlreadyExistsForValue,
}

/// The index of the first node whose value is equivalent to `v`.
pub open spec fn find_node_spec<N: NodeValue>(nodes: Seq<NodeData<N>>, v: N) -> Option<int>
    decreases nodes.len(),
{
    if nodes.len() == 0 {
        None
    } else if nodes[0].value.eqv(&v) {
        Some(0)
    } else {
        match find_node_spec(nodes.subrange(1, nodes.len() as int), v) {
            Some(i) => Some(i + 1),
            None => None,
        }
    }
}

/// `find_node_spec` is the first equivalent index.
pub proof fn lemma_find_node<N: NodeValue>(nodes: Seq<NodeData<N>>, v: N)
    ensures
        match find_node_spec(nodes, v) {
            Some(i) => 0 <= i < nodes.len() && nodes[i].value.eqv(&v) && (forall|j: int|
                0 <= j < i ==> !(#[trigger] nodes[j].value).eqv(&v)),
            None => forall|j: int| 0 <= j < nodes.len() ==> !(#[trigger] nodes[j].value).eqv(&v),
        },
    decreases nodes.len(),
{
    if nodes.len() > 0 && !nodes[0].value.eqv(&v) {
        let rest = nodes.subrange(1, nodes.len() as int);
        lemma_find_node(rest, v);
        assert forall|j: int| 0 <= j < rest.len() implies rest[j] == nodes[j + 1] by {
            assert(rest[j] == nodes.subrange(1, nodes.len() as int)[j]);
        }
        match find_node_spec(rest, v) {
            Some(i) => {
                assert(nodes[i + 1].value.eqv(&v));
                assert forall|j: int| 0 <= j < i + 1 implies !(#[trigger] nodes[j].value).eqv(
                    &v,
                ) by {
                    if j >= 1 {
                        assert(!rest[j - 1].value.eqv(&v));
                    }
                }
            },
            None => {
                assert forall|j: int| 0 <= j < nodes.len() implies !(
                #[trigger] nodes[j].value).eqv(&v) by {
                    if j >= 1 {
                        assert(!rest[j - 1].value.eqv(&v));
                    }
                }
            },
        }
    }
}

impl<N: NodeValue, E> Graph<N, E> {
    /// Every edge target is a node, and every adjacency entry is an edge.
    pub open spec fn wf(&self) -> bool {
        &&& forall|k: int|
            0 <= k < self.edges@.len() ==> (#[trigger] self.edges@[k]).target < self.nodes@.len()
        &&& forall|j: int, l: int|
            0 <= j < self.nodes@.len() && 0 <= l < self.nodes@[j].edges@.len() ==> (
            #[trigger] self.nodes@[j].edges@[l]) < self.edges@.len()
    }

    pub fn default() -> (g: Graph<N, E>)
        ensures
            g.wf(),
            g.id@ == Seq::<char>::empty(),
            g.nodes@ == Seq::<NodeData<N>>::empty(),
            g.edges@ == Seq::<EdgeData<E>>::empty(),
    {
        Graph { id: String::new(), nodes: Vec::new(), edges: Vec::new() }
    }

    pub fn new(id: String) -> (g: Graph<N, E>)
        ensures
            g.wf(),
            g.id == id,
            g.nodes@ == Seq::<NodeData<N>>::empty(),
            g.edges@ == Seq::<EdgeData<E>>::empty(),
    {
        Graph { id, nodes: Vec::new(), edges: Vec::new() }
    }

    /// Inserts a node value, deduplicating by equivalence: an existing
    /// equivalent node's index is returned and nothing changes; otherwise
    /// the value is appended with no outgoing edges.
    pub fn add_node(&mut self, value: N) -> (idx: NodeIndex)
        requires
            old(self).wf(),
        ensures
            final(self).wf(),
            match find_node_spec(old(self).nodes@, value) {
                Some(i) => idx == i && *final(self) == *old(self),
                None => {
                    &&& idx == old(self).nodes@.len()
                    &&& final(self).nodes@.len() == old(self).nodes@.len() + 1
                    &&& forall|k: int|
                        0 <= k < old(self).nodes@.len() ==> final(self).nodes@[k] == old(
                            self,
                        ).nodes@[k]
                    &&& final(self).nodes@[idx as int].value == value
                    &&& final(self).nodes@[idx as int].edges@ == Seq::<EdgeIndex>::empty()
                    &&& final(self).edges@ == old(self).edges@
                    &&& final(self).id == old(self).id
                },
            },
    {
        proof {
            lemma_find_node(self.nodes@, value);
        }
        let mut i: usize = 0;
        while i < self.nodes.len()
            invariant
                *self == *old(self),
                self.wf(),
                0 <= i <= self.nodes@.len(),
                forall|j: int| 0 <= j < i ==> !(#[trigger] self.nodes@[j].value).eqv(&value),
            decreases self.nodes@.len() - i,
        {
            if self.nodes[i].value.veq(&value) {
                proof {
                    lemma_find_node(self.nodes@, value);
                    assert(find_node_spec(old(self).nodes@, value) == Some(i as int));
                }
                return i;
            }
            i += 1;
        }
        proof {
            lemma_find_node(self.nodes@, value);
        }
        let index = self.nodes.len();
        self.nodes.push(NodeData { value, edges: Vec::new() });
        index
    }

    /// The index of the first node equivalent to `node_value`, if any.
    pub fn get_node_index(&self, node_value: N) -> (r: Option<NodeIndex>)
        ensures
            match find_node_spec(self.nodes@, node_value) {
                Some(i) => r == Some(i as NodeIndex),
                None => r is None,
            },
    {
        proof {
            lemma_find_node(self.nodes@, node_value);
        }
        let mut i: usize = 0;
        while i < self.nodes.len()
            invariant
                0 <= i <= self.nodes@.len(),
                forall|j: int| 0 <= j < i ==> !(#[trigger] self.nodes@[j].value).eqv(&node_value),
            decreases self.nodes@.len() - i,
        {
            if self.nodes[i].value.veq(&node_value) {
                proof {
                    lemma_find_node(self.nodes@, node_value);
                    assert(find_node_spec(self.nodes@, node_value) == Some(i as int));
                }
                return Some(i);
            }
            i += 1;
        }
        None
    }

    /// Appends a directed edge; both endpoints must already exist.
    pub fn add_edge(&mut self, source: NodeIndex, target: NodeIndex, weight: E) -> (r: Result<
        (),
        GraphOperationError,
    >)
        requires
            old(self).wf(),
        ensures
            final(self).wf(),
            if source >= old(self).nodes@.len() || target >= old(self).nodes@.len() {
                r == Result::<(), GraphOperationError>::Err(GraphOperationError::NodeDoesNotExist)
                    && *final(self) == *old(self)
            } else {
                &&& r is Ok
                &&& final(self).edges@ == old(self).edges@.push(EdgeData { target, weight })
                &&& final(self).nodes@.len() == old(self).nodes@.len()
                &&& final(self).nodes@[source as int].value == old(
                    self,
                ).nodes@[source as int].value
                &&& final(self).nodes@[source as int].edges@ == old(
                    self,
                ).nodes@[source as int].edges@.push(old(self).edges@.len() as EdgeIndex)
                &&& forall|k: int|
                    0 <= k < old(self).nodes@.len() && k != source ==> final(self).nodes@[k] == old(
                        self,
                    ).nodes@[k]
                &&& final(self).id == old(self).id
            },
    {
        if source >= self.nodes.len() || target >= self.nodes.len() {
            return Err(GraphOperationError::NodeDoesNotExist);
        }
        let edge_index = self.edges.len();
        self.edges.push(EdgeData { target, weight });
        self.nodes[source].edges.push(edge_index);
        Ok(())
    }

    /// The weight of the first listed edge from `source` to `target`.
    pub open spec fn find_edge_spec(&self, source: int, target: int, l: int) -> Option<int>
        decreases self.nodes@[source].edges@.len() - l,
    {
        if source < 0 || source >= self.nodes@.len() || !self.wf() {
            None
        } else if target < 0 || target >= self.nodes@.len() {
            None
        } else if l < 0 || l >= self.nodes@[source].edges@.len() {
            None
        } else if self.edges@[self.nodes@[source].edges@[l] as int].target == target {
            Some(self.nodes@[source].edges@[l] as int)
        } else {
            self.find_edge_spec(source, target, l + 1)
        }
    }

    /// The weight of the first edge from `source` to `target`, if both
    /// indices are in bounds and such an edge exists.
    pub fn get_edge_weight(&self, source: NodeIndex, target: NodeIndex) -> (r: Option<&E>)
        requires
            self.wf(),
        ensures
            match self.find_edge_spec(source as int, target as int, 0) {
                Some(e) => r is Some && *r->0 == self.edges@[e].weight,
                None => r is None,
            },
    {
        if source >= self.nodes.len() || target >= self.nodes.len() {
            return None;
        }
        let mut l: usize = 0;
        while l < self.nodes[source].edges.len()
            invariant
                self.wf(),
                source < self.nodes@.len(),
                0 <= l <= self.nodes@[source as int].edges@.len(),
                self.find_edge_spec(source as int, target as int, 0) == self.find_edge_spec(
                    source as int,
                    target as int,
                    l as int,
                ),
            decreases self.nodes@[source as int].edges@.len() - l,
        {
            let e = self.nodes[source].edges[l];
            if self.edges[e].target == target {
                return Some(&self.edges[e].weight);
            }
            l += 1;
        }
        None
    }
}

} // verus!


verus! {

use std::collections::VecDeque;

impl<N: NodeValue, E> Graph<N, E> {
    /// Edge `e` runs from node `a` to node `b`.
    pub open spec fn edge_with(&self, a: int, b: int, e: int) -> bool {
        &&& 0 <= a < self.nodes@.len()
        &&& 0 <= e < self.edges@.len()
        &&& exists|l: int|
            0 <= l < self.nodes@[a].edges@.len() && #[trigger] self.nodes@[a].edges@[l] == e
        &&& self.edges@[e].target == b
    }

    /// Some edge runs from node `a` to node `b`.
    pub open spec fn edge_between(&self, a: int, b: int) -> bool {
        exists|e: int| self.edge_with(a, b, e)
    }

    /// Node `b` can be reached from node `a` in at most `k` hops.
    pub open spec fn reachable_in(&self, a: int, b: int, k: nat) -> bool
        decreases k,
    {
        if a == b {
            true
        } else if k == 0 {
            false
        } else {
            exists|m: int|
                #[trigger] self.edge_between(a, m) && self.reachable_in(m, b, (k - 1) as nat)
        }
    }

    /// Node `b` can be reached from node `a` along directed edges.
    pub open spec fn reachable(&self, a: int, b: int) -> bool {
        exists|k: nat| self.reachable_in(a, b, k)
    }

    /// `items` lists, hop by hop, the node values entered and the edge
    /// weights used by a directed path from `source` to `target` whose
    /// node indices are `idxs`.
    pub open spec fn path_items_ok(
        &self,
        source: int,
        target: int,
        items: Seq<(&N, &E)>,
        idxs: Seq<int>,
        es: Seq<int>,
    ) -> bool {
        &&& idxs.len() == items.len() + 1
        &&& es.len() == items.len()
        &&& idxs[0] == source
        &&& idxs[idxs.len() - 1] == target
        &&& forall|m: int| 0 <= m < idxs.len() ==> 0 <= #[trigger] idxs[m] < self.nodes@.len()
        &&& forall|m: int|
            0 <= m < items.len() ==> self.edge_with(idxs[m], idxs[m + 1], #[trigger] es[m])
        &&& forall|m: int|
            0 <= m < items.len() ==> *(#[trigger] items[m]).1 == self.edges@[es[m]].weight
        &&& forall|m: int|
            0 <= m < items.len() ==> *(#[trigger] items[m]).0 == self.nodes@[idxs[m + 1]].value
    }

    /// `items`, read backwards, lists the node values and edge weights of
    /// the hops along `idxs`.
    pub open spec fn rev_chain_ok(&self, items: Seq<(&N, &E)>, idxs: Seq<int>, es: Seq<int>) -> bool {
        &&& es.len() == items.len()
        &&& forall|j: int|
            0 <= j < items.len() ==> self.edge_with(
                idxs[items.len() - 1 - j],
                idxs[items.len() - j],
                #[trigger] es[items.len() - 1 - j],
            )
        &&& forall|j: int|
            0 <= j < items.len() ==> *(#[trigger] items[j]).1 == self.edges@[es[items.len() - 1
                - j]].weight
        &&& forall|j: int|
            0 <= j < items.len() ==> *(#[trigger] items[j]).0 == self.nodes@[idxs[items.len()
                - j]].value
    }

    /// Prepending one hop preserves the backwards chain.
    proof fn lemma_rev_chain_extend(
        &self,
        pre_items: Seq<(&N, &E)>,
        pre_idxs: Seq<int>,
        pre_es: Seq<int>,
        u: int,
        i: int,
        e: int,
        item: (&N, &E),
    )
        requires
            self.rev_chain_ok(pre_items, pre_idxs, pre_es),
            pre_idxs.len() == pre_items.len() + 1,
            pre_idxs[0] == i,
            self.edge_with(u, i, e),
            *item.1 == self.edges@[e].weight,
            *item.0 == self.nodes@[i].value,
        ensures
            self.rev_chain_ok(pre_items.push(item), seq![u] + pre_idxs, seq![e] + pre_es),
    {
        let items = pre_items.push(item);
        let idxs = seq![u] + pre_idxs;
        let es = seq![e] + pre_es;
        assert forall|j: int| 0 <= j < items.len() implies self.edge_with(
            idxs[items.len() - 1 - j],
            idxs[items.len() - j],
            #[trigger] es[items.len() - 1 - j],
        ) by {
            if j < pre_items.len() {
                assert(idxs[items.len() - 1 - j] == pre_idxs[pre_items.len() - 1 - j]);
                assert(idxs[items.len() - j] == pre_idxs[pre_items.len() - j]);
                assert(es[items.len() - 1 - j] == pre_es[pre_items.len() - 1 - j]);
            } else {
                assert(idxs[items.len() - 1 - j] == u);
                assert(idxs[items.len() - j] == pre_idxs[0]);
                assert(es[items.len() - 1 - j] == e);
            }
        }
        assert forall|j: int| 0 <= j < items.len() implies *(#[trigger] items[j]).1
            == self.edges@[es[items.len() - 1 - j]].weight by {
            if j < pre_items.len() {
                assert(items[j] == pre_items[j]);
                assert(es[items.len() - 1 - j] == pre_es[pre_items.len() - 1 - j]);
            } else {
                assert(items[j] == item);
                assert(es[items.len() - 1 - j] == e);
            }
        }
        assert forall|j: int| 0 <= j < items.len() implies *(#[trigger] items[j]).0
            == self.nodes@[idxs[items.len() - j]].value by {
            if j < pre_items.len() {
                assert(items[j] == pre_items[j]);
                assert(idxs[items.len() - j] == pre_idxs[pre_items.len() - j]);
            } else {
                assert(items[j] == item);
                assert(idxs[items.len() - j] == pre_idxs[0]);
            }
        }
    }

    /// A reversed backwards chain is a forward path.
    proof fn lemma_rev_chain_to_path(
        &self,
        chain: Seq<(&N, &E)>,
        idxs: Seq<int>,
        es: Seq<int>,
        result: Seq<(&N, &E)>,
        source: int,
        target: int,
    )
        requires
            self.rev_chain_ok(chain, idxs, es),
            chain.len() > 0,
            idxs.len() == chain.len() + 1,
            idxs[0] == source,
            idxs[idxs.len() - 1] == target,
            forall|m: int| 0 <= m < idxs.len() ==> 0 <= #[trigger] idxs[m] < self.nodes@.len(),
            result.len() == chain.len(),
            forall|m: int| 0 <= m < result.len() ==> #[trigger] result[m] == chain[chain.len() - 1
                - m],
        ensures
            self.path_items_ok(source, target, result, idxs, es),
    {
        assert forall|m: int| 0 <= m < result.len() implies self.edge_with(
            idxs[m],
            idxs[m + 1],
            #[trigger] es[m],
        ) by {
            let j = chain.len() - 1 - m;
            assert(self.edge_with(idxs[chain.len() - 1 - j], idxs[chain.len() - j], es[chain.len()
                - 1 - j]));
            assert(chain.len() - 1 - j == m);
        }
        assert forall|m: int| 0 <= m < result.len() implies *(#[trigger] result[m]).1
            == self.edges@[es[m]].weight by {
            let j = chain.len() - 1 - m;
            assert(result[m] == chain[j]);
            assert(*(chain[j]).1 == self.edges@[es[chain.len() - 1 - j]].weight);
        }
        assert forall|m: int| 0 <= m < result.len() implies *(#[trigger] result[m]).0
            == self.nodes@[idxs[m + 1]].value by {
            let j = chain.len() - 1 - m;
            assert(result[m] == chain[j]);
            assert(*(chain[j]).0 == self.nodes@[idxs[chain.len() - j]].value);
        }
    }

    /// Once the search has finished, a visited node cannot reach the
    /// target in fewer hops than the recorded breadth-first level allows:
    /// every processed node's successors sit at most one level deeper, and
    /// the one node whose edges were cut short by finding the target is
    /// itself one level above the target.
    proof fn lemma_bfs_minimal(
        &self,
        visited: Seq<bool>,
        gdist: Seq<int>,
        bn: Option<int>,
        target: int,
        a: int,
        k: nat,
    )
        requires
            self.wf(),
            visited.len() == self.nodes@.len(),
            gdist.len() == self.nodes@.len(),
            0 <= target < self.nodes@.len(),
            0 <= a < self.nodes@.len(),
            visited[a],
            forall|v: int, ll: int|
                0 <= v < self.nodes@.len() && visited[v] && Some(v) != bn && 0 <= ll
                    < self.nodes@[v].edges@.len() ==> visited[self.edges@[(
                #[trigger] self.nodes@[v].edges@[ll]) as int].target as int]
                    && gdist[self.edges@[(self.nodes@[v].edges@[ll]) as int].target as int]
                    <= gdist[v] + 1,
            bn is Some ==> 0 <= bn->0 < self.nodes@.len() && gdist[target] <= gdist[bn->0] + 1,
        ensures
            self.reachable_in(a, target, k) ==> gdist[target] <= gdist[a] + k,
        decreases k,
    {
        if self.reachable_in(a, target, k) {
            if a == target {
            } else {
                let m = choose|m: int|
                    #[trigger] self.edge_between(a, m) && self.reachable_in(
                        m,
                        target,
                        (k - 1) as nat,
                    );
                if bn == Some(a) {
                } else {
                    let e = choose|e: int| self.edge_with(a, m, e);
                    let ll = choose|ll: int|
                        0 <= ll < self.nodes@[a].edges@.len() && #[trigger] self.nodes@[a].edges@[ll]
                            == e;
                    assert(visited[self.edges@[(self.nodes@[a].edges@[ll]) as int].target as int]
                        && gdist[self.edges@[(self.nodes@[a].edges@[ll]) as int].target as int]
                        <= gdist[a] + 1);
                    assert(visited[m] && gdist[m] <= gdist[a] + 1);
                    self.lemma_bfs_minimal(visited, gdist, bn, target, m, (k - 1) as nat);
                }
            }
        }
    }

    /// Under a successor-closed visited set that misses `target`, no
    /// visited node reaches `target`.
    proof fn lemma_closed_visited(&self, visited: Seq<bool>, a: int, target: int, k: nat)
        requires
            self.wf(),
            visited.len() == self.nodes@.len(),
            0 <= a < self.nodes@.len(),
            0 <= target < self.nodes@.len(),
            visited[a],
            !visited[target],
            forall|v: int, l: int|
                0 <= v < self.nodes@.len() && visited[v] && 0 <= l
                    < self.nodes@[v].edges@.len() ==> visited[self.edges@[(
                #[trigger] self.nodes@[v].edges@[l]) as int].target as int],
        ensures
            !self.reachable_in(a, target, k),
        decreases k,
    {
        if self.reachable_in(a, target, k) {
            if a == target {
            } else {
                let m = choose|m: int|
                    #[trigger] self.edge_between(a, m) && self.reachable_in(
                        m,
                        target,
                        (k - 1) as nat,
                    );
                let e = choose|e: int| self.edge_with(a, m, e);
                let l = choose|l: int|
                    0 <= l < self.nodes@[a].edges@.len() && #[trigger] self.nodes@[a].edges@[l]
                        == e;
                assert(visited[self.edges@[(self.nodes@[a].edges@[l]) as int].target as int]);
                self.lemma_closed_visited(visited, m, target, (k - 1) as nat);
            }
        }
    }

    /// A breadth-first fewest-hop search: the returned items walk existing
    /// edges from `source` to `target` carrying the entered node values
    /// and the edge weights used; the result is empty exactly when the two
    /// nodes coincide or no directed path connects them.
    pub fn shortest_path<'a>(&'a self, source: NodeIndex, target: NodeIndex) -> (r: Vec<
        (&'a N, &'a E),
    >)
        requires
            self.wf(),
            source < self.nodes@.len(),
            target < self.nodes@.len(),
        ensures
            source == target ==> r@.len() == 0,
            r@.len() > 0 ==> exists|idxs: Seq<int>, es: Seq<int>|
                self.path_items_ok(source as int, target as int, r@, idxs, es),
            r@.len() == 0 ==> source == target || !self.reachable(source as int, target as int),
            r@.len() > 0 ==> forall|k: nat|
                k < r@.len() ==> !self.reachable_in(source as int, target as int, k),
    {
        let n = self.nodes.len();
        let mut visited: Vec<bool> = vec![false; n];
        let mut parent: Vec<Option<(usize, usize)>> = vec![None; n];
        let ghost mut gdist: Seq<int> = Seq::new(n as nat, |v: int| 0);
        let mut queue: VecDeque<usize> = VecDeque::new();

        visited[source] = true;
        queue.push_back(source);
        let ghost mut break_node: Option<int> = None;
        proof {
            assert(queue@[0] == source);
            assert(queue@.contains(source));
        }

        while queue.len() > 0
            invariant
                self.wf(),
                n == self.nodes@.len(),
                source < n,
                target < n,
                visited@.len() == n,
                parent@.len() == n,
                gdist.len() == n,
                visited@[source as int],
                parent@[source as int] is None,
                gdist[source as int] == 0,
                forall|v: int|
                    0 <= v < n && (#[trigger] parent@[v]) is Some ==> v != source && visited@[v]
                        && 0 <= (parent@[v]->0).0 < n && visited@[(parent@[v]->0).0 as int]
                        && self.edge_with((parent@[v]->0).0 as int, v, (parent@[v]->0).1 as int)
                        && gdist[v] == gdist[(parent@[v]->0).0 as int] + 1,
                forall|v: int| 0 <= v < n && #[trigger] visited@[v] ==> gdist[v] >= 0,
                forall|v: int|
                    0 <= v < n && #[trigger] visited@[v] && v != source ==> parent@[v] is Some,
                forall|qi: int|
                    0 <= qi < queue@.len() ==> (#[trigger] queue@[qi]) < n
                        && visited@[queue@[qi] as int],
                !visited@[target as int] ==> (forall|v: int, ll: int|
                    0 <= v < n && visited@[v] && !queue@.contains(v as usize) && 0 <= ll
                        < self.nodes@[v].edges@.len() ==> visited@[self.edges@[(
                    #[trigger] self.nodes@[v].edges@[ll]) as int].target as int]),
                break_node is Some ==> visited@[target as int] && 0 <= break_node->0 < n
                    && gdist[target as int] <= gdist[break_node->0] + 1,
                break_node is None && visited@[target as int] ==> target == source,
                forall|v: int, ll: int|
                    0 <= v < n && visited@[v] && !queue@.contains(v as usize) && Some(v)
                        != break_node && 0 <= ll < self.nodes@[v].edges@.len()
                        ==> visited@[self.edges@[(
                    #[trigger] self.nodes@[v].edges@[ll]) as int].target as int]
                        && gdist[self.edges@[(self.nodes@[v].edges@[ll]) as int].target as int]
                        <= gdist[v] + 1,
                forall|qi: int, qj: int|
                    0 <= qi <= qj < queue@.len() ==> gdist[(#[trigger] queue@[qi]) as int]
                        <= gdist[(#[trigger] queue@[qj]) as int],
                queue@.len() > 0 ==> (forall|v: int|
                    0 <= v < n && #[trigger] visited@[v] ==> gdist[v] <= gdist[queue@[0] as int]
                        + 1),
            decreases Seq::new(n as nat, |v: int| !visited@[v]).filter(|b: bool| b).len()
                + queue@.len(),
        {
            let ghost pre_queue = queue@;
            let node = match queue.pop_front() {
                Some(v) => v,
                None => {
                    proof {
                        assert(false);
                    }
                    return Vec::new();
                },
            };
            proof {
                assert forall|v: usize| pre_queue.contains(v) && v != node implies queue@.contains(
                    v,
                ) by {
                    let qi = choose|qi: int| 0 <= qi < pre_queue.len() && pre_queue[qi] == v;
                    assert(queue@[qi - 1] == v);
                }
                assert(node == pre_queue[0]);
                assert(forall|qi: int| 0 <= qi < queue@.len() ==> #[trigger] queue@[qi]
                    == pre_queue[qi + 1]);
            }
            let ghost pre_visited = visited@;
            let ghost pre_inner_queue = queue@;
            let adj_len = self.nodes[node].edges.len();
            let mut found = false;
            let mut l: usize = 0;
            while l < adj_len && !found
                invariant
                    self.wf(),
                    n == self.nodes@.len(),
                    source < n,
                    target < n,
                    node < n,
                    adj_len == self.nodes@[node as int].edges@.len(),
                    0 <= l <= adj_len,
                    visited@.len() == n,
                    parent@.len() == n,
                    gdist.len() == n,
                    visited@[source as int],
                    visited@[node as int],
                    parent@[source as int] is None,
                    gdist[source as int] == 0,
                    forall|v: int|
                        0 <= v < n && (#[trigger] parent@[v]) is Some ==> v != source && visited@[v]
                            && 0 <= (parent@[v]->0).0 < n && visited@[(parent@[v]->0).0 as int]
                            && self.edge_with((parent@[v]->0).0 as int, v, (parent@[v]->0).1 as int)
                            && gdist[v] == gdist[(parent@[v]->0).0 as int] + 1,
                    forall|v: int| 0 <= v < n && #[trigger] visited@[v] ==> gdist[v] >= 0,
                    forall|v: int|
                        0 <= v < n && #[trigger] visited@[v] && v != source ==> parent@[v] is Some,
                    forall|qi: int|
                        0 <= qi < queue@.len() ==> (#[trigger] queue@[qi]) < n
                            && visited@[queue@[qi] as int],
                    found ==> visited@[target as int],
                    found ==> break_node == Some(node as int),
                    !visited@[target as int] ==> (forall|v: int, ll: int|
                        0 <= v < n && visited@[v] && !queue@.contains(v as usize) && 0 <= ll
                            < self.nodes@[v].edges@.len() && (v != node as int || ll < l)
                            ==> visited@[self.edges@[(
                        #[trigger] self.nodes@[v].edges@[ll]) as int].target as int]),
                    break_node is Some ==> visited@[target as int] && 0 <= break_node->0 < n
                        && gdist[target as int] <= gdist[break_node->0] + 1,
                    break_node is None && visited@[target as int] ==> target == source,
                    forall|v: int, ll: int|
                        0 <= v < n && visited@[v] && !queue@.contains(v as usize) && Some(v)
                            != break_node && 0 <= ll < self.nodes@[v].edges@.len() && (v
                            != node as int || ll < l) ==> visited@[self.edges@[(
                        #[trigger] self.nodes@[v].edges@[ll]) as int].target as int]
                            && gdist[self.edges@[(self.nodes@[v].edges@[ll]) as int].target as int]
                            <= gdist[v] + 1,
                    forall|v: int|
                        0 <= v < n && #[trigger] visited@[v] ==> gdist[v] <= gdist[node as int]
                            + 1,
                    forall|qi: int|
                        0 <= qi < queue@.len() ==> gdist[node as int] <= gdist[(
                        #[trigger] queue@[qi]) as int] <= gdist[node as int] + 1,
                    forall|qi: int, qj: int|
                        0 <= qi <= qj < queue@.len() ==> gdist[(#[trigger] queue@[qi]) as int]
                            <= gdist[(#[trigger] queue@[qj]) as int],
                    forall|v: int| 0 <= v < n && pre_visited[v] ==> visited@[v],
                    Seq::new(n as nat, |v: int| !visited@[v]).filter(|b: bool| b).len()
                        + queue@.len() <= Seq::new(n as nat, |v: int| !pre_visited[v]).filter(
                        |b: bool| b,
                    ).len() + pre_inner_queue.len(),
                decreases adj_len - l,
            {
                let e = self.nodes[node].edges[l];
                let t = self.edges[e].target;
                if !visited[t] {
                    let ghost mid_visited = visited@;
                    let ghost mid_queue = queue@;
                    visited[t] = true;
                    parent[t] = Some((node, e));
                    proof {
                        gdist = gdist.update(t as int, gdist[node as int] + 1);
                        lemma_filter_unvisited_set(mid_visited, t as int, n as int);
                    }
                    queue.push_back(t);
                    proof {
                        assert forall|v: usize| mid_queue.contains(v) implies queue@.contains(
                            v,
                        ) by {
                            let qi = choose|qi: int| 0 <= qi < mid_queue.len() && mid_queue[qi]
                                == v;
                            assert(queue@[qi] == v);
                        }
                        assert(queue@[queue@.len() - 1] == t);
                        assert(queue@.contains(t));
                    }
                    if t == target {
                        found = true;
                        proof {
                            break_node = Some(node as int);
                        }
                    }
                }
                l += 1;
            }
        }

        // Reconstruct the path by walking parents backwards from the target.
        let mut rev_items: Vec<(&'a N, &'a E)> = Vec::new();
        let ghost mut idxs: Seq<int> = seq![target as int];
        let ghost mut es: Seq<int> = Seq::empty();
        let mut i: usize = target;
        while parent[i].is_some()
            invariant
                self.wf(),
                n == self.nodes@.len(),
                source < n,
                target < n,
                i < n,
                parent@.len() == n,
                gdist.len() == n,
                visited@.len() == n,
                parent@[source as int] is None,
                forall|v: int|
                    0 <= v < n && (#[trigger] parent@[v]) is Some ==> v != source && visited@[v]
                        && 0 <= (parent@[v]->0).0 < n && visited@[(parent@[v]->0).0 as int]
                        && self.edge_with((parent@[v]->0).0 as int, v, (parent@[v]->0).1 as int)
                        && gdist[v] == gdist[(parent@[v]->0).0 as int] + 1,
                forall|v: int| 0 <= v < n && #[trigger] visited@[v] ==> gdist[v] >= 0,
                forall|v: int|
                    0 <= v < n && #[trigger] visited@[v] && v != source ==> parent@[v] is Some,
                idxs.len() == rev_items@.len() + 1,
                idxs[0] == i as int,
                idxs[idxs.len() - 1] == target,
                forall|m: int| 0 <= m < idxs.len() ==> 0 <= #[trigger] idxs[m] < n,
                rev_items@.len() > 0 ==> visited@[i as int],
                gdist[source as int] == 0,
                gdist[i as int] + rev_items@.len() == gdist[target as int],
                es.len() == rev_items@.len(),
                self.rev_chain_ok(rev_items@, idxs, es),
                rev_items@.len() == 0 ==> i == target,
            decreases gdist[i as int],
        {
            proof {
                assert(visited@[i as int]);
                assert(gdist[i as int] >= 0);
            }
            let (u, e) = match parent[i] {
                Some(p) => p,
                None => {
                    proof {
                        assert(false);
                    }
                    (0, 0)
                },
            };
            let ghost pre_idxs = idxs;
            let ghost pre_items = rev_items@;
            rev_items.push((&self.nodes[i].value, &self.edges[e].weight));
            proof {
                let item = rev_items@.last();
                assert(rev_items@ == pre_items.push(item));
                assert(*item.1 == self.edges@[e as int].weight);
                assert(*item.0 == self.nodes@[i as int].value);
                assert(self.edge_with(u as int, i as int, e as int));
                self.lemma_rev_chain_extend(
                    pre_items,
                    pre_idxs,
                    es,
                    u as int,
                    i as int,
                    e as int,
                    item,
                );
                idxs = seq![u as int] + pre_idxs;
                es = seq![e as int] + es;
            }
            i = u;
        }

        // The items were collected target-first; reverse them.
        let ghost final_rev = rev_items@;
        let ghost walk_end = i as int;
        let mut result: Vec<(&'a N, &'a E)> = Vec::new();
        while rev_items.len() > 0
            invariant
                rev_items@ == final_rev.take(rev_items@.len() as int),
                result@.len() + rev_items@.len() == final_rev.len(),
                forall|m: int|
                    0 <= m < result@.len() ==> #[trigger] result@[m] == final_rev[final_rev.len()
                        - 1 - m],
            decreases rev_items@.len(),
        {
            match rev_items.pop() {
                Some(it) => {
                    result.push(it);
                },
                None => {
                    proof {
                        assert(false);
                    }
                },
            }
            proof {
                assert(rev_items@ =~= final_rev.take(rev_items@.len() as int));
            }
        }

        proof {
            if final_rev.len() > 0 {
                assert(visited@[walk_end] && parent@[walk_end] is None);
                assert(walk_end == source as int);
                self.lemma_rev_chain_to_path(
                    final_rev,
                    idxs,
                    es,
                    result@,
                    source as int,
                    target as int,
                );
                assert(self.path_items_ok(source as int, target as int, result@, idxs, es));
                assert(result@.len() == gdist[target as int]);
                assert forall|k: nat| k < result@.len() implies !self.reachable_in(
                    source as int,
                    target as int,
                    k,
                ) by {
                    if self.reachable_in(source as int, target as int, k) {
                        self.lemma_bfs_minimal(
                            visited@,
                            gdist,
                            break_node,
                            target as int,
                            source as int,
                            k,
                        );
                    }
                }
            } else {
                // The walk never moved: the target has no parent entry.
                assert(i == target);
                if source != target {
                    assert(!visited@[target as int]);
                    assert forall|k: nat|
                        !self.reachable_in(source as int, target as int, k) by {
                        self.lemma_closed_visited(visited@, source as int, target as int, k);
                    }
                    assert(!self.reachable(source as int, target as int));
                }
            }
        }
        result
    }
}

/// Marking one more node visited shrinks the unvisited count.
proof fn lemma_filter_unvisited_set(visited: Seq<bool>, t: int, n: int)
    requires
        visited.len() == n,
        0 <= t < n,
        !visited[t],
    ensures
        Seq::new(n as nat, |v: int| !visited.update(t, true)[v]).filter(|b: bool| b).len()
            < Seq::new(n as nat, |v: int| !visited[v]).filter(|b: bool| b).len(),
{
    lemma_filter_flip(visited, t, n, n);
}

/// Counting unvisited entries over a prefix, before and after marking one.
proof fn lemma_filter_flip(visited: Seq<bool>, t: int, n: int, p: int)
    requires
        visited.len() == n,
        0 <= t < n,
        !visited[t],
        0 <= p <= n,
    ensures
        ({
            let before = Seq::new(p as nat, |v: int| !visited[v]).filter(|b: bool| b).len();
            let after = Seq::new(p as nat, |v: int| !visited.update(t, true)[v]).filter(
                |b: bool| b,
            ).len();
            if t < p {
                after < before
            } else {
                after == before
            }
        }),
    decreases p,
{
    reveal_with_fuel(Seq::filter, 2);

    let before_seq = Seq::new(p as nat, |v: int| !visited[v]);
    let after_seq = Seq::new(p as nat, |v: int| !visited.update(t, true)[v]);
    if p == 0 {
        assert(before_seq =~= Seq::<bool>::empty());
        assert(after_seq =~= Seq::<bool>::empty());
        assert(before_seq.filter(|b: bool| b) =~= Seq::<bool>::empty());
        assert(after_seq.filter(|b: bool| b) =~= Seq::<bool>::empty());
    } else {
        lemma_filter_flip(visited, t, n, p - 1);
        let before_pre = Seq::new((p - 1) as nat, |v: int| !visited[v]);
        let after_pre = Seq::new((p - 1) as nat, |v: int| !visited.update(t, true)[v]);
        assert(before_seq.drop_last() =~= before_pre);
        assert(after_seq.drop_last() =~= after_pre);
        assert(before_seq.last() == !visited[p - 1]);
        assert(after_seq.last() == !visited.update(t, true)[p - 1]);
        assert(before_seq.filter(|b: bool| b) == (if before_seq.last() {
            before_pre.filter(|b: bool| b).push(before_seq.last())
        } else {
            before_pre.filter(|b: bool| b)
        }));
        assert(after_seq.filter(|b: bool| b) == (if after_seq.last() {
            after_pre.filter(|b: bool| b).push(after_seq.last())
        } else {
            after_pre.filter(|b: bool| b)
        }));
    }
}

} // verus!

verus! {

impl<N: NodeValue, E> Graph<N, E> {
    /// A valid path witnesses reachability.
    pub proof fn lemma_path_reachable(
        &self,
        s: int,
        t: int,
        items: Seq<(&N, &E)>,
        idxs: Seq<int>,
        es: Seq<int>,
    )
        requires
            self.path_items_ok(s, t, items, idxs, es),
        ensures
            self.reachable(s, t),
    {
        self.lemma_path_reachable_from(t, items, idxs, es, 0);
        assert(self.reachable_in(s, t, items.len() as nat));
    }

    proof fn lemma_path_reachable_from(
        &self,
        t: int,
        items: Seq<(&N, &E)>,
        idxs: Seq<int>,
        es: Seq<int>,
        m: int,
    )
        requires
            0 <= m <= items.len(),
            idxs.len() == items.len() + 1,
            es.len() == items.len(),
            idxs[idxs.len() - 1] == t,
            forall|k: int| 0 <= k < items.len() ==> self.edge_with(idxs[k], idxs[k + 1], #[trigger] es[k]),
        ensures
            self.reachable_in(idxs[m], t, (items.len() - m) as nat),
        decreases items.len() - m,
    {
        if m == items.len() {
            assert(idxs[m] == t);
        } else {
            self.lemma_path_reachable_from(t, items, idxs, es, m + 1);
            assert(self.edge_with(idxs[m], idxs[m + 1], es[m]));
            assert(self.edge_between(idxs[m], idxs[m + 1]));
            if idxs[m] != t {
                assert(self.edge_between(idxs[m], idxs[m + 1]) && self.reachable_in(
                    idxs[m + 1],
                    t,
                    (items.len() - m - 1) as nat,
                ));
            }
        }
    }
}

} // verus!
