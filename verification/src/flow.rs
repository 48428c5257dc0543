//! A flow: named nodes, a start node, and edges that lead from one node to
//! another under a condition. After a node has run, the flow follows the
//! first edge from it whose condition is the state the node reported, else
//! the first edge from it under "default", and stops when there is neither.
use vstd::prelude::*;
use vstd::relations::*;

use crate::node::ProcessState;
use crate::sorting::{
    key_order, lemma_sort_by_same_items, lemma_sort_distinct_is_sorted_set,
    lemma_to_seq_no_duplicates, sort_by_key, views, SortKey,
};
use crate::text::{lemma_text_order_total, text_equal, text_le, text_less_eq, text_order, text_to_string};

verus! {

/// An edge as the model sees it: (from, to, condition).
pub type EdgeView = (Seq<char>, Seq<char>, Seq<char>);

/// An edge from one node to another, taken under a condition.
pub struct Edge {
    pub from: String,
    pub to: String,
    pub condition: String,
}

impl View for Edge {
    type V = EdgeView;

    open spec fn view(&self) -> EdgeView {
        (self.from@, self.to@, self.condition@)
    }
}

/// The order in which edges are listed: by source, then target, then
/// condition, each lexicographically.
pub open spec fn edge_le(a: EdgeView, b: EdgeView) -> bool {
    if a.0 != b.0 {
        text_le(a.0, b.0)
    } else if a.1 != b.1 {
        text_le(a.1, b.1)
    } else {
        text_le(a.2, b.2)
    }
}

impl SortKey for Edge {
    open spec fn key_le(a: EdgeView, b: EdgeView) -> bool {
        edge_le(a, b)
    }

    proof fn lemma_key_order_total() {
        lemma_text_order_total();
        let t = |a: Seq<char>, b: Seq<char>| text_le(a, b);
        let r = |a: EdgeView, b: EdgeView| Self::key_le(a, b);
        assert forall|x: EdgeView| #[trigger] r(x, x) by {
            assert(t(x.2, x.2));
        }
        assert forall|x: EdgeView, y: EdgeView| #[trigger] r(x, y) && #[trigger] r(y, x) implies x
            == y by {
            if x.0 != y.0 {
                assert(t(x.0, y.0) && t(y.0, x.0));
            } else if x.1 != y.1 {
                assert(t(x.1, y.1) && t(y.1, x.1));
            } else {
                assert(t(x.2, y.2) && t(y.2, x.2));
            }
        }
        assert forall|x: EdgeView, y: EdgeView, z: EdgeView| #[trigger]
            r(x, y) && #[trigger] r(y, z) implies r(x, z) by {
            if x.0 != y.0 && y.0 != z.0 {
                assert(t(x.0, y.0) && t(y.0, z.0));
                if x.0 == z.0 {
                    assert(t(z.0, y.0));
                }
            } else if x.0 != y.0 || y.0 != z.0 {
            } else if x.1 != y.1 && y.1 != z.1 {
                assert(t(x.1, y.1) && t(y.1, z.1));
                if x.1 == z.1 {
                    assert(t(z.1, y.1));
                }
            } else if x.1 != y.1 || y.1 != z.1 {
            } else {
                assert(t(x.2, y.2) && t(y.2, z.2));
            }
        }
        assert forall|x: EdgeView, y: EdgeView| #[trigger] r(x, y) || #[trigger] r(y, x) by {
            assert(t(x.0, y.0) || t(y.0, x.0));
            assert(t(x.1, y.1) || t(y.1, x.1));
            assert(t(x.2, y.2) || t(y.2, x.2));
        }
    }

    fn key_less_eq(&self, other: &Self) -> (le: bool) {
        if !text_equal(self.from.as_str(), other.from.as_str()) {
            text_less_eq(self.from.as_str(), other.from.as_str())
        } else if !text_equal(self.to.as_str(), other.to.as_str()) {
            text_less_eq(self.to.as_str(), other.to.as_str())
        } else {
            text_less_eq(self.condition.as_str(), other.condition.as_str())
        }
    }
}

/// Whether edge `e` leaves `from` under `condition`.
pub open spec fn edge_matches(e: EdgeView, from: Seq<char>, condition: Seq<char>) -> bool {
    e.0 == from && e.2 == condition
}

/// Whether some edge leaves `from` under `condition`.
pub open spec fn has_match(edges: Seq<EdgeView>, from: Seq<char>, condition: Seq<char>) -> bool {
    exists|i: int| 0 <= i < edges.len() && #[trigger] edge_matches(edges[i], from, condition)
}

/// Whether `edges[i]` is the first edge that leaves `from` under `condition`.
pub open spec fn is_first_match(
    edges: Seq<EdgeView>,
    from: Seq<char>,
    condition: Seq<char>,
    i: int,
) -> bool {
    &&& 0 <= i < edges.len()
    &&& edge_matches(edges[i], from, condition)
    &&& forall|k: int| 0 <= k < i ==> !#[trigger] edge_matches(edges[k], from, condition)
}

/// The target of the first edge that leaves `from` under `condition`.
pub open spec fn first_target(edges: Seq<EdgeView>, from: Seq<char>, condition: Seq<char>) -> Option<
    Seq<char>,
> {
    if has_match(edges, from, condition) {
        Some(edges[choose|i: int| is_first_match(edges, from, condition, i)].1)
    } else {
        None
    }
}

/// The node that follows `from` when it reports `condition`: the target of
/// the first edge under that condition, else of the first edge under
/// "default", else none.
pub open spec fn route(edges: Seq<EdgeView>, from: Seq<char>, condition: Seq<char>) -> Option<
    Seq<char>,
> {
    match first_target(edges, from, condition) {
        Some(to) => Some(to),
        None => first_target(edges, from, "default"@),
    }
}

/// An optional text by its view.
pub open spec fn opt_text(t: Option<String>) -> Option<Seq<char>> {
    match t {
        Some(s) => Some(s@),
        None => None,
    }
}

proof fn lemma_first_match_is_chosen(
    edges: Seq<EdgeView>,
    from: Seq<char>,
    condition: Seq<char>,
    i: int,
)
    requires
        is_first_match(edges, from, condition, i),
    ensures
        first_target(edges, from, condition) == Some(edges[i].1),
{
    assert(has_match(edges, from, condition)) by {
        assert(edge_matches(edges[i], from, condition));
    }
    let j = choose|j: int| is_first_match(edges, from, condition, j);
    assert(is_first_match(edges, from, condition, j));
    if j < i {
        assert(edge_matches(edges[j], from, condition));
    } else if i < j {
        assert(edge_matches(edges[i], from, condition));
    }
}

proof fn lemma_first_match_exists(edges: Seq<EdgeView>, from: Seq<char>, condition: Seq<char>)
    requires
        has_match(edges, from, condition),
    ensures
        exists|i: int| is_first_match(edges, from, condition, i),
    decreases edges.len(),
{
    let last = edges.len() - 1;
    if edge_matches(edges[last], from, condition) && !has_match(
        edges.drop_last(),
        from,
        condition,
    ) {
        assert forall|k: int| 0 <= k < last implies !#[trigger] edge_matches(
            edges[k],
            from,
            condition,
        ) by {
            if edge_matches(edges[k], from, condition) {
                assert(edge_matches(edges.drop_last()[k], from, condition));
            }
        }
        assert(is_first_match(edges, from, condition, last));
    } else {
        let i = choose|i: int| 0 <= i < edges.len() && #[trigger] edge_matches(edges[i], from, condition);
        if i == last {
            let k = choose|k: int| 0 <= k < edges.drop_last().len() && #[trigger] edge_matches(
                edges.drop_last()[k],
                from,
                condition,
            );
            assert(edge_matches(edges[k], from, condition));
        }
        let rest = edges.drop_last();
        assert(has_match(rest, from, condition)) by {
            if i < last {
                assert(edge_matches(rest[i], from, condition));
            } else {
                let k = choose|k: int| 0 <= k < rest.len() && #[trigger] edge_matches(
                    rest[k],
                    from,
                    condition,
                );
                assert(edge_matches(rest[k], from, condition));
            }
        }
        lemma_first_match_exists(rest, from, condition);
        let f = choose|f: int| is_first_match(rest, from, condition, f);
        assert forall|k: int| 0 <= k < f implies !#[trigger] edge_matches(edges[k], from, condition) by {
            assert(rest[k] == edges[k]);
        }
        assert(is_first_match(edges, from, condition, f));
    }
}

/// Adding an edge leaves the route from every other node as it was, and an
/// edge that is already taken under a condition stays the one taken: the
/// first edge added wins.
pub proof fn lemma_add_edge_keeps_routes(
    edges: Seq<EdgeView>,
    added: EdgeView,
    from: Seq<char>,
    condition: Seq<char>,
)
    ensures
        added.0 != from ==> route(edges.push(added), from, condition) == route(
            edges,
            from,
            condition,
        ),
        first_target(edges, from, condition) is Some ==> first_target(
            edges.push(added),
            from,
            condition,
        ) == first_target(edges, from, condition),
{
    let grown = edges.push(added);
    assert forall|c: Seq<char>| #![trigger first_target(edges, from, c)]
        has_match(edges, from, c) implies first_target(grown, from, c) == first_target(
        edges,
        from,
        c,
    ) by {
        lemma_first_match_exists(edges, from, c);
        let i = choose|i: int| is_first_match(edges, from, c, i);
        lemma_first_match_is_chosen(edges, from, c, i);
        assert(is_first_match(grown, from, c, i)) by {
            assert forall|k: int| 0 <= k < i implies !#[trigger] edge_matches(grown[k], from, c) by {
                assert(grown[k] == edges[k]);
            }
        }
        lemma_first_match_is_chosen(grown, from, c, i);
    }
    if added.0 != from {
        assert forall|c: Seq<char>| #![trigger first_target(edges, from, c)]
            !has_match(edges, from, c) implies !has_match(grown, from, c) by {
            if has_match(grown, from, c) {
                let k = choose|k: int| 0 <= k < grown.len() && #[trigger] edge_matches(
                    grown[k],
                    from,
                    c,
                );
                assert(k < edges.len());
                assert(edge_matches(edges[k], from, c));
            }
        }
        assert(first_target(edges, from, condition) == first_target(grown, from, condition));
        assert(first_target(edges, from, "default"@) == first_target(grown, from, "default"@));
    }
    if first_target(edges, from, condition) is Some {
        assert(has_match(edges, from, condition));
    }
}

/// The node that follows `from` under `condition` is the target of the
/// first edge that leaves `from` under `condition`, whatever that target is
/// (a node may lead back to itself).
pub proof fn lemma_route_takes_first_matching_edge(
    edges: Seq<EdgeView>,
    from: Seq<char>,
    condition: Seq<char>,
    i: int,
)
    requires
        0 <= i < edges.len(),
        edges[i].0 == from,
        edges[i].2 == condition,
        forall|k: int| 0 <= k < i ==> !(#[trigger] edges[k].0 == from && edges[k].2 == condition),
    ensures
        route(edges, from, condition) == Some(edges[i].1),
{
    assert(is_first_match(edges, from, condition, i));
    lemma_first_match_is_chosen(edges, from, condition, i);
}

/// When no edge leaves `from` under `condition`, the node that follows is
/// the target of the first edge that leaves `from` under "default",
/// whatever that target is.
pub proof fn lemma_route_falls_back_to_default(
    edges: Seq<EdgeView>,
    from: Seq<char>,
    condition: Seq<char>,
    i: int,
)
    requires
        forall|k: int| 0 <= k < edges.len() ==> !(#[trigger] edges[k].0 == from && edges[k].2 == condition),
        0 <= i < edges.len(),
        edges[i].0 == from,
        edges[i].2 == "default"@,
        forall|k: int| 0 <= k < i ==> !(#[trigger] edges[k].0 == from && edges[k].2 == "default"@),
    ensures
        route(edges, from, condition) == Some(edges[i].1),
{
    assert(!has_match(edges, from, condition));
    assert(is_first_match(edges, from, "default"@, i));
    lemma_first_match_is_chosen(edges, from, "default"@, i);
}

/// The run stops at `from` exactly when no edge leaves it under `condition`
/// or under "default"; any node that follows is the target of an edge that
/// leaves `from`.
pub proof fn lemma_route_stops_or_follows_an_edge(
    edges: Seq<EdgeView>,
    from: Seq<char>,
    condition: Seq<char>,
)
    ensures
        route(edges, from, condition) is None <==> forall|k: int| 0 <= k < edges.len() && #[trigger] edges[k].0 == from
            ==> edges[k].2 != condition && edges[k].2 != "default"@,
        route(edges, from, condition) matches Some(to) ==> exists|k: int|
            0 <= k < edges.len() && #[trigger] edges[k].0 == from && edges[k].1 == to,
{
    if has_match(edges, from, condition) {
        lemma_first_match_exists(edges, from, condition);
        let i = choose|i: int| is_first_match(edges, from, condition, i);
        lemma_first_match_is_chosen(edges, from, condition, i);
        assert(edges[i].0 == from);
    } else if has_match(edges, from, "default"@) {
        lemma_first_match_exists(edges, from, "default"@);
        let i = choose|i: int| is_first_match(edges, from, "default"@, i);
        lemma_first_match_is_chosen(edges, from, "default"@, i);
        assert(edges[i].0 == from);
    } else {
        assert forall|k: int| 0 <= k < edges.len() && #[trigger] edges[k].0 == from implies edges[k].2
            != condition && edges[k].2 != "default"@ by {
            if edges[k].2 == condition {
                assert(edge_matches(edges[k], from, condition));
            }
            if edges[k].2 == "default"@ {
                assert(edge_matches(edges[k], from, "default"@));
            }
        }
    }
}

proof fn lemma_node_lines_flatten(names: Seq<Seq<char>>)
    ensures
        node_lines(names) == names.map_values(|n: Seq<char>| "    "@ + n + "["@ + n + "]\n"@).flatten(),
    decreases names.len(),
{
    let f = |n: Seq<char>| "    "@ + n + "["@ + n + "]\n"@;
    let lines = names.map_values(f);
    lines.lemma_flatten_and_flatten_alt_are_equivalent();
    if names.len() > 0 {
        lemma_node_lines_flatten(names.drop_last());
        let rest = names.drop_last().map_values(f);
        rest.lemma_flatten_and_flatten_alt_are_equivalent();
        assert(lines.drop_last() =~= rest);
    } else {
        assert(lines =~= Seq::<Seq<char>>::empty());
    }
}

proof fn lemma_edge_lines_flatten(edges: Seq<EdgeView>)
    ensures
        edge_lines(edges) == edges.map_values(
            |e: EdgeView| "    "@ + e.0 + " -->|"@ + e.2 + "| "@ + e.1 + "\n"@,
        ).flatten(),
    decreases edges.len(),
{
    let f = |e: EdgeView| "    "@ + e.0 + " -->|"@ + e.2 + "| "@ + e.1 + "\n"@;
    let lines = edges.map_values(f);
    lines.lemma_flatten_and_flatten_alt_are_equivalent();
    if edges.len() > 0 {
        lemma_edge_lines_flatten(edges.drop_last());
        let rest = edges.drop_last().map_values(f);
        rest.lemma_flatten_and_flatten_alt_are_equivalent();
        assert(lines.drop_last() =~= rest);
    } else {
        assert(lines =~= Seq::<Seq<char>>::empty());
    }
}

/// The chart is the header, then one line `    name[name]` for each node
/// name, each name once and in lexicographic order, then one line
/// `    from -->|condition| to` for each edge, every edge as often as the flow
/// holds it (self-loops included), ordered by source, target and condition.
pub proof fn lemma_mermaid_lists_every_node_and_edge<N>(m: FlowModel<N>)
    ensures
        ({
            let names = m.nodes.dom().to_sorted_seq(text_order());
            let edges = m.edges.sort_by(edge_order());
            &&& edges.to_multiset() == m.edges.to_multiset()
            &&& edges.len() == m.edges.len()
            &&& forall|i: int, j: int|
                0 <= i < j < edges.len() ==> {
                    &&& edges[i].0 != edges[j].0 ==> text_le(edges[i].0, edges[j].0)
                    &&& edges[i].0 == edges[j].0 && edges[i].1 != edges[j].1 ==> text_le(
                        edges[i].1,
                        edges[j].1,
                    )
                    &&& edges[i].0 == edges[j].0 && edges[i].1 == edges[j].1 ==> text_le(
                        edges[i].2,
                        edges[j].2,
                    )
                }
            &&& forall|i: int, j: int| 0 <= i < j < names.len() ==> text_le(names[i], names[j])
            &&& m.nodes.dom().finite() ==> names.no_duplicates() && names.to_set() == m.nodes.dom()
            &&& mermaid_text(m) == "flowchart TD\n"@ + names.map_values(
                |n: Seq<char>| "    "@ + n + "["@ + n + "]\n"@,
            ).flatten() + m.edges.sort_by(edge_order()).map_values(
                |e: EdgeView| "    "@ + e.0 + " -->|"@ + e.2 + "| "@ + e.1 + "\n"@,
            ).flatten()
        }),
{
    broadcast use vstd::seq_lib::group_to_multiset_ensures;

    let dom = m.nodes.dom();
    let names = dom.to_sorted_seq(text_order());
    lemma_edge_order_total();
    lemma_text_order_total();
    m.edges.lemma_sort_by_ensures(edge_order());
    dom.to_seq().lemma_sort_by_ensures(text_order());
    lemma_node_lines_flatten(names);
    lemma_edge_lines_flatten(m.edges.sort_by(edge_order()));
    let edges = m.edges.sort_by(edge_order());
    assert(edges.to_multiset() == m.edges.to_multiset());
    assert(edges.len() == m.edges.len()) by {
        vstd::seq_lib::to_multiset_len(edges);
        vstd::seq_lib::to_multiset_len(m.edges);
    }
    assert(sorted_by(edges, edge_order()));
    assert(sorted_by(names, text_order()));
    assert forall|i: int, j: int| 0 <= i < j < edges.len() implies {
        &&& edges[i].0 != edges[j].0 ==> text_le(edges[i].0, edges[j].0)
        &&& edges[i].0 == edges[j].0 && edges[i].1 != edges[j].1 ==> text_le(edges[i].1, edges[j].1)
        &&& edges[i].0 == edges[j].0 && edges[i].1 == edges[j].1 ==> text_le(edges[i].2, edges[j].2)
    } by {
        assert(edge_order()(edges[i], edges[j]));
        assert(edge_le(edges[i], edges[j]));
    }
    assert forall|i: int, j: int| 0 <= i < j < names.len() implies text_le(names[i], names[j]) by {
        assert(text_order()(names[i], names[j]));
    }
    assert(mermaid_text(m) == "flowchart TD\n"@ + node_lines(names) + edge_lines(edges));
    if dom.finite() {
        lemma_to_seq_no_duplicates(dom);
        let listed = dom.to_seq();
        listed.lemma_multiset_has_no_duplicates();
        assert forall|x: Seq<char>| names.to_multiset().contains(x) implies names.to_multiset().count(
            x,
        ) == 1 by {
            assert(listed.to_multiset().contains(x));
        }
        names.lemma_multiset_has_no_duplicates_conv();
        assert forall|x: Seq<char>| names.to_set().contains(x) == dom.contains(x) by {
            assert(names.contains(x) == (names.to_multiset().count(x) > 0));
            assert(listed.contains(x) == (listed.to_multiset().count(x) > 0));
            assert(listed.to_set().contains(x) == listed.contains(x));
        }
        assert(names.to_set() =~= dom);
    }
}

/// A flow as the model sees it: the nodes by name, the edges in the order
/// they were added, and the name of the start node.
pub struct FlowModel<N> {
    pub nodes: Map<Seq<char>, N>,
    pub edges: Seq<EdgeView>,
    pub start: Seq<char>,
}

/// `edge_le` as a spec closure, the form `sort_by` takes.
pub open spec fn edge_order() -> spec_fn(EdgeView, EdgeView) -> bool {
    |a: EdgeView, b: EdgeView| edge_le(a, b)
}

/// The line that declares a node in a Mermaid flowchart.
pub open spec fn node_line(name: Seq<char>) -> Seq<char> {
    "    "@ + name + "["@ + name + "]\n"@
}

/// The line that declares an edge in a Mermaid flowchart.
pub open spec fn edge_line(e: EdgeView) -> Seq<char> {
    "    "@ + e.0 + " -->|"@ + e.2 + "| "@ + e.1 + "\n"@
}

/// The lines that declare the nodes `names`, in that order.
pub open spec fn node_lines(names: Seq<Seq<char>>) -> Seq<char>
    decreases names.len(),
{
    if names.len() == 0 {
        Seq::empty()
    } else {
        node_lines(names.drop_last()) + node_line(names.last())
    }
}

/// The lines that declare the edges `edges`, in that order.
pub open spec fn edge_lines(edges: Seq<EdgeView>) -> Seq<char>
    decreases edges.len(),
{
    if edges.len() == 0 {
        Seq::empty()
    } else {
        edge_lines(edges.drop_last()) + edge_line(edges.last())
    }
}

/// A flow as a Mermaid flowchart: the header, the nodes in the order of
/// their names, then the edges ordered by source, target and condition.
pub open spec fn mermaid_text<N>(m: FlowModel<N>) -> Seq<char> {
    "flowchart TD\n"@ + node_lines(m.nodes.dom().to_sorted_seq(text_order())) + edge_lines(
        m.edges.sort_by(edge_order()),
    )
}

/// The order of edges is a total order.
pub proof fn lemma_edge_order_total()
    ensures
        total_ordering(edge_order()),
{
    <Edge as SortKey>::lemma_key_order_total();
    assert(key_order::<Edge>() =~= edge_order());
}

/// The chart of a flow depends only on which names its nodes have and which
/// edges it has, counted with multiplicity: not on the order in which they
/// were added, nor on the nodes themselves or the start node.
pub proof fn lemma_mermaid_ignores_order<N, M>(a: FlowModel<N>, b: FlowModel<M>)
    requires
        a.nodes.dom() == b.nodes.dom(),
        a.edges.to_multiset() == b.edges.to_multiset(),
    ensures
        mermaid_text(a) == mermaid_text(b),
{
    lemma_edge_order_total();
    lemma_sort_by_same_items(a.edges, b.edges, edge_order());
}

/// What a read gives back of a write: after a node is added under a name,
/// that name finds that node, and every other name finds what it found
/// before.
pub proof fn lemma_added_node_is_found<N>(
    before: FlowModel<N>,
    after: FlowModel<N>,
    name: Seq<char>,
    node: N,
    other: Seq<char>,
)
    requires
        after.nodes == before.nodes.insert(name, node),
    ensures
        after.nodes.contains_key(name),
        after.nodes[name] == node,
        other != name ==> after.nodes.contains_key(other) == before.nodes.contains_key(other),
        other != name && before.nodes.contains_key(other) ==> after.nodes[other]
            == before.nodes[other],
{
}

/// A flow of nodes of type `N`.
pub struct Flow<N> {
    nodes: Vec<(String, N)>,
    edges: Vec<Edge>,
    start_node: String,
}

impl<N> Flow<N> {
    /// The names of the nodes, in the order in which they were first added.
    closed spec fn names(self) -> Seq<Seq<char>> {
        self.nodes@.map_values(|e: (String, N)| e.0@)
    }

    /// No name is given to two nodes.
    #[verifier::type_invariant]
    closed spec fn names_are_distinct(self) -> bool {
        self.names().no_duplicates()
    }
}

impl<N> View for Flow<N> {
    type V = FlowModel<N>;

    closed spec fn view(&self) -> FlowModel<N> {
        FlowModel {
            nodes: Map::new(
                |k: Seq<char>| self.names().contains(k),
                |k: Seq<char>| self.nodes@[self.names().index_of(k)].1,
            ),
            edges: views(self.edges@),
            start: self.start_node@,
        }
    }
}

proof fn lemma_index_of_distinct<A>(s: Seq<A>, i: int)
    requires
        s.no_duplicates(),
        0 <= i < s.len(),
    ensures
        s.index_of(s[i]) == i,
{
    assert(s.contains(s[i]));
}

impl<N> Flow<N> {
    /// A flow that holds the start node alone and no edge.
    pub fn new(start_node_name: &str, start_node: N) -> (flow: Self)
        ensures
            flow@.nodes == Map::<Seq<char>, N>::empty().insert(start_node_name@, start_node),
            flow@.edges == Seq::<EdgeView>::empty(),
            flow@.start == start_node_name@,
    {
        let mut nodes: Vec<(String, N)> = Vec::new();
        nodes.push((text_to_string(start_node_name), start_node));
        let flow = Flow { nodes, edges: Vec::new(), start_node: text_to_string(start_node_name) };
        proof {
            let names = flow.names();
            assert(names[0] == start_node_name@);
            lemma_index_of_distinct(names, 0);
            assert(flow@.nodes =~= Map::<Seq<char>, N>::empty().insert(start_node_name@, start_node));
            assert(flow@.edges =~= Seq::<EdgeView>::empty());
        }
        flow
    }

    /// Where the node named `name` is held.
    fn position(&self, name: &str) -> (pos: Option<usize>)
        ensures
            match pos {
                Some(i) => i < self.nodes@.len() && self.names()[i as int] == name@,
                None => !self.names().contains(name@),
            },
    {
        let mut i: usize = 0;
        while i < self.nodes.len()
            invariant
                i <= self.nodes@.len(),
                forall|j: int| 0 <= j < i ==> self.names()[j] != name@,
            decreases self.nodes@.len() - i,
        {
            if text_equal(self.nodes[i].0.as_str(), name) {
                return Some(i);
            }
            i = i + 1;
        }
        None
    }

    /// Adds a node under `name`, in place of the node that had that name.
    pub fn add_node(&mut self, name: &str, node: N)
        ensures
            final(self)@.nodes == old(self)@.nodes.insert(name@, node),
            final(self)@.edges == old(self)@.edges,
            final(self)@.start == old(self)@.start,
    {
        proof {
            use_type_invariant(&*self);
        }
        let ghost old_names = self.names();
        let ghost old_model = self@;
        match self.position(name) {
            Some(i) => {
                let mut entries: Vec<(String, N)> = Vec::new();
                std::mem::swap(&mut entries, &mut self.nodes);
                entries.set(i, (text_to_string(name), node));
                assert(entries@.map_values(|e: (String, N)| e.0@) =~= old_names);
                self.nodes = entries;
                proof {
                    let names = self.names();
                    assert(names =~= old_names);
                    assert forall|k: Seq<char>| #[trigger] names.contains(k) implies self.nodes@[names.index_of(k)].1
                        == old_model.nodes.insert(name@, node)[k] by {
                        let j = names.index_of(k);
                        lemma_index_of_distinct(names, j);
                        if k != name@ {
                            assert(j != i);
                        } else {
                            lemma_index_of_distinct(names, i as int);
                        }
                    }
                    assert(self@.nodes =~= old_model.nodes.insert(name@, node));
                }
            },
            None => {
                let mut entries: Vec<(String, N)> = Vec::new();
                std::mem::swap(&mut entries, &mut self.nodes);
                entries.push((text_to_string(name), node));
                proof {
                    let grown = entries@.map_values(|e: (String, N)| e.0@);
                    assert(grown =~= old_names.push(name@));
                    assert forall|a: int, b: int|
                        0 <= a < grown.len() && 0 <= b < grown.len() && a != b implies grown[a]
                        != grown[b] by {
                        if a == old_names.len() {
                            assert(old_names[b] == grown[b]);
                        } else if b == old_names.len() {
                            assert(old_names[a] == grown[a]);
                        }
                    }
                }
                self.nodes = entries;
                proof {
                    let names = self.names();
                    assert(names =~= old_names.push(name@));
                    assert forall|k: Seq<char>| #[trigger] names.contains(k) implies self.nodes@[names.index_of(k)].1
                        == old_model.nodes.insert(name@, node)[k] by {
                        let j = names.index_of(k);
                        lemma_index_of_distinct(names, j);
                        if k != name@ {
                            assert(j < old_names.len());
                            assert(old_names[j] == k);
                            lemma_index_of_distinct(old_names, j);
                        } else {
                            lemma_index_of_distinct(names, old_names.len() as int);
                        }
                    }
                    assert forall|k: Seq<char>| #[trigger] old_model.nodes.insert(name@, node).contains_key(k) implies names.contains(k) by {
                        if k != name@ {
                            let j = choose|j: int| 0 <= j < old_names.len() && old_names[j] == k;
                            assert(names[j] == k);
                        } else {
                            assert(names[old_names.len() as int] == k);
                        }
                    }
                    assert(self@.nodes =~= old_model.nodes.insert(name@, node));
                }
            },
        }
    }

    /// Adds an edge from `from` to `to`, taken when `from` reports a state
    /// whose condition is that of `condition`.
    pub fn add_edge<S: ProcessState>(&mut self, from: &str, to: &str, condition: S)
        ensures
            final(self)@.nodes == old(self)@.nodes,
            final(self)@.edges == old(self)@.edges.push((from@, to@, condition.condition())),
            final(self)@.start == old(self)@.start,
    {
        proof {
            use_type_invariant(&*self);
        }
        let edge = Edge {
            from: text_to_string(from),
            to: text_to_string(to),
            condition: condition.to_condition(),
        };
        let mut edges: Vec<Edge> = Vec::new();
        std::mem::swap(&mut edges, &mut self.edges);
        edges.push(edge);
        self.edges = edges;
        assert(self@.edges =~= old(self)@.edges.push((from@, to@, condition.condition())));
        assert(self@.nodes =~= old(self)@.nodes);
    }

    /// The name of the start node.
    pub fn start_node(&self) -> (name: &str)
        ensures
            name@ == self@.start,
    {
        self.start_node.as_str()
    }

    /// The node named `name`, if there is one.
    pub fn get_node(&self, name: &str) -> (node: Option<&N>)
        ensures
            match node {
                Some(n) => self@.nodes.contains_key(name@) && *n == self@.nodes[name@],
                None => !self@.nodes.contains_key(name@),
            },
    {
        proof {
            use_type_invariant(self);
        }
        match self.position(name) {
            Some(i) => {
                proof {
                    lemma_index_of_distinct(self.names(), i as int);
                }
                Some(&self.nodes[i].1)
            },
            None => None,
        }
    }

    /// Where the first edge from `from` under `condition` is held.
    fn first_match(&self, from: &str, condition: &str) -> (found: Option<usize>)
        ensures
            match found {
                Some(i) => is_first_match(self@.edges, from@, condition@, i as int),
                None => !has_match(self@.edges, from@, condition@),
            },
    {
        let ghost edges = self@.edges;
        let mut i: usize = 0;
        while i < self.edges.len()
            invariant
                edges == self@.edges,
                edges == views(self.edges@),
                i <= self.edges@.len(),
                forall|k: int| 0 <= k < i ==> !#[trigger] edge_matches(edges[k], from@, condition@),
            decreases self.edges@.len() - i,
        {
            if text_equal(self.edges[i].from.as_str(), from) && text_equal(
                self.edges[i].condition.as_str(),
                condition,
            ) {
                return Some(i);
            }
            i = i + 1;
        }
        None
    }

    /// The name of the node that follows `current` when it reports
    /// `condition`, or none when the flow stops there.
    pub fn next_node(&self, current: &str, condition: &str) -> (next: Option<String>)
        ensures
            opt_text(next) == route(self@.edges, current@, condition@),
    {
        match self.first_match(current, condition) {
            Some(i) => {
                proof {
                    lemma_first_match_is_chosen(self@.edges, current@, condition@, i as int);
                }
                Some(self.edges[i].to.clone())
            },
            None => match self.first_match(current, "default") {
                Some(i) => {
                    proof {
                        lemma_first_match_is_chosen(self@.edges, current@, "default"@, i as int);
                    }
                    Some(self.edges[i].to.clone())
                },
                None => None,
            },
        }
    }
    /// The flow as a Mermaid flowchart, listed in an order that does not
    /// depend on the order in which nodes and edges were added.
    pub fn to_mermaid(&self) -> (text: String)
        ensures
            text@ == mermaid_text(self@),
    {
        proof {
            use_type_invariant(self);
        }
        let mut names: Vec<String> = Vec::new();
        for i in 0..self.nodes.len()
            invariant
                views(names@) == self.names().take(i as int),
        {
            let ghost before = names@;
            let name = self.nodes[i].0.clone();
            assert(name@ == self.names()[i as int]);
            names.push(name);
            assert(names@ =~= before.push(name));
            assert(views(names@) =~= views(before).push(name@));
            assert(views(names@) =~= self.names().take(i + 1));
        }
        assert(self.names().take(self.nodes@.len() as int) =~= self.names());
        let names = sort_by_key(names);
        let mut edges: Vec<Edge> = Vec::new();
        for i in 0..self.edges.len()
            invariant
                views(edges@) == views(self.edges@).take(i as int),
        {
            let e = &self.edges[i];
            let ghost before = edges@;
            let copy = Edge { from: e.from.clone(), to: e.to.clone(), condition: e.condition.clone() };
            assert(copy@ == views(self.edges@)[i as int]);
            edges.push(copy);
            assert(edges@ =~= before.push(copy));
            assert(views(edges@) =~= views(before).push(copy@));
            assert(views(edges@) =~= views(self.edges@).take(i + 1));
        }
        assert(views(self.edges@).take(self.edges@.len() as int) =~= views(self.edges@));
        let edges = sort_by_key(edges);
        proof {
            lemma_text_order_total();
            assert(key_order::<String>() =~= text_order());
            lemma_edge_order_total();
            assert(key_order::<Edge>() =~= edge_order());
            lemma_sort_distinct_is_sorted_set(self.names(), text_order());
            assert(self.names().to_set() =~= self@.nodes.dom());
        }
        let mut text = "flowchart TD\n".to_owned();
        for i in 0..names.len()
            invariant
                text@ == "flowchart TD\n"@ + node_lines(views(names@).take(i as int)),
        {
            let name = names[i].as_str();
            text.append("    ");
            text.append(name);
            text.append("[");
            text.append(name);
            text.append("]\n");
            proof {
                let done = views(names@).take(i + 1);
                assert(done.drop_last() =~= views(names@).take(i as int));
                assert(text@ =~= "flowchart TD\n"@ + node_lines(done));
            }
        }
        assert(views(names@).take(names@.len() as int) =~= views(names@));
        let ghost head = text@;
        for i in 0..edges.len()
            invariant
                text@ == head + edge_lines(views(edges@).take(i as int)),
        {
            let e = &edges[i];
            text.append("    ");
            text.append(e.from.as_str());
            text.append(" -->|");
            text.append(e.condition.as_str());
            text.append("| ");
            text.append(e.to.as_str());
            text.append("\n");
            proof {
                let done = views(edges@).take(i + 1);
                assert(done.drop_last() =~= views(edges@).take(i as int));
                assert(text@ =~= head + edge_lines(done));
            }
        }
        assert(views(edges@).take(edges@.len() as int) =~= views(edges@));
        text
    }
}

/// A flow that is run once for each of a list of contexts.
pub struct BatchFlow<N> {
    pub flow: Flow<N>,
    pub batch_size: usize,
}

impl<N> BatchFlow<N> {
    /// A batch flow whose flow holds the start node alone and no edge.
    pub fn new(start_node_name: &str, start_node: N, batch_size: usize) -> (batch: Self)
        ensures
            batch.flow@.nodes == Map::<Seq<char>, N>::empty().insert(start_node_name@, start_node),
            batch.flow@.edges == Seq::<EdgeView>::empty(),
            batch.flow@.start == start_node_name@,
            batch.batch_size == batch_size,
    {
        BatchFlow { flow: Flow::new(start_node_name, start_node), batch_size }
    }

    /// The chart of the flow that is run for each context.
    pub fn to_mermaid(&self) -> (text: String)
        ensures
            text@ == mermaid_text(self.flow@),
    {
        self.flow.to_mermaid()
    }
}

} // verus!
