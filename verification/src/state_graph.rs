//! The graph of a state machine that a layout draws: one node per state,
//! one edge per drawn transition, held in a `petgraph` stable graph.
use vstd::prelude::*;
use vstd::multiset::Multiset;
use petgraph::stable_graph::{NodeIndex, StableGraph};
use petgraph::Directed;
use crate::machine::{
    cluster_name, copy_transition_type, fault_name, infer_cluster_name, is_fault_state, transitions_view,
    AppStateMachine, MachineSpec, StateNode, TransitionEdge, TransitionSpec, TransitionTypeView,
};
use crate::text::{owned, str_eq};

verus! {

/// `petgraph::stable_graph::StableGraph`, whose contents the functions
/// below name.
#[verifier::external_type_specification]
#[verifier::external_body]
#[verifier::reject_recursive_types(N)]
#[verifier::reject_recursive_types(E)]
#[verifier::reject_recursive_types(Ty)]
#[verifier::reject_recursive_types(Ix)]
pub struct ExStableGraph<N, E, Ty, Ix>(StableGraph<N, E, Ty, Ix>);

/// `petgraph::Directed`, the marker of directed graphs.
#[verifier::external_type_specification]
#[verifier::external_body]
pub struct ExDirected(Directed);

/// A node's value: the state, whether it is the initial state, whether it
/// is a fault state, and its lane.
pub open spec fn node_view(n: StateNode) -> (Seq<char>, bool, bool, Seq<char>) {
    (n.id@, n.is_initial, n.is_fault, n.cluster@)
}

/// An edge's value: its guard, whether it is a fault transition, and how it
/// is made.
pub open spec fn edge_view(e: TransitionEdge) -> (Seq<char>, bool, TransitionTypeView) {
    (e.guard@, e.is_fault, e.transition_type@)
}

/// The nodes of a state graph, by index.
pub uninterp spec fn graph_nodes(g: StableGraph<StateNode, TransitionEdge, Directed, u32>) -> Map<
    nat,
    (Seq<char>, bool, bool, Seq<char>),
>;

/// The edges of a state graph: the index of the source node, that of the
/// target node, and the edge's value.
pub uninterp spec fn graph_edges(g: StableGraph<StateNode, TransitionEdge, Directed, u32>) -> Multiset<
    (nat, nat, (Seq<char>, bool, TransitionTypeView)),
>;

/// `StableGraph::new`: a graph with no nodes and no edges.
#[verifier::external_body]
fn new_state_graph() -> (g: StableGraph<StateNode, TransitionEdge, Directed, u32>)
    ensures
        graph_nodes(g).dom() == Set::<nat>::empty(),
        graph_edges(g).len() == 0,
{
    StableGraph::new()
}

/// `StableGraph::add_node`, with the new node's index as a number: the node
/// takes an index that no node of the graph has (a freed one, else the next
/// one), below the index type's end marker; the edges stay. The source
/// panics only when every index below that marker is taken, which the
/// bound on the node count rules out.
#[verifier::external_body]
fn add_state_node(g: &mut StableGraph<StateNode, TransitionEdge, Directed, u32>, w: StateNode) -> (i: usize)
    requires
        graph_nodes(*old(g)).dom().finite(),
        graph_nodes(*old(g)).dom().len() + 1 < u32::MAX,
    ensures
        i < u32::MAX,
        !graph_nodes(*old(g)).dom().contains(i as nat),
        graph_nodes(*final(g)) == graph_nodes(*old(g)).insert(i as nat, node_view(w)),
        graph_edges(*final(g)) == graph_edges(*old(g)),
{
    g.add_node(w).index()
}

/// `StableGraph::add_edge` between the nodes of indices `a` and `b`: the
/// edge joins the edges, the nodes stay. The source panics when a node is
/// missing or every edge index below the end marker is taken, which the
/// requirements rule out.
#[verifier::external_body]
fn add_transition_edge(
    g: &mut StableGraph<StateNode, TransitionEdge, Directed, u32>,
    a: usize,
    b: usize,
    w: TransitionEdge,
)
    requires
        a < u32::MAX,
        b < u32::MAX,
        graph_nodes(*old(g)).dom().contains(a as nat),
        graph_nodes(*old(g)).dom().contains(b as nat),
        graph_edges(*old(g)).len() + 1 < u32::MAX,
    ensures
        graph_nodes(*final(g)) == graph_nodes(*old(g)),
        graph_edges(*final(g)) == graph_edges(*old(g)).insert((a as nat, b as nat, edge_view(w))),
{
    g.add_edge(NodeIndex::new(a), NodeIndex::new(b), w);
}

/// The initial state of a machine: its variable's initializer, else `IDLE`.
pub open spec fn machine_initial(m: MachineSpec) -> Seq<char> {
    match m.var.initial_value {
        Some(v) => v,
        None => "IDLE"@,
    }
}

/// The node drawn for `state`.
pub open spec fn node_of(state: Seq<char>, initial: Seq<char>) -> (Seq<char>, bool, bool, Seq<char>) {
    (state, state == initial, fault_name(state), cluster_name(state, initial))
}

/// The node index of `name`: that of its last entry in `map`.
pub open spec fn index_of(map: Seq<(Seq<char>, nat)>, name: Seq<char>) -> Option<nat>
    decreases map.len(),
{
    if map.len() == 0 {
        None
    } else if map.last().0 == name {
        Some(map.last().1)
    } else {
        index_of(map.drop_last(), name)
    }
}

/// The transition is drawn as an edge: it is no fault transition, does not
/// go to a fault state, and starts at a named state other than its target.
pub open spec fn drawn(t: TransitionSpec) -> bool {
    !t.is_fault && !fault_name(t.to) && t.from != "(any state)"@ && t.from != t.to
}

/// The edges that the transitions `trs` draw between the nodes of `map`.
pub open spec fn drawn_edges(trs: Seq<TransitionSpec>, map: Seq<(Seq<char>, nat)>) -> Multiset<
    (nat, nat, (Seq<char>, bool, TransitionTypeView)),
>
    decreases trs.len(),
{
    if trs.len() == 0 {
        Multiset::empty()
    } else {
        let rest = drawn_edges(trs.drop_last(), map);
        let t = trs.last();
        if drawn(t) {
            match (index_of(map, t.from), index_of(map, t.to)) {
                (Some(a), Some(b)) => rest.insert((a, b, (t.guard, t.is_fault, t.transition_type))),
                _ => rest,
            }
        } else {
            rest
        }
    }
}

/// The value of a node map.
pub open spec fn map_view(m: Seq<(String, usize)>) -> Seq<(Seq<char>, nat)> {
    m.map_values(|e: (String, usize)| (e.0@, e.1 as nat))
}

/// The index that the node map gives `name`: that of its last entry.
fn index_in(map: &Vec<(String, usize)>, name: &str) -> (r: Option<usize>)
    ensures
        match r {
            Some(i) => index_of(map_view(map@), name@) == Some(i as nat),
            None => index_of(map_view(map@), name@) is None,
        },
{
    let ghost mv = map_view(map@);
    let mut k: usize = map.len();
    assert(mv.subrange(0, k as int) =~= mv);
    while k > 0
        invariant
            0 <= k <= map@.len(),
            mv == map_view(map@),
            index_of(mv, name@) == index_of(mv.subrange(0, k as int), name@),
        decreases k,
    {
        let ghost sub = mv.subrange(0, k as int);
        assert(sub.last() == mv[k - 1]);
        assert(sub.drop_last() =~= mv.subrange(0, k - 1));
        if str_eq(map[k - 1].0.as_str(), name) {
            return Some(map[k - 1].1);
        }
        k -= 1;
    }
    None
}

/// The graph that a layout draws for the machine `sm`: a node for each
/// state, in order, marked initial, fault and with its lane; and an edge for
/// each transition that is no fault transition, does not go to a fault
/// state, starts at a named state other than its target, and joins two
/// states. With it, the index of each state's node, in the order of the
/// states: a later entry for a name replaces an earlier one.
pub fn build_state_machine_graph(sm: &AppStateMachine) -> (r: (
    StableGraph<StateNode, TransitionEdge, Directed, u32>,
    Vec<(String, usize)>,
))
    requires
        sm.states@.len() + 1 < u32::MAX,
        sm.transitions@.len() + 1 < u32::MAX,
    ensures
        ({
            let (g, map) = r;
            let m = sm@;
            &&& map@.len() == m.states.len()
            &&& forall|k: int| 0 <= k < m.states.len() ==> #[trigger] map@[k].0@ == m.states[k]
            &&& forall|k: int|
                0 <= k < m.states.len() ==> graph_nodes(g).dom().contains(#[trigger] map@[k].1 as nat)
                    && graph_nodes(g)[map@[k].1 as nat] == node_of(m.states[k], machine_initial(m))
            &&& forall|j: int, k: int| 0 <= j < k < m.states.len() ==> #[trigger] map@[j].1 != #[trigger] map@[k].1
            &&& forall|x: nat|
                #[trigger] graph_nodes(g).dom().contains(x) ==> exists|k: int| 0 <= k < m.states.len() && map@[k].1 == x
            &&& graph_edges(g) == drawn_edges(m.transitions, map_view(map@))
            &&& forall|e: (nat, nat, (Seq<char>, bool, TransitionTypeView))|
                #[trigger] graph_edges(g).count(e) > 0 ==> {
                    &&& e.0 != e.1
                    &&& graph_nodes(g).dom().contains(e.0)
                    &&& graph_nodes(g).dom().contains(e.1)
                    &&& !graph_nodes(g)[e.1].2
                }
        }),
{
    let ghost m = sm@;
    let initial_name: &str = match &sm.var.initial_value {
        Some(v) => v.as_str(),
        None => "IDLE",
    };
    assert(initial_name@ == machine_initial(m)) by {
        reveal_strlit("IDLE");
    }
    let mut graph = new_state_graph();
    proof {
        vstd::multiset::lemma_multiset_empty_len(graph_edges(graph));
        assert(graph_nodes(graph).dom() =~= Set::<nat>::empty());
    }
    let mut node_map: Vec<(String, usize)> = Vec::new();
    let mut i: usize = 0;
    while i < sm.states.len()
        invariant
            0 <= i <= sm.states@.len(),
            m == sm@,
            sm.states@.len() + 1 < u32::MAX,
            initial_name@ == machine_initial(m),
            node_map@.len() == i,
            graph_nodes(graph).dom().finite(),
            graph_nodes(graph).dom().len() == i,
            graph_edges(graph) == Multiset::<(nat, nat, (Seq<char>, bool, TransitionTypeView))>::empty(),
            forall|k: int| 0 <= k < i ==> #[trigger] node_map@[k].0@ == m.states[k],
            forall|k: int| 0 <= k < i ==> (#[trigger] node_map@[k]).1 < u32::MAX,
            forall|k: int|
                0 <= k < i ==> graph_nodes(graph).dom().contains(#[trigger] node_map@[k].1 as nat)
                    && graph_nodes(graph)[node_map@[k].1 as nat] == node_of(m.states[k], machine_initial(m)),
            forall|j: int, k: int| 0 <= j < k < i ==> #[trigger] node_map@[j].1 != #[trigger] node_map@[k].1,
            forall|x: nat|
                #[trigger] graph_nodes(graph).dom().contains(x) ==> exists|k: int| 0 <= k < i && node_map@[k].1 == x,
        decreases sm.states.len() - i,
    {
        let state = &sm.states[i];
        assert(state@ == m.states[i as int]);
        let node = StateNode {
            id: owned(state.as_str()),
            is_initial: str_eq(state.as_str(), initial_name),
            is_fault: is_fault_state(state.as_str()),
            cluster: owned(infer_cluster_name(state.as_str(), initial_name)),
        };
        let ghost before = graph_nodes(graph);
        let idx = add_state_node(&mut graph, node);
        let ghost old_map = node_map@;
        node_map.push((owned(state.as_str()), idx));
        assert forall|x: nat| #[trigger] graph_nodes(graph).dom().contains(x) implies exists|k: int|
            0 <= k < i + 1 && node_map@[k].1 == x by {
            if x == idx as nat {
                assert(node_map@[i as int].1 == x);
            } else {
                assert(before.dom().contains(x));
                let k = choose|k: int| 0 <= k < i && old_map[k].1 == x;
                assert(node_map@[k] == old_map[k]);
            }
        }
        i += 1;
    }
    let ghost mv = map_view(node_map@);
    let mut j: usize = 0;
    while j < sm.transitions.len()
        invariant
            0 <= j <= sm.transitions@.len(),
            m == sm@,
            sm.transitions@.len() + 1 < u32::MAX,
            mv == map_view(node_map@),
            forall|k: int| 0 <= k < node_map@.len() ==> (#[trigger] node_map@[k]).1 < u32::MAX,
            forall|k: int|
                0 <= k < node_map@.len() ==> graph_nodes(graph).dom().contains(#[trigger] node_map@[k].1 as nat)
                    && graph_nodes(graph)[node_map@[k].1 as nat] == node_of(m.states[k], machine_initial(m)),
            forall|x: nat|
                #[trigger] graph_nodes(graph).dom().contains(x) ==> exists|k: int|
                    0 <= k < node_map@.len() && node_map@[k].1 == x,
            graph_edges(graph) == drawn_edges(m.transitions.subrange(0, j as int), mv),
            graph_edges(graph).len() <= j,
        decreases sm.transitions.len() - j,
    {
        let t = &sm.transitions[j];
        let ghost ts = m.transitions.subrange(0, j as int + 1);
        assert(ts.drop_last() =~= m.transitions.subrange(0, j as int));
        assert(ts.last() == t@);
        if !t.is_fault && !is_fault_state(t.to.as_str()) && !str_eq(t.from.as_str(), "(any state)") && !str_eq(
            t.from.as_str(),
            t.to.as_str(),
        ) {
            proof {
                reveal_strlit("(any state)");
            }
            match (index_in(&node_map, t.from.as_str()), index_in(&node_map, t.to.as_str())) {
                (Some(a), Some(b)) => {
                    proof {
                        lemma_index_of_entry(mv, t.from@);
                        lemma_index_of_entry(mv, t.to@);
                        let ka = choose|k: int| 0 <= k < mv.len() && mv[k].0 == t.from@ && mv[k].1 == a as nat;
                        let kb = choose|k: int| 0 <= k < mv.len() && mv[k].0 == t.to@ && mv[k].1 == b as nat;
                        assert(node_map@[ka].1 as nat == mv[ka].1);
                        assert(node_map@[kb].1 as nat == mv[kb].1);
                    }
                    let edge = TransitionEdge {
                        guard: owned(t.guard.as_str()),
                        is_fault: t.is_fault,
                        transition_type: copy_transition_type(&t.transition_type),
                    };
                    add_transition_edge(&mut graph, a, b, edge);
                },
                _ => {},
            }
        } else {
            proof {
                reveal_strlit("(any state)");
            }
        }
        j += 1;
    }
    assert(m.transitions.subrange(0, j as int) =~= m.transitions);
    proof {
        lemma_drawn_edges_shape(m.transitions, mv);
        assert forall|e: (nat, nat, (Seq<char>, bool, TransitionTypeView))| #[trigger] graph_edges(graph).count(e) > 0 implies {
            &&& e.0 != e.1
            &&& graph_nodes(graph).dom().contains(e.0)
            &&& graph_nodes(graph).dom().contains(e.1)
            &&& !graph_nodes(graph)[e.1].2
        } by {
            let (k1, k2) = choose|k1: int, k2: int|
                0 <= k1 < mv.len() && 0 <= k2 < mv.len() && #[trigger] mv[k1].1 == e.0 && #[trigger] mv[k2].1 == e.1
                    && mv[k1].0 != mv[k2].0 && !fault_name(mv[k2].0);
            assert(mv[k1] == (node_map@[k1].0@, node_map@[k1].1 as nat));
            assert(mv[k2] == (node_map@[k2].0@, node_map@[k2].1 as nat));
            assert(node_map@[k2].0@ == m.states[k2]);
            if k1 < k2 {
                assert(node_map@[k1].1 != node_map@[k2].1);
            } else if k2 < k1 {
                assert(node_map@[k2].1 != node_map@[k1].1);
            }
        }
    }
    (graph, node_map)
}

/// An index that `index_of` gives is that of an entry for the name.
proof fn lemma_index_of_entry(map: Seq<(Seq<char>, nat)>, name: Seq<char>)
    ensures
        index_of(map, name) matches Some(x) ==> exists|k: int| 0 <= k < map.len() && map[k].0 == name && map[k].1 == x,
    decreases map.len(),
{
    if map.len() > 0 && map.last().0 != name {
        lemma_index_of_entry(map.drop_last(), name);
        if let Some(x) = index_of(map.drop_last(), name) {
            let k = choose|k: int| 0 <= k < map.drop_last().len() && map.drop_last()[k].0 == name && map.drop_last()[k].1 == x;
            assert(map[k] == map.drop_last()[k]);
        }
    } else if map.len() > 0 {
        assert(map[map.len() - 1] == map.last());
    }
}

/// Each drawn edge joins the entries of two different names, the target
/// naming no fault state.
proof fn lemma_drawn_edges_shape(trs: Seq<TransitionSpec>, map: Seq<(Seq<char>, nat)>)
    ensures
        forall|e: (nat, nat, (Seq<char>, bool, TransitionTypeView))| #[trigger] drawn_edges(trs, map).count(e) > 0
            ==> exists|k1: int, k2: int|
            0 <= k1 < map.len() && 0 <= k2 < map.len() && #[trigger] map[k1].1 == e.0 && #[trigger] map[k2].1 == e.1
                && map[k1].0 != map[k2].0 && !fault_name(map[k2].0),
    decreases trs.len(),
{
    broadcast use vstd::multiset::group_multiset_axioms;
    if trs.len() > 0 {
        lemma_drawn_edges_shape(trs.drop_last(), map);
        let rest = drawn_edges(trs.drop_last(), map);
        let t = trs.last();
        lemma_index_of_entry(map, t.from);
        lemma_index_of_entry(map, t.to);
        if drawn(t) {
            if let (Some(a), Some(b)) = (index_of(map, t.from), index_of(map, t.to)) {
                let new = (a, b, (t.guard, t.is_fault, t.transition_type));
                assert forall|e: (nat, nat, (Seq<char>, bool, TransitionTypeView))| #[trigger] drawn_edges(trs, map).count(e) > 0
                    implies exists|k1: int, k2: int|
                    0 <= k1 < map.len() && 0 <= k2 < map.len() && #[trigger] map[k1].1 == e.0 && #[trigger] map[k2].1 == e.1
                        && map[k1].0 != map[k2].0 && !fault_name(map[k2].0) by {
                    if e == new {
                        let k1 = choose|k: int| 0 <= k < map.len() && map[k].0 == t.from && map[k].1 == a;
                        let k2 = choose|k: int| 0 <= k < map.len() && map[k].0 == t.to && map[k].1 == b;
                        assert(map[k1].1 == e.0 && map[k2].1 == e.1);
                    } else {
                        assert(rest.count(e) > 0);
                    }
                }
            }
        }
    }
}

} // verus!
