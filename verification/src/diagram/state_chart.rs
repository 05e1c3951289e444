//! State-transition diagrams from a state-machine model: an initial
//! pseudo-state, one node per state carrying its entry, do and exit actions,
//! an edge from the initial pseudo-state to the entry state, and one edge per
//! transition labelled `trigger [guard] / effect`.
use vstd::prelude::*;
use crate::diagram::builders::{graph_frame, title_text};
use crate::diagram::graph::{
    dedge_views, dnode_views, DEdgeView, DNodeView, DiagramEdge, DiagramGraph, DiagramKind, DiagramNode,
    EdgeKind, NodeKind, opt_text, pair_texts,
};
use crate::qualified_name::{join_strings, join_with};
use crate::sim::state_machine::{StateMachineModel, StateNode, Transition, Trigger};
use crate::sim::state_sim::trigger_text;
use crate::text::{own, push_str};

verus! {

/// `(key, action)` when the action is there.
pub open spec fn action_attr(key: Seq<char>, a: Option<String>) -> Seq<(Seq<char>, Seq<char>)> {
    match a {
        Some(x) => seq![(key, x@)],
        None => seq![],
    }
}

/// The attributes of a state node: its entry, do and exit actions, in that order.
pub open spec fn state_attrs(st: StateNode) -> Seq<(Seq<char>, Seq<char>)> {
    action_attr("entry"@, st.entry_action) + action_attr("do"@, st.do_action) + action_attr("exit"@, st.exit_action)
}

/// The node drawn for a state.
pub open spec fn state_node(st: StateNode) -> DNodeView {
    DNodeView {
        id: st.name@,
        label: st.name@,
        kind: NodeKind::State,
        stereotype: None,
        attributes: state_attrs(st),
        is_definition: false,
    }
}

/// The initial pseudo-state.
pub open spec fn initial_state_node() -> DNodeView {
    DNodeView {
        id: "__initial__"@,
        label: seq![],
        kind: NodeKind::InitialState,
        stereotype: None,
        attributes: seq![],
        is_definition: false,
    }
}

/// The nodes of a state-machine diagram.
pub open spec fn stm_nodes(sm: StateMachineModel) -> Seq<DNodeView> {
    seq![initial_state_node()] + sm.states@.map_values(|st: StateNode| state_node(st))
}

/// The parts of a transition label: the trigger, `[guard]` and `/ effect`,
/// each when the transition has it.
pub open spec fn label_parts(t: Transition) -> Seq<Seq<char>> {
    (match trigger_text(t.trigger) {
        Some(x) => seq![x],
        None => seq![],
    }) + (match t.guard {
        Some(g) => seq!["["@ + g@ + "]"@],
        None => seq![],
    }) + (match t.effect {
        Some(e) => seq!["/ "@ + e@],
        None => seq![],
    })
}

/// The label of a transition edge: its parts joined by spaces, or none.
pub open spec fn transition_label(t: Transition) -> Option<Seq<char>> {
    if label_parts(t).len() == 0 {
        None
    } else {
        Some(join_with(label_parts(t), " "@))
    }
}

/// The edge drawn for a transition.
pub open spec fn transition_edge(t: Transition) -> DEdgeView {
    DEdgeView { source: t.source@, target: t.target@, label: transition_label(t), kind: EdgeKind::Transition }
}

/// The edges of a state-machine diagram.
pub open spec fn stm_edges(sm: StateMachineModel) -> Seq<DEdgeView> {
    entry_edges(sm) + sm.transitions@.map_values(|t: Transition| transition_edge(t))
}

/// The edge from the initial pseudo-state to the entry state, if there is one.
pub open spec fn entry_edges(sm: StateMachineModel) -> Seq<DEdgeView> {
    match sm.entry_state {
        Some(e) => seq![DEdgeView { source: "__initial__"@, target: e@, label: None, kind: EdgeKind::Transition }],
        None => seq![],
    }
}

/// A copy of an optional action as an attribute list entry.
fn push_action(attrs: &mut Vec<(String, String)>, key: &str, a: &Option<String>)
    ensures
        pair_texts(final(attrs)@) == pair_texts(old(attrs)@) + action_attr(key@, *a),
{
    match a {
        Some(x) => {
            attrs.push((own(key), own(x.as_str())));
            assert(pair_texts(final(attrs)@) =~= pair_texts(old(attrs)@) + action_attr(key@, *a));
        },
        None => {
            assert(pair_texts(attrs@) =~= pair_texts(old(attrs)@) + action_attr(key@, *a));
        },
    }
}

/// The node drawn for a state.
fn make_state_node(st: &StateNode) -> (r: DiagramNode)
    ensures
        r@ == state_node(*st),
{
    let mut attrs: Vec<(String, String)> = Vec::new();
    push_action(&mut attrs, "entry", &st.entry_action);
    push_action(&mut attrs, "do", &st.do_action);
    push_action(&mut attrs, "exit", &st.exit_action);
    proof {
        assert(pair_texts(attrs@) =~= state_attrs(*st));
    }
    let r = DiagramNode {
        id: own(st.name.as_str()),
        label: own(st.name.as_str()),
        kind: NodeKind::State,
        stereotype: None,
        attributes: attrs,
        is_definition: false,
    };
    proof {
        assert(r@.attributes =~= state_attrs(*st));
    }
    r
}

/// The label of a transition edge.
fn make_label(t: &Transition) -> (r: Option<String>)
    ensures
        opt_text(r) == transition_label(*t),
{
    let mut parts: Vec<String> = Vec::new();
    match &t.trigger {
        Some(Trigger::Signal(s)) => parts.push(own(s.as_str())),
        Some(Trigger::Completion) => parts.push(own("completion")),
        None => {},
    }
    match &t.guard {
        Some(g) => {
            let mut x = own("[");
            push_str(&mut x, g.as_str());
            push_str(&mut x, "]");
            parts.push(x);
        },
        None => {},
    }
    match &t.effect {
        Some(e) => {
            let mut x = own("/ ");
            push_str(&mut x, e.as_str());
            parts.push(x);
        },
        None => {},
    }
    proof {
        assert(parts.deep_view() =~= label_parts(*t));
    }
    if parts.len() == 0 {
        None
    } else {
        Some(join_strings(&parts, " "))
    }
}

/// Build the state-transition diagram of a state machine.
pub fn build_stm_from_state_machine(sm: &StateMachineModel) -> (g: DiagramGraph)
    ensures
        graph_frame(g, title_text("stm"@, sm.name@), DiagramKind::StateTransitionView),
        dnode_views(g.nodes@) == stm_nodes(*sm),
        dedge_views(g.edges@) == stm_edges(*sm),
{
    let mut title = own("stm [");
    push_str(&mut title, sm.name.as_str());
    push_str(&mut title, "]");
    proof {
        reveal_strlit("stm [");
        reveal_strlit("stm");
        reveal_strlit(" [");
        assert(title@ =~= title_text("stm"@, sm.name@));
    }
    let mut graph = DiagramGraph::new(title, DiagramKind::StateTransitionView);
    let init = DiagramNode {
        id: own("__initial__"),
        label: String::new(),
        kind: NodeKind::InitialState,
        stereotype: None,
        attributes: Vec::new(),
        is_definition: false,
    };
    assert(init@.attributes =~= Seq::<(Seq<char>, Seq<char>)>::empty());
    assert(init@ =~= initial_state_node());
    graph.add_node(init);
    let ghost states = sm.states@;
    let mut i: usize = 0;
    while i < sm.states.len()
        invariant
            i <= states.len(),
            states == sm.states@,
            graph_frame(graph, title_text("stm"@, sm.name@), DiagramKind::StateTransitionView),
            dnode_views(graph.nodes@) == seq![initial_state_node()] + states.take(i as int).map_values(|st: StateNode| state_node(st)),
            graph.edges@.len() == 0,
        decreases states.len() - i,
    {
        let n = make_state_node(&sm.states[i]);
        graph.add_node(n);
        assert(states.take(i + 1).map_values(|st: StateNode| state_node(st)) =~= states.take(i as int).map_values(
            |st: StateNode| state_node(st),
        ).push(state_node(states[i as int])));
        i = i + 1;
    }
    assert(states.take(i as int) =~= states);
    let ghost e0 = entry_edges(*sm);
    assert(dedge_views(graph.edges@) =~= Seq::<DEdgeView>::empty());
    match &sm.entry_state {
        Some(e) => {
            graph.add_edge(DiagramEdge { source: own("__initial__"), target: own(e.as_str()), label: None, kind: EdgeKind::Transition });
        },
        None => {},
    }
    assert(dedge_views(graph.edges@) =~= e0);
    let ghost ts = sm.transitions@;
    let mut j: usize = 0;
    while j < sm.transitions.len()
        invariant
            j <= ts.len(),
            ts == sm.transitions@,
            graph_frame(graph, title_text("stm"@, sm.name@), DiagramKind::StateTransitionView),
            dnode_views(graph.nodes@) == stm_nodes(*sm),
            dedge_views(graph.edges@) == e0 + ts.take(j as int).map_values(|t: Transition| transition_edge(t)),
        decreases ts.len() - j,
    {
        let t = &sm.transitions[j];
        let label = make_label(t);
        graph.add_edge(DiagramEdge { source: own(t.source.as_str()), target: own(t.target.as_str()), label, kind: EdgeKind::Transition });
        assert(ts.take(j + 1).map_values(|t: Transition| transition_edge(t)) =~= ts.take(j as int).map_values(
            |t: Transition| transition_edge(t),
        ).push(transition_edge(ts[j as int])));
        j = j + 1;
    }
    assert(ts.take(j as int) =~= ts);
    graph
}

} // verus!
