//! Action-flow (activity) diagrams from an action model.
//!
//! Each step adds its node, numbered by a running counter, and a flow edge
//! from every exit of what came before; a step's own exits are what the
//! next step is linked from.  Decisions label their outgoing edges, loops
//! link their body back to their decision, and `done`/`terminate` lead to
//! one shared final node.
use vstd::prelude::*;
use crate::diagram::builders::{graph_frame, title_text};
use crate::diagram::graph::{
    dedge_views, dnode_views, node_ids, DEdgeView, DNodeView, DiagramEdge, DiagramGraph, DiagramKind,
    DiagramNode, EdgeKind, NodeKind,
};
use crate::sim::action_flow::{ActionModel, ActionStep, DecideBranch};
use crate::text::{decimal, own, push_str, usize_to_decimal};

verus! {

// ------------------------------------------------------------------------
// Specification
// ------------------------------------------------------------------------

/// The nodes, edges and counter of a diagram being built.
pub struct ActState {
    pub nodes: Seq<DNodeView>,
    pub edges: Seq<DEdgeView>,
    pub counter: nat,
}

/// A node without stereotype attributes.
pub open spec fn fnode(id: Seq<char>, label: Seq<char>, kind: NodeKind, stereotype: Option<Seq<char>>) -> DNodeView {
    DNodeView { id, label, kind, stereotype, attributes: seq![], is_definition: false }
}

/// Unlabelled flow edges from each of `prev` to `to`.
pub open spec fn flow_edges(prev: Seq<Seq<char>>, to: Seq<char>) -> Seq<DEdgeView> {
    Seq::new(prev.len(), |i: int| DEdgeView { source: prev[i], target: to, label: None, kind: EdgeKind::Flow })
}

/// `s` with node `n` added and linked from each of `prev`.
pub open spec fn put(s: ActState, n: DNodeView, prev: Seq<Seq<char>>) -> ActState {
    ActState { nodes: s.nodes.push(n), edges: s.edges + flow_edges(prev, n.id), counter: s.counter }
}

/// `s` with the counter advanced.
pub open spec fn bump(s: ActState) -> ActState {
    ActState { counter: s.counter + 1, ..s }
}

/// `prefix` followed by the decimal form of `c`.
pub open spec fn numbered(prefix: Seq<char>, c: nat) -> Seq<char> {
    prefix + decimal(c)
}

/// The text of `o`, or `dflt`.
pub open spec fn or_text(o: Option<String>, dflt: Seq<char>) -> Seq<char> {
    match o {
        Some(s) => s@,
        None => dflt,
    }
}

/// `pre` and the text of `o`, or nothing.
pub open spec fn opt_part(o: Option<String>, pre: Seq<char>) -> Seq<char> {
    match o {
        Some(s) => pre + s@,
        None => seq![],
    }
}

/// The label of a send step.
pub open spec fn send_label(payload: Option<String>, via: Option<String>, to: Option<String>) -> Seq<char> {
    "send"@ + opt_part(payload, " "@) + opt_part(via, " via "@) + opt_part(to, " to "@)
}

/// The label of an accept step.
pub open spec fn accept_label(signal: Option<String>) -> Seq<char> {
    match signal {
        Some(s) => "accept "@ + s@,
        None => "accept"@,
    }
}

/// The label of a guarded decision edge.
pub open spec fn guard_label(g: Option<String>) -> Option<Seq<char>> {
    match g {
        Some(s) => Some("["@ + s@ + "]"@),
        None => None,
    }
}

/// A one-node step: a numbered node linked from `prev`, which is its only exit.
pub open spec fn single(s: ActState, prefix: Seq<char>, label: Seq<char>, kind: NodeKind, st: Option<Seq<char>>, prev: Seq<Seq<char>>) -> (ActState, Seq<Seq<char>>) {
    let id = numbered(prefix, s.counter);
    (put(bump(s), fnode(id, label, kind, st), prev), seq![id])
}

/// The ids of a list of nodes.
pub open spec fn view_ids(ns: Seq<DNodeView>) -> Seq<Seq<char>> {
    Seq::new(ns.len(), |i: int| ns[i].id)
}

/// `es` with the last edge from `src` given the label `label`.
pub open spec fn relabel(es: Seq<DEdgeView>, src: Seq<char>, label: Seq<char>) -> Seq<DEdgeView>
    decreases es.len(),
{
    if es.len() == 0 {
        es
    } else if es.last().source == src {
        es.drop_last().push(DEdgeView { label: Some(label), ..es.last() })
    } else {
        relabel(es.drop_last(), src, label).push(es.last())
    }
}

/// `s` with the last edge from `src` labelled.
pub open spec fn relabel_state(s: ActState, src: Seq<char>, label: Seq<char>) -> ActState {
    ActState { edges: relabel(s.edges, src, label), ..s }
}

/// The id of the shared final node.
pub open spec fn final_id() -> Seq<char> {
    "__final__"@
}

/// The state after step `step`, linked from `prev`, and the step's exits.
pub open spec fn act_step(s: ActState, step: ActionStep, prev: Seq<Seq<char>>) -> (ActState, Seq<Seq<char>>)
    decreases step,
{
    match step {
        ActionStep::Perform { name, .. } => single(s, "act_"@, name@, NodeKind::Action, None, prev),
        ActionStep::Sequence { steps, .. } => {
            proof {
                assert(decreases_to!(steps => steps@));
            }
            act_seq(s, steps@, prev)
        },
        ActionStep::Fork { name, branches, .. } => {
            let id = numbered("fork_"@, s.counter);
            proof {
                assert(decreases_to!(branches => branches@));
            }
            act_branches(put(bump(s), fnode(id, or_text(name, "fork"@), NodeKind::Fork, None), prev), branches@, id)
        },
        ActionStep::Join { name, .. } => single(s, "join_"@, or_text(name, "join"@), NodeKind::Join, None, prev),
        ActionStep::Decide { name, branches, .. } => {
            let id = numbered("decide_"@, s.counter);
            decide_targets(put(bump(s), fnode(id, or_text(name, "?"@), NodeKind::Decision, None), prev), branches@, id)
        },
        ActionStep::Merge { name, .. } => single(s, "merge_"@, or_text(name, "merge"@), NodeKind::Decision, None, prev),
        ActionStep::IfAction { condition, then_step, else_step, .. } => {
            let d = numbered("if_"@, s.counter);
            let s1 = put(bump(s), fnode(d, condition@, NodeKind::Decision, None), prev);
            let t = act_step(s1, *then_step, seq![d]);
            let s2 = relabel_state(t.0, d, "[yes]"@);
            match else_step {
                Some(e) => {
                    let u = act_step(s2, *e, seq![d]);
                    (relabel_state(u.0, d, "[no]"@), t.1 + u.1)
                },
                None => (s2, t.1.push(d)),
            }
        },
        ActionStep::Assign { target, value, .. } => single(s, "act_"@, target@ + " := "@ + value@, NodeKind::Action, None, prev),
        ActionStep::Send { payload, via, to, .. } => single(s, "act_"@, send_label(payload, via, to), NodeKind::Action, Some("<<send>>"@), prev),
        ActionStep::WhileLoop { condition, body, .. } => {
            let d = numbered("while_"@, s.counter);
            let b = act_step(put(bump(s), fnode(d, condition@, NodeKind::Decision, None), prev), *body, seq![d]);
            (ActState { edges: b.0.edges + flow_edges(b.1, d), ..b.0 }, seq![d])
        },
        ActionStep::ForLoop { variable, collection, body, .. } => {
            let d = numbered("for_"@, s.counter);
            let label = "for "@ + variable@ + " in "@ + collection@;
            let b = act_step(put(bump(s), fnode(d, label, NodeKind::Decision, None), prev), *body, seq![d]);
            (ActState { edges: b.0.edges + flow_edges(b.1, d), ..b.0 }, seq![d])
        },
        ActionStep::Accept { signal, .. } => single(s, "accept_"@, accept_label(signal), NodeKind::Action, Some("accept"@), prev),
        ActionStep::Terminate { .. } | ActionStep::Done { .. } => {
            let f = final_id();
            if view_ids(s.nodes).contains(f) {
                (ActState { edges: s.edges + flow_edges(prev, f), ..s }, seq![f])
            } else {
                (put(s, fnode(f, seq![], NodeKind::FinalState, None), prev), seq![f])
            }
        },
    }
}

/// Steps in order, each linked from the exits of the one before.
pub open spec fn act_seq(s: ActState, steps: Seq<ActionStep>, prev: Seq<Seq<char>>) -> (ActState, Seq<Seq<char>>)
    decreases steps,
{
    if steps.len() == 0 {
        (s, prev)
    } else {
        let a = act_step(s, steps[0], prev);
        act_seq(a.0, steps.drop_first(), a.1)
    }
}

/// Fork branches, each linked from the fork; their exits in order.
pub open spec fn act_branches(s: ActState, bs: Seq<ActionStep>, from: Seq<char>) -> (ActState, Seq<Seq<char>>)
    decreases bs,
{
    if bs.len() == 0 {
        (s, seq![])
    } else {
        let a = act_step(s, bs[0], seq![from]);
        let r = act_branches(a.0, bs.drop_first(), from);
        (r.0, a.1 + r.1)
    }
}

/// Decision targets: a numbered action node per branch, reached by an edge
/// labelled with its guard; the targets are the exits.
pub open spec fn decide_targets(s: ActState, bs: Seq<DecideBranch>, from: Seq<char>) -> (ActState, Seq<Seq<char>>)
    decreases bs.len(),
{
    if bs.len() == 0 {
        (s, seq![])
    } else {
        let t = numbered("act_"@, s.counter);
        let s1 = ActState {
            nodes: s.nodes.push(fnode(t, bs[0].target@, NodeKind::Action, None)),
            edges: s.edges.push(DEdgeView { source: from, target: t, label: guard_label(bs[0].guard), kind: EdgeKind::Flow }),
            counter: s.counter + 1,
        };
        let r = decide_targets(s1, bs.drop_first(), from);
        (r.0, seq![t] + r.1)
    }
}

/// How far a step advances the counter.
pub open spec fn step_size(step: ActionStep) -> nat
    decreases step,
{
    match step {
        ActionStep::Sequence { steps, .. } => {
            proof {
                assert(decreases_to!(steps => steps@));
            }
            seq_size(steps@)
        },
        ActionStep::Fork { branches, .. } => {
            proof {
                assert(decreases_to!(branches => branches@));
            }
            1 + seq_size(branches@)
        },
        ActionStep::Decide { branches, .. } => 1 + branches@.len(),
        ActionStep::IfAction { then_step, else_step, .. } => 1 + step_size(*then_step) + match else_step {
            Some(e) => step_size(*e),
            None => 0,
        },
        ActionStep::WhileLoop { body, .. } => 1 + step_size(*body),
        ActionStep::ForLoop { body, .. } => 1 + step_size(*body),
        ActionStep::Terminate { .. } | ActionStep::Done { .. } => 0,
        _ => 1,
    }
}

/// How far a list of steps advances the counter.
pub open spec fn seq_size(steps: Seq<ActionStep>) -> nat
    decreases steps,
{
    if steps.len() == 0 {
        0
    } else {
        step_size(steps[0]) + seq_size(steps.drop_first())
    }
}

/// The state a graph and a counter stand for.
pub open spec fn state_of(g: DiagramGraph, c: usize) -> ActState {
    ActState { nodes: dnode_views(g.nodes@), edges: dedge_views(g.edges@), counter: c as nat }
}

/// Two graphs with the same title, kind, subgraphs, direction and depth.
pub open spec fn same_frame(a: DiagramGraph, b: DiagramGraph) -> bool {
    &&& a.title == b.title
    &&& a.kind == b.kind
    &&& a.subgraphs@ == b.subgraphs@
    &&& a.direction == b.direction
    &&& a.max_depth == b.max_depth
}

/// The initial node.
pub open spec fn initial_node() -> DNodeView {
    fnode("__initial__"@, seq![], NodeKind::InitialState, None)
}

/// Whether some node is a final node.
pub open spec fn has_final(ns: Seq<DNodeView>) -> bool {
    exists|i: int| 0 <= i < ns.len() && (#[trigger] ns[i]).kind == NodeKind::FinalState
}

/// The nodes and edges of the activity diagram of `steps`: the initial
/// node, the steps from it, and a final node after the last exits unless a
/// step already made one.
pub open spec fn act_diagram(steps: Seq<ActionStep>) -> ActState {
    let s0 = ActState { nodes: seq![initial_node()], edges: seq![], counter: 0 };
    let r = act_seq(s0, steps, seq!["__initial__"@]);
    if has_final(r.0.nodes) {
        r.0
    } else {
        put(r.0, fnode(final_id(), seq![], NodeKind::FinalState, None), r.1)
    }
}

// ------------------------------------------------------------------------
// Building
// ------------------------------------------------------------------------

/// `prefix` followed by the decimal form of `c`.
fn numbered_exec(prefix: &str, c: usize) -> (r: String)
    ensures
        r@ == numbered(prefix@, c as nat),
{
    let mut r = own(prefix);
    let d = usize_to_decimal(c);
    push_str(&mut r, d.as_str());
    r
}

/// A copy of an optional string.
fn copy_opt(o: &Option<String>) -> (r: Option<String>)
    ensures
        match *o {
            Some(y) => r matches Some(x) && x@ == y@,
            None => r is None,
        },
{
    match o {
        Some(x) => Some(own(x.as_str())),
        None => None,
    }
}

/// The text of `o`, or `dflt`.
fn or_text_exec(o: &Option<String>, dflt: &str) -> (r: String)
    ensures
        r@ == or_text(*o, dflt@),
{
    match o {
        Some(x) => own(x.as_str()),
        None => own(dflt),
    }
}

/// Append `pre` and the text of `o`, if any.
fn push_opt_part(out: &mut String, o: &Option<String>, pre: &str)
    ensures
        final(out)@ == old(out)@ + opt_part(*o, pre@),
{
    match o {
        Some(x) => {
            push_str(out, pre);
            push_str(out, x.as_str());
        },
        None => {
            assert(old(out)@ + opt_part(*o, pre@) =~= old(out)@);
        },
    }
}

/// Add node `node` and a flow edge to it from each of `prev`.
fn link_node(graph: &mut DiagramGraph, node: DiagramNode, prev: &Vec<String>)
    ensures
        dnode_views(final(graph).nodes@) == dnode_views(old(graph).nodes@).push(node@),
        dedge_views(final(graph).edges@) == dedge_views(old(graph).edges@) + flow_edges(prev.deep_view(), node.id@),
        same_frame(*final(graph), *old(graph)),
{
    let id = own(node.id.as_str());
    let ghost nv = node@;
    graph.add_node(node);
    link_edges(graph, prev, &id);
}

/// Add a flow edge to `to` from each of `prev`.
fn link_edges(graph: &mut DiagramGraph, prev: &Vec<String>, to: &String)
    ensures
        dnode_views(final(graph).nodes@) == dnode_views(old(graph).nodes@),
        dedge_views(final(graph).edges@) == dedge_views(old(graph).edges@) + flow_edges(prev.deep_view(), to@),
        same_frame(*final(graph), *old(graph)),
{
    let ghost e0 = dedge_views(graph.edges@);
    let mut i: usize = 0;
    while i < prev.len()
        invariant
            i <= prev@.len(),
            dnode_views(graph.nodes@) == dnode_views(old(graph).nodes@),
            same_frame(*graph, *old(graph)),
            e0 == dedge_views(old(graph).edges@),
            dedge_views(graph.edges@) == e0 + flow_edges(prev.deep_view().take(i as int), to@),
        decreases prev@.len() - i,
    {
        let ghost before = dedge_views(graph.edges@);
        graph.add_edge(DiagramEdge { source: own(prev[i].as_str()), target: own(to.as_str()), label: None, kind: EdgeKind::Flow });
        assert(flow_edges(prev.deep_view().take(i + 1), to@) =~= flow_edges(prev.deep_view().take(i as int), to@).push(
            DEdgeView { source: prev.deep_view()[i as int], target: to@, label: None, kind: EdgeKind::Flow },
        ));
        assert(dedge_views(graph.edges@) =~= e0 + flow_edges(prev.deep_view().take(i + 1), to@));
        i = i + 1;
    }
    assert(prev.deep_view().take(i as int) =~= prev.deep_view());
}

/// A node without stereotype attributes.
fn make_node(id: String, label: String, kind: NodeKind, stereotype: Option<String>) -> (r: DiagramNode)
    ensures
        r@ == fnode(id@, label@, kind, match stereotype {
            Some(s) => Some(s@),
            None => None,
        }),
{
    let r = DiagramNode { id, label, kind, stereotype, attributes: Vec::new(), is_definition: false };
    assert(r@.attributes =~= Seq::<(Seq<char>, Seq<char>)>::empty());
    r
}

/// Give the last edge from `src` the label `label`.
fn relabel_last(graph: &mut DiagramGraph, src: &str, label: &str)
    ensures
        dnode_views(final(graph).nodes@) == dnode_views(old(graph).nodes@),
        dedge_views(final(graph).edges@) == relabel(dedge_views(old(graph).edges@), src@, label@),
        same_frame(*final(graph), *old(graph)),
{
    let ghost es = dedge_views(graph.edges@);
    let mut j: usize = graph.edges.len();
    assert(es.take(j as int) =~= es);
    assert(es.skip(j as int) =~= Seq::<DEdgeView>::empty());
    while j > 0
        invariant
            j <= graph.edges@.len(),
            es == dedge_views(graph.edges@),
            es == dedge_views(old(graph).edges@),
            graph.nodes@ == old(graph).nodes@,
            same_frame(*graph, *old(graph)),
            relabel(es, src@, label@) == relabel(es.take(j as int), src@, label@) + es.skip(j as int),
        decreases j,
    {
        let k = j - 1;
        assert(es[k as int] == graph.edges@[k as int]@);
        if crate::text::str_eq(graph.edges[k].source.as_str(), src) {
            let old_edge = &graph.edges[k];
            let e = DiagramEdge {
                source: own(old_edge.source.as_str()),
                target: own(old_edge.target.as_str()),
                label: Some(own(label)),
                kind: old_edge.kind,
            };
            let ghost t = es.take(j as int);
            assert(t.drop_last() =~= es.take(k as int));
            assert(t.last() == es[k as int]);
            graph.edges.set(k, e);
            assert(dedge_views(graph.edges@) =~= relabel(es, src@, label@)) by {
                assert(relabel(es, src@, label@) == es.take(k as int).push(DEdgeView { label: Some(label@), ..es[k as int] }) + es.skip(j as int));
            }
            return;
        }
        let ghost t = es.take(j as int);
        assert(t.drop_last() =~= es.take(k as int));
        assert(es.skip(k as int) =~= seq![es[k as int]] + es.skip(j as int));
        assert(relabel(t, src@, label@) == relabel(es.take(k as int), src@, label@).push(es[k as int]));
        j = k;
    }
    assert(es.take(0) =~= Seq::<DEdgeView>::empty());
    assert(es.skip(0) =~= es);
}

/// Add a one-node step: a numbered node linked from `prev_ids`.
fn add_single(
    graph: &mut DiagramGraph,
    prefix: &str,
    label: String,
    kind: NodeKind,
    stereotype: Option<String>,
    prev_ids: &Vec<String>,
    counter: &mut usize,
) -> (r: Vec<String>)
    requires
        *old(counter) < usize::MAX,
    ensures
        state_of(*final(graph), *final(counter)) == single(
            state_of(*old(graph), *old(counter)),
            prefix@,
            label@,
            kind,
            match stereotype {
                Some(x) => Some(x@),
                None => None,
            },
            prev_ids.deep_view(),
        ).0,
        r.deep_view() == single(
            state_of(*old(graph), *old(counter)),
            prefix@,
            label@,
            kind,
            match stereotype {
                Some(x) => Some(x@),
                None => None,
            },
            prev_ids.deep_view(),
        ).1,
        *final(counter) == *old(counter) + 1,
        same_frame(*final(graph), *old(graph)),
{
    let id = numbered_exec(prefix, *counter);
    let ids = vec![own(id.as_str())];
    link_node(graph, make_node(id, label, kind, stereotype), prev_ids);
    *counter = *counter + 1;
    assert(ids.deep_view() =~= seq![numbered(prefix@, *old(counter) as nat)]);
    ids
}

/// `a` followed by `b`.
fn concat_ids(a: Vec<String>, b: Vec<String>) -> (r: Vec<String>)
    ensures
        r.deep_view() == a.deep_view() + b.deep_view(),
{
    let mut a = a;
    let mut b = b;
    let ghost av = a.deep_view();
    let ghost bv = b.deep_view();
    a.append(&mut b);
    assert(a.deep_view() =~= av + bv);
    a
}

/// Add step `step` linked from `prev_ids`, numbering new nodes from
/// `counter`; returns the step's exits.
pub fn add_action_step(graph: &mut DiagramGraph, step: &ActionStep, prev_ids: &Vec<String>, counter: &mut usize) -> (r: Vec<String>)
    requires
        *old(counter) + step_size(*step) <= usize::MAX,
    ensures
        state_of(*final(graph), *final(counter)) == act_step(state_of(*old(graph), *old(counter)), *step, prev_ids.deep_view()).0,
        r.deep_view() == act_step(state_of(*old(graph), *old(counter)), *step, prev_ids.deep_view()).1,
        *final(counter) == *old(counter) + step_size(*step),
        same_frame(*final(graph), *old(graph)),
    decreases step,
{
    let ghost s0 = state_of(*graph, *counter);
    let ghost pv = prev_ids.deep_view();
    match step {
        ActionStep::Perform { name, .. } => add_single(graph, "act_", own(name.as_str()), NodeKind::Action, None, prev_ids, counter),
        ActionStep::Join { name, .. } => add_single(graph, "join_", or_text_exec(name, "join"), NodeKind::Join, None, prev_ids, counter),
        ActionStep::Merge { name, .. } => add_single(graph, "merge_", or_text_exec(name, "merge"), NodeKind::Decision, None, prev_ids, counter),
        ActionStep::Assign { target, value, .. } => {
            let mut label = own(target.as_str());
            push_str(&mut label, " := ");
            push_str(&mut label, value.as_str());
            add_single(graph, "act_", label, NodeKind::Action, None, prev_ids, counter)
        },
        ActionStep::Send { payload, via, to, .. } => {
            let mut label = own("send");
            push_opt_part(&mut label, payload, " ");
            push_opt_part(&mut label, via, " via ");
            push_opt_part(&mut label, to, " to ");
            add_single(graph, "act_", label, NodeKind::Action, Some(own("<<send>>")), prev_ids, counter)
        },
        ActionStep::Accept { signal, .. } => {
            let label = match signal {
                Some(x) => {
                    let mut l = own("accept ");
                    push_str(&mut l, x.as_str());
                    l
                },
                None => own("accept"),
            };
            add_single(graph, "accept_", label, NodeKind::Action, Some(own("accept")), prev_ids, counter)
        },
        ActionStep::Terminate { .. } | ActionStep::Done { .. } => {
            let present = graph.has_node("__final__");
            assert(node_ids(graph.nodes@) =~= view_ids(dnode_views(graph.nodes@)));
            if !present {
                graph.add_node(make_node(own("__final__"), String::new(), NodeKind::FinalState, None));
            }
            let f = own("__final__");
            link_edges(graph, prev_ids, &f);
            let ids = vec![f];
            assert(ids.deep_view() =~= seq![final_id()]);
            ids
        },
        ActionStep::Sequence { steps, .. } => {
            let mut ids = crate::qualified_name::clone_strings(prev_ids);
            let ghost all = steps@;
            assert(all.skip(0) =~= all);
            let mut i: usize = 0;
            while i < steps.len()
                invariant
                    i <= all.len(),
                    all == steps@,
                    step is Sequence,
                    step->steps == *steps,
                    act_seq(s0, all, pv) == act_seq(state_of(*graph, *counter), all.skip(i as int), ids.deep_view()),
                    *counter + seq_size(all.skip(i as int)) == s0.counter + seq_size(all),
                    s0.counter + seq_size(all) <= usize::MAX,
                    same_frame(*graph, *old(graph)),
                decreases all.len() - i,
            {
                assert(all.skip(i as int)[0] == all[i as int]);
                assert(all.skip(i as int).drop_first() =~= all.skip(i + 1));
                proof {
                    assert(decreases_to!(step => step->steps));
                    assert(step->steps == *steps);
                    assert(decreases_to!(steps => steps@));
                    assert(decreases_to!(steps@ => steps@[i as int]));
                    assert(decreases_to!(step => steps@[i as int]));
                }
                let next = add_action_step(graph, &steps[i], &ids, counter);
                ids = next;
                i = i + 1;
            }
            assert(all.skip(i as int) =~= Seq::<ActionStep>::empty());
            ids
        },
        ActionStep::Fork { name, branches, .. } => {
            let id = numbered_exec("fork_", *counter);
            let from = vec![own(id.as_str())];
            let label = or_text_exec(name, "fork");
            link_node(graph, make_node(own(id.as_str()), label, NodeKind::Fork, None), prev_ids);
            *counter = *counter + 1;
            let ghost s1 = state_of(*graph, *counter);
            let ghost all = branches@;
            let ghost fid = id@;
            assert(from.deep_view() =~= seq![fid]);
            assert(all.skip(0) =~= all);
            let mut ends: Vec<String> = Vec::new();
            assert(ends.deep_view() + act_branches(s1, all, fid).1 =~= act_branches(s1, all, fid).1);
            let mut i: usize = 0;
            while i < branches.len()
                invariant
                    i <= all.len(),
                    all == branches@,
                    step is Fork,
                    step->Fork_branches == *branches,
                    from.deep_view() == seq![fid],
                    act_branches(state_of(*graph, *counter), all.skip(i as int), fid).0 == act_branches(s1, all, fid).0,
                    ends.deep_view() + act_branches(state_of(*graph, *counter), all.skip(i as int), fid).1
                        == act_branches(s1, all, fid).1,
                    *counter + seq_size(all.skip(i as int)) == s1.counter + seq_size(all),
                    s1.counter + seq_size(all) <= usize::MAX,
                    same_frame(*graph, *old(graph)),
                decreases all.len() - i,
            {
                assert(all.skip(i as int)[0] == all[i as int]);
                assert(all.skip(i as int).drop_first() =~= all.skip(i + 1));
                proof {
                    assert(decreases_to!(step => step->Fork_branches));
                    assert(step->Fork_branches == *branches);
                    assert(decreases_to!(branches => branches@));
                    assert(decreases_to!(branches@ => branches@[i as int]));
                    assert(decreases_to!(step => branches@[i as int]));
                }
                let ghost e0 = ends.deep_view();
                let got = add_action_step(graph, &branches[i], &from, counter);
                let ghost gv = got.deep_view();
                ends = concat_ids(ends, got);
                assert(e0 + (gv + act_branches(state_of(*graph, *counter), all.skip(i + 1), fid).1) =~= (e0 + gv)
                    + act_branches(state_of(*graph, *counter), all.skip(i + 1), fid).1);
                i = i + 1;
            }
            assert(all.skip(i as int) =~= Seq::<ActionStep>::empty());
            assert(ends.deep_view() + Seq::<Seq<char>>::empty() =~= ends.deep_view());
            ends
        },
        ActionStep::Decide { name, branches, .. } => {
            let id = numbered_exec("decide_", *counter);
            let label = or_text_exec(name, "?");
            link_node(graph, make_node(own(id.as_str()), label, NodeKind::Decision, None), prev_ids);
            *counter = *counter + 1;
            let ghost s1 = state_of(*graph, *counter);
            let ghost all = branches@;
            let ghost did = id@;
            assert(all.skip(0) =~= all);
            let mut ends: Vec<String> = Vec::new();
            assert(ends.deep_view() + decide_targets(s1, all, did).1 =~= decide_targets(s1, all, did).1);
            let mut i: usize = 0;
            while i < branches.len()
                invariant
                    i <= all.len(),
                    all == branches@,
                    id@ == did,
                    decide_targets(state_of(*graph, *counter), all.skip(i as int), did).0 == decide_targets(s1, all, did).0,
                    ends.deep_view() + decide_targets(state_of(*graph, *counter), all.skip(i as int), did).1
                        == decide_targets(s1, all, did).1,
                    *counter + (all.len() - i) == s1.counter + all.len(),
                    s1.counter + all.len() <= usize::MAX,
                    same_frame(*graph, *old(graph)),
                decreases all.len() - i,
            {
                let ghost before = state_of(*graph, *counter);
                assert(all.skip(i as int)[0] == all[i as int]);
                assert(all.skip(i as int).drop_first() =~= all.skip(i + 1));
                let b = &branches[i];
                let t = numbered_exec("act_", *counter);
                graph.add_node(make_node(own(t.as_str()), own(b.target.as_str()), NodeKind::Action, None));
                let glabel = match &b.guard {
                    Some(g) => {
                        let mut l = own("[");
                        push_str(&mut l, g.as_str());
                        push_str(&mut l, "]");
                        Some(l)
                    },
                    None => None,
                };
                graph.add_edge(DiagramEdge { source: own(id.as_str()), target: own(t.as_str()), label: glabel, kind: EdgeKind::Flow });
                *counter = *counter + 1;
                let ghost e0 = ends.deep_view();
                ends.push(t);
                assert(ends.deep_view() =~= e0.push(numbered("act_"@, before.counter)));
                assert(state_of(*graph, *counter) =~~= ActState {
                    nodes: before.nodes.push(fnode(numbered("act_"@, before.counter), all[i as int].target@, NodeKind::Action, None)),
                    edges: before.edges.push(DEdgeView { source: did, target: numbered("act_"@, before.counter), label: guard_label(all[i as int].guard), kind: EdgeKind::Flow }),
                    counter: before.counter + 1,
                });
                assert(e0.push(numbered("act_"@, before.counter)) + decide_targets(state_of(*graph, *counter), all.skip(i + 1), did).1
                    =~= e0 + (seq![numbered("act_"@, before.counter)] + decide_targets(state_of(*graph, *counter), all.skip(i + 1), did).1));
                i = i + 1;
            }
            assert(all.skip(i as int) =~= Seq::<DecideBranch>::empty());
            assert(ends.deep_view() + Seq::<Seq<char>>::empty() =~= ends.deep_view());
            ends
        },
        ActionStep::IfAction { condition, then_step, else_step, .. } => {
            let d = numbered_exec("if_", *counter);
            let from = vec![own(d.as_str())];
            assert(from.deep_view() =~= seq![d@]);
            link_node(graph, make_node(own(d.as_str()), own(condition.as_str()), NodeKind::Decision, None), prev_ids);
            *counter = *counter + 1;
            let then_ends = add_action_step(graph, then_step, &from, counter);
            relabel_last(graph, d.as_str(), "[yes]");
            match else_step {
                Some(e) => {
                    let else_ends = add_action_step(graph, e, &from, counter);
                    relabel_last(graph, d.as_str(), "[no]");
                    concat_ids(then_ends, else_ends)
                },
                None => {
                    let mut ends = then_ends;
                    let ghost e0 = ends.deep_view();
                    ends.push(own(d.as_str()));
                    assert(ends.deep_view() =~= e0.push(d@));
                    ends
                },
            }
        },
        ActionStep::WhileLoop { condition, body, .. } => {
            let d = numbered_exec("while_", *counter);
            let from = vec![own(d.as_str())];
            assert(from.deep_view() =~= seq![d@]);
            link_node(graph, make_node(own(d.as_str()), own(condition.as_str()), NodeKind::Decision, None), prev_ids);
            *counter = *counter + 1;
            let body_ends = add_action_step(graph, body, &from, counter);
            link_edges(graph, &body_ends, &d);
            let ids = vec![d];
            assert(ids.deep_view() =~= seq![numbered("while_"@, s0.counter)]);
            ids
        },
        ActionStep::ForLoop { variable, collection, body, .. } => {
            let d = numbered_exec("for_", *counter);
            let from = vec![own(d.as_str())];
            assert(from.deep_view() =~= seq![d@]);
            let mut label = own("for ");
            push_str(&mut label, variable.as_str());
            push_str(&mut label, " in ");
            push_str(&mut label, collection.as_str());
            link_node(graph, make_node(own(d.as_str()), label, NodeKind::Decision, None), prev_ids);
            *counter = *counter + 1;
            let body_ends = add_action_step(graph, body, &from, counter);
            link_edges(graph, &body_ends, &d);
            let ids = vec![d];
            assert(ids.deep_view() =~= seq![numbered("for_"@, s0.counter)]);
            ids
        },
    }
}

/// Whether some node is a final node.
fn any_final(graph: &DiagramGraph) -> (r: bool)
    ensures
        r == has_final(dnode_views(graph.nodes@)),
{
    let ghost ns = dnode_views(graph.nodes@);
    let mut i: usize = 0;
    while i < graph.nodes.len()
        invariant
            i <= graph.nodes@.len(),
            ns == dnode_views(graph.nodes@),
            forall|k: int| 0 <= k < i ==> ns[k].kind != NodeKind::FinalState,
        decreases graph.nodes@.len() - i,
    {
        assert(ns[i as int] == graph.nodes@[i as int]@);
        if graph.nodes[i].kind == NodeKind::FinalState {
            assert(ns[i as int].kind == NodeKind::FinalState);
            return true;
        }
        i = i + 1;
    }
    false
}

/// Build the activity diagram of an action model: an initial node, the
/// steps in order from it, and a final node after the last exits unless a
/// `done` or `terminate` step made one.
pub fn build_act_from_action_model(am: &ActionModel) -> (g: DiagramGraph)
    requires
        seq_size(am.steps@) <= usize::MAX,
    ensures
        graph_frame(g, title_text("act"@, am.name@), DiagramKind::ActionFlowView),
        dnode_views(g.nodes@) == act_diagram(am.steps@).nodes,
        dedge_views(g.edges@) == act_diagram(am.steps@).edges,
{
    let mut title = own("act [");
    push_str(&mut title, am.name.as_str());
    push_str(&mut title, "]");
    proof {
        reveal_strlit("act [");
        reveal_strlit("act");
        reveal_strlit(" [");
        assert(title@ =~= title_text("act"@, am.name@));
    }
    let mut graph = DiagramGraph::new(title, DiagramKind::ActionFlowView);
    graph.add_node(make_node(own("__initial__"), String::new(), NodeKind::InitialState, None));
    let mut counter: usize = 0;
    let mut last_ids: Vec<String> = vec![own("__initial__")];
    let ghost s0 = ActState { nodes: seq![initial_node()], edges: seq![], counter: 0 };
    let ghost all = am.steps@;
    assert(dnode_views(graph.nodes@) =~= seq![initial_node()]);
    assert(dedge_views(graph.edges@) =~= Seq::<DEdgeView>::empty());
    assert(state_of(graph, counter) == s0);
    assert(last_ids.deep_view() =~= seq!["__initial__"@]);
    assert(all.skip(0) =~= all);
    let mut i: usize = 0;
    while i < am.steps.len()
        invariant
            i <= all.len(),
            all == am.steps@,
            act_seq(s0, all, seq!["__initial__"@]) == act_seq(state_of(graph, counter), all.skip(i as int), last_ids.deep_view()),
            counter + seq_size(all.skip(i as int)) == seq_size(all),
            seq_size(all) <= usize::MAX,
            graph_frame(graph, title_text("act"@, am.name@), DiagramKind::ActionFlowView),
        decreases all.len() - i,
    {
        assert(all.skip(i as int)[0] == all[i as int]);
        assert(all.skip(i as int).drop_first() =~= all.skip(i + 1));
        let next = add_action_step(&mut graph, &am.steps[i], &last_ids, &mut counter);
        last_ids = next;
        i = i + 1;
    }
    assert(all.skip(i as int) =~= Seq::<ActionStep>::empty());
    if !any_final(&graph) {
        link_node(&mut graph, make_node(own("__final__"), String::new(), NodeKind::FinalState, None), &last_ids);
    }
    graph
}

} // verus!
