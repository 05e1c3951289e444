//! Rebuilding the nested flow of an action body from its flat list of
//! steps: declared forks and joins, action usages, and two-step successions
//! `first a then b`.  The successions give the edges of a graph; the graph
//! is walked from `start` (or else from the nodes nothing leads to, in the
//! order they first appear as sources), nesting the branches of each fork
//! up to its join.
use vstd::prelude::*;
use crate::model::Span;
use crate::sim::action_flow::ActionStep;
use crate::text::{own, str_eq};

verus! {

// ------------------------------------------------------------------------
// Specification
// ------------------------------------------------------------------------

/// A step as plain data, for the variants the flow graph builds.
pub enum FlowView {
    Perform { name: Seq<char>, span: Span },
    Fork { name: Option<Seq<char>>, branches: Seq<FlowView>, span: Span },
    Join { name: Option<Seq<char>>, span: Span },
    Sequence { steps: Seq<FlowView>, span: Span },
    Other(ActionStep),
}

/// The plain data of a step.
pub open spec fn flow_view(s: ActionStep) -> FlowView
    decreases s,
{
    match s {
        ActionStep::Perform { name, span } => FlowView::Perform { name: name@, span },
        ActionStep::Fork { name, branches, span } => {
            proof {
                assert(decreases_to!(branches => branches@));
            }
            FlowView::Fork { name: opt_name(name), branches: flow_views(branches@), span }
        },
        ActionStep::Join { name, span } => FlowView::Join { name: opt_name(name), span },
        ActionStep::Sequence { steps, span } => {
            proof {
                assert(decreases_to!(steps => steps@));
            }
            FlowView::Sequence { steps: flow_views(steps@), span }
        },
        _ => FlowView::Other(s),
    }
}

/// The plain data of a list of steps.
pub open spec fn flow_views(s: Seq<ActionStep>) -> Seq<FlowView>
    decreases s,
{
    if s.len() == 0 {
        seq![]
    } else {
        seq![flow_view(s[0])] + flow_views(s.drop_first())
    }
}

/// The text of an optional name.
pub open spec fn opt_name(o: Option<String>) -> Option<Seq<char>> {
    match o {
        Some(x) => Some(x@),
        None => None,
    }
}

/// What a name stands for in the flow.
pub enum NameKind {
    Action,
    Fork,
    Join,
}

/// The kind of a name: that of its last fork or join declaration, else an action.
pub open spec fn kind_of(raw: Seq<ActionStep>, n: Seq<char>) -> NameKind
    decreases raw.len(),
{
    if raw.len() == 0 {
        NameKind::Action
    } else {
        match raw.last() {
            ActionStep::Fork { name: Some(x), .. } => if x@ == n {
                NameKind::Fork
            } else {
                kind_of(raw.drop_last(), n)
            },
            ActionStep::Join { name: Some(x), .. } => if x@ == n {
                NameKind::Join
            } else {
                kind_of(raw.drop_last(), n)
            },
            _ => kind_of(raw.drop_last(), n),
        }
    }
}

/// The empty span.
pub open spec fn zero_span() -> Span {
    Span { start_row: 0, start_col: 0, end_row: 0, end_col: 0, start_byte: 0, end_byte: 0 }
}

/// The span of the last fork declared as `n`.
pub open spec fn fork_span(raw: Seq<ActionStep>, n: Seq<char>) -> Span
    decreases raw.len(),
{
    if raw.len() == 0 {
        zero_span()
    } else {
        match raw.last() {
            ActionStep::Fork { name: Some(x), span, .. } => if x@ == n {
                span
            } else {
                fork_span(raw.drop_last(), n)
            },
            _ => fork_span(raw.drop_last(), n),
        }
    }
}

/// The span of the last join declared as `n`.
pub open spec fn join_span(raw: Seq<ActionStep>, n: Seq<char>) -> Span
    decreases raw.len(),
{
    if raw.len() == 0 {
        zero_span()
    } else {
        match raw.last() {
            ActionStep::Join { name: Some(x), span } => if x@ == n {
                span
            } else {
                join_span(raw.drop_last(), n)
            },
            _ => join_span(raw.drop_last(), n),
        }
    }
}

/// The span of the first action usage `n` (other than `start` and `done`).
pub open spec fn action_span(raw: Seq<ActionStep>, n: Seq<char>) -> Span
    decreases raw.len(),
{
    if raw.len() == 0 {
        zero_span()
    } else {
        match raw[0] {
            ActionStep::Perform { name, span } => if name@ == n && n != "start"@ && n != "done"@ {
                span
            } else {
                action_span(raw.drop_first(), n)
            },
            _ => action_span(raw.drop_first(), n),
        }
    }
}

/// The names of a two-step succession `first a then b`, if `s` is one.
pub open spec fn succession(s: ActionStep) -> Option<(Seq<char>, Seq<char>)> {
    match s {
        ActionStep::Sequence { steps, .. } => if steps@.len() == 2 {
            match (steps@[0], steps@[1]) {
                (ActionStep::Perform { name: a, .. }, ActionStep::Perform { name: b, .. }) => Some((a@, b@)),
                _ => None,
            }
        } else {
            None
        },
        _ => None,
    }
}

/// For a loose `then` step starting at byte `start`: the node the last
/// two-step succession whose first step ends before it leads to.
pub open spec fn loose_source(raw: Seq<ActionStep>, start: usize) -> Option<Seq<char>>
    decreases raw.len(),
{
    if raw.len() == 0 {
        None
    } else {
        match raw.last() {
            ActionStep::Sequence { steps, .. } => if steps@.len() == 2 {
                match steps@[0] {
                    ActionStep::Perform { name: a, span } => if span.end_byte < start {
                        match steps@[1] {
                            ActionStep::Perform { name: b, .. } => Some(b@),
                            _ => Some(a@),
                        }
                    } else {
                        loose_source(raw.drop_last(), start)
                    },
                    _ => loose_source(raw.drop_last(), start),
                }
            } else {
                loose_source(raw.drop_last(), start)
            },
            _ => loose_source(raw.drop_last(), start),
        }
    }
}

/// The index of source `k` in an adjacency list.
pub open spec fn key_index(adj: Seq<(Seq<char>, Seq<Seq<char>>)>, k: Seq<char>) -> Option<int>
    decreases adj.len(),
{
    if adj.len() == 0 {
        None
    } else if adj[0].0 == k {
        Some(0)
    } else {
        match key_index(adj.drop_first(), k) {
            Some(j) => Some(j + 1),
            None => None,
        }
    }
}

/// The adjacency list with the edge `a -> b` added.
pub open spec fn add_edge(adj: Seq<(Seq<char>, Seq<Seq<char>>)>, a: Seq<char>, b: Seq<char>) -> Seq<(Seq<char>, Seq<Seq<char>>)> {
    match key_index(adj, a) {
        Some(j) => adj.update(j, (a, adj[j].1.push(b))),
        None => adj.push((a, seq![b])),
    }
}

/// What reading the first steps of a body gives: the edges so far, and
/// whether the last step was part of a run of successions.
pub struct Scan {
    pub adj: Seq<(Seq<char>, Seq<Seq<char>>)>,
    pub region: bool,
}

/// Whether a step stays outside the succession graph: a sequence that is
/// not a two-step succession, or any step other than an action usage, a
/// sequence, a fork or a join.
pub open spec fn is_other(s: ActionStep) -> bool {
    match s {
        ActionStep::Sequence { steps, .. } => steps@.len() != 2,
        ActionStep::Perform { .. } | ActionStep::Fork { .. } | ActionStep::Join { .. } => false,
        _ => true,
    }
}

/// The steps outside the succession graph, in order.
pub open spec fn others_of(raw: Seq<ActionStep>) -> Seq<ActionStep>
    decreases raw.len(),
{
    if raw.len() == 0 {
        seq![]
    } else if is_other(raw.last()) {
        others_of(raw.drop_last()).push(raw.last())
    } else {
        others_of(raw.drop_last())
    }
}

/// Read the first `n` steps of `raw`.
pub open spec fn scan(raw: Seq<ActionStep>, n: nat) -> Scan
    decreases n,
{
    if n == 0 || n > raw.len() {
        Scan { adj: seq![], region: false }
    } else {
        let s = scan(raw, (n - 1) as nat);
        let step = raw[n - 1];
        match step {
            ActionStep::Sequence { steps, .. } => if steps@.len() == 2 {
                match succession(step) {
                    Some((a, b)) => Scan { adj: add_edge(s.adj, a, b), region: true },
                    None => s,
                }
            } else {
                Scan { adj: s.adj, region: false }
            },
            ActionStep::Perform { name, span } => if s.region {
                match loose_source(raw, span.start_byte) {
                    Some(src) => Scan { adj: add_edge(s.adj, src, name@), region: true },
                    None => s,
                }
            } else {
                s
            },
            ActionStep::Fork { .. } | ActionStep::Join { .. } => s,
            _ => Scan { adj: s.adj, region: false },
        }
    }
}

/// The targets of `k`.
pub open spec fn targets_of(adj: Seq<(Seq<char>, Seq<Seq<char>>)>, k: Seq<char>) -> Seq<Seq<char>> {
    match key_index(adj, k) {
        Some(j) => adj[j].1,
        None => seq![],
    }
}

/// Every name in an adjacency list: each source followed by its targets.
pub open spec fn names_of(adj: Seq<(Seq<char>, Seq<Seq<char>>)>) -> Seq<Seq<char>>
    decreases adj.len(),
{
    if adj.len() == 0 {
        seq![]
    } else {
        names_of(adj.drop_last()) + seq![adj.last().0] + adj.last().1
    }
}

/// How many of `u` are not in `vis`.
pub open spec fn unvisited(u: Seq<Seq<char>>, vis: Seq<Seq<char>>) -> nat
    decreases u.len(),
{
    if u.len() == 0 {
        0
    } else {
        unvisited(u.drop_last(), vis) + if vis.contains(u.last()) {
            0nat
        } else {
            1nat
        }
    }
}

/// Visiting more leaves no more unvisited; visiting a new one of `u` leaves fewer.
pub proof fn lemma_unvisited(u: Seq<Seq<char>>, a: Seq<Seq<char>>, b: Seq<Seq<char>>, x: Seq<char>)
    requires
        forall|y: Seq<char>| a.contains(y) ==> b.contains(y),
    ensures
        unvisited(u, b) <= unvisited(u, a),
        u.contains(x) && !a.contains(x) && b.contains(x) ==> unvisited(u, b) < unvisited(u, a),
    decreases u.len(),
{
    if u.len() > 0 {
        lemma_unvisited(u.drop_last(), a, b, x);
        if u.contains(x) && !a.contains(x) && b.contains(x) && u.last() != x {
            let i = choose|i: int| 0 <= i < u.len() && u[i] == x;
            assert(u.drop_last()[i] == x);
        }
    }
}

/// `a + b` holds everything `a` holds, and `a.push(x)` holds `x` too.
pub proof fn lemma_grow(a: Seq<Seq<char>>, b: Seq<Seq<char>>, x: Seq<char>)
    ensures
        forall|y: Seq<char>| a.contains(y) ==> (a + b).contains(y),
        forall|y: Seq<char>| a.contains(y) ==> a.push(x).contains(y),
        a.push(x).contains(x),
{
    assert forall|y: Seq<char>| a.contains(y) implies (a + b).contains(y) by {
        let i = choose|i: int| 0 <= i < a.len() && a[i] == y;
        assert((a + b)[i] == y);
    }
    assert forall|y: Seq<char>| a.contains(y) implies a.push(x).contains(y) by {
        let i = choose|i: int| 0 <= i < a.len() && a[i] == y;
        assert(a.push(x)[i] == y);
    }
    assert(a.push(x)[a.len() as int] == x);
}

/// Follow first targets from `cur` until a join, without going round twice.
pub open spec fn trace_join(raw: Seq<ActionStep>, adj: Seq<(Seq<char>, Seq<Seq<char>>)>, cur: Seq<char>, seen: Seq<Seq<char>>) -> Option<Seq<char>>
    decreases unvisited(names_of(adj), seen),
{
    if seen.contains(cur) {
        None
    } else if kind_of(raw, cur) == NameKind::Join {
        Some(cur)
    } else if !names_of(adj).contains(cur) || targets_of(adj, cur).len() == 0 {
        None
    } else {
        proof {
            lemma_grow(seen, seq![], cur);
            lemma_unvisited(names_of(adj), seen, seen.push(cur), cur);
        }
        trace_join(raw, adj, targets_of(adj, cur)[0], seen.push(cur))
    }
}

/// The join a fork's branches meet at: the first found from its targets in order.
pub open spec fn matching_join(raw: Seq<ActionStep>, adj: Seq<(Seq<char>, Seq<Seq<char>>)>, ts: Seq<Seq<char>>, i: nat) -> Option<Seq<char>>
    decreases ts.len() - i,
{
    if i >= ts.len() {
        None
    } else {
        match trace_join(raw, adj, ts[i as int], seq![]) {
            Some(j) => Some(j),
            None => matching_join(raw, adj, ts, i + 1),
        }
    }
}

/// A node with no targets, drawn by its kind.
pub open spec fn lone_node(raw: Seq<ActionStep>, n: Seq<char>) -> FlowView {
    match kind_of(raw, n) {
        NameKind::Fork => FlowView::Fork { name: Some(n), branches: seq![], span: fork_span(raw, n) },
        NameKind::Join => FlowView::Join { name: Some(n), span: join_span(raw, n) },
        NameKind::Action => FlowView::Perform { name: n, span: action_span(raw, n) },
    }
}

/// A fork branch's steps as one step: itself when single, else a sequence.
pub open spec fn branch_step(steps: Seq<FlowView>, span: Span) -> Seq<FlowView> {
    if steps.len() == 1 {
        steps
    } else if steps.len() > 0 {
        seq![FlowView::Sequence { steps, span }]
    } else {
        seq![]
    }
}

/// Walk the graph from `node`, `vis` already visited: the steps, and the
/// names newly visited in order.
pub open spec fn walk(raw: Seq<ActionStep>, adj: Seq<(Seq<char>, Seq<Seq<char>>)>, node: Seq<char>, vis: Seq<Seq<char>>) -> (Seq<FlowView>, Seq<Seq<char>>)
    decreases unvisited(names_of(adj), vis), 1int, 0int,
{
    if vis.contains(node) || node == "done"@ {
        (seq![], seq![])
    } else if !names_of(adj).contains(node) {
        (seq![lone_node(raw, node)], seq![node])
    } else {
        let v1 = vis.push(node);
        let ts = targets_of(adj, node);
        proof {
            lemma_grow(vis, seq![], node);
            lemma_unvisited(names_of(adj), vis, v1, node);
        }
        match kind_of(raw, node) {
            NameKind::Fork => {
                let span = fork_span(raw, node);
                let jn = matching_join(raw, adj, ts, 0);
                let b = walk_forks(raw, adj, ts, 0, v1, jn, span);
                let fork = FlowView::Fork { name: Some(node), branches: b.0, span };
                let v2 = v1 + b.1;
                proof {
                    lemma_grow(v1, b.1, node);
                    lemma_unvisited(names_of(adj), v1, v2, node);
                }
                match jn {
                    Some(j) => if !v2.contains(j) {
                        let v3 = v2.push(j);
                        proof {
                            lemma_grow(v2, seq![], j);
                            lemma_unvisited(names_of(adj), v2, v3, j);
                        }
                        let after = walk_all(raw, adj, targets_of(adj, j), 0, v3);
                        (
                            seq![fork, FlowView::Join { name: Some(j), span: join_span(raw, j) }] + after.0,
                            seq![node] + b.1 + seq![j] + after.1,
                        )
                    } else {
                        (seq![fork], seq![node] + b.1)
                    },
                    None => (seq![fork], seq![node] + b.1),
                }
            },
            NameKind::Join => {
                let r = walk_all(raw, adj, ts, 0, v1);
                (seq![FlowView::Join { name: Some(node), span: join_span(raw, node) }] + r.0, seq![node] + r.1)
            },
            NameKind::Action => {
                let r = walk_all(raw, adj, ts, 0, v1);
                (seq![FlowView::Perform { name: node, span: action_span(raw, node) }] + r.0, seq![node] + r.1)
            },
        }
    }
}

/// Walk from each of `ts[i..]` in turn.
pub open spec fn walk_all(raw: Seq<ActionStep>, adj: Seq<(Seq<char>, Seq<Seq<char>>)>, ts: Seq<Seq<char>>, i: nat, vis: Seq<Seq<char>>) -> (Seq<FlowView>, Seq<Seq<char>>)
    decreases unvisited(names_of(adj), vis), 3int, ts.len() - i,
{
    if i >= ts.len() {
        (seq![], seq![])
    } else {
        let a = walk(raw, adj, ts[i as int], vis);
        proof {
            lemma_grow(vis, a.1, ts[i as int]);
            lemma_unvisited(names_of(adj), vis, vis + a.1, ts[i as int]);
        }
        let r = walk_all(raw, adj, ts, i + 1, vis + a.1);
        (a.0 + r.0, a.1 + r.1)
    }
}

/// Walk one fork branch from `node`, stopping at `stop` or any join.
pub open spec fn walk_branch(raw: Seq<ActionStep>, adj: Seq<(Seq<char>, Seq<Seq<char>>)>, node: Seq<char>, vis: Seq<Seq<char>>, stop: Option<Seq<char>>) -> (Seq<FlowView>, Seq<Seq<char>>)
    decreases unvisited(names_of(adj), vis), 2int, 0int,
{
    if vis.contains(node) || node == "done"@ || stop == Some(node) {
        (seq![], seq![])
    } else if kind_of(raw, node) == NameKind::Fork {
        walk(raw, adj, node, vis)
    } else if kind_of(raw, node) == NameKind::Join {
        (seq![], seq![])
    } else if !names_of(adj).contains(node) {
        (seq![FlowView::Perform { name: node, span: action_span(raw, node) }], seq![node])
    } else {
        let v1 = vis.push(node);
        proof {
            lemma_grow(vis, seq![], node);
            lemma_unvisited(names_of(adj), vis, v1, node);
        }
        let r = walk_branches(raw, adj, targets_of(adj, node), 0, v1, stop);
        (seq![FlowView::Perform { name: node, span: action_span(raw, node) }] + r.0, seq![node] + r.1)
    }
}

/// Continue a branch from each of `ts[i..]` in turn.
pub open spec fn walk_branches(raw: Seq<ActionStep>, adj: Seq<(Seq<char>, Seq<Seq<char>>)>, ts: Seq<Seq<char>>, i: nat, vis: Seq<Seq<char>>, stop: Option<Seq<char>>) -> (Seq<FlowView>, Seq<Seq<char>>)
    decreases unvisited(names_of(adj), vis), 3int, ts.len() - i,
{
    if i >= ts.len() {
        (seq![], seq![])
    } else {
        let a = walk_branch(raw, adj, ts[i as int], vis, stop);
        proof {
            lemma_grow(vis, a.1, ts[i as int]);
            lemma_unvisited(names_of(adj), vis, vis + a.1, ts[i as int]);
        }
        let r = walk_branches(raw, adj, ts, i + 1, vis + a.1, stop);
        (a.0 + r.0, a.1 + r.1)
    }
}

/// The branches of a fork: one step per target that yields any.
pub open spec fn walk_forks(raw: Seq<ActionStep>, adj: Seq<(Seq<char>, Seq<Seq<char>>)>, ts: Seq<Seq<char>>, i: nat, vis: Seq<Seq<char>>, stop: Option<Seq<char>>, span: Span) -> (Seq<FlowView>, Seq<Seq<char>>)
    decreases unvisited(names_of(adj), vis), 3int, ts.len() - i,
{
    if i >= ts.len() {
        (seq![], seq![])
    } else {
        let a = walk_branch(raw, adj, ts[i as int], vis, stop);
        proof {
            lemma_grow(vis, a.1, ts[i as int]);
            lemma_unvisited(names_of(adj), vis, vis + a.1, ts[i as int]);
        }
        let r = walk_forks(raw, adj, ts, i + 1, vis + a.1, stop, span);
        (branch_step(a.0, span) + r.0, a.1 + r.1)
    }
}

/// Whether some target in `adj` is `k`.
pub open spec fn has_incoming(adj: Seq<(Seq<char>, Seq<Seq<char>>)>, k: Seq<char>) -> bool {
    exists|j: int| 0 <= j < adj.len() && (#[trigger] adj[j]).1.contains(k)
}

/// The sources of `adj[i..]` that nothing leads to, in order.
pub open spec fn roots_from(adj: Seq<(Seq<char>, Seq<Seq<char>>)>, i: nat) -> Seq<Seq<char>>
    decreases adj.len() - i,
{
    if i >= adj.len() {
        seq![]
    } else {
        (if has_incoming(adj, adj[i as int].0) {
            seq![]
        } else {
            seq![adj[i as int].0]
        }) + roots_from(adj, i + 1)
    }
}

/// Whether some step is a succession.
pub open spec fn has_sequence(raw: Seq<ActionStep>) -> bool {
    exists|i: int| 0 <= i < raw.len() && (#[trigger] raw[i]) is Sequence
}

/// The walk of the succession graph: from `start` when it is a source, else
/// from each source nothing leads to, else from the first source.
pub open spec fn walked(raw: Seq<ActionStep>, adj: Seq<(Seq<char>, Seq<Seq<char>>)>) -> Seq<FlowView> {
    if key_index(adj, "start"@) is Some {
        walk(raw, adj, "start"@, seq![]).0
    } else if roots_from(adj, 0).len() > 0 {
        walk_all(raw, adj, roots_from(adj, 0), 0, seq![]).0
    } else if adj.len() > 0 {
        walk(raw, adj, adj[0].0, seq![]).0
    } else {
        seq![]
    }
}

/// The flow of a body: the steps unchanged when there is no succession or
/// the walk yields nothing; else the walk, then the steps outside the flow.
pub open spec fn flow_graph(raw: Seq<ActionStep>) -> Seq<FlowView> {
    if !has_sequence(raw) {
        flow_views(raw)
    } else {
        let sc = scan(raw, raw.len());
        let w = walked(raw, sc.adj);
        if w.len() == 0 {
            flow_views(raw)
        } else {
            w + flow_views(others_of(raw))
        }
    }
}

/// A body without successions is a simple action: its steps come back as
/// they were.
pub proof fn law_plain_body_unchanged(raw: Seq<ActionStep>)
    requires
        forall|i: int| 0 <= i < raw.len() ==> !(#[trigger] raw[i] is Sequence),
    ensures
        flow_graph(raw) == flow_views(raw),
{
}

// ------------------------------------------------------------------------
// Building
// ------------------------------------------------------------------------

/// The plain data of an adjacency list.
pub open spec fn adj_view(a: Seq<(String, Vec<String>)>) -> Seq<(Seq<char>, Seq<Seq<char>>)> {
    a.map_values(|p: (String, Vec<String>)| (p.0@, p.1.deep_view()))
}

/// The views of a concatenation are the concatenated views.
pub proof fn lemma_flow_views_add(a: Seq<ActionStep>, b: Seq<ActionStep>)
    ensures
        flow_views(a + b) == flow_views(a) + flow_views(b),
    decreases a.len(),
{
    if a.len() == 0 {
        assert(a + b =~= b);
        assert(flow_views(a) =~= Seq::<FlowView>::empty());
    } else {
        lemma_flow_views_add(a.drop_first(), b);
        assert((a + b).drop_first() =~= a.drop_first() + b);
        assert((a + b)[0] == a[0]);
    }
}

/// The views of one step.
pub proof fn lemma_flow_views_one(x: ActionStep)
    ensures
        flow_views(seq![x]) == seq![flow_view(x)],
{
    let e = seq![x].drop_first();
    assert(e =~= Seq::<ActionStep>::empty());
    assert(flow_views(e) =~= Seq::<FlowView>::empty());
    assert(seq![x][0] == x);
    assert(flow_views(seq![x]) =~= seq![flow_view(x)] + flow_views(e));
}

/// Where `k` is found in an adjacency list.
pub proof fn lemma_key_index(adj: Seq<(Seq<char>, Seq<Seq<char>>)>, k: Seq<char>)
    ensures
        match key_index(adj, k) {
            Some(j) => 0 <= j < adj.len() && adj[j].0 == k,
            None => forall|j: int| 0 <= j < adj.len() ==> adj[j].0 != k,
        },
    decreases adj.len(),
{
    if adj.len() > 0 {
        lemma_key_index(adj.drop_first(), k);
        if adj[0].0 != k {
            assert forall|j: int| 0 < j < adj.len() implies adj[j] == adj.drop_first()[j - 1] by {}
        }
    }
}

/// Whether `v` holds `n`.
fn has_name(v: &Vec<String>, n: &str) -> (r: bool)
    ensures
        r == v.deep_view().contains(n@),
{
    let ghost dv = v.deep_view();
    let mut i: usize = 0;
    while i < v.len()
        invariant
            i <= v@.len(),
            dv == v.deep_view(),
            dv.len() == v@.len(),
            forall|j: int| 0 <= j < i ==> dv[j] != n@,
        decreases v@.len() - i,
    {
        assert(dv[i as int] == v@[i as int]@);
        if str_eq(v[i].as_str(), n) {
            return true;
        }
        i = i + 1;
    }
    false
}

/// A copy of a list of names.
fn copy_names(v: &Vec<String>) -> (r: Vec<String>)
    ensures
        r.deep_view() == v.deep_view(),
{
    let mut r: Vec<String> = Vec::new();
    let mut i: usize = 0;
    while i < v.len()
        invariant
            i <= v@.len(),
            r.deep_view() == v.deep_view().take(i as int),
        decreases v@.len() - i,
    {
        let ghost r0 = r.deep_view();
        r.push(own(v[i].as_str()));
        assert(r.deep_view() =~= r0.push(v@[i as int]@));
        assert(r.deep_view() =~= v.deep_view().take(i + 1));
        i = i + 1;
    }
    assert(v.deep_view().take(i as int) =~= v.deep_view());
    r
}

/// The kind of a name.
fn kind_exec(raw: &Vec<ActionStep>, n: &str) -> (r: NameKind)
    ensures
        r == kind_of(raw@, n@),
{
    assert(raw@.take(raw@.len() as int) =~= raw@);
    let mut i: usize = raw.len();
    while i > 0
        invariant
            i <= raw@.len(),
            kind_of(raw@, n@) == kind_of(raw@.take(i as int), n@),
        decreases i,
    {
        assert(raw@.take(i as int).drop_last() =~= raw@.take(i - 1));
        match &raw[i - 1] {
            ActionStep::Fork { name: Some(x), .. } => {
                if str_eq(x.as_str(), n) {
                    return NameKind::Fork;
                }
            },
            ActionStep::Join { name: Some(x), .. } => {
                if str_eq(x.as_str(), n) {
                    return NameKind::Join;
                }
            },
            _ => {},
        }
        i = i - 1;
    }
    NameKind::Action
}

/// The span of the last fork declared as `n`.
fn fork_span_exec(raw: &Vec<ActionStep>, n: &str) -> (r: Span)
    ensures
        r == fork_span(raw@, n@),
{
    assert(raw@.take(raw@.len() as int) =~= raw@);
    let mut i: usize = raw.len();
    while i > 0
        invariant
            i <= raw@.len(),
            fork_span(raw@, n@) == fork_span(raw@.take(i as int), n@),
        decreases i,
    {
        assert(raw@.take(i as int).drop_last() =~= raw@.take(i - 1));
        match &raw[i - 1] {
            ActionStep::Fork { name: Some(x), span, .. } => {
                if str_eq(x.as_str(), n) {
                    return *span;
                }
            },
            _ => {},
        }
        i = i - 1;
    }
    Span::empty()
}

/// The span of the last join declared as `n`.
fn join_span_exec(raw: &Vec<ActionStep>, n: &str) -> (r: Span)
    ensures
        r == join_span(raw@, n@),
{
    assert(raw@.take(raw@.len() as int) =~= raw@);
    let mut i: usize = raw.len();
    while i > 0
        invariant
            i <= raw@.len(),
            join_span(raw@, n@) == join_span(raw@.take(i as int), n@),
        decreases i,
    {
        assert(raw@.take(i as int).drop_last() =~= raw@.take(i - 1));
        match &raw[i - 1] {
            ActionStep::Join { name: Some(x), span } => {
                if str_eq(x.as_str(), n) {
                    return *span;
                }
            },
            _ => {},
        }
        i = i - 1;
    }
    Span::empty()
}

/// The span of the first action usage `n`.
fn action_span_exec(raw: &Vec<ActionStep>, n: &str) -> (r: Span)
    ensures
        r == action_span(raw@, n@),
{
    let special = str_eq(n, "start") || str_eq(n, "done");
    assert(raw@.skip(0) =~= raw@);
    let mut i: usize = 0;
    while i < raw.len()
        invariant
            i <= raw@.len(),
            special == (n@ == "start"@ || n@ == "done"@),
            action_span(raw@, n@) == action_span(raw@.skip(i as int), n@),
        decreases raw@.len() - i,
    {
        assert(raw@.skip(i as int)[0] == raw@[i as int]);
        assert(raw@.skip(i as int).drop_first() =~= raw@.skip(i + 1));
        match &raw[i] {
            ActionStep::Perform { name, span } => {
                if !special && str_eq(name.as_str(), n) {
                    return *span;
                }
            },
            _ => {},
        }
        i = i + 1;
    }
    Span::empty()
}

/// The source a loose `then` step starting at byte `start` continues.
fn loose_source_exec(raw: &Vec<ActionStep>, start: usize) -> (r: Option<String>)
    ensures
        opt_name(r) == loose_source(raw@, start),
{
    assert(raw@.take(raw@.len() as int) =~= raw@);
    let mut i: usize = raw.len();
    while i > 0
        invariant
            i <= raw@.len(),
            loose_source(raw@, start) == loose_source(raw@.take(i as int), start),
        decreases i,
    {
        assert(raw@.take(i as int).drop_last() =~= raw@.take(i - 1));
        match &raw[i - 1] {
            ActionStep::Sequence { steps, .. } => {
                if steps.len() == 2 {
                    match &steps[0] {
                        ActionStep::Perform { name: a, span } => {
                            if span.end_byte < start {
                                return match &steps[1] {
                                    ActionStep::Perform { name: b, .. } => Some(own(b.as_str())),
                                    _ => Some(own(a.as_str())),
                                };
                            }
                        },
                        _ => {},
                    }
                }
            },
            _ => {},
        }
        i = i - 1;
    }
    None
}

/// Where source `k` stands in an adjacency list.
fn key_index_exec(adj: &Vec<(String, Vec<String>)>, k: &str) -> (r: Option<usize>)
    ensures
        match r {
            Some(j) => key_index(adj_view(adj@), k@) == Some(j as int) && j < adj@.len(),
            None => key_index(adj_view(adj@), k@) is None,
        },
{
    let ghost av = adj_view(adj@);
    assert(av.skip(0) =~= av);
    let mut i: usize = 0;
    while i < adj.len()
        invariant
            i <= adj@.len(),
            av == adj_view(adj@),
            key_index(av, k@) == match key_index(av.skip(i as int), k@) {
                Some(j) => Some(j + i),
                None => None::<int>,
            },
        decreases adj@.len() - i,
    {
        assert(av.skip(i as int)[0] == av[i as int]);
        assert(av.skip(i as int).drop_first() =~= av.skip(i + 1));
        if str_eq(adj[i].0.as_str(), k) {
            return Some(i);
        }
        i = i + 1;
    }
    assert(av.skip(i as int) =~= Seq::<(Seq<char>, Seq<Seq<char>>)>::empty());
    None
}

/// Add the edge `a -> b`.
fn add_edge_exec(adj: &mut Vec<(String, Vec<String>)>, a: &str, b: &str)
    ensures
        adj_view(final(adj)@) == add_edge(adj_view(old(adj)@), a@, b@),
{
    let ghost av = adj_view(adj@);
    proof {
        lemma_key_index(av, a@);
    }
    match key_index_exec(adj, a) {
        Some(j) => {
            let mut entry = adj.remove(j);
            let ghost t0 = entry.1.deep_view();
            entry.1.push(own(b));
            assert(entry.1.deep_view() =~= t0.push(b@));
            adj.insert(j, entry);
            assert(adj_view(adj@) =~= av.update(j as int, (a@, av[j as int].1.push(b@))));
        },
        None => {
            let t = vec![own(b)];
            assert(t.deep_view() =~= seq![b@]);
            adj.push((own(a), t));
            assert(adj_view(adj@) =~= av.push((a@, seq![b@])));
        },
    }
}

/// The succession graph of a body.
fn scan_exec(raw: &Vec<ActionStep>) -> (adj: Vec<(String, Vec<String>)>)
    ensures
        adj_view(adj@) == scan(raw@, raw@.len()).adj,
{
    let mut adj: Vec<(String, Vec<String>)> = Vec::new();
    let mut region = false;
    assert(adj_view(adj@) =~= Seq::<(Seq<char>, Seq<Seq<char>>)>::empty());
    let mut i: usize = 0;
    while i < raw.len()
        invariant
            i <= raw@.len(),
            adj_view(adj@) == scan(raw@, i as nat).adj,
            region == scan(raw@, i as nat).region,
        decreases raw@.len() - i,
    {
        match &raw[i] {
            ActionStep::Sequence { steps, .. } => {
                if steps.len() == 2 {
                    match &steps[0] {
                        ActionStep::Perform { name: a, .. } => match &steps[1] {
                            ActionStep::Perform { name: b, .. } => {
                                add_edge_exec(&mut adj, a.as_str(), b.as_str());
                                region = true;
                            },
                            _ => {},
                        },
                        _ => {},
                    }
                } else {
                    region = false;
                }
            },
            ActionStep::Perform { name, span } => {
                if region {
                    match loose_source_exec(raw, span.start_byte) {
                        Some(src) => {
                            add_edge_exec(&mut adj, src.as_str(), name.as_str());
                        },
                        None => {},
                    }
                }
            },
            ActionStep::Fork { .. } => {},
            ActionStep::Join { .. } => {},
            _ => {
                region = false;
            },
        }
        i = i + 1;
    }
    adj
}

/// Every name of an adjacency list.
fn names_exec(adj: &Vec<(String, Vec<String>)>) -> (r: Vec<String>)
    ensures
        r.deep_view() == names_of(adj_view(adj@)),
{
    let ghost av = adj_view(adj@);
    let mut r: Vec<String> = Vec::new();
    assert(av.take(0) =~= Seq::<(Seq<char>, Seq<Seq<char>>)>::empty());
    assert(r.deep_view() =~= Seq::<Seq<char>>::empty());
    let mut i: usize = 0;
    while i < adj.len()
        invariant
            i <= adj@.len(),
            av == adj_view(adj@),
            r.deep_view() == names_of(av.take(i as int)),
        decreases adj@.len() - i,
    {
        let ghost r0 = r.deep_view();
        r.push(own(adj[i].0.as_str()));
        assert(r.deep_view() =~= r0.push(adj@[i as int].0@));
        let ts = &adj[i].1;
        assert(av[i as int] == (adj@[i as int].0@, ts.deep_view()));
        assert(r.deep_view() =~= r0 + seq![av[i as int].0] + ts.deep_view().take(0));
        let mut j: usize = 0;
        while j < ts.len()
            invariant
                j <= ts@.len(),
                i < adj@.len(),
                av == adj_view(adj@),
                av[i as int] == (adj@[i as int].0@, ts.deep_view()),
                r.deep_view() == r0 + seq![av[i as int].0] + ts.deep_view().take(j as int),
            decreases ts@.len() - j,
        {
            let ghost rs = r.deep_view();
            r.push(own(ts[j].as_str()));
            assert(r.deep_view() =~= rs.push(ts@[j as int]@));
            assert(r.deep_view() =~= r0 + seq![av[i as int].0] + ts.deep_view().take(j + 1));
            j = j + 1;
        }
        assert(ts.deep_view().take(j as int) =~= ts.deep_view());
        assert(av.take(i + 1).drop_last() =~= av.take(i as int));
        i = i + 1;
    }
    assert(av.take(i as int) =~= av);
    r
}

/// The targets of `k`.
fn targets_exec(adj: &Vec<(String, Vec<String>)>, k: &str) -> (r: Vec<String>)
    ensures
        r.deep_view() == targets_of(adj_view(adj@), k@),
{
    match key_index_exec(adj, k) {
        Some(j) => copy_names(&adj[j].1),
        None => {
            let r: Vec<String> = Vec::new();
            assert(r.deep_view() =~= Seq::<Seq<char>>::empty());
            r
        },
    }
}

/// Whether some target is `k`.
fn has_incoming_exec(adj: &Vec<(String, Vec<String>)>, k: &str) -> (r: bool)
    ensures
        r == has_incoming(adj_view(adj@), k@),
{
    let ghost av = adj_view(adj@);
    let mut i: usize = 0;
    while i < adj.len()
        invariant
            i <= adj@.len(),
            av == adj_view(adj@),
            forall|j: int| 0 <= j < i ==> !(#[trigger] av[j]).1.contains(k@),
        decreases adj@.len() - i,
    {
        if has_name(&adj[i].1, k) {
            assert(av[i as int].1.contains(k@));
            return true;
        }
        i = i + 1;
    }
    false
}

/// The sources nothing leads to, in order.
fn roots_exec(adj: &Vec<(String, Vec<String>)>) -> (r: Vec<String>)
    ensures
        r.deep_view() == roots_from(adj_view(adj@), 0),
{
    let ghost av = adj_view(adj@);
    let mut i: usize = adj.len();
    let mut r: Vec<String> = Vec::new();
    assert(r.deep_view() =~= roots_from(av, i as nat));
    while i > 0
        invariant
            i <= adj@.len(),
            av == adj_view(adj@),
            r.deep_view() == roots_from(av, i as nat),
        decreases i,
    {
        i = i - 1;
        if !has_incoming_exec(adj, adj[i].0.as_str()) {
            let ghost r0 = r.deep_view();
            r.insert(0, own(adj[i].0.as_str()));
            assert(r.deep_view() =~= seq![av[i as int].0] + r0);
        } else {
            assert(r.deep_view() =~= Seq::<Seq<char>>::empty() + r.deep_view());
        }
    }
    r
}

/// A list of steps has as many views as steps.
pub proof fn lemma_flow_views_len(a: Seq<ActionStep>)
    ensures
        flow_views(a).len() == a.len(),
    decreases a.len(),
{
    if a.len() > 0 {
        lemma_flow_views_len(a.drop_first());
    }
}

/// Whether a step stays outside the succession graph.
fn is_other_exec(x: &ActionStep) -> (r: bool)
    ensures
        r == is_other(*x),
{
    match x {
        ActionStep::Sequence { steps, .. } => steps.len() != 2,
        ActionStep::Perform { .. } => false,
        ActionStep::Fork { .. } => false,
        ActionStep::Join { .. } => false,
        _ => true,
    }
}

/// Follow first targets from `cur` until a join.
fn trace_join_exec(
    raw: &Vec<ActionStep>,
    adj: &Vec<(String, Vec<String>)>,
    names: &Vec<String>,
    cur: &str,
    seen: &mut Vec<String>,
) -> (r: Option<String>)
    requires
        names.deep_view() == names_of(adj_view(adj@)),
    ensures
        opt_name(r) == trace_join(raw@, adj_view(adj@), cur@, old(seen).deep_view()),
    decreases unvisited(names_of(adj_view(adj@)), old(seen).deep_view()),
{
    if has_name(seen, cur) {
        return None;
    }
    match kind_exec(raw, cur) {
        NameKind::Join => {
            return Some(own(cur));
        },
        _ => {},
    }
    if !has_name(names, cur) {
        return None;
    }
    let ts = targets_exec(adj, cur);
    if ts.len() == 0 {
        return None;
    }
    let ghost s0 = seen.deep_view();
    seen.push(own(cur));
    proof {
        assert(seen.deep_view() =~= s0.push(cur@));
        lemma_grow(s0, seq![], cur@);
        lemma_unvisited(names_of(adj_view(adj@)), s0, s0.push(cur@), cur@);
        assert(ts.deep_view()[0] == ts@[0]@);
    }
    trace_join_exec(raw, adj, names, ts[0].as_str(), seen)
}

/// The join a fork's branches meet at.
fn matching_join_exec(
    raw: &Vec<ActionStep>,
    adj: &Vec<(String, Vec<String>)>,
    names: &Vec<String>,
    ts: &Vec<String>,
    i: usize,
) -> (r: Option<String>)
    requires
        names.deep_view() == names_of(adj_view(adj@)),
    ensures
        opt_name(r) == matching_join(raw@, adj_view(adj@), ts.deep_view(), i as nat),
    decreases ts@.len() - i,
{
    if i >= ts.len() {
        return None;
    }
    let mut seen: Vec<String> = Vec::new();
    assert(seen.deep_view() =~= Seq::<Seq<char>>::empty());
    assert(ts.deep_view()[i as int] == ts@[i as int]@);
    match trace_join_exec(raw, adj, names, ts[i].as_str(), &mut seen) {
        Some(j) => Some(j),
        None => matching_join_exec(raw, adj, names, ts, i + 1),
    }
}

/// Walk the graph from `node`.
fn walk_exec(
    raw: &Vec<ActionStep>,
    adj: &Vec<(String, Vec<String>)>,
    names: &Vec<String>,
    node: &str,
    vis: &mut Vec<String>,
) -> (r: Vec<ActionStep>)
    requires
        names.deep_view() == names_of(adj_view(adj@)),
    ensures
        flow_views(r@) == walk(raw@, adj_view(adj@), node@, old(vis).deep_view()).0,
        final(vis).deep_view() == old(vis).deep_view() + walk(raw@, adj_view(adj@), node@, old(vis).deep_view()).1,
    decreases unvisited(names_of(adj_view(adj@)), old(vis).deep_view()), 1int, 0int,
{
    let ghost av = adj_view(adj@);
    let ghost v0 = vis.deep_view();
    let ghost w = walk(raw@, av, node@, v0);
    if has_name(vis, node) || str_eq(node, "done") {
        assert(v0 + Seq::<Seq<char>>::empty() =~= v0);
        let r: Vec<ActionStep> = Vec::new();
        assert(flow_views(r@) =~= Seq::<FlowView>::empty());
        return r;
    }
    let kind = kind_exec(raw, node);
    if !has_name(names, node) {
        let one = match kind {
            NameKind::Fork => {
                let b: Vec<ActionStep> = Vec::new();
                assert(flow_views(b@) =~= Seq::<FlowView>::empty());
                ActionStep::Fork { name: Some(own(node)), branches: b, span: fork_span_exec(raw, node) }
            },
            NameKind::Join => ActionStep::Join { name: Some(own(node)), span: join_span_exec(raw, node) },
            NameKind::Action => ActionStep::Perform { name: own(node), span: action_span_exec(raw, node) },
        };
        assert(flow_view(one) == lone_node(raw@, node@));
        vis.push(own(node));
        assert(vis.deep_view() =~= v0 + seq![node@]);
        let mut r: Vec<ActionStep> = Vec::new();
        r.push(one);
        proof {
            assert(r@ =~= seq![one]);
            lemma_flow_views_one(one);
        }
        return r;
    }
    vis.push(own(node));
    let ghost v1 = vis.deep_view();
    proof {
        assert(v1 =~= v0.push(node@));
        lemma_grow(v0, seq![], node@);
        lemma_unvisited(names_of(av), v0, v1, node@);
    }
    let ts = targets_exec(adj, node);
    match kind {
        NameKind::Fork => {
            let span = fork_span_exec(raw, node);
            let jn = matching_join_exec(raw, adj, names, &ts, 0);
            let ghost wf = walk_forks(raw@, av, ts.deep_view(), 0, v1, opt_name(jn), span);
            let branches = walk_forks_exec(raw, adj, names, &ts, 0, vis, &jn, span);
            let ghost v2 = vis.deep_view();
            proof {
                lemma_grow(v1, wf.1, node@);
                lemma_unvisited(names_of(av), v1, v2, node@);
            }
            let fork = ActionStep::Fork { name: Some(own(node)), branches, span };
            let ghost fv = flow_view(fork);
            let mut out: Vec<ActionStep> = Vec::new();
            out.push(fork);
            proof {
                assert(out@ =~= seq![fork]);
                lemma_flow_views_one(fork);
            }
            match jn {
                Some(j) => {
                    if !has_name(vis, j.as_str()) {
                        vis.push(own(j.as_str()));
                        let ghost v3 = vis.deep_view();
                        proof {
                            assert(v3 =~= v2.push(j@));
                            lemma_grow(v2, seq![], j@);
                            lemma_unvisited(names_of(av), v2, v3, j@);
                        }
                        let jn_step = ActionStep::Join { name: Some(own(j.as_str())), span: join_span_exec(raw, j.as_str()) };
                        let ghost o1 = out@;
                        out.push(jn_step);
                        proof {
                            assert(out@ =~= o1 + seq![jn_step]);
                            lemma_flow_views_one(jn_step);
                            lemma_flow_views_add(o1, seq![jn_step]);
                        }
                        let jts = targets_exec(adj, j.as_str());
                        let mut after = walk_all_exec(raw, adj, names, &jts, 0, vis);
                        let ghost o2 = out@;
                        proof {
                            lemma_flow_views_add(o2, after@);
                        }
                        out.append(&mut after);
                        proof {
                            let wa = walk_all(raw@, av, jts.deep_view(), 0, v3);
                            assert(flow_views(out@) =~= seq![fv, FlowView::Join { name: Some(j@), span: join_span(raw@, j@) }] + wa.0);
                            assert(vis.deep_view() =~= v0 + (seq![node@] + wf.1 + seq![j@] + wa.1));
                        }
                    } else {
                        assert(vis.deep_view() =~= v0 + (seq![node@] + wf.1));
                    }
                },
                None => {
                    assert(vis.deep_view() =~= v0 + (seq![node@] + wf.1));
                },
            }
            out
        },
        NameKind::Join => {
            let first = ActionStep::Join { name: Some(own(node)), span: join_span_exec(raw, node) };
            let mut rest = walk_all_exec(raw, adj, names, &ts, 0, vis);
            let mut out: Vec<ActionStep> = Vec::new();
            out.push(first);
            proof {
                assert(out@ =~= seq![first]);
                lemma_flow_views_one(first);
                lemma_flow_views_add(out@, rest@);
            }
            let ghost wa = walk_all(raw@, av, ts.deep_view(), 0, v1);
            out.append(&mut rest);
            assert(vis.deep_view() =~= v0 + (seq![node@] + wa.1));
            out
        },
        NameKind::Action => {
            let first = ActionStep::Perform { name: own(node), span: action_span_exec(raw, node) };
            let mut rest = walk_all_exec(raw, adj, names, &ts, 0, vis);
            let mut out: Vec<ActionStep> = Vec::new();
            out.push(first);
            proof {
                assert(out@ =~= seq![first]);
                lemma_flow_views_one(first);
                lemma_flow_views_add(out@, rest@);
            }
            let ghost wa = walk_all(raw@, av, ts.deep_view(), 0, v1);
            out.append(&mut rest);
            assert(vis.deep_view() =~= v0 + (seq![node@] + wa.1));
            out
        },
    }
}

/// Walk from each of `ts[i..]` in turn.
fn walk_all_exec(
    raw: &Vec<ActionStep>,
    adj: &Vec<(String, Vec<String>)>,
    names: &Vec<String>,
    ts: &Vec<String>,
    i: usize,
    vis: &mut Vec<String>,
) -> (r: Vec<ActionStep>)
    requires
        names.deep_view() == names_of(adj_view(adj@)),
    ensures
        flow_views(r@) == walk_all(raw@, adj_view(adj@), ts.deep_view(), i as nat, old(vis).deep_view()).0,
        final(vis).deep_view() == old(vis).deep_view() + walk_all(raw@, adj_view(adj@), ts.deep_view(), i as nat, old(vis).deep_view()).1,
    decreases unvisited(names_of(adj_view(adj@)), old(vis).deep_view()), 3int, ts@.len() - i,
{
    let ghost av = adj_view(adj@);
    let ghost v0 = vis.deep_view();
    if i >= ts.len() {
        assert(v0 + Seq::<Seq<char>>::empty() =~= v0);
        let r: Vec<ActionStep> = Vec::new();
        assert(flow_views(r@) =~= Seq::<FlowView>::empty());
        return r;
    }
    assert(ts.deep_view()[i as int] == ts@[i as int]@);
    let ghost wa = walk(raw@, av, ts.deep_view()[i as int], v0);
    let mut a = walk_exec(raw, adj, names, ts[i].as_str(), vis);
    let ghost v1 = vis.deep_view();
    proof {
        lemma_grow(v0, wa.1, ts.deep_view()[i as int]);
        lemma_unvisited(names_of(av), v0, v1, ts.deep_view()[i as int]);
    }
    let ghost wr = walk_all(raw@, av, ts.deep_view(), (i + 1) as nat, v1);
    let mut r = walk_all_exec(raw, adj, names, ts, i + 1, vis);
    proof {
        lemma_flow_views_add(a@, r@);
    }
    a.append(&mut r);
    assert(vis.deep_view() =~= v0 + (wa.1 + wr.1));
    a
}

/// Walk one fork branch from `node`.
fn walk_branch_exec(
    raw: &Vec<ActionStep>,
    adj: &Vec<(String, Vec<String>)>,
    names: &Vec<String>,
    node: &str,
    vis: &mut Vec<String>,
    stop: &Option<String>,
) -> (r: Vec<ActionStep>)
    requires
        names.deep_view() == names_of(adj_view(adj@)),
    ensures
        flow_views(r@) == walk_branch(raw@, adj_view(adj@), node@, old(vis).deep_view(), opt_name(*stop)).0,
        final(vis).deep_view() == old(vis).deep_view() + walk_branch(raw@, adj_view(adj@), node@, old(vis).deep_view(), opt_name(*stop)).1,
    decreases unvisited(names_of(adj_view(adj@)), old(vis).deep_view()), 2int, 0int,
{
    let ghost av = adj_view(adj@);
    let ghost v0 = vis.deep_view();
    let is_stop = match stop {
        Some(x) => str_eq(x.as_str(), node),
        None => false,
    };
    if has_name(vis, node) || str_eq(node, "done") || is_stop {
        assert(v0 + Seq::<Seq<char>>::empty() =~= v0);
        let r: Vec<ActionStep> = Vec::new();
        assert(flow_views(r@) =~= Seq::<FlowView>::empty());
        return r;
    }
    match kind_exec(raw, node) {
        NameKind::Fork => {
            return walk_exec(raw, adj, names, node, vis);
        },
        NameKind::Join => {
            assert(v0 + Seq::<Seq<char>>::empty() =~= v0);
            let r: Vec<ActionStep> = Vec::new();
            assert(flow_views(r@) =~= Seq::<FlowView>::empty());
            return r;
        },
        NameKind::Action => {},
    }
    let first = ActionStep::Perform { name: own(node), span: action_span_exec(raw, node) };
    let mut out: Vec<ActionStep> = Vec::new();
    out.push(first);
    proof {
        assert(out@ =~= seq![first]);
        lemma_flow_views_one(first);
    }
    vis.push(own(node));
    let ghost v1 = vis.deep_view();
    assert(v1 =~= v0.push(node@));
    if !has_name(names, node) {
        assert(v1 =~= v0 + seq![node@]);
        return out;
    }
    proof {
        lemma_grow(v0, seq![], node@);
        lemma_unvisited(names_of(av), v0, v1, node@);
    }
    let ts = targets_exec(adj, node);
    let ghost wr = walk_branches(raw@, av, ts.deep_view(), 0, v1, opt_name(*stop));
    let mut rest = walk_branches_exec(raw, adj, names, &ts, 0, vis, stop);
    proof {
        lemma_flow_views_add(out@, rest@);
    }
    out.append(&mut rest);
    assert(vis.deep_view() =~= v0 + (seq![node@] + wr.1));
    out
}

/// Continue a branch from each of `ts[i..]` in turn.
fn walk_branches_exec(
    raw: &Vec<ActionStep>,
    adj: &Vec<(String, Vec<String>)>,
    names: &Vec<String>,
    ts: &Vec<String>,
    i: usize,
    vis: &mut Vec<String>,
    stop: &Option<String>,
) -> (r: Vec<ActionStep>)
    requires
        names.deep_view() == names_of(adj_view(adj@)),
    ensures
        flow_views(r@) == walk_branches(raw@, adj_view(adj@), ts.deep_view(), i as nat, old(vis).deep_view(), opt_name(*stop)).0,
        final(vis).deep_view() == old(vis).deep_view() + walk_branches(raw@, adj_view(adj@), ts.deep_view(), i as nat, old(vis).deep_view(), opt_name(*stop)).1,
    decreases unvisited(names_of(adj_view(adj@)), old(vis).deep_view()), 3int, ts@.len() - i,
{
    let ghost av = adj_view(adj@);
    let ghost v0 = vis.deep_view();
    if i >= ts.len() {
        assert(v0 + Seq::<Seq<char>>::empty() =~= v0);
        let r: Vec<ActionStep> = Vec::new();
        assert(flow_views(r@) =~= Seq::<FlowView>::empty());
        return r;
    }
    assert(ts.deep_view()[i as int] == ts@[i as int]@);
    let ghost wa = walk_branch(raw@, av, ts.deep_view()[i as int], v0, opt_name(*stop));
    let mut a = walk_branch_exec(raw, adj, names, ts[i].as_str(), vis, stop);
    let ghost v1 = vis.deep_view();
    proof {
        lemma_grow(v0, wa.1, ts.deep_view()[i as int]);
        lemma_unvisited(names_of(av), v0, v1, ts.deep_view()[i as int]);
    }
    let ghost wr = walk_branches(raw@, av, ts.deep_view(), (i + 1) as nat, v1, opt_name(*stop));
    let mut r = walk_branches_exec(raw, adj, names, ts, i + 1, vis, stop);
    proof {
        lemma_flow_views_add(a@, r@);
    }
    a.append(&mut r);
    assert(vis.deep_view() =~= v0 + (wa.1 + wr.1));
    a
}

/// The branches of a fork from `ts[i..]`.
fn walk_forks_exec(
    raw: &Vec<ActionStep>,
    adj: &Vec<(String, Vec<String>)>,
    names: &Vec<String>,
    ts: &Vec<String>,
    i: usize,
    vis: &mut Vec<String>,
    stop: &Option<String>,
    span: Span,
) -> (r: Vec<ActionStep>)
    requires
        names.deep_view() == names_of(adj_view(adj@)),
    ensures
        flow_views(r@) == walk_forks(raw@, adj_view(adj@), ts.deep_view(), i as nat, old(vis).deep_view(), opt_name(*stop), span).0,
        final(vis).deep_view() == old(vis).deep_view() + walk_forks(raw@, adj_view(adj@), ts.deep_view(), i as nat, old(vis).deep_view(), opt_name(*stop), span).1,
    decreases unvisited(names_of(adj_view(adj@)), old(vis).deep_view()), 3int, ts@.len() - i,
{
    let ghost av = adj_view(adj@);
    let ghost v0 = vis.deep_view();
    if i >= ts.len() {
        assert(v0 + Seq::<Seq<char>>::empty() =~= v0);
        let r: Vec<ActionStep> = Vec::new();
        assert(flow_views(r@) =~= Seq::<FlowView>::empty());
        return r;
    }
    assert(ts.deep_view()[i as int] == ts@[i as int]@);
    let ghost wa = walk_branch(raw@, av, ts.deep_view()[i as int], v0, opt_name(*stop));
    let a = walk_branch_exec(raw, adj, names, ts[i].as_str(), vis, stop);
    let ghost v1 = vis.deep_view();
    proof {
        lemma_grow(v0, wa.1, ts.deep_view()[i as int]);
        lemma_unvisited(names_of(av), v0, v1, ts.deep_view()[i as int]);
        lemma_flow_views_len(a@);
    }
    let mut here: Vec<ActionStep> = if a.len() == 1 {
        a
    } else if a.len() > 0 {
        let sq = ActionStep::Sequence { steps: a, span };
        proof {
            lemma_flow_views_one(sq);
        }
        let mut h: Vec<ActionStep> = Vec::new();
        h.push(sq);
        assert(h@ =~= seq![sq]);
        h
    } else {
        let h: Vec<ActionStep> = Vec::new();
        assert(flow_views(h@) =~= Seq::<FlowView>::empty());
        h
    };
    assert(flow_views(here@) == branch_step(wa.0, span));
    let ghost wr = walk_forks(raw@, av, ts.deep_view(), (i + 1) as nat, v1, opt_name(*stop), span);
    let mut r = walk_forks_exec(raw, adj, names, ts, i + 1, vis, stop, span);
    proof {
        lemma_flow_views_add(here@, r@);
    }
    here.append(&mut r);
    assert(vis.deep_view() =~= v0 + (wa.1 + wr.1));
    here
}

/// Rebuild the nested flow of an action body from its flat steps: the
/// steps come back unchanged when there is no succession or the walk of
/// the succession graph yields nothing; otherwise the walk, followed by the
/// steps that are not part of the graph.
pub fn build_flow_graph(raw_steps: Vec<ActionStep>) -> (r: Vec<ActionStep>)
    ensures
        flow_views(r@) == flow_graph(raw_steps@),
{
    let ghost raw0 = raw_steps@;
    let mut has_seq = false;
    let mut k: usize = 0;
    while k < raw_steps.len()
        invariant
            k <= raw0.len(),
            raw0 == raw_steps@,
            has_seq == exists|j: int| 0 <= j < k && (#[trigger] raw0[j]) is Sequence,
        decreases raw0.len() - k,
    {
        match &raw_steps[k] {
            ActionStep::Sequence { .. } => {
                has_seq = true;
            },
            _ => {},
        }
        k = k + 1;
    }
    if !has_seq {
        return raw_steps;
    }
    let adj = scan_exec(&raw_steps);
    let names = names_exec(&adj);
    let mut vis: Vec<String> = Vec::new();
    assert(vis.deep_view() =~= Seq::<Seq<char>>::empty());
    let ghost av = adj_view(adj@);
    let walk_out: Vec<ActionStep> = if key_index_exec(&adj, "start").is_some() {
        walk_exec(&raw_steps, &adj, &names, "start", &mut vis)
    } else {
        let roots = roots_exec(&adj);
        if roots.len() > 0 {
            walk_all_exec(&raw_steps, &adj, &names, &roots, 0, &mut vis)
        } else if adj.len() > 0 {
            proof {
                assert(av[0].0 == adj@[0].0@);
            }
            walk_exec(&raw_steps, &adj, &names, adj[0].0.as_str(), &mut vis)
        } else {
            let w: Vec<ActionStep> = Vec::new();
            assert(flow_views(w@) =~= Seq::<FlowView>::empty());
            w
        }
    };
    assert(flow_views(walk_out@) == walked(raw0, av));
    proof {
        lemma_flow_views_len(walk_out@);
    }
    if walk_out.len() == 0 {
        return raw_steps;
    }
    let mut raw = raw_steps;
    let total = raw.len();
    let mut others: Vec<ActionStep> = Vec::new();
    let mut i: usize = 0;
    assert(raw0.skip(0) =~= raw0);
    assert(raw0.take(0) =~= Seq::<ActionStep>::empty());
    while raw.len() > 0
        invariant
            i <= raw0.len(),
            raw0.len() == total,
            raw@ == raw0.skip(i as int),
            others@ == others_of(raw0.take(i as int)),
        decreases raw@.len(),
    {
        let x = raw.remove(0);
        assert(x == raw0[i as int]);
        assert(raw0.take(i + 1).drop_last() =~= raw0.take(i as int));
        assert(raw@ =~= raw0.skip(i + 1));
        if is_other_exec(&x) {
            others.push(x);
        }
        i = i + 1;
    }
    assert(raw0.take(i as int) =~= raw0);
    let mut out = walk_out;
    proof {
        lemma_flow_views_add(out@, others@);
    }
    out.append(&mut others);
    out
}

} // verus!
