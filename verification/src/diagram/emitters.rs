//! Diagram emitters: render a [`DiagramGraph`] as Mermaid, PlantUML,
//! Graphviz DOT or D2 text.
//!
//! Node kinds that a format has no dedicated shape for are drawn as plain
//! boxes (`box` in DOT, `rectangle` in D2).
use vstd::prelude::*;
use crate::text::ascii_lower;
use crate::text::all_ascii;
use crate::diagram::graph::{
    dedge_views, dnode_views, string_views, subgraph_view, DEdgeView, DNodeView, DiagramEdge,
    DiagramGraph, DiagramKind, DiagramNode, EdgeKind, GridViewFlavor, LayoutDirection, NodeKind,
    Subgraph, SubgraphView,
};
use crate::model::{collect, lemma_collect_take};
use crate::qualified_name::{join_with, lemma_join_step};
use crate::text::{decimal, lowercase_of, own, push_char, push_str, str_eq, to_lowercase, usize_to_decimal};

verus! {

/// Output format for diagram rendering.
#[derive(Debug, Clone, Copy, PartialEq, Eq, Structural)]
pub enum DiagramFormat {
    Mermaid,
    PlantUml,
    Dot,
    D2,
}

/// The format named by a lower-cased name.
pub open spec fn format_named(s: Seq<char>) -> Option<DiagramFormat> {
    if s == "mermaid"@ || s == "mmd"@ {
        Some(DiagramFormat::Mermaid)
    } else if s == "plantuml"@ || s == "puml"@ {
        Some(DiagramFormat::PlantUml)
    } else if s == "dot"@ || s == "graphviz"@ {
        Some(DiagramFormat::Dot)
    } else if s == "d2"@ || s == "terrastruct"@ {
        Some(DiagramFormat::D2)
    } else {
        None
    }
}

impl DiagramFormat {
    /// The format named by `s`, case-insensitively (`mermaid`/`mmd`,
    /// `plantuml`/`puml`, `dot`/`graphviz`, `d2`/`terrastruct`).
    pub fn from_str(s: &str) -> (r: Option<Self>)
        ensures
            r == format_named(lowercase_of(s@)),
            all_ascii(s@) ==> r == format_named(Seq::new(s@.len(), |i: int| ascii_lower(s@[i]))),
    {
        let lowered = to_lowercase(s);
        let l = lowered.as_str();
        if str_eq(l, "mermaid") || str_eq(l, "mmd") {
            Some(DiagramFormat::Mermaid)
        } else if str_eq(l, "plantuml") || str_eq(l, "puml") {
            Some(DiagramFormat::PlantUml)
        } else if str_eq(l, "dot") || str_eq(l, "graphviz") {
            Some(DiagramFormat::Dot)
        } else if str_eq(l, "d2") || str_eq(l, "terrastruct") {
            Some(DiagramFormat::D2)
        } else {
            None
        }
    }
}

/// `s` with every `"` written as `\"`.
pub open spec fn escape_quotes(s: Seq<char>) -> Seq<char>
    decreases s.len(),
{
    if s.len() == 0 {
        seq![]
    } else {
        escape_quotes(s.drop_last()) + (if s.last() == '"' {
            seq!['\\', '"']
        } else {
            seq![s.last()]
        })
    }
}

/// Appends `t` with every `"` written as `\"`.
fn push_escaped(out: &mut String, t: &str)
    ensures
        final(out)@ == old(out)@ + escape_quotes(t@),
{
    let ghost cs = t@;
    for c in it: t.chars()
        invariant
            cs == t@,
            cs == it.seq(),
            out@ == old(out)@ + escape_quotes(cs.take(it.index() as int)),
    {
        let ghost k = it.index() as int;
        assert(cs.take(k + 1).drop_last() =~= cs.take(k));
        assert(cs[k] == c);
        let ghost pre = out@;
        if c == '"' {
            push_char(out, '\\');
            push_char(out, '"');
        } else {
            push_char(out, c);
        }
        assert(out@ =~= old(out)@ + escape_quotes(cs.take(k + 1)));
    }
    assert(cs.take(cs.len() as int) =~= cs);
}

/// The text of the subgraph members: every member id of every subgraph.
pub open spec fn member_ids(sgs: Seq<Subgraph>) -> Seq<Seq<char>> {
    collect(sgs, |sg: Subgraph| string_views(sg.node_ids@))
}

/// Every member id of every subgraph, as slices.
fn member_ids_of(sgs: &Vec<Subgraph>) -> (r: Vec<&str>)
    ensures
        r.deep_view() == member_ids(sgs@),
{
    let ghost f = |sg: Subgraph| string_views(sg.node_ids@);
    let mut r: Vec<&str> = Vec::new();
    let mut i: usize = 0;
    while i < sgs.len()
        invariant
            i <= sgs@.len(),
            forall|x: Subgraph| #[trigger] f(x) == string_views(x.node_ids@),
            r.deep_view() == collect(sgs@.take(i as int), f),
        decreases sgs@.len() - i,
    {
        proof {
            lemma_collect_take(sgs@, f, i as int);
        }
        let ghost pre = r.deep_view();
        let sg = &sgs[i];
        let mut j: usize = 0;
        while j < sg.node_ids.len()
            invariant
                j <= sg.node_ids@.len(),
                r.deep_view() == pre + string_views(sg.node_ids@).take(j as int),
            decreases sg.node_ids@.len() - j,
        {
            let ghost before = r.deep_view();
            r.push(sg.node_ids[j].as_str());
            assert(r.deep_view() =~= before.push(sg.node_ids@[j as int]@));
            assert(string_views(sg.node_ids@).take(j + 1) =~= string_views(sg.node_ids@).take(
                j as int,
            ).push(sg.node_ids@[j as int]@));
            j = j + 1;
        }
        assert(string_views(sg.node_ids@).take(sg.node_ids@.len() as int) =~= string_views(
            sg.node_ids@,
        ));
        i = i + 1;
    }
    assert(sgs@.take(sgs@.len() as int) =~= sgs@);
    proof {
        assert(f =~= |sg: Subgraph| string_views(sg.node_ids@));
    }
    r
}

/// Whether `x` is among the texts of `v`.
fn listed(v: &Vec<&str>, x: &str) -> (r: bool)
    ensures
        r == v.deep_view().contains(x@),
{
    let b = crate::cache::contains_str(v, x);
    proof {
        if b {
            let k = choose|k: int| 0 <= k < v@.len() && (#[trigger] v@[k])@ == x@;
            assert(v.deep_view()[k] == x@);
        }
        if v.deep_view().contains(x@) {
            let k = choose|k: int| 0 <= k < v.deep_view().len() && v.deep_view()[k] == x@;
            assert(v@[k]@ == x@);
        }
    }
    b
}

// ------------------------------------------------------------------------
// DOT (Graphviz)
// ------------------------------------------------------------------------

/// The Graphviz code of a layout direction.
pub open spec fn dot_dir(d: LayoutDirection) -> Seq<char> {
    match d {
        LayoutDirection::TopBottom => "TB"@,
        LayoutDirection::LeftRight => "LR"@,
        LayoutDirection::BottomTop => "BT"@,
        LayoutDirection::RightLeft => "RL"@,
    }
}

/// The Graphviz shape of a node kind.
pub open spec fn dot_shape(k: NodeKind) -> Seq<char> {
    match k {
        NodeKind::Port => "diamond"@,
        NodeKind::State => "ellipse"@,
        NodeKind::InitialState => "circle"@,
        NodeKind::FinalState => "doublecircle"@,
        NodeKind::Requirement => "note"@,
        NodeKind::Constraint => "parallelogram"@,
        NodeKind::Package => "folder"@,
        NodeKind::Decision => "diamond"@,
        NodeKind::Fork | NodeKind::Join => "rectangle"@,
        NodeKind::Note => "note"@,
        _ => "box"@,
    }
}

/// The extra Graphviz node attributes of a node kind.
pub open spec fn dot_extra(k: NodeKind) -> Seq<char> {
    match k {
        NodeKind::State => ", style=rounded"@,
        NodeKind::InitialState => ", width=0.25, fixedsize=true, style=filled, fillcolor=black, label=\"\""@,
        NodeKind::FinalState => ", width=0.3, fixedsize=true, style=filled, fillcolor=black, label=\"\""@,
        NodeKind::Action => ", style=rounded"@,
        NodeKind::Decision => ", width=0.5, fixedsize=true"@,
        NodeKind::Fork | NodeKind::Join => ", width=1.5, height=0.05, fixedsize=true, style=filled, fillcolor=black, label=\"\""@,
        _ => ""@,
    }
}

/// The node kinds drawn without a label (their extra attributes blank it).
pub open spec fn dot_unlabelled(k: NodeKind) -> bool {
    k == NodeKind::InitialState || k == NodeKind::FinalState || k == NodeKind::Fork || k
        == NodeKind::Join
}

/// The label lines of a node: stereotype, label, then `key: value` per attribute.
pub open spec fn dot_label_parts(n: DNodeView) -> Seq<Seq<char>> {
    (match n.stereotype {
        Some(s) => seq![s],
        None => seq![],
    }) + seq![n.label] + n.attributes.map_values(
        |a: (Seq<char>, Seq<char>)| a.0 + ": "@ + a.1,
    )
}

/// The DOT line of a node.
pub open spec fn dot_node_line(n: DNodeView) -> Seq<char> {
    if dot_unlabelled(n.kind) {
        "    \""@ + n.id + "\" [shape="@ + dot_shape(n.kind) + dot_extra(n.kind) + "];\n"@
    } else {
        "    \""@ + n.id + "\" [label=\""@ + escape_quotes(join_with(dot_label_parts(n), "\\n"@))
            + "\", shape="@ + dot_shape(n.kind) + dot_extra(n.kind) + "];\n"@
    }
}

/// The DOT style of an edge kind.
pub open spec fn dot_edge_style(k: EdgeKind) -> Seq<char> {
    match k {
        EdgeKind::Specialization => "style=solid, arrowhead=empty"@,
        EdgeKind::Composition => "style=solid, arrowhead=diamond"@,
        EdgeKind::Satisfy | EdgeKind::Verify | EdgeKind::Dependency => "style=dashed, arrowhead=open"@,
        _ => "style=solid"@,
    }
}

/// The DOT line of an edge.
pub open spec fn dot_edge_line(e: DEdgeView) -> Seq<char> {
    "    \""@ + e.source + "\" -> \""@ + e.target + "\" ["@ + dot_edge_style(e.kind) + (match e.label {
        Some(l) => ", label=\""@ + escape_quotes(l) + "\""@,
        None => seq![],
    }) + "];\n"@
}

/// The DOT cluster of the `i`-th subgraph.
pub open spec fn dot_cluster(i: nat, sg: SubgraphView) -> Seq<char> {
    "    subgraph cluster_"@ + decimal(i) + " {\n"@ + "        label=\""@ + escape_quotes(sg.1)
        + "\";\n"@ + "        style=dashed;\n"@ + collect(
        sg.2,
        |id: Seq<char>| "        \""@ + id + "\";\n"@,
    ) + "    }\n\n"@
}

/// The DOT clusters of a list of subgraphs.
pub open spec fn dot_clusters(sgs: Seq<Subgraph>) -> Seq<char>
    decreases sgs.len(),
{
    if sgs.len() == 0 {
        seq![]
    } else {
        dot_clusters(sgs.drop_last()) + dot_cluster(
            (sgs.len() - 1) as nat,
            subgraph_view(sgs.last()),
        )
    }
}

/// The DOT text of a graph.
pub open spec fn dot_text(g: DiagramGraph) -> Seq<char> {
    let members = member_ids(g.subgraphs@);
    "digraph \""@ + escape_quotes(g.title@) + "\" {\n"@ + "    rankdir="@ + dot_dir(g.direction)
        + ";\n"@ + "    label=\""@ + escape_quotes(g.title@) + "\";\n"@ + "    fontsize=14;\n\n"@
        + (if g.kind == DiagramKind::ActionFlowView {
        "    node [fontname=\"Helvetica\"];\n"@ + "    edge [fontname=\"Helvetica\"];\n\n"@
    } else {
        seq![]
    }) + dot_clusters(g.subgraphs@) + collect(
        dnode_views(g.nodes@),
        |n: DNodeView|
            if members.contains(n.id) {
                seq![]
            } else {
                dot_node_line(n)
            },
    ) + "\n"@ + collect(dedge_views(g.edges@), |e: DEdgeView| dot_edge_line(e)) + "}\n"@
}

/// The Graphviz code of a layout direction.
fn dot_dir_of(d: LayoutDirection) -> (r: &'static str)
    ensures
        r@ == dot_dir(d),
{
    match d {
        LayoutDirection::TopBottom => "TB",
        LayoutDirection::LeftRight => "LR",
        LayoutDirection::BottomTop => "BT",
        LayoutDirection::RightLeft => "RL",
    }
}

/// The Graphviz shape of a node kind.
fn dot_shape_of(k: NodeKind) -> (r: &'static str)
    ensures
        r@ == dot_shape(k),
{
    match k {
        NodeKind::Port => "diamond",
        NodeKind::State => "ellipse",
        NodeKind::InitialState => "circle",
        NodeKind::FinalState => "doublecircle",
        NodeKind::Requirement => "note",
        NodeKind::Constraint => "parallelogram",
        NodeKind::Package => "folder",
        NodeKind::Decision => "diamond",
        NodeKind::Fork | NodeKind::Join => "rectangle",
        NodeKind::Note => "note",
        _ => "box",
    }
}

/// The extra Graphviz attributes of a node kind.
fn dot_extra_of(k: NodeKind) -> (r: &'static str)
    ensures
        r@ == dot_extra(k),
{
    match k {
        NodeKind::State => ", style=rounded",
        NodeKind::InitialState => ", width=0.25, fixedsize=true, style=filled, fillcolor=black, label=\"\"",
        NodeKind::FinalState => ", width=0.3, fixedsize=true, style=filled, fillcolor=black, label=\"\"",
        NodeKind::Action => ", style=rounded",
        NodeKind::Decision => ", width=0.5, fixedsize=true",
        NodeKind::Fork | NodeKind::Join => ", width=1.5, height=0.05, fixedsize=true, style=filled, fillcolor=black, label=\"\"",
        _ => "",
    }
}

/// The DOT style of an edge kind.
fn dot_edge_style_of(k: EdgeKind) -> (r: &'static str)
    ensures
        r@ == dot_edge_style(k),
{
    match k {
        EdgeKind::Specialization => "style=solid, arrowhead=empty",
        EdgeKind::Composition => "style=solid, arrowhead=diamond",
        EdgeKind::Satisfy | EdgeKind::Verify | EdgeKind::Dependency => "style=dashed, arrowhead=open",
        _ => "style=solid",
    }
}

/// The label of a node as DOT shows it, before escaping.
#[verifier::rlimit(40)]
fn dot_label(n: &DiagramNode) -> (r: String)
    ensures
        r@ == join_with(dot_label_parts(n@), "\\n"@),
{
    let ghost parts = dot_label_parts(n@);
    let ghost sep = "\\n"@;
    let ghost attrs = n@.attributes;
    let mut r = String::new();
    let ghost first: int;
    match &n.stereotype {
        Some(st) => {
            r = st.clone();
            push_str(&mut r, "\\n");
            push_str(&mut r, n.label.as_str());
            proof {
                first = 2;
                assert(parts.take(1) =~= seq![st@]);
                assert(parts[1] == n.label@);
                lemma_join_step(parts, sep, 1);
            }
        },
        None => {
            r = n.label.clone();
            proof {
                first = 1;
                assert(parts.take(1) =~= seq![n.label@]);
            }
        },
    }
    assert(parts.len() == first + attrs.len());
    let mut i: usize = 0;
    while i < n.attributes.len()
        invariant
            i <= n.attributes@.len(),
            attrs == n@.attributes,
            attrs.len() == n.attributes@.len(),
            parts == dot_label_parts(n@),
            parts.len() == first + attrs.len(),
            1 <= first <= 2,
            forall|k: int| 0 <= k < attrs.len() ==> parts[first + k] == attrs[k].0 + ": "@ + attrs[k].1,
            sep == "\\n"@,
            r@ == join_with(parts.take(first + i), sep),
        decreases n.attributes@.len() - i,
    {
        push_str(&mut r, "\\n");
        push_str(&mut r, n.attributes[i].0.as_str());
        push_str(&mut r, ": ");
        push_str(&mut r, n.attributes[i].1.as_str());
        proof {
            lemma_join_step(parts, sep, first + i);
            assert(attrs[i as int] == (n.attributes@[i as int].0@, n.attributes@[i as int].1@));
        }
        i = i + 1;
    }
    assert(parts.take(parts.len() as int) =~= parts);
    r
}

/// Appends the DOT line of a node.
fn push_dot_node(out: &mut String, n: &DiagramNode)
    ensures
        final(out)@ == old(out)@ + dot_node_line(n@),
{
    let k = n.kind;
    let unlabelled = k == NodeKind::InitialState || k == NodeKind::FinalState || k
        == NodeKind::Fork || k == NodeKind::Join;
    push_str(out, "    \"");
    push_str(out, n.id.as_str());
    if unlabelled {
        push_str(out, "\" [shape=");
    } else {
        push_str(out, "\" [label=\"");
        let label = dot_label(n);
        push_escaped(out, label.as_str());
        push_str(out, "\", shape=");
    }
    push_str(out, dot_shape_of(k));
    push_str(out, dot_extra_of(k));
    push_str(out, "];\n");
    assert(out@ =~= old(out)@ + dot_node_line(n@));
}

/// Appends the DOT line of an edge.
fn push_dot_edge(out: &mut String, e: &DiagramEdge)
    ensures
        final(out)@ == old(out)@ + dot_edge_line(e@),
{
    push_str(out, "    \"");
    push_str(out, e.source.as_str());
    push_str(out, "\" -> \"");
    push_str(out, e.target.as_str());
    push_str(out, "\" [");
    push_str(out, dot_edge_style_of(e.kind));
    match &e.label {
        Some(l) => {
            push_str(out, ", label=\"");
            push_escaped(out, l.as_str());
            push_str(out, "\"");
        },
        None => {},
    }
    push_str(out, "];\n");
    assert(out@ =~= old(out)@ + dot_edge_line(e@));
}

/// Appends the DOT cluster of the `i`-th subgraph.
fn push_dot_cluster(out: &mut String, i: usize, sg: &Subgraph)
    ensures
        final(out)@ == old(out)@ + dot_cluster(i as nat, subgraph_view(*sg)),
{
    push_str(out, "    subgraph cluster_");
    let num = usize_to_decimal(i);
    push_str(out, num.as_str());
    push_str(out, " {\n");
    push_str(out, "        label=\"");
    push_escaped(out, sg.label.as_str());
    push_str(out, "\";\n");
    push_str(out, "        style=dashed;\n");
    let ghost head = out@;
    let ghost ids = string_views(sg.node_ids@);
    let ghost f = |id: Seq<char>| "        \""@ + id + "\";\n"@;
    let mut j: usize = 0;
    while j < sg.node_ids.len()
        invariant
            j <= sg.node_ids@.len(),
            ids == string_views(sg.node_ids@),
            forall|x: Seq<char>| #[trigger] f(x) == "        \""@ + x + "\";\n"@,
            out@ == head + collect(ids.take(j as int), f),
        decreases sg.node_ids@.len() - j,
    {
        proof {
            lemma_collect_take(ids, f, j as int);
        }
        push_str(out, "        \"");
        push_str(out, sg.node_ids[j].as_str());
        push_str(out, "\";\n");
        assert(out@ =~= head + collect(ids.take(j + 1), f));
        j = j + 1;
    }
    assert(ids.take(ids.len() as int) =~= ids);
    push_str(out, "    }\n\n");
    proof {
        assert(f =~= |id: Seq<char>| "        \""@ + id + "\";\n"@);
    }
    assert(out@ =~= old(out)@ + dot_cluster(i as nat, subgraph_view(*sg)));
}

/// Render a graph as Graphviz DOT: a digraph with the title as label,
/// a dashed cluster per subgraph, a line per node outside the subgraphs
/// (shape by kind, label from stereotype, name and attributes) and a line
/// per edge (style by kind).
#[verifier::spinoff_prover]
pub fn render_dot(graph: &DiagramGraph) -> (r: String)
    ensures
        r@ == dot_text(*graph),
{
    let mut out = own("digraph \"");
    push_escaped(&mut out, graph.title.as_str());
    push_str(&mut out, "\" {\n");
    push_str(&mut out, "    rankdir=");
    push_str(&mut out, dot_dir_of(graph.direction));
    push_str(&mut out, ";\n");
    push_str(&mut out, "    label=\"");
    push_escaped(&mut out, graph.title.as_str());
    push_str(&mut out, "\";\n");
    push_str(&mut out, "    fontsize=14;\n\n");
    if graph.kind == DiagramKind::ActionFlowView {
        push_str(&mut out, "    node [fontname=\"Helvetica\"];\n");
        push_str(&mut out, "    edge [fontname=\"Helvetica\"];\n\n");
    }
    let ghost head = out@;
    let mut i: usize = 0;
    while i < graph.subgraphs.len()
        invariant
            i <= graph.subgraphs@.len(),
            out@ == head + dot_clusters(graph.subgraphs@.take(i as int)),
        decreases graph.subgraphs@.len() - i,
    {
        assert(graph.subgraphs@.take(i + 1).drop_last() =~= graph.subgraphs@.take(i as int));
        push_dot_cluster(&mut out, i, &graph.subgraphs[i]);
        i = i + 1;
    }
    assert(graph.subgraphs@.take(graph.subgraphs@.len() as int) =~= graph.subgraphs@);
    let members = member_ids_of(&graph.subgraphs);
    let ghost mv = member_ids(graph.subgraphs@);
    let ghost nv = dnode_views(graph.nodes@);
    let ghost fnode = |n: DNodeView| if mv.contains(n.id) { seq![] } else { dot_node_line(n) };
    let ghost head2 = out@;
    let mut i: usize = 0;
    while i < graph.nodes.len()
        invariant
            i <= graph.nodes@.len(),
            nv == dnode_views(graph.nodes@),
            members.deep_view() == mv,
            forall|x: DNodeView| #[trigger] fnode(x) == (if mv.contains(x.id) { seq![] } else { dot_node_line(x) }),
            out@ == head2 + collect(nv.take(i as int), fnode),
        decreases graph.nodes@.len() - i,
    {
        proof {
            lemma_collect_take(nv, fnode, i as int);
        }
        let n = &graph.nodes[i];
        if !listed(&members, n.id.as_str()) {
            push_dot_node(&mut out, n);
        }
        assert(out@ =~= head2 + collect(nv.take(i + 1), fnode));
        i = i + 1;
    }
    assert(nv.take(nv.len() as int) =~= nv);
    push_str(&mut out, "\n");
    let ghost ev = dedge_views(graph.edges@);
    let ghost fedge = |e: DEdgeView| dot_edge_line(e);
    let ghost head3 = out@;
    let mut i: usize = 0;
    while i < graph.edges.len()
        invariant
            i <= graph.edges@.len(),
            ev == dedge_views(graph.edges@),
            forall|x: DEdgeView| #[trigger] fedge(x) == dot_edge_line(x),
            out@ == head3 + collect(ev.take(i as int), fedge),
        decreases graph.edges@.len() - i,
    {
        proof {
            lemma_collect_take(ev, fedge, i as int);
        }
        push_dot_edge(&mut out, &graph.edges[i]);
        assert(out@ =~= head3 + collect(ev.take(i + 1), fedge));
        i = i + 1;
    }
    assert(ev.take(ev.len() as int) =~= ev);
    push_str(&mut out, "}\n");
    proof {
        assert(fnode =~= |n: DNodeView| if member_ids(graph.subgraphs@).contains(n.id) { seq![] } else { dot_node_line(n) });
        assert(fedge =~= |e: DEdgeView| dot_edge_line(e));
    }
    assert(out@ =~= dot_text(*graph));
    out
}

// ------------------------------------------------------------------------
// Shared pieces
// ------------------------------------------------------------------------

/// The first node with id `id`, searching from index `from`.
pub open spec fn find_node(ns: Seq<DNodeView>, id: Seq<char>, from: int) -> Option<DNodeView>
    decreases ns.len() - from,
{
    if from < 0 || from >= ns.len() {
        None
    } else if ns[from].id == id {
        Some(ns[from])
    } else {
        find_node(ns, id, from + 1)
    }
}

/// The first node with the given id.
fn find_node_exec<'a>(nodes: &'a Vec<DiagramNode>, id: &str) -> (r: Option<&'a DiagramNode>)
    ensures
        match r {
            Some(n) => find_node(dnode_views(nodes@), id@, 0) == Some(n@),
            None => find_node(dnode_views(nodes@), id@, 0) is None,
        },
{
    let ghost nv = dnode_views(nodes@);
    let mut i: usize = 0;
    while i < nodes.len()
        invariant
            i <= nodes@.len(),
            nv == dnode_views(nodes@),
            find_node(nv, id@, 0) == find_node(nv, id@, i as int),
        decreases nodes@.len() - i,
    {
        if str_eq(nodes[i].id.as_str(), id) {
            return Some(&nodes[i]);
        }
        i = i + 1;
    }
    None
}

/// ` : label` for a labelled edge.
pub open spec fn colon_label(l: Option<Seq<char>>) -> Seq<char> {
    match l {
        Some(t) => " : "@ + t,
        None => seq![],
    }
}

/// `|label|` for a labelled edge.
pub open spec fn pipe_label(l: Option<Seq<char>>) -> Seq<char> {
    match l {
        Some(t) => "|"@ + t + "|"@,
        None => seq![],
    }
}

/// Appends ` : label` for a labelled edge.
fn push_colon_label(out: &mut String, l: &Option<String>)
    ensures
        final(out)@ == old(out)@ + colon_label(crate::diagram::graph::opt_text(*l)),
{
    match l {
        Some(t) => {
            push_str(out, " : ");
            push_str(out, t.as_str());
        },
        None => {},
    }
    assert(out@ =~= old(out)@ + colon_label(crate::diagram::graph::opt_text(*l)));
}

/// Appends `|label|` for a labelled edge.
fn push_pipe_label(out: &mut String, l: &Option<String>)
    ensures
        final(out)@ == old(out)@ + pipe_label(crate::diagram::graph::opt_text(*l)),
{
    match l {
        Some(t) => {
            push_str(out, "|");
            push_str(out, t.as_str());
            push_str(out, "|");
        },
        None => {},
    }
    assert(out@ =~= old(out)@ + pipe_label(crate::diagram::graph::opt_text(*l)));
}

/// The Mermaid code of a layout direction.
pub open spec fn mermaid_dir(d: LayoutDirection) -> Seq<char> {
    match d {
        LayoutDirection::TopBottom => "TD"@,
        LayoutDirection::LeftRight => "LR"@,
        LayoutDirection::BottomTop => "BT"@,
        LayoutDirection::RightLeft => "RL"@,
    }
}

/// `[*]` for the initial pseudo-state, else the id.
pub open spec fn stm_source(id: Seq<char>) -> Seq<char> {
    if id == "__initial__"@ {
        "[*]"@
    } else {
        id
    }
}

/// `[*]` for the final pseudo-state, else the id.
pub open spec fn stm_target(id: Seq<char>) -> Seq<char> {
    if id == "__final__"@ {
        "[*]"@
    } else {
        id
    }
}

/// Appends a state-machine end: `[*]` for the pseudo-state `pseudo`, else the id.
fn push_stm_end(out: &mut String, id: &str, pseudo: &str)
    ensures
        final(out)@ == old(out)@ + (if id@ == pseudo@ { "[*]"@ } else { id@ }),
{
    if str_eq(id, pseudo) {
        push_str(out, "[*]");
    } else {
        push_str(out, id);
    }
}

// ------------------------------------------------------------------------
// Mermaid
// ------------------------------------------------------------------------

/// A class block in a Mermaid class diagram.
pub open spec fn mermaid_class_node(n: DNodeView, indent: Seq<char>) -> Seq<char> {
    indent + "class "@ + n.id + " {\n"@ + (match n.stereotype {
        Some(st) => indent + "    "@ + st + "\n"@,
        None => seq![],
    }) + collect(n.attributes, |a: (Seq<char>, Seq<char>)| indent + "    +"@ + a.0 + " "@ + a.1 + "\n"@)
        + indent + "}\n"@
}

/// The Mermaid class-diagram arrow of an edge kind.
pub open spec fn mermaid_arrow(k: EdgeKind) -> Seq<char> {
    match k {
        EdgeKind::Specialization => "<|--"@,
        EdgeKind::Composition => "*--"@,
        EdgeKind::Connection => "--"@,
        EdgeKind::Satisfy | EdgeKind::Verify | EdgeKind::Dependency => "..>"@,
        EdgeKind::ConstraintBinding => "--"@,
        _ => "-->"@,
    }
}

/// A Mermaid namespace for a subgraph: the first node of each member id.
pub open spec fn mermaid_namespace(ns: Seq<DNodeView>, sg: SubgraphView) -> Seq<char> {
    "    namespace "@ + sg.1 + " {\n"@ + collect(
        sg.2,
        |nid: Seq<char>|
            match find_node(ns, nid, 0) {
                Some(n) => mermaid_class_node(n, "        "@),
                None => seq![],
            },
    ) + "    }\n"@
}

/// The Mermaid class diagram of a graph.
pub open spec fn mermaid_class_text(g: DiagramGraph) -> Seq<char> {
    let ns = dnode_views(g.nodes@);
    let members = member_ids(g.subgraphs@);
    "classDiagram\n"@ + collect(
        g.subgraphs@,
        |sg: Subgraph| mermaid_namespace(ns, subgraph_view(sg)),
    ) + collect(
        ns,
        |n: DNodeView|
            if members.contains(n.id) {
                seq![]
            } else {
                mermaid_class_node(n, "    "@)
            },
    ) + collect(
        dedge_views(g.edges@),
        |e: DEdgeView| "    "@ + e.target + " "@ + mermaid_arrow(e.kind) + " "@ + e.source + colon_label(e.label) + "\n"@,
    )
}

/// A state in a Mermaid state diagram (other nodes are not drawn).
pub open spec fn mermaid_state(n: DNodeView) -> Seq<char> {
    if n.kind == NodeKind::State {
        if n.attributes.len() == 0 {
            "    "@ + n.id + " : "@ + n.label + "\n"@
        } else {
            "    state \""@ + n.label + "\" as "@ + n.id + " {\n"@ + collect(
                n.attributes,
                |a: (Seq<char>, Seq<char>)| "        "@ + a.0 + " / "@ + a.1 + "\n"@,
            ) + "    }\n"@
        }
    } else {
        seq![]
    }
}

/// The Mermaid state diagram of a graph.
pub open spec fn mermaid_stm_text(g: DiagramGraph) -> Seq<char> {
    "stateDiagram-v2\n"@ + (if g.direction != LayoutDirection::TopBottom {
        "    direction "@ + mermaid_dir(g.direction) + "\n"@
    } else {
        seq![]
    }) + collect(dnode_views(g.nodes@), |n: DNodeView| mermaid_state(n)) + collect(
        dedge_views(g.edges@),
        |e: DEdgeView| "    "@ + stm_source(e.source) + " --> "@ + stm_target(e.target) + colon_label(e.label) + "\n"@,
    )
}

/// A node of a Mermaid activity flowchart.
pub open spec fn mermaid_activity_node(n: DNodeView) -> Seq<char> {
    match n.kind {
        NodeKind::InitialState => "    "@ + n.id + "(( ))\n"@,
        NodeKind::FinalState => "    "@ + n.id + "((( )))\n"@,
        NodeKind::Decision => "    "@ + n.id + "{\""@ + n.label + "\"}\n"@,
        NodeKind::Fork | NodeKind::Join => "    "@ + n.id + "[\"|\"]\n"@,
        _ => "    "@ + n.id + "[\""@ + n.label + "\"]\n"@,
    }
}

/// The Mermaid activity flowchart of a graph.
pub open spec fn mermaid_activity_text(g: DiagramGraph) -> Seq<char> {
    "flowchart "@ + mermaid_dir(g.direction) + "\n"@ + collect(
        dnode_views(g.nodes@),
        |n: DNodeView| mermaid_activity_node(n),
    ) + collect(
        dedge_views(g.edges@),
        |e: DEdgeView| "    "@ + e.source + " -->"@ + pipe_label(e.label) + " "@ + e.target + "\n"@,
    )
}

/// A node of a Mermaid requirements flowchart.
pub open spec fn mermaid_flow_node(n: DNodeView) -> Seq<char> {
    "    "@ + (if n.kind == NodeKind::Block {
        n.id + "([\""@ + n.label + "\"]\n)"@
    } else {
        n.id + "[\""@ + n.label + "\"]\n"@
    })
}

/// The Mermaid arrow of a requirements flowchart edge.
pub open spec fn mermaid_flow_style(k: EdgeKind) -> Seq<char> {
    if k == EdgeKind::Satisfy || k == EdgeKind::Verify {
        "-.->"@
    } else {
        "-->"@
    }
}

/// The Mermaid requirements flowchart of a graph.
pub open spec fn mermaid_flowchart_text(g: DiagramGraph) -> Seq<char> {
    "flowchart "@ + mermaid_dir(g.direction) + "\n"@ + collect(
        dnode_views(g.nodes@),
        |n: DNodeView| mermaid_flow_node(n),
    ) + collect(
        dedge_views(g.edges@),
        |e: DEdgeView| "    "@ + e.source + " "@ + mermaid_flow_style(e.kind) + pipe_label(e.label) + " "@ + e.target + "\n"@,
    )
}

/// The Mermaid text of a graph: a title header, then a state diagram,
/// an activity flowchart, a requirements flowchart or a class diagram by
/// the graph's kind.
pub open spec fn mermaid_text(g: DiagramGraph) -> Seq<char> {
    "---\n"@ + "title: "@ + g.title@ + "\n"@ + "---\n"@ + match g.kind {
        DiagramKind::StateTransitionView => mermaid_stm_text(g),
        DiagramKind::ActionFlowView => mermaid_activity_text(g),
        DiagramKind::GridView(GridViewFlavor::Requirements) => mermaid_flowchart_text(g),
        _ => mermaid_class_text(g),
    }
}

/// The Mermaid code of a layout direction.
fn mermaid_dir_of(d: LayoutDirection) -> (r: &'static str)
    ensures
        r@ == mermaid_dir(d),
{
    match d {
        LayoutDirection::TopBottom => "TD",
        LayoutDirection::LeftRight => "LR",
        LayoutDirection::BottomTop => "BT",
        LayoutDirection::RightLeft => "RL",
    }
}

/// The Mermaid class-diagram arrow of an edge kind.
fn mermaid_arrow_of(k: EdgeKind) -> (r: &'static str)
    ensures
        r@ == mermaid_arrow(k),
{
    match k {
        EdgeKind::Specialization => "<|--",
        EdgeKind::Composition => "*--",
        EdgeKind::Connection => "--",
        EdgeKind::Satisfy | EdgeKind::Verify | EdgeKind::Dependency => "..>",
        EdgeKind::ConstraintBinding => "--",
        _ => "-->",
    }
}

/// Appends `pre a.0 mid a.1 post` for each attribute.
fn push_attr_lines(out: &mut String, n: &DiagramNode, pre: &str, mid: &str, post: &str)
    ensures
        final(out)@ == old(out)@ + collect(
            n@.attributes,
            |a: (Seq<char>, Seq<char>)| pre@ + a.0 + mid@ + a.1 + post@,
        ),
{
    let ghost attrs = n@.attributes;
    let ghost f = |a: (Seq<char>, Seq<char>)| pre@ + a.0 + mid@ + a.1 + post@;
    let mut i: usize = 0;
    while i < n.attributes.len()
        invariant
            i <= n.attributes@.len(),
            attrs == n@.attributes,
            forall|x: (Seq<char>, Seq<char>)| #[trigger] f(x) == pre@ + x.0 + mid@ + x.1 + post@,
            out@ == old(out)@ + collect(attrs.take(i as int), f),
        decreases n.attributes@.len() - i,
    {
        proof {
            lemma_collect_take(attrs, f, i as int);
        }
        push_str(out, pre);
        push_str(out, n.attributes[i].0.as_str());
        push_str(out, mid);
        push_str(out, n.attributes[i].1.as_str());
        push_str(out, post);
        assert(out@ =~= old(out)@ + collect(attrs.take(i + 1), f));
        i = i + 1;
    }
    assert(attrs.take(attrs.len() as int) =~= attrs);
    proof {
        assert(f =~= |a: (Seq<char>, Seq<char>)| pre@ + a.0 + mid@ + a.1 + post@);
    }
}

/// Appends a Mermaid class block.
fn push_mermaid_class_node(out: &mut String, n: &DiagramNode, indent: &str)
    ensures
        final(out)@ == old(out)@ + mermaid_class_node(n@, indent@),
{
    push_str(out, indent);
    push_str(out, "class ");
    push_str(out, n.id.as_str());
    push_str(out, " {\n");
    match &n.stereotype {
        Some(st) => {
            push_str(out, indent);
            push_str(out, "    ");
            push_str(out, st.as_str());
            push_str(out, "\n");
        },
        None => {},
    }
    let ghost mid_out = out@;
    let mut pre = own(indent);
    push_str(&mut pre, "    +");
    push_attr_lines(out, n, pre.as_str(), " ", "\n");
    push_str(out, indent);
    push_str(out, "}\n");
    proof {
        assert((|a: (Seq<char>, Seq<char>)| pre@ + a.0 + " "@ + a.1 + "\n"@) =~= (|a: (Seq<char>, Seq<char>)| indent@ + "    +"@ + a.0 + " "@ + a.1 + "\n"@));
        assert(forall|a: (Seq<char>, Seq<char>)| pre@ + a.0 + " "@ + a.1 + "\n"@ == indent@ + "    +"@ + a.0 + " "@ + a.1 + "\n"@);
    }
    assert(out@ =~= old(out)@ + mermaid_class_node(n@, indent@));
}

/// Appends the Mermaid class diagram of a graph.
#[verifier::spinoff_prover]
fn push_mermaid_class(out: &mut String, g: &DiagramGraph)
    ensures
        final(out)@ == old(out)@ + mermaid_class_text(*g),
{
    push_str(out, "classDiagram\n");
    let ghost ns = dnode_views(g.nodes@);
    let ghost fsg = |sg: Subgraph| mermaid_namespace(ns, subgraph_view(sg));
    let ghost h0 = out@;
    let mut i: usize = 0;
    while i < g.subgraphs.len()
        invariant
            i <= g.subgraphs@.len(),
            ns == dnode_views(g.nodes@),
            forall|x: Subgraph| #[trigger] fsg(x) == mermaid_namespace(ns, subgraph_view(x)),
            out@ == h0 + collect(g.subgraphs@.take(i as int), fsg),
        decreases g.subgraphs@.len() - i,
    {
        proof {
            lemma_collect_take(g.subgraphs@, fsg, i as int);
        }
        let sg = &g.subgraphs[i];
        let ghost h1 = out@;
        push_str(out, "    namespace ");
        push_str(out, sg.label.as_str());
        push_str(out, " {\n");
        let ghost ids = string_views(sg.node_ids@);
        let ghost fid = |nid: Seq<char>| match find_node(ns, nid, 0) {
            Some(n) => mermaid_class_node(n, "        "@),
            None => seq![],
        };
        let ghost h2 = out@;
        let mut j: usize = 0;
        while j < sg.node_ids.len()
            invariant
                j <= sg.node_ids@.len(),
                ids == string_views(sg.node_ids@),
                ns == dnode_views(g.nodes@),
                forall|x: Seq<char>| #[trigger] fid(x) == (match find_node(ns, x, 0) {
                    Some(n) => mermaid_class_node(n, "        "@),
                    None => seq![],
                }),
                out@ == h2 + collect(ids.take(j as int), fid),
            decreases sg.node_ids@.len() - j,
        {
            proof {
                lemma_collect_take(ids, fid, j as int);
            }
            match find_node_exec(&g.nodes, sg.node_ids[j].as_str()) {
                Some(node) => {
                    push_mermaid_class_node(out, node, "        ");
                },
                None => {},
            }
            assert(out@ =~= h2 + collect(ids.take(j + 1), fid));
            j = j + 1;
        }
        assert(ids.take(ids.len() as int) =~= ids);
        push_str(out, "    }\n");
        proof {
            assert(fid =~= |nid: Seq<char>| match find_node(ns, nid, 0) {
                Some(n) => mermaid_class_node(n, "        "@),
                None => seq![],
            });
        }
        assert(out@ =~= h0 + collect(g.subgraphs@.take(i + 1), fsg));
        i = i + 1;
    }
    assert(g.subgraphs@.take(g.subgraphs@.len() as int) =~= g.subgraphs@);
    let members = member_ids_of(&g.subgraphs);
    let ghost mv = member_ids(g.subgraphs@);
    let ghost fnode = |n: DNodeView| if mv.contains(n.id) { seq![] } else { mermaid_class_node(n, "    "@) };
    let ghost h3 = out@;
    let mut i: usize = 0;
    while i < g.nodes.len()
        invariant
            i <= g.nodes@.len(),
            ns == dnode_views(g.nodes@),
            members.deep_view() == mv,
            forall|x: DNodeView| #[trigger] fnode(x) == (if mv.contains(x.id) { seq![] } else { mermaid_class_node(x, "    "@) }),
            out@ == h3 + collect(ns.take(i as int), fnode),
        decreases g.nodes@.len() - i,
    {
        proof {
            lemma_collect_take(ns, fnode, i as int);
        }
        let n = &g.nodes[i];
        if !listed(&members, n.id.as_str()) {
            push_mermaid_class_node(out, n, "    ");
        }
        assert(out@ =~= h3 + collect(ns.take(i + 1), fnode));
        i = i + 1;
    }
    assert(ns.take(ns.len() as int) =~= ns);
    let ghost ev = dedge_views(g.edges@);
    let ghost fedge = |e: DEdgeView| "    "@ + e.target + " "@ + mermaid_arrow(e.kind) + " "@ + e.source + colon_label(e.label) + "\n"@;
    let ghost h4 = out@;
    let mut i: usize = 0;
    while i < g.edges.len()
        invariant
            i <= g.edges@.len(),
            ev == dedge_views(g.edges@),
            forall|x: DEdgeView| #[trigger] fedge(x) == "    "@ + x.target + " "@ + mermaid_arrow(x.kind) + " "@ + x.source + colon_label(x.label) + "\n"@,
            out@ == h4 + collect(ev.take(i as int), fedge),
        decreases g.edges@.len() - i,
    {
        proof {
            lemma_collect_take(ev, fedge, i as int);
        }
        let e = &g.edges[i];
        push_str(out, "    ");
        push_str(out, e.target.as_str());
        push_str(out, " ");
        push_str(out, mermaid_arrow_of(e.kind));
        push_str(out, " ");
        push_str(out, e.source.as_str());
        push_colon_label(out, &e.label);
        push_str(out, "\n");
        assert(out@ =~= h4 + collect(ev.take(i + 1), fedge));
        i = i + 1;
    }
    assert(ev.take(ev.len() as int) =~= ev);
    proof {
        assert(fsg =~= |sg: Subgraph| mermaid_namespace(dnode_views(g.nodes@), subgraph_view(sg)));
        assert(fnode =~= |n: DNodeView| if member_ids(g.subgraphs@).contains(n.id) { seq![] } else { mermaid_class_node(n, "    "@) });
        assert(fedge =~= |e: DEdgeView| "    "@ + e.target + " "@ + mermaid_arrow(e.kind) + " "@ + e.source + colon_label(e.label) + "\n"@);
    }
    assert(out@ =~= old(out)@ + mermaid_class_text(*g));
}

/// Appends a state of a Mermaid state diagram.
fn push_mermaid_state(out: &mut String, n: &DiagramNode)
    ensures
        final(out)@ == old(out)@ + mermaid_state(n@),
{
    if n.kind == NodeKind::State {
        if n.attributes.len() == 0 {
            push_str(out, "    ");
            push_str(out, n.id.as_str());
            push_str(out, " : ");
            push_str(out, n.label.as_str());
            push_str(out, "\n");
        } else {
            push_str(out, "    state \"");
            push_str(out, n.label.as_str());
            push_str(out, "\" as ");
            push_str(out, n.id.as_str());
            push_str(out, " {\n");
            push_attr_lines(out, n, "        ", " / ", "\n");
            push_str(out, "    }\n");
        }
    }
    assert(out@ =~= old(out)@ + mermaid_state(n@));
}

/// Appends the Mermaid state diagram of a graph.
#[verifier::spinoff_prover]
fn push_mermaid_stm(out: &mut String, g: &DiagramGraph)
    ensures
        final(out)@ == old(out)@ + mermaid_stm_text(*g),
{
    push_str(out, "stateDiagram-v2\n");
    if g.direction != LayoutDirection::TopBottom {
        push_str(out, "    direction ");
        push_str(out, mermaid_dir_of(g.direction));
        push_str(out, "\n");
    }
    let ghost ns = dnode_views(g.nodes@);
    let ghost fnode = |n: DNodeView| mermaid_state(n);
    let ghost h1 = out@;
    let mut i: usize = 0;
    while i < g.nodes.len()
        invariant
            i <= g.nodes@.len(),
            ns == dnode_views(g.nodes@),
            forall|x: DNodeView| #[trigger] fnode(x) == mermaid_state(x),
            out@ == h1 + collect(ns.take(i as int), fnode),
        decreases g.nodes@.len() - i,
    {
        proof {
            lemma_collect_take(ns, fnode, i as int);
        }
        push_mermaid_state(out, &g.nodes[i]);
        assert(out@ =~= h1 + collect(ns.take(i + 1), fnode));
        i = i + 1;
    }
    assert(ns.take(ns.len() as int) =~= ns);
    let ghost ev = dedge_views(g.edges@);
    let ghost fedge = |e: DEdgeView| "    "@ + stm_source(e.source) + " --> "@ + stm_target(e.target) + colon_label(e.label) + "\n"@;
    let ghost h2 = out@;
    let mut i: usize = 0;
    while i < g.edges.len()
        invariant
            i <= g.edges@.len(),
            ev == dedge_views(g.edges@),
            forall|x: DEdgeView| #[trigger] fedge(x) == "    "@ + stm_source(x.source) + " --> "@ + stm_target(x.target) + colon_label(x.label) + "\n"@,
            out@ == h2 + collect(ev.take(i as int), fedge),
        decreases g.edges@.len() - i,
    {
        proof {
            lemma_collect_take(ev, fedge, i as int);
        }
        let e = &g.edges[i];
        push_str(out, "    ");
        push_stm_end(out, e.source.as_str(), "__initial__");
        push_str(out, " --> ");
        push_stm_end(out, e.target.as_str(), "__final__");
        push_colon_label(out, &e.label);
        push_str(out, "\n");
        assert(out@ =~= h2 + collect(ev.take(i + 1), fedge));
        i = i + 1;
    }
    assert(ev.take(ev.len() as int) =~= ev);
    proof {
        assert(fnode =~= |n: DNodeView| mermaid_state(n));
        assert(fedge =~= |e: DEdgeView| "    "@ + stm_source(e.source) + " --> "@ + stm_target(e.target) + colon_label(e.label) + "\n"@);
    }
    assert(out@ =~= old(out)@ + mermaid_stm_text(*g));
}

/// Appends a node of a Mermaid activity flowchart.
fn push_mermaid_activity_node(out: &mut String, n: &DiagramNode)
    ensures
        final(out)@ == old(out)@ + mermaid_activity_node(n@),
{
    push_str(out, "    ");
    push_str(out, n.id.as_str());
    match n.kind {
        NodeKind::InitialState => push_str(out, "(( ))\n"),
        NodeKind::FinalState => push_str(out, "((( )))\n"),
        NodeKind::Decision => {
            push_str(out, "{\"");
            push_str(out, n.label.as_str());
            push_str(out, "\"}\n");
        },
        NodeKind::Fork | NodeKind::Join => push_str(out, "[\"|\"]\n"),
        _ => {
            push_str(out, "[\"");
            push_str(out, n.label.as_str());
            push_str(out, "\"]\n");
        },
    }
    assert(out@ =~= old(out)@ + mermaid_activity_node(n@));
}

/// Appends a node of a Mermaid requirements flowchart.
fn push_mermaid_flow_node(out: &mut String, n: &DiagramNode)
    ensures
        final(out)@ == old(out)@ + mermaid_flow_node(n@),
{
    push_str(out, "    ");
    push_str(out, n.id.as_str());
    if n.kind == NodeKind::Block {
        push_str(out, "([\"");
        push_str(out, n.label.as_str());
        push_str(out, "\"]\n)");
    } else {
        push_str(out, "[\"");
        push_str(out, n.label.as_str());
        push_str(out, "\"]\n");
    }
    assert(out@ =~= old(out)@ + mermaid_flow_node(n@));
}

/// Appends the Mermaid activity flowchart (or, with `requirements`, the
/// requirements flowchart) of a graph.
#[verifier::spinoff_prover]
fn push_mermaid_flow(out: &mut String, g: &DiagramGraph, requirements: bool)
    ensures
        final(out)@ == old(out)@ + (if requirements { mermaid_flowchart_text(*g) } else { mermaid_activity_text(*g) }),
{
    push_str(out, "flowchart ");
    push_str(out, mermaid_dir_of(g.direction));
    push_str(out, "\n");
    let ghost ns = dnode_views(g.nodes@);
    let ghost fnode = |n: DNodeView| if requirements { mermaid_flow_node(n) } else { mermaid_activity_node(n) };
    let ghost h1 = out@;
    let mut i: usize = 0;
    while i < g.nodes.len()
        invariant
            i <= g.nodes@.len(),
            ns == dnode_views(g.nodes@),
            forall|x: DNodeView| #[trigger] fnode(x) == (if requirements { mermaid_flow_node(x) } else { mermaid_activity_node(x) }),
            out@ == h1 + collect(ns.take(i as int), fnode),
        decreases g.nodes@.len() - i,
    {
        proof {
            lemma_collect_take(ns, fnode, i as int);
        }
        if requirements {
            push_mermaid_flow_node(out, &g.nodes[i]);
        } else {
            push_mermaid_activity_node(out, &g.nodes[i]);
        }
        assert(out@ =~= h1 + collect(ns.take(i + 1), fnode));
        i = i + 1;
    }
    assert(ns.take(ns.len() as int) =~= ns);
    let ghost ev = dedge_views(g.edges@);
    let ghost fedge = |e: DEdgeView| if requirements {
        "    "@ + e.source + " "@ + mermaid_flow_style(e.kind) + pipe_label(e.label) + " "@ + e.target + "\n"@
    } else {
        "    "@ + e.source + " -->"@ + pipe_label(e.label) + " "@ + e.target + "\n"@
    };
    let ghost h2 = out@;
    let mut i: usize = 0;
    while i < g.edges.len()
        invariant
            i <= g.edges@.len(),
            ev == dedge_views(g.edges@),
            forall|x: DEdgeView| #[trigger] fedge(x) == (if requirements {
                "    "@ + x.source + " "@ + mermaid_flow_style(x.kind) + pipe_label(x.label) + " "@ + x.target + "\n"@
            } else {
                "    "@ + x.source + " -->"@ + pipe_label(x.label) + " "@ + x.target + "\n"@
            }),
            out@ == h2 + collect(ev.take(i as int), fedge),
        decreases g.edges@.len() - i,
    {
        proof {
            lemma_collect_take(ev, fedge, i as int);
        }
        let e = &g.edges[i];
        push_str(out, "    ");
        push_str(out, e.source.as_str());
        if requirements {
            push_str(out, " ");
            if e.kind == EdgeKind::Satisfy || e.kind == EdgeKind::Verify {
                push_str(out, "-.->");
            } else {
                push_str(out, "-->");
            }
        } else {
            push_str(out, " -->");
        }
        push_pipe_label(out, &e.label);
        push_str(out, " ");
        push_str(out, e.target.as_str());
        push_str(out, "\n");
        assert(out@ =~= h2 + collect(ev.take(i + 1), fedge));
        i = i + 1;
    }
    assert(ev.take(ev.len() as int) =~= ev);
    proof {
        if requirements {
            assert(fnode =~= |n: DNodeView| mermaid_flow_node(n));
            assert(fedge =~= |e: DEdgeView| "    "@ + e.source + " "@ + mermaid_flow_style(e.kind) + pipe_label(e.label) + " "@ + e.target + "\n"@);
        } else {
            assert(fnode =~= |n: DNodeView| mermaid_activity_node(n));
            assert(fedge =~= |e: DEdgeView| "    "@ + e.source + " -->"@ + pipe_label(e.label) + " "@ + e.target + "\n"@);
        }
    }
    assert(out@ =~= old(out)@ + (if requirements { mermaid_flowchart_text(*g) } else { mermaid_activity_text(*g) }));
}

/// Render a graph as Mermaid text.
pub fn render_mermaid(graph: &DiagramGraph) -> (r: String)
    ensures
        r@ == mermaid_text(*graph),
{
    let mut out = own("---\n");
    push_str(&mut out, "title: ");
    push_str(&mut out, graph.title.as_str());
    push_str(&mut out, "\n");
    push_str(&mut out, "---\n");
    match graph.kind {
        DiagramKind::StateTransitionView => push_mermaid_stm(&mut out, graph),
        DiagramKind::ActionFlowView => push_mermaid_flow(&mut out, graph, false),
        DiagramKind::GridView(GridViewFlavor::Requirements) => push_mermaid_flow(&mut out, graph, true),
        _ => push_mermaid_class(&mut out, graph),
    }
    assert(out@ =~= mermaid_text(*graph));
    out
}

// ------------------------------------------------------------------------
// PlantUML
// ------------------------------------------------------------------------

/// The PlantUML direction line of a layout direction (none for the default).
pub open spec fn plantuml_dir(d: LayoutDirection) -> Seq<char> {
    match d {
        LayoutDirection::TopBottom => seq![],
        LayoutDirection::LeftRight => "left to right direction"@ + "\n\n"@,
        LayoutDirection::RightLeft => "right to left direction"@ + "\n\n"@,
        LayoutDirection::BottomTop => "bottom to top direction"@ + "\n\n"@,
    }
}

/// ` stereotype` for a node with one.
pub open spec fn space_stereo(st: Option<Seq<char>>) -> Seq<char> {
    match st {
        Some(s) => " "@ + s,
        None => seq![],
    }
}

/// A class (or package) block in a PlantUML class diagram.
pub open spec fn plantuml_class_node(n: DNodeView, indent: Seq<char>) -> Seq<char> {
    indent + (if n.kind == NodeKind::Package { "package"@ } else { "class"@ }) + " \""@ + n.label
        + "\""@ + space_stereo(n.stereotype) + " {\n"@ + collect(
        n.attributes,
        |a: (Seq<char>, Seq<char>)| indent + "    +"@ + a.0 + ": "@ + a.1 + "\n"@,
    ) + indent + "}\n"@
}

/// The PlantUML class-diagram arrow of an edge kind.
pub open spec fn plantuml_arrow(k: EdgeKind) -> Seq<char> {
    match k {
        EdgeKind::Specialization => "--|>"@,
        EdgeKind::Composition => "*--"@,
        EdgeKind::Connection => "--"@,
        EdgeKind::Satisfy | EdgeKind::Verify | EdgeKind::Dependency => "..>"@,
        _ => "-->"@,
    }
}

/// A PlantUML package for a subgraph.
pub open spec fn plantuml_package(ns: Seq<DNodeView>, sg: SubgraphView) -> Seq<char> {
    "package \""@ + sg.1 + "\" {\n"@ + collect(
        sg.2,
        |nid: Seq<char>|
            match find_node(ns, nid, 0) {
                Some(n) => plantuml_class_node(n, "    "@),
                None => seq![],
            },
    ) + "}\n\n"@
}

/// The PlantUML class diagram of a graph.
pub open spec fn plantuml_class_text(g: DiagramGraph) -> Seq<char> {
    let ns = dnode_views(g.nodes@);
    let members = member_ids(g.subgraphs@);
    plantuml_dir(g.direction) + collect(
        g.subgraphs@,
        |sg: Subgraph| plantuml_package(ns, subgraph_view(sg)),
    ) + collect(
        ns,
        |n: DNodeView|
            if members.contains(n.id) {
                seq![]
            } else {
                plantuml_class_node(n, ""@)
            },
    ) + "\n"@ + collect(
        dedge_views(g.edges@),
        |e: DEdgeView| e.source + " "@ + plantuml_arrow(e.kind) + " "@ + e.target + colon_label(e.label) + "\n"@,
    )
}

/// A state in a PlantUML state diagram (other nodes are not drawn).
pub open spec fn plantuml_state(n: DNodeView) -> Seq<char> {
    if n.kind == NodeKind::State {
        if n.attributes.len() == 0 {
            "state \""@ + n.label + "\" as "@ + n.id + "\n"@
        } else {
            "state \""@ + n.label + "\" as "@ + n.id + " {\n"@ + collect(
                n.attributes,
                |a: (Seq<char>, Seq<char>)| "    "@ + n.id + " : "@ + a.0 + " / "@ + a.1 + "\n"@,
            ) + "}\n"@
        }
    } else {
        seq![]
    }
}

/// The PlantUML state diagram of a graph.
pub open spec fn plantuml_stm_text(g: DiagramGraph) -> Seq<char> {
    collect(dnode_views(g.nodes@), |n: DNodeView| plantuml_state(n)) + "\n"@ + collect(
        dedge_views(g.edges@),
        |e: DEdgeView| stm_source(e.source) + " --> "@ + stm_target(e.target) + colon_label(e.label) + "\n"@,
    )
}

/// `[label]` and a line break for a labelled activity edge.
pub open spec fn bracket_label(l: Option<Seq<char>>) -> Seq<char> {
    match l {
        Some(t) => "["@ + t + "]\n"@,
        None => seq![],
    }
}

/// The PlantUML activity step for an edge into node `n`.
pub open spec fn plantuml_activity_step(lbl: Seq<char>, n: DNodeView) -> Seq<char> {
    match n.kind {
        NodeKind::FinalState => lbl + "stop\n"@,
        NodeKind::Decision => lbl + "if ("@ + n.label + ") then (yes)\n"@,
        NodeKind::Fork => lbl + "fork\n"@,
        NodeKind::Join => lbl + "end fork\n"@,
        _ => lbl + ":"@ + n.label + ";"@ + "\n"@,
    }
}

/// The PlantUML activity diagram of a graph: a step per edge, by the kind
/// of the node it leads to.
pub open spec fn plantuml_activity_text(g: DiagramGraph) -> Seq<char> {
    let ns = dnode_views(g.nodes@);
    "start\n"@ + collect(
        dedge_views(g.edges@),
        |e: DEdgeView|
            match find_node(ns, e.target, 0) {
                Some(n) => plantuml_activity_step(bracket_label(e.label), n),
                None => seq![],
            },
    )
}

/// The value of the first attribute named `key`, or empty text.
pub open spec fn first_attr(attrs: Seq<(Seq<char>, Seq<char>)>, key: Seq<char>) -> Seq<char>
    decreases attrs.len(),
{
    if attrs.len() == 0 {
        seq![]
    } else if attrs[0].0 == key {
        attrs[0].1
    } else {
        first_attr(attrs.drop_first(), key)
    }
}

/// A node of a PlantUML requirements diagram.
pub open spec fn plantuml_req_node(n: DNodeView) -> Seq<char> {
    if n.kind == NodeKind::Requirement {
        "rectangle \""@ + n.label + "\\n"@ + first_attr(n.attributes, "text"@) + "\" as "@ + n.id
            + " <<requirement>>\n"@
    } else {
        "rectangle \""@ + n.label + "\" as "@ + n.id + space_stereo(n.stereotype) + "\n"@
    }
}

/// The PlantUML arrow of a requirements-diagram edge.
pub open spec fn plantuml_req_style(k: EdgeKind) -> Seq<char> {
    if k == EdgeKind::Satisfy || k == EdgeKind::Verify {
        "..>"@
    } else {
        "-->"@
    }
}

/// The PlantUML requirements diagram of a graph.
pub open spec fn plantuml_req_text(g: DiagramGraph) -> Seq<char> {
    collect(dnode_views(g.nodes@), |n: DNodeView| plantuml_req_node(n)) + "\n"@ + collect(
        dedge_views(g.edges@),
        |e: DEdgeView| e.source + " "@ + plantuml_req_style(e.kind) + " "@ + e.target + colon_label(e.label) + "\n"@,
    )
}

/// The PlantUML text of a graph.
pub open spec fn plantuml_text(g: DiagramGraph) -> Seq<char> {
    "@startuml\n"@ + "title "@ + g.title@ + "\n\n"@ + match g.kind {
        DiagramKind::StateTransitionView => plantuml_stm_text(g),
        DiagramKind::ActionFlowView => plantuml_activity_text(g),
        DiagramKind::GridView(GridViewFlavor::Requirements) => plantuml_req_text(g),
        _ => plantuml_class_text(g),
    } + "@enduml\n"@
}

/// Appends ` stereotype` for a node with one.
fn push_space_stereo(out: &mut String, st: &Option<String>)
    ensures
        final(out)@ == old(out)@ + space_stereo(crate::diagram::graph::opt_text(*st)),
{
    match st {
        Some(s) => {
            push_str(out, " ");
            push_str(out, s.as_str());
        },
        None => {},
    }
    assert(out@ =~= old(out)@ + space_stereo(crate::diagram::graph::opt_text(*st)));
}

/// Appends a PlantUML class block.
fn push_plantuml_class_node(out: &mut String, n: &DiagramNode, indent: &str)
    ensures
        final(out)@ == old(out)@ + plantuml_class_node(n@, indent@),
{
    push_str(out, indent);
    if n.kind == NodeKind::Package {
        push_str(out, "package");
    } else {
        push_str(out, "class");
    }
    push_str(out, " \"");
    push_str(out, n.label.as_str());
    push_str(out, "\"");
    push_space_stereo(out, &n.stereotype);
    push_str(out, " {\n");
    let mut pre = own(indent);
    push_str(&mut pre, "    +");
    push_attr_lines(out, n, pre.as_str(), ": ", "\n");
    push_str(out, indent);
    push_str(out, "}\n");
    proof {
        assert((|a: (Seq<char>, Seq<char>)| pre@ + a.0 + ": "@ + a.1 + "\n"@) =~= (|a: (Seq<char>, Seq<char>)| indent@ + "    +"@ + a.0 + ": "@ + a.1 + "\n"@));
    }
    assert(out@ =~= old(out)@ + plantuml_class_node(n@, indent@));
}

/// The PlantUML class-diagram arrow of an edge kind.
fn plantuml_arrow_of(k: EdgeKind) -> (r: &'static str)
    ensures
        r@ == plantuml_arrow(k),
{
    match k {
        EdgeKind::Specialization => "--|>",
        EdgeKind::Composition => "*--",
        EdgeKind::Connection => "--",
        EdgeKind::Satisfy | EdgeKind::Verify | EdgeKind::Dependency => "..>",
        _ => "-->",
    }
}

/// Appends the PlantUML class diagram of a graph.
#[verifier::spinoff_prover]
fn push_plantuml_class(out: &mut String, g: &DiagramGraph)
    ensures
        final(out)@ == old(out)@ + plantuml_class_text(*g),
{
    match g.direction {
        LayoutDirection::TopBottom => {},
        LayoutDirection::LeftRight => {
            push_str(out, "left to right direction");
            push_str(out, "\n\n");
        },
        LayoutDirection::RightLeft => {
            push_str(out, "right to left direction");
            push_str(out, "\n\n");
        },
        LayoutDirection::BottomTop => {
            push_str(out, "bottom to top direction");
            push_str(out, "\n\n");
        },
    }
    let ghost ns = dnode_views(g.nodes@);
    let ghost fsg = |sg: Subgraph| plantuml_package(ns, subgraph_view(sg));
    let ghost h0 = out@;
    let mut i: usize = 0;
    while i < g.subgraphs.len()
        invariant
            i <= g.subgraphs@.len(),
            ns == dnode_views(g.nodes@),
            forall|x: Subgraph| #[trigger] fsg(x) == plantuml_package(ns, subgraph_view(x)),
            out@ == h0 + collect(g.subgraphs@.take(i as int), fsg),
        decreases g.subgraphs@.len() - i,
    {
        proof {
            lemma_collect_take(g.subgraphs@, fsg, i as int);
        }
        let sg = &g.subgraphs[i];
        push_str(out, "package \"");
        push_str(out, sg.label.as_str());
        push_str(out, "\" {\n");
        let ghost ids = string_views(sg.node_ids@);
        let ghost fid = |nid: Seq<char>| match find_node(ns, nid, 0) {
            Some(n) => plantuml_class_node(n, "    "@),
            None => seq![],
        };
        let ghost h2 = out@;
        let mut j: usize = 0;
        while j < sg.node_ids.len()
            invariant
                j <= sg.node_ids@.len(),
                ids == string_views(sg.node_ids@),
                ns == dnode_views(g.nodes@),
                forall|x: Seq<char>| #[trigger] fid(x) == (match find_node(ns, x, 0) {
                    Some(n) => plantuml_class_node(n, "    "@),
                    None => seq![],
                }),
                out@ == h2 + collect(ids.take(j as int), fid),
            decreases sg.node_ids@.len() - j,
        {
            proof {
                lemma_collect_take(ids, fid, j as int);
            }
            match find_node_exec(&g.nodes, sg.node_ids[j].as_str()) {
                Some(node) => {
                    push_plantuml_class_node(out, node, "    ");
                },
                None => {},
            }
            assert(out@ =~= h2 + collect(ids.take(j + 1), fid));
            j = j + 1;
        }
        assert(ids.take(ids.len() as int) =~= ids);
        push_str(out, "}\n\n");
        proof {
            assert(fid =~= |nid: Seq<char>| match find_node(ns, nid, 0) {
                Some(n) => plantuml_class_node(n, "    "@),
                None => seq![],
            });
        }
        assert(out@ =~= h0 + collect(g.subgraphs@.take(i + 1), fsg));
        i = i + 1;
    }
    assert(g.subgraphs@.take(g.subgraphs@.len() as int) =~= g.subgraphs@);
    let members = member_ids_of(&g.subgraphs);
    let ghost mv = member_ids(g.subgraphs@);
    let ghost fnode = |n: DNodeView| if mv.contains(n.id) { seq![] } else { plantuml_class_node(n, ""@) };
    let ghost h3 = out@;
    let mut i: usize = 0;
    while i < g.nodes.len()
        invariant
            i <= g.nodes@.len(),
            ns == dnode_views(g.nodes@),
            members.deep_view() == mv,
            forall|x: DNodeView| #[trigger] fnode(x) == (if mv.contains(x.id) { seq![] } else { plantuml_class_node(x, ""@) }),
            out@ == h3 + collect(ns.take(i as int), fnode),
        decreases g.nodes@.len() - i,
    {
        proof {
            lemma_collect_take(ns, fnode, i as int);
        }
        let n = &g.nodes[i];
        if !listed(&members, n.id.as_str()) {
            push_plantuml_class_node(out, n, "");
        }
        assert(out@ =~= h3 + collect(ns.take(i + 1), fnode));
        i = i + 1;
    }
    assert(ns.take(ns.len() as int) =~= ns);
    push_str(out, "\n");
    let ghost ev = dedge_views(g.edges@);
    let ghost fedge = |e: DEdgeView| e.source + " "@ + plantuml_arrow(e.kind) + " "@ + e.target + colon_label(e.label) + "\n"@;
    let ghost h4 = out@;
    let mut i: usize = 0;
    while i < g.edges.len()
        invariant
            i <= g.edges@.len(),
            ev == dedge_views(g.edges@),
            forall|x: DEdgeView| #[trigger] fedge(x) == x.source + " "@ + plantuml_arrow(x.kind) + " "@ + x.target + colon_label(x.label) + "\n"@,
            out@ == h4 + collect(ev.take(i as int), fedge),
        decreases g.edges@.len() - i,
    {
        proof {
            lemma_collect_take(ev, fedge, i as int);
        }
        let e = &g.edges[i];
        push_str(out, e.source.as_str());
        push_str(out, " ");
        push_str(out, plantuml_arrow_of(e.kind));
        push_str(out, " ");
        push_str(out, e.target.as_str());
        push_colon_label(out, &e.label);
        push_str(out, "\n");
        assert(out@ =~= h4 + collect(ev.take(i + 1), fedge));
        i = i + 1;
    }
    assert(ev.take(ev.len() as int) =~= ev);
    proof {
        assert(fsg =~= |sg: Subgraph| plantuml_package(dnode_views(g.nodes@), subgraph_view(sg)));
        assert(fnode =~= |n: DNodeView| if member_ids(g.subgraphs@).contains(n.id) { seq![] } else { plantuml_class_node(n, ""@) });
        assert(fedge =~= |e: DEdgeView| e.source + " "@ + plantuml_arrow(e.kind) + " "@ + e.target + colon_label(e.label) + "\n"@);
    }
    assert(out@ =~= old(out)@ + plantuml_class_text(*g));
}

/// Appends a state of a PlantUML state diagram.
fn push_plantuml_state(out: &mut String, n: &DiagramNode)
    ensures
        final(out)@ == old(out)@ + plantuml_state(n@),
{
    if n.kind == NodeKind::State {
        push_str(out, "state \"");
        push_str(out, n.label.as_str());
        push_str(out, "\" as ");
        push_str(out, n.id.as_str());
        if n.attributes.len() == 0 {
            push_str(out, "\n");
        } else {
            push_str(out, " {\n");
            let mut pre = own("    ");
            push_str(&mut pre, n.id.as_str());
            push_str(&mut pre, " : ");
            push_attr_lines(out, n, pre.as_str(), " / ", "\n");
            push_str(out, "}\n");
            proof {
                assert((|a: (Seq<char>, Seq<char>)| pre@ + a.0 + " / "@ + a.1 + "\n"@) =~= (|a: (Seq<char>, Seq<char>)| "    "@ + n.id@ + " : "@ + a.0 + " / "@ + a.1 + "\n"@));
            }
        }
    }
    assert(out@ =~= old(out)@ + plantuml_state(n@));
}

/// Appends the PlantUML state diagram of a graph.
#[verifier::spinoff_prover]
fn push_plantuml_stm(out: &mut String, g: &DiagramGraph)
    ensures
        final(out)@ == old(out)@ + plantuml_stm_text(*g),
{
    let ghost ns = dnode_views(g.nodes@);
    let ghost fnode = |n: DNodeView| plantuml_state(n);
    let mut i: usize = 0;
    while i < g.nodes.len()
        invariant
            i <= g.nodes@.len(),
            ns == dnode_views(g.nodes@),
            forall|x: DNodeView| #[trigger] fnode(x) == plantuml_state(x),
            out@ == old(out)@ + collect(ns.take(i as int), fnode),
        decreases g.nodes@.len() - i,
    {
        proof {
            lemma_collect_take(ns, fnode, i as int);
        }
        push_plantuml_state(out, &g.nodes[i]);
        assert(out@ =~= old(out)@ + collect(ns.take(i + 1), fnode));
        i = i + 1;
    }
    assert(ns.take(ns.len() as int) =~= ns);
    push_str(out, "\n");
    let ghost ev = dedge_views(g.edges@);
    let ghost fedge = |e: DEdgeView| stm_source(e.source) + " --> "@ + stm_target(e.target) + colon_label(e.label) + "\n"@;
    let ghost h2 = out@;
    let mut i: usize = 0;
    while i < g.edges.len()
        invariant
            i <= g.edges@.len(),
            ev == dedge_views(g.edges@),
            forall|x: DEdgeView| #[trigger] fedge(x) == stm_source(x.source) + " --> "@ + stm_target(x.target) + colon_label(x.label) + "\n"@,
            out@ == h2 + collect(ev.take(i as int), fedge),
        decreases g.edges@.len() - i,
    {
        proof {
            lemma_collect_take(ev, fedge, i as int);
        }
        let e = &g.edges[i];
        push_stm_end(out, e.source.as_str(), "__initial__");
        push_str(out, " --> ");
        push_stm_end(out, e.target.as_str(), "__final__");
        push_colon_label(out, &e.label);
        push_str(out, "\n");
        assert(out@ =~= h2 + collect(ev.take(i + 1), fedge));
        i = i + 1;
    }
    assert(ev.take(ev.len() as int) =~= ev);
    proof {
        assert(fnode =~= |n: DNodeView| plantuml_state(n));
        assert(fedge =~= |e: DEdgeView| stm_source(e.source) + " --> "@ + stm_target(e.target) + colon_label(e.label) + "\n"@);
    }
    assert(out@ =~= old(out)@ + plantuml_stm_text(*g));
}

/// Appends `[label]` and a line break for a labelled activity edge.
fn push_bracket_label(out: &mut String, l: &Option<String>)
    ensures
        final(out)@ == old(out)@ + bracket_label(crate::diagram::graph::opt_text(*l)),
{
    match l {
        Some(t) => {
            push_str(out, "[");
            push_str(out, t.as_str());
            push_str(out, "]\n");
        },
        None => {},
    }
    assert(out@ =~= old(out)@ + bracket_label(crate::diagram::graph::opt_text(*l)));
}

/// Appends the PlantUML activity diagram of a graph.
#[verifier::spinoff_prover]
fn push_plantuml_activity(out: &mut String, g: &DiagramGraph)
    ensures
        final(out)@ == old(out)@ + plantuml_activity_text(*g),
{
    push_str(out, "start\n");
    let ghost ns = dnode_views(g.nodes@);
    let ghost ev = dedge_views(g.edges@);
    let ghost fedge = |e: DEdgeView| match find_node(ns, e.target, 0) {
        Some(n) => plantuml_activity_step(bracket_label(e.label), n),
        None => seq![],
    };
    let ghost h = out@;
    let mut i: usize = 0;
    while i < g.edges.len()
        invariant
            i <= g.edges@.len(),
            ns == dnode_views(g.nodes@),
            ev == dedge_views(g.edges@),
            forall|x: DEdgeView| #[trigger] fedge(x) == (match find_node(ns, x.target, 0) {
                Some(n) => plantuml_activity_step(bracket_label(x.label), n),
                None => seq![],
            }),
            out@ == h + collect(ev.take(i as int), fedge),
        decreases g.edges@.len() - i,
    {
        proof {
            lemma_collect_take(ev, fedge, i as int);
        }
        let e = &g.edges[i];
        match find_node_exec(&g.nodes, e.target.as_str()) {
            Some(node) => {
                push_bracket_label(out, &e.label);
                match node.kind {
                    NodeKind::FinalState => push_str(out, "stop\n"),
                    NodeKind::Decision => {
                        push_str(out, "if (");
                        push_str(out, node.label.as_str());
                        push_str(out, ") then (yes)\n");
                    },
                    NodeKind::Fork => push_str(out, "fork\n"),
                    NodeKind::Join => push_str(out, "end fork\n"),
                    _ => {
                        push_str(out, ":");
                        push_str(out, node.label.as_str());
                        push_str(out, ";");
                        push_str(out, "\n");
                    },
                }
            },
            None => {},
        }
        assert(out@ =~= h + collect(ev.take(i + 1), fedge));
        i = i + 1;
    }
    assert(ev.take(ev.len() as int) =~= ev);
    proof {
        assert(fedge =~= |e: DEdgeView| match find_node(dnode_views(g.nodes@), e.target, 0) {
            Some(n) => plantuml_activity_step(bracket_label(e.label), n),
            None => seq![],
        });
    }
    assert(out@ =~= old(out)@ + plantuml_activity_text(*g));
}

/// The value of the first attribute named `key`, or an empty slice.
fn first_attr_of<'a>(n: &'a DiagramNode, key: &str) -> (r: &'a str)
    ensures
        r@ == first_attr(n@.attributes, key@),
{
    let ghost attrs = n@.attributes;
    assert(attrs.skip(0) =~= attrs);
    let mut i: usize = 0;
    while i < n.attributes.len()
        invariant
            i <= n.attributes@.len(),
            attrs == n@.attributes,
            first_attr(attrs, key@) == first_attr(attrs.skip(i as int), key@),
        decreases n.attributes@.len() - i,
    {
        assert(attrs.skip(i as int).drop_first() =~= attrs.skip(i + 1));
        assert(attrs.skip(i as int)[0] == (n.attributes@[i as int].0@, n.attributes@[i as int].1@));
        if str_eq(n.attributes[i].0.as_str(), key) {
            return n.attributes[i].1.as_str();
        }
        i = i + 1;
    }
    assert(attrs.skip(i as int) =~= seq![]);
    proof {
        reveal_strlit("");
    }
    ""
}

/// Appends a node of a PlantUML requirements diagram.
fn push_plantuml_req_node(out: &mut String, n: &DiagramNode)
    ensures
        final(out)@ == old(out)@ + plantuml_req_node(n@),
{
    push_str(out, "rectangle \"");
    push_str(out, n.label.as_str());
    if n.kind == NodeKind::Requirement {
        push_str(out, "\\n");
        push_str(out, first_attr_of(n, "text"));
        push_str(out, "\" as ");
        push_str(out, n.id.as_str());
        push_str(out, " <<requirement>>\n");
    } else {
        push_str(out, "\" as ");
        push_str(out, n.id.as_str());
        push_space_stereo(out, &n.stereotype);
        push_str(out, "\n");
    }
    assert(out@ =~= old(out)@ + plantuml_req_node(n@));
}

/// Appends the PlantUML requirements diagram of a graph.
#[verifier::spinoff_prover]
fn push_plantuml_req(out: &mut String, g: &DiagramGraph)
    ensures
        final(out)@ == old(out)@ + plantuml_req_text(*g),
{
    let ghost ns = dnode_views(g.nodes@);
    let ghost fnode = |n: DNodeView| plantuml_req_node(n);
    let mut i: usize = 0;
    while i < g.nodes.len()
        invariant
            i <= g.nodes@.len(),
            ns == dnode_views(g.nodes@),
            forall|x: DNodeView| #[trigger] fnode(x) == plantuml_req_node(x),
            out@ == old(out)@ + collect(ns.take(i as int), fnode),
        decreases g.nodes@.len() - i,
    {
        proof {
            lemma_collect_take(ns, fnode, i as int);
        }
        push_plantuml_req_node(out, &g.nodes[i]);
        assert(out@ =~= old(out)@ + collect(ns.take(i + 1), fnode));
        i = i + 1;
    }
    assert(ns.take(ns.len() as int) =~= ns);
    push_str(out, "\n");
    let ghost ev = dedge_views(g.edges@);
    let ghost fedge = |e: DEdgeView| e.source + " "@ + plantuml_req_style(e.kind) + " "@ + e.target + colon_label(e.label) + "\n"@;
    let ghost h2 = out@;
    let mut i: usize = 0;
    while i < g.edges.len()
        invariant
            i <= g.edges@.len(),
            ev == dedge_views(g.edges@),
            forall|x: DEdgeView| #[trigger] fedge(x) == x.source + " "@ + plantuml_req_style(x.kind) + " "@ + x.target + colon_label(x.label) + "\n"@,
            out@ == h2 + collect(ev.take(i as int), fedge),
        decreases g.edges@.len() - i,
    {
        proof {
            lemma_collect_take(ev, fedge, i as int);
        }
        let e = &g.edges[i];
        push_str(out, e.source.as_str());
        push_str(out, " ");
        if e.kind == EdgeKind::Satisfy || e.kind == EdgeKind::Verify {
            push_str(out, "..>");
        } else {
            push_str(out, "-->");
        }
        push_str(out, " ");
        push_str(out, e.target.as_str());
        push_colon_label(out, &e.label);
        push_str(out, "\n");
        assert(out@ =~= h2 + collect(ev.take(i + 1), fedge));
        i = i + 1;
    }
    assert(ev.take(ev.len() as int) =~= ev);
    proof {
        assert(fnode =~= |n: DNodeView| plantuml_req_node(n));
        assert(fedge =~= |e: DEdgeView| e.source + " "@ + plantuml_req_style(e.kind) + " "@ + e.target + colon_label(e.label) + "\n"@);
    }
    assert(out@ =~= old(out)@ + plantuml_req_text(*g));
}

/// Render a graph as PlantUML text.
pub fn render_plantuml(graph: &DiagramGraph) -> (r: String)
    ensures
        r@ == plantuml_text(*graph),
{
    let mut out = own("@startuml\n");
    push_str(&mut out, "title ");
    push_str(&mut out, graph.title.as_str());
    push_str(&mut out, "\n\n");
    match graph.kind {
        DiagramKind::StateTransitionView => push_plantuml_stm(&mut out, graph),
        DiagramKind::ActionFlowView => push_plantuml_activity(&mut out, graph),
        DiagramKind::GridView(GridViewFlavor::Requirements) => push_plantuml_req(&mut out, graph),
        _ => push_plantuml_class(&mut out, graph),
    }
    push_str(&mut out, "@enduml\n");
    assert(out@ =~= plantuml_text(*graph));
    out
}

// ------------------------------------------------------------------------
// D2
// ------------------------------------------------------------------------

/// The D2 code of a layout direction.
pub open spec fn d2_dir(d: LayoutDirection) -> Seq<char> {
    match d {
        LayoutDirection::TopBottom => "down"@,
        LayoutDirection::LeftRight => "right"@,
        LayoutDirection::BottomTop => "up"@,
        LayoutDirection::RightLeft => "left"@,
    }
}

/// A D2-safe identifier: the pseudo-states get names, and spaces and dots
/// become underscores.
pub open spec fn d2_id(id: Seq<char>) -> Seq<char> {
    if id == "__initial__"@ {
        "initial"@
    } else if id == "__final__"@ {
        "final"@
    } else {
        crate::text::replace_char(crate::text::replace_char(id, ' ', '_'), '.', '_')
    }
}

/// The D2 shape of a node kind.
pub open spec fn d2_shape(k: NodeKind) -> Seq<char> {
    match k {
        NodeKind::Port => "diamond"@,
        NodeKind::State => "oval"@,
        NodeKind::InitialState | NodeKind::FinalState => "circle"@,
        NodeKind::Requirement | NodeKind::Note => "page"@,
        NodeKind::Constraint => "parallelogram"@,
        NodeKind::Package => "package"@,
        NodeKind::Decision => "diamond"@,
        _ => "rectangle"@,
    }
}

/// The D2 block of a node.
pub open spec fn d2_node(n: DNodeView, indent: Seq<char>) -> Seq<char> {
    if n.attributes.len() == 0 && n.stereotype is None {
        if n.label.len() == 0 {
            indent + d2_id(n.id) + ": { shape: "@ + d2_shape(n.kind) + " }\n"@
        } else {
            indent + d2_id(n.id) + ": "@ + n.label + " { shape: "@ + d2_shape(n.kind) + " }\n"@
        }
    } else {
        indent + d2_id(n.id) + ": |md\n"@ + indent + "  "@ + n.label + (match n.stereotype {
            Some(st) => "\\n"@ + st,
            None => seq![],
        }) + d2_attr_text(n) + "\n"@ + indent + "| { shape: "@ + d2_shape(n.kind) + " }\n"@
    }
}

/// A D2 container for a subgraph.
pub open spec fn d2_container(ns: Seq<DNodeView>, sg: SubgraphView) -> Seq<char> {
    d2_id(sg.0) + ": {\n"@ + "  label: \""@ + sg.1 + "\"\n"@ + collect(
        sg.2,
        |nid: Seq<char>|
            match find_node(ns, nid, 0) {
                Some(n) => d2_node(n, "  "@),
                None => seq![],
            },
    ) + "}\n\n"@
}

/// The D2 arrow of an edge kind.
pub open spec fn d2_arrow(k: EdgeKind) -> Seq<char> {
    if k == EdgeKind::Specialization || k == EdgeKind::Composition {
        "<-"@
    } else {
        "->"@
    }
}

/// The D2 style block of an edge kind (dashed for satisfy, verify and
/// dependency edges).
pub open spec fn d2_edge_style(k: EdgeKind) -> Seq<char> {
    if k == EdgeKind::Satisfy || k == EdgeKind::Verify || k == EdgeKind::Dependency {
        " {\n    style.stroke-dash: 3\n  }"@
    } else {
        seq![]
    }
}

/// The D2 line of an edge.
pub open spec fn d2_edge_line(e: DEdgeView) -> Seq<char> {
    d2_id(e.source) + " "@ + d2_arrow(e.kind) + " "@ + d2_id(e.target) + " "@ + (match e.label {
        Some(l) => ": "@ + l,
        None => seq![],
    }) + d2_edge_style(e.kind) + "\n"@
}

/// The D2 text of a graph.
pub open spec fn d2_text(g: DiagramGraph) -> Seq<char> {
    let ns = dnode_views(g.nodes@);
    let members = member_ids(g.subgraphs@);
    "title: |\n  "@ + g.title@ + "\n|\n\n"@ + "direction: "@ + d2_dir(g.direction) + "\n\n"@
        + collect(g.subgraphs@, |sg: Subgraph| d2_container(ns, subgraph_view(sg))) + collect(
        ns,
        |n: DNodeView|
            if members.contains(n.id) {
                seq![]
            } else {
                d2_node(n, ""@)
            },
    ) + "\n"@ + collect(dedge_views(g.edges@), |e: DEdgeView| d2_edge_line(e))
}

/// The D2 code of a layout direction.
fn d2_dir_of(d: LayoutDirection) -> (r: &'static str)
    ensures
        r@ == d2_dir(d),
{
    match d {
        LayoutDirection::TopBottom => "down",
        LayoutDirection::LeftRight => "right",
        LayoutDirection::BottomTop => "up",
        LayoutDirection::RightLeft => "left",
    }
}

/// The D2 shape of a node kind.
fn d2_shape_of(k: NodeKind) -> (r: &'static str)
    ensures
        r@ == d2_shape(k),
{
    match k {
        NodeKind::Port => "diamond",
        NodeKind::State => "oval",
        NodeKind::InitialState | NodeKind::FinalState => "circle",
        NodeKind::Requirement | NodeKind::Note => "page",
        NodeKind::Constraint => "parallelogram",
        NodeKind::Package => "package",
        NodeKind::Decision => "diamond",
        _ => "rectangle",
    }
}

/// Appends a D2-safe identifier.
fn push_d2_id(out: &mut String, id: &str)
    ensures
        final(out)@ == old(out)@ + d2_id(id@),
{
    if str_eq(id, "__initial__") {
        push_str(out, "initial");
    } else if str_eq(id, "__final__") {
        push_str(out, "final");
    } else {
        let cs = crate::text::chars_of(id);
        let a = crate::text::replace_char_exec(&cs, ' ', '_');
        let b = crate::text::replace_char_exec(&a, '.', '_');
        crate::text::push_seq(out, &b);
    }
}

/// The attribute text of a D2 markdown block.
pub open spec fn d2_attr_text(n: DNodeView) -> Seq<char> {
    if n.attributes.len() == 0 {
        seq![]
    } else {
        "\\n"@ + join_with(
            n.attributes.map_values(|a: (Seq<char>, Seq<char>)| a.0 + ": "@ + a.1),
            "\\n"@,
        )
    }
}

/// Appends the attribute text of a D2 markdown block.
#[verifier::spinoff_prover]
fn push_d2_attrs(out: &mut String, n: &DiagramNode)
    ensures
        final(out)@ == old(out)@ + d2_attr_text(n@),
{
    let ghost parts = n@.attributes.map_values(|a: (Seq<char>, Seq<char>)| a.0 + ": "@ + a.1);
    if n.attributes.len() > 0 {
        let mut i: usize = 0;
        while i < n.attributes.len()
            invariant
                i <= n.attributes@.len(),
                n.attributes@.len() > 0,
                parts == n@.attributes.map_values(|a: (Seq<char>, Seq<char>)| a.0 + ": "@ + a.1),
                i == 0 ==> out@ == old(out)@,
                i > 0 ==> out@ == old(out)@ + "\\n"@ + join_with(parts.take(i as int), "\\n"@),
            decreases n.attributes@.len() - i,
        {
            push_str(out, "\\n");
            push_str(out, n.attributes[i].0.as_str());
            push_str(out, ": ");
            push_str(out, n.attributes[i].1.as_str());
            proof {
                assert(parts[i as int] == n.attributes@[i as int].0@ + ": "@ + n.attributes@[i as int].1@);
                if i == 0 {
                    assert(parts.take(1) =~= seq![parts[0]]);
                } else {
                    lemma_join_step(parts, "\\n"@, i as int);
                }
            }
            i = i + 1;
        }
        assert(parts.take(parts.len() as int) =~= parts);
    }
    assert(out@ =~= old(out)@ + d2_attr_text(n@));
}

/// Appends the D2 block of a node.
#[verifier::spinoff_prover]
fn push_d2_node(out: &mut String, n: &DiagramNode, indent: &str)
    ensures
        final(out)@ == old(out)@ + d2_node(n@, indent@),
{
    push_str(out, indent);
    push_d2_id(out, n.id.as_str());
    if n.attributes.len() == 0 && n.stereotype.is_none() {
        if n.label.as_str().is_empty() {
            push_str(out, ": { shape: ");
        } else {
            push_str(out, ": ");
            push_str(out, n.label.as_str());
            push_str(out, " { shape: ");
        }
        push_str(out, d2_shape_of(n.kind));
        push_str(out, " }\n");
        assert(out@ =~= old(out)@ + d2_node(n@, indent@));
    } else {
        push_str(out, ": |md\n");
        push_str(out, indent);
        push_str(out, "  ");
        push_str(out, n.label.as_str());
        match &n.stereotype {
            Some(st) => {
                push_str(out, "\\n");
                push_str(out, st.as_str());
            },
            None => {},
        }
        push_d2_attrs(out, n);
        push_str(out, "\n");
        push_str(out, indent);
        push_str(out, "| { shape: ");
        push_str(out, d2_shape_of(n.kind));
        push_str(out, " }\n");
        assert(out@ =~= old(out)@ + d2_node(n@, indent@));
    }
}

/// Appends the D2 line of an edge.
fn push_d2_edge(out: &mut String, e: &DiagramEdge)
    ensures
        final(out)@ == old(out)@ + d2_edge_line(e@),
{
    push_d2_id(out, e.source.as_str());
    push_str(out, " ");
    if e.kind == EdgeKind::Specialization || e.kind == EdgeKind::Composition {
        push_str(out, "<-");
    } else {
        push_str(out, "->");
    }
    push_str(out, " ");
    push_d2_id(out, e.target.as_str());
    push_str(out, " ");
    match &e.label {
        Some(l) => {
            push_str(out, ": ");
            push_str(out, l.as_str());
        },
        None => {},
    }
    if e.kind == EdgeKind::Satisfy || e.kind == EdgeKind::Verify || e.kind == EdgeKind::Dependency {
        push_str(out, " {\n    style.stroke-dash: 3\n  }");
    }
    push_str(out, "\n");
    assert(out@ =~= old(out)@ + d2_edge_line(e@));
}

/// Render a graph as D2 text: title and direction, a container per
/// subgraph, a block per remaining node and a line per edge.
#[verifier::spinoff_prover]
pub fn render_d2(graph: &DiagramGraph) -> (r: String)
    ensures
        r@ == d2_text(*graph),
{
    let mut out = own("title: |\n  ");
    push_str(&mut out, graph.title.as_str());
    push_str(&mut out, "\n|\n\n");
    push_str(&mut out, "direction: ");
    push_str(&mut out, d2_dir_of(graph.direction));
    push_str(&mut out, "\n\n");
    let ghost ns = dnode_views(graph.nodes@);
    let ghost fsg = |sg: Subgraph| d2_container(ns, subgraph_view(sg));
    let ghost h0 = out@;
    let mut i: usize = 0;
    while i < graph.subgraphs.len()
        invariant
            i <= graph.subgraphs@.len(),
            ns == dnode_views(graph.nodes@),
            forall|x: Subgraph| #[trigger] fsg(x) == d2_container(ns, subgraph_view(x)),
            out@ == h0 + collect(graph.subgraphs@.take(i as int), fsg),
        decreases graph.subgraphs@.len() - i,
    {
        proof {
            lemma_collect_take(graph.subgraphs@, fsg, i as int);
        }
        let sg = &graph.subgraphs[i];
        push_d2_id(&mut out, sg.id.as_str());
        push_str(&mut out, ": {\n");
        push_str(&mut out, "  label: \"");
        push_str(&mut out, sg.label.as_str());
        push_str(&mut out, "\"\n");
        let ghost ids = string_views(sg.node_ids@);
        let ghost fid = |nid: Seq<char>| match find_node(ns, nid, 0) {
            Some(n) => d2_node(n, "  "@),
            None => seq![],
        };
        let ghost h2 = out@;
        let mut j: usize = 0;
        while j < sg.node_ids.len()
            invariant
                j <= sg.node_ids@.len(),
                ids == string_views(sg.node_ids@),
                ns == dnode_views(graph.nodes@),
                forall|x: Seq<char>| #[trigger] fid(x) == (match find_node(ns, x, 0) {
                    Some(n) => d2_node(n, "  "@),
                    None => seq![],
                }),
                out@ == h2 + collect(ids.take(j as int), fid),
            decreases sg.node_ids@.len() - j,
        {
            proof {
                lemma_collect_take(ids, fid, j as int);
            }
            match find_node_exec(&graph.nodes, sg.node_ids[j].as_str()) {
                Some(node) => {
                    push_d2_node(&mut out, node, "  ");
                },
                None => {},
            }
            assert(out@ =~= h2 + collect(ids.take(j + 1), fid));
            j = j + 1;
        }
        assert(ids.take(ids.len() as int) =~= ids);
        push_str(&mut out, "}\n\n");
        proof {
            assert(fid =~= |nid: Seq<char>| match find_node(ns, nid, 0) {
                Some(n) => d2_node(n, "  "@),
                None => seq![],
            });
        }
        assert(out@ =~= h0 + collect(graph.subgraphs@.take(i + 1), fsg));
        i = i + 1;
    }
    assert(graph.subgraphs@.take(graph.subgraphs@.len() as int) =~= graph.subgraphs@);
    let members = member_ids_of(&graph.subgraphs);
    let ghost mv = member_ids(graph.subgraphs@);
    let ghost fnode = |n: DNodeView| if mv.contains(n.id) { seq![] } else { d2_node(n, ""@) };
    let ghost h3 = out@;
    let mut i: usize = 0;
    while i < graph.nodes.len()
        invariant
            i <= graph.nodes@.len(),
            ns == dnode_views(graph.nodes@),
            members.deep_view() == mv,
            forall|x: DNodeView| #[trigger] fnode(x) == (if mv.contains(x.id) { seq![] } else { d2_node(x, ""@) }),
            out@ == h3 + collect(ns.take(i as int), fnode),
        decreases graph.nodes@.len() - i,
    {
        proof {
            lemma_collect_take(ns, fnode, i as int);
        }
        let n = &graph.nodes[i];
        if !listed(&members, n.id.as_str()) {
            push_d2_node(&mut out, n, "");
        }
        assert(out@ =~= h3 + collect(ns.take(i + 1), fnode));
        i = i + 1;
    }
    assert(ns.take(ns.len() as int) =~= ns);
    push_str(&mut out, "\n");
    let ghost ev = dedge_views(graph.edges@);
    let ghost fedge = |e: DEdgeView| d2_edge_line(e);
    let ghost h4 = out@;
    let mut i: usize = 0;
    while i < graph.edges.len()
        invariant
            i <= graph.edges@.len(),
            ev == dedge_views(graph.edges@),
            forall|x: DEdgeView| #[trigger] fedge(x) == d2_edge_line(x),
            out@ == h4 + collect(ev.take(i as int), fedge),
        decreases graph.edges@.len() - i,
    {
        proof {
            lemma_collect_take(ev, fedge, i as int);
        }
        push_d2_edge(&mut out, &graph.edges[i]);
        assert(out@ =~= h4 + collect(ev.take(i + 1), fedge));
        i = i + 1;
    }
    assert(ev.take(ev.len() as int) =~= ev);
    proof {
        assert(fsg =~= |sg: Subgraph| d2_container(dnode_views(graph.nodes@), subgraph_view(sg)));
        assert(fnode =~= |n: DNodeView| if member_ids(graph.subgraphs@).contains(n.id) { seq![] } else { d2_node(n, ""@) });
        assert(fedge =~= |e: DEdgeView| d2_edge_line(e));
    }
    assert(out@ =~= d2_text(*graph));
    out
}

/// The text of a graph in a format.
pub open spec fn rendered(g: DiagramGraph, format: DiagramFormat) -> Seq<char> {
    match format {
        DiagramFormat::Mermaid => mermaid_text(g),
        DiagramFormat::PlantUml => plantuml_text(g),
        DiagramFormat::Dot => dot_text(g),
        DiagramFormat::D2 => d2_text(g),
    }
}

/// Render a graph in the given format.
pub fn render(graph: &DiagramGraph, format: DiagramFormat) -> (r: String)
    ensures
        r@ == rendered(*graph, format),
{
    match format {
        DiagramFormat::Mermaid => render_mermaid(graph),
        DiagramFormat::PlantUml => render_plantuml(graph),
        DiagramFormat::Dot => render_dot(graph),
        DiagramFormat::D2 => render_d2(graph),
    }
}

/// In DOT, a composition edge and no other ends in a diamond, and a
/// specialization edge and no other ends in an empty (hollow triangle)
/// arrowhead; so the two are never drawn alike.
pub proof fn law_dot_arrowheads(k: EdgeKind)
    ensures
        crate::text::ends_with(dot_edge_style(k), "arrowhead=diamond"@) <==> k == EdgeKind::Composition,
        crate::text::ends_with(dot_edge_style(k), "arrowhead=empty"@) <==> k == EdgeKind::Specialization,
        dot_edge_style(EdgeKind::Composition) != dot_edge_style(EdgeKind::Specialization),
{
    reveal_strlit("arrowhead=diamond");
    reveal_strlit("arrowhead=empty");
    reveal_strlit("style=solid, arrowhead=empty");
    reveal_strlit("style=solid, arrowhead=diamond");
    reveal_strlit("style=dashed, arrowhead=open");
    reveal_strlit("style=solid");
    let d = "arrowhead=diamond"@;
    let e = "arrowhead=empty"@;
    let s = dot_edge_style(k);
    if k == EdgeKind::Composition {
        assert(s.skip(s.len() - d.len()) =~= d);
        assert(s.skip(s.len() - e.len())[0] != e[0]);
    } else if k == EdgeKind::Specialization {
        assert(s.skip(s.len() - e.len()) =~= e);
        assert(s.skip(s.len() - d.len())[0] != d[0]);
    } else if k == EdgeKind::Satisfy || k == EdgeKind::Verify || k == EdgeKind::Dependency {
        assert(s.skip(s.len() - d.len())[0] != d[0]);
        assert(s.skip(s.len() - e.len())[0] != e[0]);
    } else {
        assert(s.len() < e.len());
    }
    let c = dot_edge_style(EdgeKind::Composition);
    assert(c.len() != dot_edge_style(EdgeKind::Specialization).len());
}

/// In a Mermaid class diagram, a composition edge and no other uses the
/// `*--` arrow, and a specialization edge and no other the `<|--` arrow.
pub proof fn law_mermaid_arrows(k: EdgeKind)
    ensures
        mermaid_arrow(k) == "*--"@ <==> k == EdgeKind::Composition,
        mermaid_arrow(k) == "<|--"@ <==> k == EdgeKind::Specialization,
        mermaid_arrow(EdgeKind::Composition) != mermaid_arrow(EdgeKind::Specialization),
{
    reveal_strlit("*--");
    reveal_strlit("<|--");
    reveal_strlit("--");
    reveal_strlit("..>");
    reveal_strlit("-->");
    let a = mermaid_arrow(k);
    if k != EdgeKind::Composition {
        assert(a.len() != 3 || a[0] != '*');
    }
    if k != EdgeKind::Specialization {
        assert(a.len() != 4);
    }
    assert(mermaid_arrow(EdgeKind::Composition).len() != mermaid_arrow(EdgeKind::Specialization).len());
}

/// In DOT, satisfy, verify and dependency edges and no others are dashed;
/// in a Mermaid class diagram they and no others use the dotted `..>` arrow.
pub proof fn law_dashed_edges(k: EdgeKind)
    ensures
        crate::text::starts_with(dot_edge_style(k), "style=dashed"@)
            <==> (k == EdgeKind::Satisfy || k == EdgeKind::Verify || k == EdgeKind::Dependency),
        mermaid_arrow(k) == "..>"@ <==> (k == EdgeKind::Satisfy || k == EdgeKind::Verify || k == EdgeKind::Dependency),
{
    reveal_strlit("style=dashed");
    reveal_strlit("style=solid, arrowhead=empty");
    reveal_strlit("style=solid, arrowhead=diamond");
    reveal_strlit("style=dashed, arrowhead=open");
    reveal_strlit("style=solid");
    reveal_strlit("*--");
    reveal_strlit("<|--");
    reveal_strlit("--");
    reveal_strlit("..>");
    reveal_strlit("-->");
    let p = "style=dashed"@;
    let s = dot_edge_style(k);
    if k == EdgeKind::Satisfy || k == EdgeKind::Verify || k == EdgeKind::Dependency {
        assert(s.take(p.len() as int) =~= p);
    } else if s.len() >= p.len() {
        assert(s.take(p.len() as int)[6] != p[6]);
    }
    let a = mermaid_arrow(k);
    if !(k == EdgeKind::Satisfy || k == EdgeKind::Verify || k == EdgeKind::Dependency) {
        assert(a.len() != 3 || a[0] != '.');
    }
}

} // verus!
