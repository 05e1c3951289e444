//! Diagram builders: turn model data into a [`DiagramGraph`].
use vstd::prelude::*;
use crate::cache::{contains_str, filter_seq, in_list, lemma_filter_take};
use crate::diagram::graph::{
    dedge_views, dnode_views, string_views, DEdgeView, DNodeView, DiagramEdge, DiagramGraph,
    DiagramKind, DiagramNode, EdgeKind, GeneralViewFlavor, GridViewFlavor, LayoutDirection,
    NodeKind, Subgraph, SubgraphView,
};
use crate::model::{
    collect, def_kind_label, first_def_index, lemma_collect_take, opt_view, simple_name,
    simple_name_spec, usages_with_parent, Allocation, DefKind, Definition, Flow, Model,
    Satisfaction, Span, Usage, Verification,
};
use crate::query::{list_elements, requirement_defs, selected_defs, selected_usages, ListFilter};
use crate::text::{chars_of, first_segment, first_segment_exec, own, push_str, str_eq, string_of};

verus! {

/// `prefix [name]`, the title of a diagram of `name`.
pub open spec fn title_text(prefix: Seq<char>, name: Seq<char>) -> Seq<char> {
    prefix + " ["@ + name + "]"@
}

/// `<<s>>`.
pub open spec fn guillemets(s: Seq<char>) -> Seq<char> {
    "<<"@ + s + ">>"@
}

/// A node for a usage-drawn element whose label is its id.
pub open spec fn plain_node(
    id: Seq<char>,
    kind: NodeKind,
    stereotype: Option<Seq<char>>,
    attrs: Seq<(Seq<char>, Seq<char>)>,
) -> DNodeView {
    DNodeView {
        id: id,
        label: id,
        kind: kind,
        stereotype: stereotype,
        attributes: attrs,
        is_definition: false,
    }
}

/// The graph has the given title and kind, no subgraphs, and the default
/// layout.
pub open spec fn graph_frame(g: DiagramGraph, title: Seq<char>, kind: DiagramKind) -> bool {
    &&& g.title@ == title
    &&& g.kind == kind
    &&& g.subgraphs@.len() == 0
    &&& g.direction == LayoutDirection::TopBottom
    &&& g.max_depth is None
}

/// The stereotype `<<kind>>` of the first definition named `n`, if any.
pub open spec fn def_stereotype(model: Model, n: Seq<char>) -> Option<Seq<char>> {
    match first_def_index(model.definitions@, n, 0) {
        Some(i) => Some(guillemets(def_kind_label(model.definitions@[i].kind))),
        None => None,
    }
}

/// The last definition with a body whose byte span encloses `sp`.
pub open spec fn span_owner(defs: Seq<Definition>, sp: Span) -> Option<Seq<char>>
    decreases defs.len(),
{
    if defs.len() == 0 {
        None
    } else if defs.last().has_body && defs.last().span.start_byte <= sp.start_byte
        && sp.end_byte <= defs.last().span.end_byte {
        Some(defs.last().name@)
    } else {
        span_owner(defs.drop_last(), sp)
    }
}

/// What satisfies `s`: the simple name of its `by`, or else the definition
/// that encloses the satisfy statement.
pub open spec fn satisfier_name(model: Model, s: Satisfaction) -> Option<Seq<char>> {
    match s.by {
        Some(b) => Some(simple_name_spec(b@)),
        None => span_owner(model.definitions@, s.span),
    }
}

/// Nodes and edges added while walking relationships, with the names
/// already drawn.
pub struct BlockScan {
    pub seen: Seq<Seq<char>>,
    pub nodes: Seq<DNodeView>,
    pub edges: Seq<DEdgeView>,
}

/// The empty scan.
pub open spec fn empty_scan() -> BlockScan {
    BlockScan { seen: seq![], nodes: seq![], edges: seq![] }
}

/// Add edge `e`, and node `node` for `n` unless `n` was drawn already.
pub open spec fn block_step(st: BlockScan, n: Seq<char>, node: DNodeView, e: DEdgeView) -> BlockScan {
    if st.seen.contains(n) {
        BlockScan { edges: st.edges.push(e), ..st }
    } else {
        BlockScan { seen: st.seen.push(n), nodes: st.nodes.push(node), edges: st.edges.push(e) }
    }
}

/// The satisfier blocks and `<<satisfy>>` edges of the trace diagram.
pub open spec fn trace_sat_scan(model: Model, sats: Seq<Satisfaction>) -> BlockScan
    decreases sats.len(),
{
    if sats.len() == 0 {
        empty_scan()
    } else {
        let st = trace_sat_scan(model, sats.drop_last());
        let s = sats.last();
        match satisfier_name(model, s) {
            Some(n) => block_step(
                st,
                n,
                plain_node(n, NodeKind::Block, def_stereotype(model, n), seq![]),
                DEdgeView {
                    source: n,
                    target: simple_name_spec(s.requirement@),
                    label: Some("<<satisfy>>"@),
                    kind: EdgeKind::Satisfy,
                },
            ),
            None => st,
        }
    }
}

/// The verifier blocks and `<<verify>>` edges of the trace diagram.
pub open spec fn trace_ver_scan(model: Model, vs: Seq<Verification>) -> BlockScan
    decreases vs.len(),
{
    if vs.len() == 0 {
        empty_scan()
    } else {
        let st = trace_ver_scan(model, vs.drop_last());
        let v = vs.last();
        let n = simple_name_spec(v.by@);
        block_step(
            st,
            n,
            plain_node(n, NodeKind::Block, def_stereotype(model, n), seq![]),
            DEdgeView {
                source: n,
                target: simple_name_spec(v.requirement@),
                label: Some("<<verify>>"@),
                kind: EdgeKind::Verify,
            },
        )
    }
}

/// The simple names of the requirements that satisfactions name.
pub open spec fn satisfied_names(model: Model) -> Seq<Seq<char>> {
    model.satisfactions@.map_values(|s: Satisfaction| simple_name_spec(s.requirement@))
}

/// The simple names of the requirements that verifications name.
pub open spec fn verified_names(model: Model) -> Seq<Seq<char>> {
    model.verifications@.map_values(|v: Verification| simple_name_spec(v.requirement@))
}

/// A `(key, doc)` attribute for a non-empty doc comment.
pub open spec fn doc_attr(doc: Option<String>, key: Seq<char>) -> Seq<(Seq<char>, Seq<char>)> {
    match doc {
        Some(t) => if t@.len() > 0 {
            seq![(key, t@)]
        } else {
            seq![]
        },
        None => seq![],
    }
}

/// `status` attributes flagging an unsatisfied and an unverified requirement.
pub open spec fn requirement_status(model: Model, n: Seq<char>) -> Seq<(Seq<char>, Seq<char>)> {
    (if satisfied_names(model).contains(n) {
        seq![]
    } else {
        seq![("status"@, "UNSATISFIED"@)]
    }) + (if verified_names(model).contains(n) {
        seq![]
    } else {
        seq![("status"@, "UNVERIFIED"@)]
    })
}

/// The node of a requirement in the trace diagram.
pub open spec fn trace_req_node(model: Model, d: Definition) -> DNodeView {
    plain_node(
        d.name@,
        NodeKind::Requirement,
        Some("<<requirement>>"@),
        doc_attr(d.doc, "text"@) + requirement_status(model, d.name@),
    )
}

/// The nodes of the trace diagram: requirements, then satisfiers, then
/// verifiers (each drawn once per column).
pub open spec fn trace_nodes(model: Model) -> Seq<DNodeView> {
    requirement_defs(model).map_values(|d: Definition| trace_req_node(model, d))
        + trace_sat_scan(model, model.satisfactions@).nodes
        + trace_ver_scan(model, model.verifications@).nodes
}

/// The edges of the trace diagram: satisfy edges, then verify edges.
pub open spec fn trace_edges(model: Model) -> Seq<DEdgeView> {
    trace_sat_scan(model, model.satisfactions@).edges + trace_ver_scan(
        model,
        model.verifications@,
    ).edges
}

/// `prefix [name]`.
fn title_of(prefix: &str, name: &str) -> (r: String)
    ensures
        r@ == title_text(prefix@, name@),
{
    let mut r = own(prefix);
    push_str(&mut r, " [");
    push_str(&mut r, name);
    push_str(&mut r, "]");
    r
}

/// `<<s>>`.
fn in_guillemets(s: &str) -> (r: String)
    ensures
        r@ == guillemets(s@),
{
    let mut r = own("<<");
    push_str(&mut r, s);
    push_str(&mut r, ">>");
    r
}

/// The stereotype of the first definition named `n`.
fn def_stereotype_of(model: &Model, n: &str) -> (r: Option<String>)
    ensures
        opt_view(r) == def_stereotype(*model, n@),
{
    match model.find_def(n) {
        Some(d) => Some(in_guillemets(d.kind.label())),
        None => None,
    }
}

/// The last definition with a body whose span encloses `sp`.
fn span_owner_of<'a>(defs: &'a Vec<Definition>, sp: &Span) -> (r: Option<&'a String>)
    ensures
        match r {
            Some(n) => span_owner(defs@, *sp) == Some(n@),
            None => span_owner(defs@, *sp) is None,
        },
{
    let mut j: usize = defs.len();
    assert(defs@.take(defs@.len() as int) =~= defs@);
    while j > 0
        invariant
            j <= defs@.len(),
            span_owner(defs@, *sp) == span_owner(defs@.take(j as int), *sp),
        decreases j,
    {
        let d = &defs[j - 1];
        assert(defs@.take(j as int).drop_last() =~= defs@.take(j - 1));
        if d.has_body && d.span.start_byte <= sp.start_byte && sp.end_byte <= d.span.end_byte {
            return Some(&d.name);
        }
        j = j - 1;
    }
    None
}

/// Whether `x` is among the strings of `v`.
pub(crate) fn contains_string(v: &Vec<String>, x: &str) -> (r: bool)
    ensures
        r == string_views(v@).contains(x@),
{
    let mut i: usize = 0;
    while i < v.len()
        invariant
            i <= v@.len(),
            forall|k: int| 0 <= k < i ==> v@[k]@ != x@,
        decreases v@.len() - i,
    {
        if str_eq(v[i].as_str(), x) {
            assert(string_views(v@)[i as int] == x@);
            return true;
        }
        i = i + 1;
    }
    proof {
        if string_views(v@).contains(x@) {
            let k = choose|k: int| 0 <= k < string_views(v@).len() && string_views(v@)[k] == x@;
            assert(v@[k]@ == x@);
        }
    }
    false
}

/// The simple names of the requirements named by satisfactions.
fn satisfied_names_of(model: &Model) -> (r: Vec<&str>)
    ensures
        r.deep_view() == satisfied_names(*model),
{
    let mut r: Vec<&str> = Vec::new();
    let mut i: usize = 0;
    while i < model.satisfactions.len()
        invariant
            i <= model.satisfactions@.len(),
            r.deep_view() == satisfied_names(*model).take(i as int),
        decreases model.satisfactions@.len() - i,
    {
        let ghost pre = r.deep_view();
        let x = simple_name(model.satisfactions[i].requirement.as_str());
        r.push(x);
        assert(r.deep_view() =~= pre.push(x@));
        assert(satisfied_names(*model).take(i + 1) =~= satisfied_names(*model).take(i as int).push(x@));
        i = i + 1;
    }
    assert(satisfied_names(*model).take(i as int) =~= satisfied_names(*model));
    r
}

/// The simple names of the requirements named by verifications.
fn verified_names_of(model: &Model) -> (r: Vec<&str>)
    ensures
        r.deep_view() == verified_names(*model),
{
    let mut r: Vec<&str> = Vec::new();
    let mut i: usize = 0;
    while i < model.verifications.len()
        invariant
            i <= model.verifications@.len(),
            r.deep_view() == verified_names(*model).take(i as int),
        decreases model.verifications@.len() - i,
    {
        let ghost pre = r.deep_view();
        let x = simple_name(model.verifications[i].requirement.as_str());
        r.push(x);
        assert(r.deep_view() =~= pre.push(x@));
        assert(verified_names(*model).take(i + 1) =~= verified_names(*model).take(i as int).push(x@));
        i = i + 1;
    }
    assert(verified_names(*model).take(i as int) =~= verified_names(*model));
    r
}

/// Whether `x` is among the texts of `v`.
fn listed_in(v: &Vec<&str>, x: &str) -> (r: bool)
    ensures
        r == v.deep_view().contains(x@),
{
    let b = contains_str(v, x);
    proof {
        if b {
            let k = choose|k: int| 0 <= k < v@.len() && (#[trigger] v@[k])@ == x@;
            assert(v.deep_view()[k] == x@);
        }
        if v.deep_view().contains(x@) {
            let k = choose|k: int| 0 <= k < v.deep_view().len() && v.deep_view()[k] == x@;
            assert(v@[k]@ == x@);
        }
    }
    b
}

/// A `(key, doc)` attribute list for a non-empty doc comment.
fn doc_attr_of(doc: &Option<String>, key: &str) -> (r: Vec<(String, String)>)
    ensures
        crate::diagram::graph::pair_texts(r@) == doc_attr(*doc, key@),
{
    let mut r: Vec<(String, String)> = Vec::new();
    match doc {
        Some(t) => {
            if !t.as_str().is_empty() {
                r.push((own(key), t.clone()));
            }
        },
        None => {},
    }
    assert(crate::diagram::graph::pair_texts(r@) =~= doc_attr(*doc, key@));
    r
}

/// A block node labelled by its id.
fn block_node(id: &String, stereotype: Option<String>) -> (r: DiagramNode)
    ensures
        r@ == plain_node(id@, NodeKind::Block, opt_view(stereotype), seq![]),
{
    let r = DiagramNode {
        id: id.clone(),
        label: id.clone(),
        kind: NodeKind::Block,
        stereotype,
        attributes: Vec::new(),
        is_definition: false,
    };
    assert(crate::diagram::graph::pair_texts(r.attributes@) =~= seq![]);
    r
}

/// Build a Traceability Diagram: the V-model chain of requirements, the
/// blocks that satisfy them and the cases that verify them.  Requirements
/// that nothing satisfies or verifies carry a `status` attribute saying so.
pub fn build_trace(model: &Model) -> (g: DiagramGraph)
    ensures
        graph_frame(g, title_text("trace"@, model.file@), DiagramKind::GridView(GridViewFlavor::Trace)),
        dnode_views(g.nodes@) == trace_nodes(*model),
        dedge_views(g.edges@) == trace_edges(*model),
{
    let title = title_of("trace", model.file.as_str());
    let mut graph = DiagramGraph::new(title, DiagramKind::GridView(GridViewFlavor::Trace));
    let sat_names = satisfied_names_of(model);
    let ver_names = verified_names_of(model);
    let ghost title_v = title_text("trace"@, model.file@);
    let ghost kind = DiagramKind::GridView(GridViewFlavor::Trace);
    // Requirements: the central column.
    let ghost f = |d: Definition| d.kind == DefKind::Requirement;
    let ghost g = |d: Definition| trace_req_node(*model, d);
    let mut i: usize = 0;
    while i < model.definitions.len()
        invariant
            i <= model.definitions@.len(),
            forall|x: Definition| #[trigger] f(x) == (x.kind == DefKind::Requirement),
            forall|x: Definition| #[trigger] g(x) == trace_req_node(*model, x),
            sat_names.deep_view() == satisfied_names(*model),
            ver_names.deep_view() == verified_names(*model),
            graph_frame(graph, title_v, kind),
            dnode_views(graph.nodes@) == filter_seq(model.definitions@.take(i as int), f).map_values(g),
            graph.edges@.len() == 0,
        decreases model.definitions@.len() - i,
    {
        proof {
            lemma_filter_take(model.definitions@, f, i as int);
        }
        let def = &model.definitions[i];
        if def.kind == DefKind::Requirement {
            let mut attrs = doc_attr_of(&def.doc, "text");
            let ghost a0 = crate::diagram::graph::pair_texts(attrs@);
            if !listed_in(&sat_names, def.name.as_str()) {
                attrs.push((own("status"), own("UNSATISFIED")));
            }
            let ghost a1 = crate::diagram::graph::pair_texts(attrs@);
            assert(a1 =~= a0 + (if satisfied_names(*model).contains(def.name@) {
                seq![]
            } else {
                seq![("status"@, "UNSATISFIED"@)]
            }));
            if !listed_in(&ver_names, def.name.as_str()) {
                attrs.push((own("status"), own("UNVERIFIED")));
            }
            assert(crate::diagram::graph::pair_texts(attrs@) =~= a1 + (if verified_names(
                *model,
            ).contains(def.name@) {
                seq![]
            } else {
                seq![("status"@, "UNVERIFIED"@)]
            }));
            assert(crate::diagram::graph::pair_texts(attrs@) =~= doc_attr(def.doc, "text"@)
                + requirement_status(*model, def.name@));
            let node = DiagramNode {
                id: def.name.clone(),
                label: def.name.clone(),
                kind: NodeKind::Requirement,
                stereotype: Some(own("<<requirement>>")),
                attributes: attrs,
                is_definition: false,
            };
            let ghost pre = dnode_views(graph.nodes@);
            graph.add_node(node);
            assert(node@ == g(*def));
            assert(filter_seq(model.definitions@.take(i + 1), f).map_values(g) =~= filter_seq(
                model.definitions@.take(i as int),
                f,
            ).map_values(g).push(g(*def)));
        } else {
            assert(filter_seq(model.definitions@.take(i as int), f) + seq![] =~= filter_seq(
                model.definitions@.take(i as int),
                f,
            ));
        }
        i = i + 1;
    }
    assert(model.definitions@.take(model.definitions@.len() as int) =~= model.definitions@);
    proof {
        assert(f =~= |d: Definition| d.kind == DefKind::Requirement);
        assert(g =~= |d: Definition| trace_req_node(*model, d));
    }
    let ghost req_nodes = dnode_views(graph.nodes@);
    assert(req_nodes == requirement_defs(*model).map_values(|d: Definition| trace_req_node(*model, d)));
    // Satisfiers: the left column.
    let mut seen: Vec<String> = Vec::new();
    let mut i: usize = 0;
    while i < model.satisfactions.len()
        invariant
            i <= model.satisfactions@.len(),
            graph_frame(graph, title_v, kind),
            string_views(seen@) == trace_sat_scan(*model, model.satisfactions@.take(i as int)).seen,
            dnode_views(graph.nodes@) == req_nodes + trace_sat_scan(
                *model,
                model.satisfactions@.take(i as int),
            ).nodes,
            dedge_views(graph.edges@) == trace_sat_scan(
                *model,
                model.satisfactions@.take(i as int),
            ).edges,
        decreases model.satisfactions@.len() - i,
    {
        let s = &model.satisfactions[i];
        assert(model.satisfactions@.take(i + 1).drop_last() =~= model.satisfactions@.take(i as int));
        let by_name: Option<String> = match &s.by {
            Some(b) => Some(own(simple_name(b.as_str()))),
            None => match span_owner_of(&model.definitions, &s.span) {
                Some(o) => Some(o.clone()),
                None => None,
            },
        };
        match by_name {
            Some(n) => {
                if !contains_string(&seen, n.as_str()) {
                    let node = block_node(&n, def_stereotype_of(model, n.as_str()));
                    graph.add_node(node);
                    let ghost sv = string_views(seen@);
                    seen.push(n.clone());
                    assert(string_views(seen@) =~= sv.push(n@));
                }
                let e = DiagramEdge {
                    source: n,
                    target: own(simple_name(s.requirement.as_str())),
                    label: Some(own("<<satisfy>>")),
                    kind: EdgeKind::Satisfy,
                };
                graph.add_edge(e);
            },
            None => {},
        }
        i = i + 1;
    }
    assert(model.satisfactions@.take(model.satisfactions@.len() as int) =~= model.satisfactions@);
    let ghost sat_nodes = dnode_views(graph.nodes@);
    let ghost sat_edges = dedge_views(graph.edges@);
    // Verifiers: the right column.
    let mut seen: Vec<String> = Vec::new();
    let mut i: usize = 0;
    while i < model.verifications.len()
        invariant
            i <= model.verifications@.len(),
            graph_frame(graph, title_v, kind),
            string_views(seen@) == trace_ver_scan(*model, model.verifications@.take(i as int)).seen,
            dnode_views(graph.nodes@) == sat_nodes + trace_ver_scan(
                *model,
                model.verifications@.take(i as int),
            ).nodes,
            dedge_views(graph.edges@) == sat_edges + trace_ver_scan(
                *model,
                model.verifications@.take(i as int),
            ).edges,
        decreases model.verifications@.len() - i,
    {
        let v = &model.verifications[i];
        assert(model.verifications@.take(i + 1).drop_last() =~= model.verifications@.take(i as int));
        let n = own(simple_name(v.by.as_str()));
        if !contains_string(&seen, n.as_str()) {
            let node = block_node(&n, def_stereotype_of(model, n.as_str()));
            graph.add_node(node);
            let ghost sv = string_views(seen@);
            seen.push(n.clone());
            assert(string_views(seen@) =~= sv.push(n@));
        }
        let e = DiagramEdge {
            source: n,
            target: own(simple_name(v.requirement.as_str())),
            label: Some(own("<<verify>>")),
            kind: EdgeKind::Verify,
        };
        graph.add_edge(e);
        i = i + 1;
    }
    assert(model.verifications@.take(model.verifications@.len() as int) =~= model.verifications@);
    assert(dnode_views(graph.nodes@) =~= trace_nodes(*model));
    graph
}

/// A `(key, doc)` attribute for a doc comment, empty or not.
pub open spec fn some_doc_attr(doc: Option<String>, key: Seq<char>) -> Seq<(Seq<char>, Seq<char>)> {
    match doc {
        Some(t) => seq![(key, t@)],
        None => seq![],
    }
}

/// The node of a requirement in the requirements diagram.
pub open spec fn req_node(d: Definition) -> DNodeView {
    plain_node(d.name@, NodeKind::Requirement, Some("<<requirement>>"@), some_doc_attr(d.doc, "text"@))
}

/// The satisfier blocks and `<<satisfy>>` edges of the requirements diagram.
pub open spec fn req_sat_scan(model: Model, sats: Seq<Satisfaction>) -> BlockScan
    decreases sats.len(),
{
    if sats.len() == 0 {
        empty_scan()
    } else {
        let st = req_sat_scan(model, sats.drop_last());
        let s = sats.last();
        match satisfier_name(model, s) {
            Some(n) => block_step(
                st,
                n,
                plain_node(n, NodeKind::Block, None, seq![]),
                DEdgeView {
                    source: n,
                    target: simple_name_spec(s.requirement@),
                    label: Some("<<satisfy>>"@),
                    kind: EdgeKind::Satisfy,
                },
            ),
            None => st,
        }
    }
}

/// The verifier blocks and `<<verify>>` edges of the requirements diagram,
/// continuing from `st0` (blocks already drawn are not drawn again).
pub open spec fn req_ver_scan(st0: BlockScan, vs: Seq<Verification>) -> BlockScan
    decreases vs.len(),
{
    if vs.len() == 0 {
        st0
    } else {
        let st = req_ver_scan(st0, vs.drop_last());
        let v = vs.last();
        let n = simple_name_spec(v.by@);
        block_step(
            st,
            n,
            plain_node(n, NodeKind::Block, None, seq![]),
            DEdgeView {
                source: n,
                target: simple_name_spec(v.requirement@),
                label: Some("<<verify>>"@),
                kind: EdgeKind::Verify,
            },
        )
    }
}

/// All blocks and edges of the requirements diagram.
pub open spec fn req_scan(model: Model) -> BlockScan {
    req_ver_scan(req_sat_scan(model, model.satisfactions@), model.verifications@)
}

/// Build a Requirements Diagram: requirements, the blocks that satisfy or
/// verify them (each drawn once), and satisfy and verify edges.
pub fn build_req(model: &Model) -> (g: DiagramGraph)
    ensures
        graph_frame(g, title_text("req"@, model.file@), DiagramKind::GridView(GridViewFlavor::Requirements)),
        dnode_views(g.nodes@) == requirement_defs(*model).map_values(|d: Definition| req_node(d))
            + req_scan(*model).nodes,
        dedge_views(g.edges@) == req_scan(*model).edges,
{
    let title = title_of("req", model.file.as_str());
    let mut graph = DiagramGraph::new(title, DiagramKind::GridView(GridViewFlavor::Requirements));
    let ghost title_v = title_text("req"@, model.file@);
    let ghost kind = DiagramKind::GridView(GridViewFlavor::Requirements);
    let ghost f = |d: Definition| d.kind == DefKind::Requirement;
    let ghost g = |d: Definition| req_node(d);
    let mut i: usize = 0;
    while i < model.definitions.len()
        invariant
            i <= model.definitions@.len(),
            forall|x: Definition| #[trigger] f(x) == (x.kind == DefKind::Requirement),
            forall|x: Definition| #[trigger] g(x) == req_node(x),
            graph_frame(graph, title_v, kind),
            dnode_views(graph.nodes@) == filter_seq(model.definitions@.take(i as int), f).map_values(g),
            graph.edges@.len() == 0,
        decreases model.definitions@.len() - i,
    {
        proof {
            lemma_filter_take(model.definitions@, f, i as int);
        }
        let def = &model.definitions[i];
        if def.kind == DefKind::Requirement {
            let mut attrs: Vec<(String, String)> = Vec::new();
            match &def.doc {
                Some(doc) => {
                    attrs.push((own("text"), doc.clone()));
                },
                None => {},
            }
            assert(crate::diagram::graph::pair_texts(attrs@) =~= some_doc_attr(def.doc, "text"@));
            let node = DiagramNode {
                id: def.name.clone(),
                label: def.name.clone(),
                kind: NodeKind::Requirement,
                stereotype: Some(own("<<requirement>>")),
                attributes: attrs,
                is_definition: false,
            };
            graph.add_node(node);
            assert(node@ == g(*def));
            assert(filter_seq(model.definitions@.take(i + 1), f).map_values(g) =~= filter_seq(
                model.definitions@.take(i as int),
                f,
            ).map_values(g).push(g(*def)));
        } else {
            assert(filter_seq(model.definitions@.take(i as int), f) + seq![] =~= filter_seq(
                model.definitions@.take(i as int),
                f,
            ));
        }
        i = i + 1;
    }
    assert(model.definitions@.take(model.definitions@.len() as int) =~= model.definitions@);
    proof {
        assert(f =~= |d: Definition| d.kind == DefKind::Requirement);
        assert(g =~= |d: Definition| req_node(d));
    }
    let ghost req_nodes = dnode_views(graph.nodes@);
    let mut seen: Vec<String> = Vec::new();
    let mut i: usize = 0;
    while i < model.satisfactions.len()
        invariant
            i <= model.satisfactions@.len(),
            graph_frame(graph, title_v, kind),
            string_views(seen@) == req_sat_scan(*model, model.satisfactions@.take(i as int)).seen,
            dnode_views(graph.nodes@) == req_nodes + req_sat_scan(
                *model,
                model.satisfactions@.take(i as int),
            ).nodes,
            dedge_views(graph.edges@) == req_sat_scan(*model, model.satisfactions@.take(i as int)).edges,
        decreases model.satisfactions@.len() - i,
    {
        let s = &model.satisfactions[i];
        assert(model.satisfactions@.take(i + 1).drop_last() =~= model.satisfactions@.take(i as int));
        let by_name: Option<String> = match &s.by {
            Some(b) => Some(own(simple_name(b.as_str()))),
            None => match span_owner_of(&model.definitions, &s.span) {
                Some(o) => Some(o.clone()),
                None => None,
            },
        };
        match by_name {
            Some(n) => {
                if !contains_string(&seen, n.as_str()) {
                    graph.add_node(block_node(&n, None));
                    let ghost sv = string_views(seen@);
                    seen.push(n.clone());
                    assert(string_views(seen@) =~= sv.push(n@));
                }
                graph.add_edge(DiagramEdge {
                    source: n,
                    target: own(simple_name(s.requirement.as_str())),
                    label: Some(own("<<satisfy>>")),
                    kind: EdgeKind::Satisfy,
                });
            },
            None => {},
        }
        i = i + 1;
    }
    assert(model.satisfactions@.take(model.satisfactions@.len() as int) =~= model.satisfactions@);
    let ghost st0 = req_sat_scan(*model, model.satisfactions@);
    let mut i: usize = 0;
    assert(model.verifications@.take(0) =~= seq![]);
    while i < model.verifications.len()
        invariant
            i <= model.verifications@.len(),
            graph_frame(graph, title_v, kind),
            string_views(seen@) == req_ver_scan(st0, model.verifications@.take(i as int)).seen,
            dnode_views(graph.nodes@) == req_nodes + req_ver_scan(st0, model.verifications@.take(i as int)).nodes,
            dedge_views(graph.edges@) == req_ver_scan(st0, model.verifications@.take(i as int)).edges,
        decreases model.verifications@.len() - i,
    {
        let v = &model.verifications[i];
        assert(model.verifications@.take(i + 1).drop_last() =~= model.verifications@.take(i as int));
        let n = own(simple_name(v.by.as_str()));
        if !contains_string(&seen, n.as_str()) {
            graph.add_node(block_node(&n, None));
            let ghost sv = string_views(seen@);
            seen.push(n.clone());
            assert(string_views(seen@) =~= sv.push(n@));
        }
        graph.add_edge(DiagramEdge {
            source: n,
            target: own(simple_name(v.requirement.as_str())),
            label: Some(own("<<verify>>")),
            kind: EdgeKind::Verify,
        });
        i = i + 1;
    }
    assert(model.verifications@.take(model.verifications@.len() as int) =~= model.verifications@);
    graph
}

/// The text of an optional string slice.
pub open spec fn opt_str_text(o: Option<&str>) -> Option<Seq<char>> {
    match o {
        Some(s) => Some(s@),
        None => None,
    }
}

/// The type of a usage, or `?`.
pub open spec fn type_or_unknown(u: Usage) -> Seq<char> {
    match u.type_ref {
        Some(t) => t@,
        None => "?"@,
    }
}

/// ` [..]` for a usage with a multiplicity.
pub open spec fn mult_suffix(u: Usage) -> Seq<char> {
    match u.multiplicity {
        Some(m) => " "@ + crate::model::multiplicity_text(m),
        None => seq![],
    }
}

/// The attribute of a block for a usage inside it: `(kind, name : Type [m])`.
pub open spec fn usage_attr(u: Usage) -> (Seq<char>, Seq<char>) {
    (u.kind@, u.name@ + " : "@ + type_or_unknown(u) + mult_suffix(u))
}

/// The definitions drawn in a BDD: the scoped definition and its direct
/// children, or all definitions.
pub open spec fn bdd_defs(model: Model, scope: Option<Seq<char>>) -> Seq<Definition> {
    match scope {
        Some(sn) => filter_seq(
            model.definitions@,
            |d: Definition| d.name@ == sn || opt_view(d.parent_def) == Some(sn),
        ),
        None => model.definitions@,
    }
}

/// The names of a list of definitions.
pub open spec fn def_names(ds: Seq<Definition>) -> Seq<Seq<char>> {
    ds.map_values(|d: Definition| d.name@)
}

/// The block of a definition in a BDD: `<<kind>>`, an `abstract` modifier,
/// and an attribute per usage inside it.
pub open spec fn bdd_node(model: Model, d: Definition) -> DNodeView {
    plain_node(
        d.name@,
        NodeKind::Block,
        Some(guillemets(def_kind_label(d.kind))),
        (if d.is_abstract {
            seq![("modifier"@, "abstract"@)]
        } else {
            seq![]
        }) + usages_with_parent(model.usages@, d.name@).map_values(|u: Usage| usage_attr(u)),
    )
}

/// The specialization edge of a definition whose super type is drawn.
pub open spec fn bdd_spec_edge(names: Seq<Seq<char>>, d: Definition) -> Seq<DEdgeView> {
    match d.super_type {
        Some(t) => if names.contains(simple_name_spec(t@)) {
            seq![DEdgeView { source: d.name@, target: simple_name_spec(t@), label: None, kind: EdgeKind::Specialization }]
        } else {
            seq![]
        },
        None => seq![],
    }
}

/// The composition edge for a part usage typed by a drawn definition.
pub open spec fn bdd_comp_edge(names: Seq<Seq<char>>, owner: Seq<char>, u: Usage) -> Seq<DEdgeView> {
    match u.type_ref {
        Some(t) => if names.contains(simple_name_spec(t@)) && u.kind@ == "part"@ {
            seq![DEdgeView { source: owner, target: simple_name_spec(t@), label: Some(u.name@), kind: EdgeKind::Composition }]
        } else {
            seq![]
        },
        None => seq![],
    }
}

/// The composition edges of one definition.
pub open spec fn bdd_comp_edges(model: Model, names: Seq<Seq<char>>, d: Definition) -> Seq<DEdgeView> {
    collect(usages_with_parent(model.usages@, d.name@), |u: Usage| bdd_comp_edge(names, d.name@, u))
}

/// The edges of a BDD: specializations, then compositions.
pub open spec fn bdd_edges(model: Model, ds: Seq<Definition>) -> Seq<DEdgeView> {
    collect(ds, |d: Definition| bdd_spec_edge(def_names(ds), d))
        + collect(ds, |d: Definition| bdd_comp_edges(model, def_names(ds), d))
}

/// The BDD title.
pub open spec fn bdd_title(model: Model, scope: Option<Seq<char>>) -> Seq<char> {
    match scope {
        Some(s) => title_text("bdd"@, s),
        None => title_text("bdd"@, model.file@),
    }
}

/// The attributes of a usage list, as in a BDD block.
fn usage_attrs(us: &Vec<&Usage>) -> (r: Vec<(String, String)>)
    ensures
        crate::diagram::graph::pair_texts(r@) == us@.map_values(|u: &Usage| usage_attr(*u)),
{
    let mut r: Vec<(String, String)> = Vec::new();
    let mut i: usize = 0;
    while i < us.len()
        invariant
            i <= us@.len(),
            crate::diagram::graph::pair_texts(r@) == us@.take(i as int).map_values(|u: &Usage| usage_attr(*u)),
        decreases us@.len() - i,
    {
        let u = us[i];
        let mut text = u.name.clone();
        push_str(&mut text, " : ");
        match &u.type_ref {
            Some(t) => push_str(&mut text, t.as_str()),
            None => push_str(&mut text, "?"),
        }
        match &u.multiplicity {
            Some(m) => {
                push_str(&mut text, " ");
                let ms = m.to_string();
                push_str(&mut text, ms.as_str());
            },
            None => {},
        }
        let ghost pre = crate::diagram::graph::pair_texts(r@);
        assert(text@ =~= usage_attr(*u).1);
        r.push((u.kind.clone(), text));
        assert(crate::diagram::graph::pair_texts(r@) =~= pre.push(usage_attr(*u)));
        assert(us@.take(i + 1).map_values(|u: &Usage| usage_attr(*u)) =~= us@.take(i as int).map_values(
            |u: &Usage| usage_attr(*u),
        ).push(usage_attr(*u)));
        i = i + 1;
    }
    assert(us@.take(us@.len() as int) =~= us@);
    r
}

/// Build a Block Definition Diagram: definitions as blocks (with their
/// usages as attributes), specialization edges, and composition edges for
/// part usages typed by drawn definitions.  With a scope, only the scoped
/// definition and its direct children are drawn.
pub fn build_bdd(model: &Model, scope: Option<&str>) -> (g: DiagramGraph)
    ensures
        graph_frame(g, bdd_title(*model, opt_str_text(scope)), DiagramKind::GeneralView(GeneralViewFlavor::Default)),
        dnode_views(g.nodes@) == bdd_defs(*model, opt_str_text(scope)).map_values(|d: Definition| bdd_node(*model, d)),
        dedge_views(g.edges@) == bdd_edges(*model, bdd_defs(*model, opt_str_text(scope))),
{
    let title = match scope {
        Some(s) => title_of("bdd", s),
        None => title_of("bdd", model.file.as_str()),
    };
    let mut graph = DiagramGraph::new(title, DiagramKind::GeneralView(GeneralViewFlavor::Default));
    let ghost title_v = bdd_title(*model, opt_str_text(scope));
    let ghost kind = DiagramKind::GeneralView(GeneralViewFlavor::Default);
    let ghost sc = opt_str_text(scope);
    // The definitions in scope.
    let mut defs: Vec<&Definition> = Vec::new();
    let ghost fsc = |d: Definition| match sc {
        Some(sn) => d.name@ == sn || opt_view(d.parent_def) == Some(sn),
        None => true,
    };
    let mut i: usize = 0;
    while i < model.definitions.len()
        invariant
            i <= model.definitions@.len(),
            sc == opt_str_text(scope),
            forall|x: Definition| #[trigger] fsc(x) == (match sc {
                Some(sn) => x.name@ == sn || opt_view(x.parent_def) == Some(sn),
                None => true,
            }),
            defs@.len() == filter_seq(model.definitions@.take(i as int), fsc).len(),
            forall|k: int| 0 <= k < defs@.len() ==> *defs@[k] == filter_seq(model.definitions@.take(i as int), fsc)[k],
        decreases model.definitions@.len() - i,
    {
        proof {
            lemma_filter_take(model.definitions@, fsc, i as int);
        }
        let d = &model.definitions[i];
        let keep = match scope {
            Some(sn) => str_eq(d.name.as_str(), sn) || match &d.parent_def {
                Some(p) => str_eq(p.as_str(), sn),
                None => false,
            },
            None => true,
        };
        assert(keep == fsc(*d));
        if keep {
            defs.push(d);
        }
        i = i + 1;
    }
    assert(model.definitions@.take(model.definitions@.len() as int) =~= model.definitions@);
    let ghost ds = bdd_defs(*model, sc);
    proof {
        match sc {
            Some(sn) => {
                assert(fsc =~= |d: Definition| d.name@ == sn || opt_view(d.parent_def) == Some(sn));
            },
            None => {
                assert(forall|x: Definition| #[trigger] fsc(x));
                crate::diagram::builders::lemma_filter_all(model.definitions@, fsc);
            },
        }
    }
    assert(defs@.len() == ds.len());
    assert(forall|k: int| 0 <= k < defs@.len() ==> *defs@[k] == ds[k]);
    // Blocks.
    let mut i: usize = 0;
    while i < defs.len()
        invariant
            i <= defs@.len(),
            defs@.len() == ds.len(),
            forall|k: int| 0 <= k < defs@.len() ==> *defs@[k] == ds[k],
            graph_frame(graph, title_v, kind),
            dnode_views(graph.nodes@) == ds.take(i as int).map_values(|d: Definition| bdd_node(*model, d)),
            graph.edges@.len() == 0,
        decreases defs@.len() - i,
    {
        let def = defs[i];
        let mut attrs: Vec<(String, String)> = Vec::new();
        if def.is_abstract {
            attrs.push((own("modifier"), own("abstract")));
        }
        let ghost a0 = crate::diagram::graph::pair_texts(attrs@);
        let us = model.usages_in_def(def.name.as_str());
        let ua = usage_attrs(&us);
        let ghost a1 = crate::diagram::graph::pair_texts(ua@);
        proof {
            let w = usages_with_parent(model.usages@, def.name@);
            assert(us@.map_values(|u: &Usage| usage_attr(*u)) =~= w.map_values(|u: Usage| usage_attr(u)));
        }
        let mut attrs2 = attrs;
        let mut ua2 = ua;
        let ghost ua_seq = ua2@;
        let ghost at_seq = attrs2@;
        attrs2.append(&mut ua2);
        assert(attrs2@ =~= at_seq + ua_seq);
        assert(crate::diagram::graph::pair_texts(attrs2@) =~= a0 + a1);
        let node = DiagramNode {
            id: def.name.clone(),
            label: def.name.clone(),
            kind: NodeKind::Block,
            stereotype: Some(in_guillemets(def.kind.label())),
            attributes: attrs2,
            is_definition: false,
        };
        graph.add_node(node);
        proof {
            assert(a0 =~= (if def.is_abstract { seq![("modifier"@, "abstract"@)] } else { seq![] }));
            assert(node@ == bdd_node(*model, ds[i as int]));
            assert(ds.take(i + 1).map_values(|d: Definition| bdd_node(*model, d)) =~= ds.take(
                i as int,
            ).map_values(|d: Definition| bdd_node(*model, d)).push(bdd_node(*model, ds[i as int])));
        }
        i = i + 1;
    }
    assert(ds.take(ds.len() as int) =~= ds);
    // Names of the drawn definitions.
    let mut names: Vec<&str> = Vec::new();
    let mut i: usize = 0;
    while i < defs.len()
        invariant
            i <= defs@.len(),
            defs@.len() == ds.len(),
            forall|k: int| 0 <= k < defs@.len() ==> *defs@[k] == ds[k],
            names.deep_view() == def_names(ds).take(i as int),
        decreases defs@.len() - i,
    {
        let ghost pre = names.deep_view();
        names.push(defs[i].name.as_str());
        assert(names.deep_view() =~= pre.push(ds[i as int].name@));
        assert(def_names(ds).take(i + 1) =~= def_names(ds).take(i as int).push(ds[i as int].name@));
        i = i + 1;
    }
    assert(def_names(ds).take(ds.len() as int) =~= def_names(ds));
    let ghost nv = def_names(ds);
    // Specialization edges.
    let ghost fe = |d: Definition| bdd_spec_edge(nv, d);
    let mut i: usize = 0;
    while i < defs.len()
        invariant
            i <= defs@.len(),
            defs@.len() == ds.len(),
            forall|k: int| 0 <= k < defs@.len() ==> *defs@[k] == ds[k],
            names.deep_view() == nv,
            forall|x: Definition| #[trigger] fe(x) == bdd_spec_edge(nv, x),
            graph_frame(graph, title_v, kind),
            dnode_views(graph.nodes@) == ds.map_values(|d: Definition| bdd_node(*model, d)),
            dedge_views(graph.edges@) == collect(ds.take(i as int), fe),
        decreases defs@.len() - i,
    {
        proof {
            lemma_collect_take(ds, fe, i as int);
        }
        let def = defs[i];
        let ghost pre = dedge_views(graph.edges@);
        match &def.super_type {
            Some(st) => {
                let target = simple_name(st.as_str());
                if listed_in(&names, target) {
                    graph.add_edge(DiagramEdge {
                        source: def.name.clone(),
                        target: own(target),
                        label: None,
                        kind: EdgeKind::Specialization,
                    });
                } else {
                    assert(pre + seq![] =~= pre);
                }
            },
            None => {
                assert(pre + seq![] =~= pre);
            },
        }
        assert(dedge_views(graph.edges@) =~= pre + fe(ds[i as int]));
        i = i + 1;
    }
    assert(ds.take(ds.len() as int) =~= ds);
    let ghost spec_edges = dedge_views(graph.edges@);
    // Composition edges.
    let ghost fc = |d: Definition| bdd_comp_edges(*model, nv, d);
    let mut i: usize = 0;
    while i < defs.len()
        invariant
            i <= defs@.len(),
            defs@.len() == ds.len(),
            forall|k: int| 0 <= k < defs@.len() ==> *defs@[k] == ds[k],
            names.deep_view() == nv,
            forall|x: Definition| #[trigger] fc(x) == bdd_comp_edges(*model, nv, x),
            graph_frame(graph, title_v, kind),
            dnode_views(graph.nodes@) == ds.map_values(|d: Definition| bdd_node(*model, d)),
            dedge_views(graph.edges@) == spec_edges + collect(ds.take(i as int), fc),
        decreases defs@.len() - i,
    {
        proof {
            lemma_collect_take(ds, fc, i as int);
        }
        let def = defs[i];
        let ghost pre = dedge_views(graph.edges@);
        let us = model.usages_in_def(def.name.as_str());
        let ghost w = usages_with_parent(model.usages@, def.name@);
        let ghost fu = |u: Usage| bdd_comp_edge(nv, def.name@, u);
        let mut j: usize = 0;
        while j < us.len()
            invariant
                j <= us@.len(),
                us@.len() == w.len(),
                forall|k: int| 0 <= k < us@.len() ==> *us@[k] == w[k],
                names.deep_view() == nv,
                forall|x: Usage| #[trigger] fu(x) == bdd_comp_edge(nv, def.name@, x),
                graph_frame(graph, title_v, kind),
                dnode_views(graph.nodes@) == ds.map_values(|d: Definition| bdd_node(*model, d)),
                dedge_views(graph.edges@) == pre + collect(w.take(j as int), fu),
            decreases us@.len() - j,
        {
            proof {
                lemma_collect_take(w, fu, j as int);
            }
            let u = us[j];
            let ghost before = dedge_views(graph.edges@);
            match &u.type_ref {
                Some(t) => {
                    let ts = simple_name(t.as_str());
                    if listed_in(&names, ts) && str_eq(u.kind.as_str(), "part") {
                        graph.add_edge(DiagramEdge {
                            source: def.name.clone(),
                            target: own(ts),
                            label: Some(u.name.clone()),
                            kind: EdgeKind::Composition,
                        });
                    } else {
                        assert(before + seq![] =~= before);
                    }
                },
                None => {
                    assert(before + seq![] =~= before);
                },
            }
            assert(dedge_views(graph.edges@) =~= before + fu(w[j as int]));
            j = j + 1;
        }
        assert(w.take(w.len() as int) =~= w);
        proof {
            assert(fu =~= |u: Usage| bdd_comp_edge(nv, def.name@, u));
        }
        assert(dedge_views(graph.edges@) =~= pre + fc(ds[i as int]));
        i = i + 1;
    }
    assert(ds.take(ds.len() as int) =~= ds);
    proof {
        assert(fe =~= |d: Definition| bdd_spec_edge(def_names(ds), d));
        assert(fc =~= |d: Definition| bdd_comp_edges(*model, def_names(ds), d));
    }
    graph
}

/// Filtering by a predicate that holds everywhere keeps everything.
pub proof fn lemma_filter_all<T>(s: Seq<T>, f: spec_fn(T) -> bool)
    requires
        forall|x: T| #[trigger] f(x),
    ensures
        filter_seq(s, f) == s,
    decreases s.len(),
{
    if s.len() > 0 {
        lemma_filter_all(s.drop_last(), f);
        assert(s.drop_last().push(s.last()) =~= s);
    }
}

// ------------------------------------------------------------------------
// State machines
// ------------------------------------------------------------------------

/// The state definition a state machine diagram shows: the first state
/// definition (with the given name, when one is given).
pub open spec fn stm_target(model: Model, name: Option<Seq<char>>) -> Option<Definition> {
    let c = filter_seq(
        model.definitions@,
        |d: Definition| d.kind == DefKind::State && match name {
            Some(n) => d.name@ == n,
            None => true,
        },
    );
    if c.len() > 0 {
        Some(c[0])
    } else {
        None
    }
}

/// The state usages directly inside state definition `d`.
pub open spec fn stm_states(model: Model, d: Definition) -> Seq<Usage> {
    filter_seq(model.usages@, |u: Usage| u.kind@ == "state"@ && opt_view(u.parent_def) == Some(d.name@))
}

/// The initial pseudo-state node.
pub open spec fn initial_node() -> DNodeView {
    DNodeView {
        id: "__initial__"@,
        label: seq![],
        kind: NodeKind::InitialState,
        stereotype: None,
        attributes: seq![],
        is_definition: false,
    }
}

/// The nodes of a state machine diagram: the initial pseudo-state and one
/// node per state usage (none without a target definition).
pub open spec fn stm_nodes(model: Model, name: Option<Seq<char>>) -> Seq<DNodeView> {
    match stm_target(model, name) {
        Some(d) => seq![initial_node()] + stm_states(model, d).map_values(
            |u: Usage| plain_node(u.name@, NodeKind::State, None, seq![]),
        ),
        None => seq![],
    }
}

/// The edges of a state machine diagram: the initial transition to the
/// first state, when there is one.
pub open spec fn stm_edges(model: Model, name: Option<Seq<char>>) -> Seq<DEdgeView> {
    match stm_target(model, name) {
        Some(d) => if stm_states(model, d).len() > 0 {
            seq![DEdgeView { source: "__initial__"@, target: stm_states(model, d)[0].name@, label: None, kind: EdgeKind::Transition }]
        } else {
            seq![]
        },
        None => seq![],
    }
}

/// The title of a state machine diagram.
pub open spec fn stm_title(model: Model, name: Option<Seq<char>>) -> Seq<char> {
    match stm_target(model, name) {
        Some(d) => title_text("stm"@, d.name@),
        None => "stm"@,
    }
}

/// Build a State Machine Diagram of the first state definition (or the
/// named one): an initial pseudo-state, its state usages, and the initial
/// transition to the first of them.
pub fn build_stm(model: &Model, state_def_name: Option<&str>) -> (g: DiagramGraph)
    ensures
        graph_frame(g, stm_title(*model, opt_str_text(state_def_name)), DiagramKind::StateTransitionView),
        dnode_views(g.nodes@) == stm_nodes(*model, opt_str_text(state_def_name)),
        dedge_views(g.edges@) == stm_edges(*model, opt_str_text(state_def_name)),
{
    let ghost name = opt_str_text(state_def_name);
    let ghost f = |d: Definition| d.kind == DefKind::State && match name {
        Some(n) => d.name@ == n,
        None => true,
    };
    let mut target: Option<&Definition> = None;
    let mut i: usize = 0;
    while target.is_none() && i < model.definitions.len()
        invariant
            i <= model.definitions@.len(),
            name == opt_str_text(state_def_name),
            forall|x: Definition| #[trigger] f(x) == (x.kind == DefKind::State && match name {
                Some(n) => x.name@ == n,
                None => true,
            }),
            match target {
                Some(d) => stm_target(*model, name) == Some(*d),
                None => filter_seq(model.definitions@.take(i as int), f).len() == 0,
            },
        decreases model.definitions@.len() - i,
    {
        proof {
            lemma_filter_take(model.definitions@, f, i as int);
        }
        let d = &model.definitions[i];
        let hit = d.kind == DefKind::State && match state_def_name {
            Some(n) => str_eq(d.name.as_str(), n),
            None => true,
        };
        assert(hit == f(*d));
        if hit {
            proof {
                lemma_filter_first(model.definitions@, f, i as int);
                assert(f =~= (|d: Definition| d.kind == DefKind::State && match name {
                    Some(n) => d.name@ == n,
                    None => true,
                }));
            }
            target = Some(d);
        }
        i = i + 1;
    }
    proof {
        if target is None {
            assert(model.definitions@.take(i as int) =~= model.definitions@);
            assert(f =~= (|d: Definition| d.kind == DefKind::State && match name {
                Some(n) => d.name@ == n,
                None => true,
            }));
        }
    }
    let state_def = match target {
        Some(d) => d,
        None => {
            let g = DiagramGraph::new(own("stm"), DiagramKind::StateTransitionView);
            assert(dnode_views(g.nodes@) =~= seq![]);
            assert(dedge_views(g.edges@) =~= seq![]);
            return g;
        },
    };
    let title = title_of("stm", state_def.name.as_str());
    let mut graph = DiagramGraph::new(title, DiagramKind::StateTransitionView);
    let init = DiagramNode {
        id: own("__initial__"),
        label: String::new(),
        kind: NodeKind::InitialState,
        stereotype: None,
        attributes: Vec::new(),
        is_definition: false,
    };
    assert(crate::diagram::graph::pair_texts(init.attributes@) =~= seq![]);
    graph.add_node(init);
    let ghost states = stm_states(*model, *state_def);
    let ghost fs = |u: Usage| u.kind@ == "state"@ && opt_view(u.parent_def) == Some(state_def.name@);
    let ghost gs = |u: Usage| plain_node(u.name@, NodeKind::State, None, seq![]);
    let mut first: Option<&String> = None;
    let mut j: usize = 0;
    while j < model.usages.len()
        invariant
            j <= model.usages@.len(),
            forall|x: Usage| #[trigger] fs(x) == (x.kind@ == "state"@ && opt_view(x.parent_def) == Some(state_def.name@)),
            forall|x: Usage| #[trigger] gs(x) == plain_node(x.name@, NodeKind::State, None, seq![]),
            graph_frame(graph, title_text("stm"@, state_def.name@), DiagramKind::StateTransitionView),
            dnode_views(graph.nodes@) == seq![initial_node()] + filter_seq(model.usages@.take(j as int), fs).map_values(gs),
            graph.edges@.len() == 0,
            match first {
                Some(n) => filter_seq(model.usages@.take(j as int), fs).len() > 0 && n@ == filter_seq(model.usages@.take(j as int), fs)[0].name@,
                None => filter_seq(model.usages@.take(j as int), fs).len() == 0,
            },
        decreases model.usages@.len() - j,
    {
        proof {
            lemma_filter_take(model.usages@, fs, j as int);
        }
        let u = &model.usages[j];
        let is_state = str_eq(u.kind.as_str(), "state") && match &u.parent_def {
            Some(p) => str_eq(p.as_str(), state_def.name.as_str()),
            None => false,
        };
        assert(is_state == fs(*u));
        if is_state {
            let node = DiagramNode {
                id: u.name.clone(),
                label: u.name.clone(),
                kind: NodeKind::State,
                stereotype: None,
                attributes: Vec::new(),
                is_definition: false,
            };
            assert(crate::diagram::graph::pair_texts(node.attributes@) =~= seq![]);
            assert(node@ == gs(*u));
            let ghost before = filter_seq(model.usages@.take(j as int), fs);
            graph.add_node(node);
            assert(filter_seq(model.usages@.take(j + 1), fs) =~= before.push(*u));
            assert(filter_seq(model.usages@.take(j + 1), fs).map_values(gs) =~= before.map_values(gs).push(gs(*u)));
            if first.is_none() {
                first = Some(&u.name);
            }
        } else {
            assert(filter_seq(model.usages@.take(j + 1), fs) =~= filter_seq(model.usages@.take(j as int), fs));
        }
        j = j + 1;
    }
    assert(model.usages@.take(model.usages@.len() as int) =~= model.usages@);
    assert(states =~= filter_seq(model.usages@, fs));
    match first {
        Some(n) => {
            graph.add_edge(DiagramEdge {
                source: own("__initial__"),
                target: n.clone(),
                label: None,
                kind: EdgeKind::Transition,
            });
        },
        None => {},
    }
    assert(dedge_views(graph.edges@) =~= stm_edges(*model, name));
    assert(states.map_values(gs) =~= states.map_values(|u: Usage| plain_node(u.name@, NodeKind::State, None, seq![])));
    graph
}

/// The first element that passes a filter is the first of the filtered sequence.
pub proof fn lemma_filter_first<T>(s: Seq<T>, f: spec_fn(T) -> bool, i: int)
    requires
        0 <= i < s.len(),
        f(s[i]),
        filter_seq(s.take(i), f).len() == 0,
    ensures
        filter_seq(s, f).len() > 0,
        filter_seq(s, f)[0] == s[i],
{
    lemma_filter_prefix(s, f, i + 1);
    lemma_filter_take(s, f, i);
}

/// Filtering a prefix gives a prefix of the filtered sequence.
pub proof fn lemma_filter_prefix<T>(s: Seq<T>, f: spec_fn(T) -> bool, k: int)
    requires
        0 <= k <= s.len(),
    ensures
        filter_seq(s.take(k), f).len() <= filter_seq(s, f).len(),
        forall|j: int| 0 <= j < filter_seq(s.take(k), f).len() ==> #[trigger] filter_seq(s, f)[j] == filter_seq(s.take(k), f)[j],
    decreases s.len() - k,
{
    if k == s.len() {
        assert(s.take(k) =~= s);
    } else {
        lemma_filter_prefix(s, f, k + 1);
        lemma_filter_take(s, f, k);
    }
}

// ------------------------------------------------------------------------
// Parametric diagrams
// ------------------------------------------------------------------------

/// `dir ` for a usage with a direction.
pub open spec fn dir_prefix(u: Usage) -> Seq<char> {
    match u.direction {
        Some(d) => crate::model::direction_text(d) + " "@,
        None => seq![],
    }
}

/// The constraint definitions a parametric diagram shows: all of them, or
/// those named `scope` or inside it.
pub open spec fn par_defs(model: Model, scope: Option<Seq<char>>) -> Seq<Definition> {
    filter_seq(
        model.definitions@,
        |d: Definition| d.kind == DefKind::Constraint && match scope {
            Some(s) => opt_view(d.parent_def) == Some(s) || d.name@ == s,
            None => true,
        },
    )
}

/// The parameter attribute of a usage: `(dir name, Type)`.
pub open spec fn param_attr(u: Usage) -> (Seq<char>, Seq<char>) {
    (dir_prefix(u) + u.name@, type_or_unknown(u))
}

/// The node of a constraint definition: `<<constraint>>` with its
/// parameters as attributes.
pub open spec fn par_node(model: Model, d: Definition) -> DNodeView {
    plain_node(
        d.name@,
        NodeKind::Constraint,
        Some("<<constraint>>"@),
        usages_with_parent(model.usages@, d.name@).map_values(|u: Usage| param_attr(u)),
    )
}

/// The title of a diagram of `scope` or else of the model's file.
pub open spec fn scoped_title(prefix: Seq<char>, model: Model, scope: Option<Seq<char>>) -> Seq<char> {
    match scope {
        Some(s) => title_text(prefix, s),
        None => title_text(prefix, model.file@),
    }
}

/// The parameters of a usage list as attributes.
fn param_attrs(us: &Vec<&Usage>) -> (r: Vec<(String, String)>)
    ensures
        crate::diagram::graph::pair_texts(r@) == us@.map_values(|u: &Usage| param_attr(*u)),
{
    let mut r: Vec<(String, String)> = Vec::new();
    let mut i: usize = 0;
    while i < us.len()
        invariant
            i <= us@.len(),
            crate::diagram::graph::pair_texts(r@) == us@.take(i as int).map_values(|u: &Usage| param_attr(*u)),
        decreases us@.len() - i,
    {
        let u = us[i];
        let mut name = String::new();
        match u.direction {
            Some(d) => {
                push_str(&mut name, d.label());
                push_str(&mut name, " ");
            },
            None => {},
        }
        push_str(&mut name, u.name.as_str());
        let t = match &u.type_ref {
            Some(t) => t.clone(),
            None => own("?"),
        };
        let ghost pre = crate::diagram::graph::pair_texts(r@);
        assert(name@ =~= param_attr(*u).0);
        r.push((name, t));
        assert(crate::diagram::graph::pair_texts(r@) =~= pre.push(param_attr(*u)));
        assert(us@.take(i + 1).map_values(|u: &Usage| param_attr(*u)) =~= us@.take(i as int).map_values(
            |u: &Usage| param_attr(*u),
        ).push(param_attr(*u)));
        i = i + 1;
    }
    assert(us@.take(us@.len() as int) =~= us@);
    r
}

/// Build a Parametric Diagram: constraint definitions (all, or those of a
/// scope) with their parameters as attributes.
pub fn build_par(model: &Model, scope: Option<&str>) -> (g: DiagramGraph)
    ensures
        graph_frame(g, scoped_title("par"@, *model, opt_str_text(scope)), DiagramKind::GeneralView(GeneralViewFlavor::Parametric)),
        dnode_views(g.nodes@) == par_defs(*model, opt_str_text(scope)).map_values(|d: Definition| par_node(*model, d)),
        g.edges@.len() == 0,
{
    let title = match scope {
        Some(s) => title_of("par", s),
        None => title_of("par", model.file.as_str()),
    };
    let mut graph = DiagramGraph::new(title, DiagramKind::GeneralView(GeneralViewFlavor::Parametric));
    let ghost sc = opt_str_text(scope);
    let ghost title_v = scoped_title("par"@, *model, sc);
    let ghost kind = DiagramKind::GeneralView(GeneralViewFlavor::Parametric);
    let ghost f = |d: Definition| d.kind == DefKind::Constraint && match sc {
        Some(s) => opt_view(d.parent_def) == Some(s) || d.name@ == s,
        None => true,
    };
    let ghost g = |d: Definition| par_node(*model, d);
    let mut i: usize = 0;
    while i < model.definitions.len()
        invariant
            i <= model.definitions@.len(),
            sc == opt_str_text(scope),
            forall|x: Definition| #[trigger] f(x) == (x.kind == DefKind::Constraint && match sc {
                Some(s) => opt_view(x.parent_def) == Some(s) || x.name@ == s,
                None => true,
            }),
            forall|x: Definition| #[trigger] g(x) == par_node(*model, x),
            graph_frame(graph, title_v, kind),
            dnode_views(graph.nodes@) == filter_seq(model.definitions@.take(i as int), f).map_values(g),
            graph.edges@.len() == 0,
        decreases model.definitions@.len() - i,
    {
        proof {
            lemma_filter_take(model.definitions@, f, i as int);
        }
        let d = &model.definitions[i];
        let keep = d.kind == DefKind::Constraint && match scope {
            Some(s) => {
                let in_scope = match &d.parent_def {
                    Some(p) => str_eq(p.as_str(), s),
                    None => false,
                };
                in_scope || str_eq(d.name.as_str(), s)
            },
            None => true,
        };
        assert(keep == f(*d));
        let ghost before = filter_seq(model.definitions@.take(i as int), f);
        if keep {
            let params = model.usages_in_def(d.name.as_str());
            let attrs = param_attrs(&params);
            assert(params@.map_values(|u: &Usage| param_attr(*u)) =~= usages_with_parent(model.usages@, d.name@).map_values(|u: Usage| param_attr(u)));
            let node = DiagramNode {
                id: d.name.clone(),
                label: d.name.clone(),
                kind: NodeKind::Constraint,
                stereotype: Some(own("<<constraint>>")),
                attributes: attrs,
                is_definition: false,
            };
            assert(node@ == g(*d));
            graph.add_node(node);
            assert(filter_seq(model.definitions@.take(i + 1), f).map_values(g) =~= before.map_values(g).push(g(*d)));
        } else {
            assert(filter_seq(model.definitions@.take(i + 1), f) =~= before);
        }
        i = i + 1;
    }
    assert(model.definitions@.take(model.definitions@.len() as int) =~= model.definitions@);
    assert(filter_seq(model.definitions@, f) =~= par_defs(*model, sc));
    assert(filter_seq(model.definitions@, f).map_values(g) =~= par_defs(*model, sc).map_values(|d: Definition| par_node(*model, d)));
    graph
}

// ------------------------------------------------------------------------
// Package diagrams
// ------------------------------------------------------------------------

/// The non-package definitions directly inside package `p`.
pub open spec fn pkg_children(model: Model, p: Definition) -> Seq<Definition> {
    filter_seq(
        model.definitions@,
        |d: Definition| opt_view(d.parent_def) == Some(p.name@) && d.kind != DefKind::Package,
    )
}

/// The block of a definition, stereotyped by its kind.
pub open spec fn kind_block(d: Definition, is_definition: bool) -> DNodeView {
    DNodeView {
        id: d.name@,
        label: d.name@,
        kind: NodeKind::Block,
        stereotype: Some(guillemets(def_kind_label(d.kind))),
        attributes: seq![],
        is_definition: is_definition,
    }
}

/// The nodes one definition contributes to a package diagram: a package
/// node followed by its contents.
pub open spec fn pkg_part(model: Model, d: Definition) -> Seq<DNodeView> {
    if d.kind == DefKind::Package {
        seq![plain_node(d.name@, NodeKind::Package, Some("<<package>>"@), seq![])]
            + pkg_children(model, d).map_values(|c: Definition| kind_block(c, false))
    } else {
        seq![]
    }
}

/// The group one definition contributes: a package with contents.
pub open spec fn pkg_group(model: Model, d: Definition) -> Seq<SubgraphView> {
    if d.kind == DefKind::Package && pkg_children(model, d).len() > 0 {
        seq![(d.name@, d.name@, def_names(pkg_children(model, d)))]
    } else {
        seq![]
    }
}

/// The top-level non-package definitions.
pub open spec fn pkg_top(model: Model) -> Seq<Definition> {
    filter_seq(model.definitions@, |d: Definition| d.parent_def is None && d.kind != DefKind::Package)
}

/// The nodes of a package diagram: each package with its contents, then
/// the top-level definitions.
pub open spec fn pkg_nodes(model: Model) -> Seq<DNodeView> {
    collect(model.definitions@, |d: Definition| pkg_part(model, d))
        + pkg_top(model).map_values(|d: Definition| kind_block(d, true))
}

/// The views of a list of subgraphs.
pub open spec fn subgraph_views(sgs: Seq<Subgraph>) -> Seq<SubgraphView> {
    sgs.map_values(|sg: Subgraph| crate::diagram::graph::subgraph_view(sg))
}

/// A block stereotyped by the kind of definition `d`.
fn kind_block_node(d: &Definition, is_definition: bool) -> (r: DiagramNode)
    ensures
        r@ == kind_block(*d, is_definition),
{
    let r = DiagramNode {
        id: d.name.clone(),
        label: d.name.clone(),
        kind: NodeKind::Block,
        stereotype: Some(in_guillemets(d.kind.label())),
        attributes: Vec::new(),
        is_definition,
    };
    assert(crate::diagram::graph::pair_texts(r.attributes@) =~= seq![]);
    r
}

/// Adds the contents of package `p` and returns their names.
fn add_package_contents(graph: &mut DiagramGraph, model: &Model, p: &Definition) -> (ids: Vec<String>)
    ensures
        dnode_views(final(graph).nodes@) == dnode_views(old(graph).nodes@) + pkg_children(*model, *p).map_values(
            |c: Definition| kind_block(c, false),
        ),
        string_views(ids@) == def_names(pkg_children(*model, *p)),
        final(graph).edges@ == old(graph).edges@,
        final(graph).subgraphs@ == old(graph).subgraphs@,
        final(graph).title == old(graph).title,
        final(graph).kind == old(graph).kind,
        final(graph).direction == old(graph).direction,
        final(graph).max_depth == old(graph).max_depth,
{
    let ghost f = |d: Definition| opt_view(d.parent_def) == Some(p.name@) && d.kind != DefKind::Package;
    let ghost g = |c: Definition| kind_block(c, false);
    let ghost start = dnode_views(graph.nodes@);
    let mut ids: Vec<String> = Vec::new();
    let mut j: usize = 0;
    while j < model.definitions.len()
        invariant
            j <= model.definitions@.len(),
            forall|x: Definition| #[trigger] f(x) == (opt_view(x.parent_def) == Some(p.name@) && x.kind != DefKind::Package),
            forall|x: Definition| #[trigger] g(x) == kind_block(x, false),
            dnode_views(graph.nodes@) == start + filter_seq(model.definitions@.take(j as int), f).map_values(g),
            string_views(ids@) == def_names(filter_seq(model.definitions@.take(j as int), f)),
            graph.edges@ == old(graph).edges@,
            graph.subgraphs@ == old(graph).subgraphs@,
            graph.title == old(graph).title,
            graph.kind == old(graph).kind,
            graph.direction == old(graph).direction,
            graph.max_depth == old(graph).max_depth,
        decreases model.definitions@.len() - j,
    {
        proof {
            lemma_filter_take(model.definitions@, f, j as int);
        }
        let d = &model.definitions[j];
        let inside = match &d.parent_def {
            Some(q) => str_eq(q.as_str(), p.name.as_str()),
            None => false,
        } && d.kind != DefKind::Package;
        assert(inside == f(*d));
        let ghost before = filter_seq(model.definitions@.take(j as int), f);
        if inside {
            let node = kind_block_node(d, false);
            graph.add_node(node);
            let ghost ids0 = string_views(ids@);
            ids.push(d.name.clone());
            assert(string_views(ids@) =~= ids0.push(d.name@));
            assert(filter_seq(model.definitions@.take(j + 1), f) =~= before.push(*d));
            assert(before.push(*d).map_values(g) =~= before.map_values(g).push(g(*d)));
            assert(def_names(before.push(*d)) =~= def_names(before).push(d.name@));
        } else {
            assert(filter_seq(model.definitions@.take(j + 1), f) =~= before);
        }
        j = j + 1;
    }
    assert(model.definitions@.take(model.definitions@.len() as int) =~= model.definitions@);
    assert(f =~= (|d: Definition| opt_view(d.parent_def) == Some(p.name@) && d.kind != DefKind::Package));
    assert(filter_seq(model.definitions@, f).map_values(g) =~= pkg_children(*model, *p).map_values(
        |c: Definition| kind_block(c, false),
    ));
    ids
}

/// Build a Package Diagram: each package with the definitions inside it
/// (grouped), then the definitions outside any package.
pub fn build_pkg(model: &Model) -> (g: DiagramGraph)
    ensures
        g.title@ == title_text("pkg"@, model.file@),
        g.kind == DiagramKind::BrowserView,
        g.direction == LayoutDirection::TopBottom,
        g.max_depth is None,
        dnode_views(g.nodes@) == pkg_nodes(*model),
        g.edges@.len() == 0,
        subgraph_views(g.subgraphs@) == collect(model.definitions@, |d: Definition| pkg_group(*model, d)),
{
    let title = title_of("pkg", model.file.as_str());
    let mut graph = DiagramGraph::new(title, DiagramKind::BrowserView);
    let ghost fp = |d: Definition| pkg_part(*model, d);
    let ghost fg = |d: Definition| pkg_group(*model, d);
    let ghost title_v = title_text("pkg"@, model.file@);
    let mut i: usize = 0;
    while i < model.definitions.len()
        invariant
            i <= model.definitions@.len(),
            fp == (|d: Definition| pkg_part(*model, d)),
            fg == (|d: Definition| pkg_group(*model, d)),
            graph.title@ == title_v,
            graph.kind == DiagramKind::BrowserView,
            graph.direction == LayoutDirection::TopBottom,
            graph.max_depth is None,
            graph.edges@.len() == 0,
            dnode_views(graph.nodes@) == collect(model.definitions@.take(i as int), fp),
            subgraph_views(graph.subgraphs@) == collect(model.definitions@.take(i as int), fg),
        decreases model.definitions@.len() - i,
    {
        proof {
            lemma_collect_take(model.definitions@, fp, i as int);
            lemma_collect_take(model.definitions@, fg, i as int);
        }
        let pkg = &model.definitions[i];
        let ghost n0 = dnode_views(graph.nodes@);
        let ghost s0 = subgraph_views(graph.subgraphs@);
        if pkg.kind == DefKind::Package {
            let node = DiagramNode {
                id: pkg.name.clone(),
                label: pkg.name.clone(),
                kind: NodeKind::Package,
                stereotype: Some(own("<<package>>")),
                attributes: Vec::new(),
                is_definition: false,
            };
            assert(crate::diagram::graph::pair_texts(node.attributes@) =~= seq![]);
            graph.add_node(node);
            let ids = add_package_contents(&mut graph, model, pkg);
            assert(dnode_views(graph.nodes@) =~= n0 + fp(*pkg));
            assert(string_views(ids@).len() == ids@.len());
            assert(def_names(pkg_children(*model, *pkg)).len() == pkg_children(*model, *pkg).len());
            if ids.len() > 0 {
                let sg = Subgraph { id: pkg.name.clone(), label: pkg.name.clone(), node_ids: ids };
                graph.add_subgraph(sg);
                assert(crate::diagram::graph::subgraph_view(sg) == (pkg.name@, pkg.name@, def_names(pkg_children(*model, *pkg))));
                assert(subgraph_views(graph.subgraphs@) =~= s0.push(crate::diagram::graph::subgraph_view(sg)));
                assert(subgraph_views(graph.subgraphs@) =~= s0 + fg(*pkg));
            } else {
                assert(subgraph_views(graph.subgraphs@) =~= s0 + fg(*pkg));
            }
        } else {
            assert(dnode_views(graph.nodes@) =~= n0 + fp(*pkg));
            assert(subgraph_views(graph.subgraphs@) =~= s0 + fg(*pkg));
        }
        i = i + 1;
    }
    assert(model.definitions@.take(model.definitions@.len() as int) =~= model.definitions@);
    let ghost head = dnode_views(graph.nodes@);
    let ghost ft = |d: Definition| d.parent_def is None && d.kind != DefKind::Package;
    let ghost gt = |d: Definition| kind_block(d, true);
    let mut k: usize = 0;
    while k < model.definitions.len()
        invariant
            k <= model.definitions@.len(),
            forall|x: Definition| #[trigger] ft(x) == (x.parent_def is None && x.kind != DefKind::Package),
            forall|x: Definition| #[trigger] gt(x) == kind_block(x, true),
            graph.title@ == title_v,
            graph.kind == DiagramKind::BrowserView,
            graph.direction == LayoutDirection::TopBottom,
            graph.max_depth is None,
            graph.edges@.len() == 0,
            subgraph_views(graph.subgraphs@) == collect(model.definitions@, fg),
            fg == (|d: Definition| pkg_group(*model, d)),
            dnode_views(graph.nodes@) == head + filter_seq(model.definitions@.take(k as int), ft).map_values(gt),
        decreases model.definitions@.len() - k,
    {
        proof {
            lemma_filter_take(model.definitions@, ft, k as int);
        }
        let d = &model.definitions[k];
        let top = d.parent_def.is_none() && d.kind != DefKind::Package;
        assert(top == ft(*d));
        let ghost before = filter_seq(model.definitions@.take(k as int), ft);
        if top {
            let node = kind_block_node(d, true);
            graph.add_node(node);
            assert(filter_seq(model.definitions@.take(k + 1), ft) =~= before.push(*d));
            assert(before.push(*d).map_values(gt) =~= before.map_values(gt).push(gt(*d)));
        } else {
            assert(filter_seq(model.definitions@.take(k + 1), ft) =~= before);
        }
        k = k + 1;
    }
    assert(model.definitions@.take(model.definitions@.len() as int) =~= model.definitions@);
    assert(ft =~= (|d: Definition| d.parent_def is None && d.kind != DefKind::Package));
    assert(filter_seq(model.definitions@, ft).map_values(gt) =~= pkg_top(*model).map_values(|d: Definition| kind_block(d, true)));
    graph
}

// ------------------------------------------------------------------------
// Allocation diagrams
// ------------------------------------------------------------------------

/// Add node `node` for `n` unless `n` was drawn already.
pub open spec fn node_once(st: BlockScan, n: Seq<char>, node: DNodeView) -> BlockScan {
    if st.seen.contains(n) {
        st
    } else {
        BlockScan { seen: st.seen.push(n), nodes: st.nodes.push(node), edges: st.edges }
    }
}

/// The blocks and `<<allocate>>` edges of the allocations: each source as an
/// action and each target as a block, drawn once, stereotyped by the kind
/// of the definition of that name.
pub open spec fn alloc_scan(model: Model, allocs: Seq<Allocation>) -> BlockScan
    decreases allocs.len(),
{
    if allocs.len() == 0 {
        empty_scan()
    } else {
        let st = alloc_scan(model, allocs.drop_last());
        let a = allocs.last();
        let src = simple_name_spec(a.source@);
        let tgt = simple_name_spec(a.target@);
        let st1 = node_once(st, src, plain_node(src, NodeKind::Action, def_stereotype(model, src), seq![]));
        let st2 = node_once(st1, tgt, plain_node(tgt, NodeKind::Block, def_stereotype(model, tgt), seq![]));
        BlockScan {
            edges: st2.edges.push(DEdgeView { source: src, target: tgt, label: Some("<<allocate>>"@), kind: EdgeKind::Allocate }),
            ..st2
        }
    }
}

/// The action definitions that no allocation names.
pub open spec fn unallocated(model: Model) -> Seq<Definition> {
    filter_seq(
        model.definitions@,
        |d: Definition| d.kind == DefKind::Action && !alloc_scan(model, model.allocations@).seen.contains(d.name@),
    )
}

/// The note node of an unallocated action.
pub open spec fn unallocated_node(d: Definition) -> DNodeView {
    plain_node(d.name@, NodeKind::Action, Some("<<action>> UNALLOCATED"@), seq![])
}

/// Adds a node for `n` unless `seen` lists it.
fn add_node_once(graph: &mut DiagramGraph, seen: &mut Vec<String>, n: &str, kind: NodeKind, model: &Model, Ghost(st): Ghost<BlockScan>) -> (r: Ghost<BlockScan>)
    requires
        string_views(old(seen)@) == st.seen,
        dnode_views(old(graph).nodes@) == st.nodes,
        dedge_views(old(graph).edges@) == st.edges,
    ensures
        r@ == node_once(st, n@, plain_node(n@, kind, def_stereotype(*model, n@), seq![])),
        string_views(final(seen)@) == r@.seen,
        dnode_views(final(graph).nodes@) == r@.nodes,
        dedge_views(final(graph).edges@) == r@.edges,
        final(graph).subgraphs@ == old(graph).subgraphs@,
        final(graph).title == old(graph).title,
        final(graph).kind == old(graph).kind,
        final(graph).direction == old(graph).direction,
        final(graph).max_depth == old(graph).max_depth,
{
    if contains_string(seen, n) {
        Ghost(st)
    } else {
        let node = DiagramNode {
            id: own(n),
            label: own(n),
            kind,
            stereotype: def_stereotype_of(model, n),
            attributes: Vec::new(),
            is_definition: false,
        };
        assert(crate::diagram::graph::pair_texts(node.attributes@) =~= seq![]);
        graph.add_node(node);
        let ghost s0 = string_views(seen@);
        seen.push(own(n));
        assert(string_views(seen@) =~= s0.push(n@));
        Ghost(node_once(st, n@, plain_node(n@, kind, def_stereotype(*model, n@), seq![])))
    }
}

/// Build an Allocation Diagram: the sources of allocations as actions, their
/// targets as blocks, `<<allocate>>` edges between them, and every action
/// definition that nothing allocates marked `UNALLOCATED`.
pub fn build_alloc(model: &Model) -> (g: DiagramGraph)
    ensures
        graph_frame(g, title_text("alloc"@, model.file@), DiagramKind::GridView(GridViewFlavor::Alloc)),
        dnode_views(g.nodes@) == alloc_scan(*model, model.allocations@).nodes + unallocated(*model).map_values(
            |d: Definition| unallocated_node(d),
        ),
        dedge_views(g.edges@) == alloc_scan(*model, model.allocations@).edges,
{
    let title = title_of("alloc", model.file.as_str());
    let mut graph = DiagramGraph::new(title, DiagramKind::GridView(GridViewFlavor::Alloc));
    let ghost title_v = title_text("alloc"@, model.file@);
    let ghost kind = DiagramKind::GridView(GridViewFlavor::Alloc);
    let mut seen: Vec<String> = Vec::new();
    assert(string_views(seen@) =~= seq![]);
    assert(dnode_views(graph.nodes@) =~= seq![]);
    assert(dedge_views(graph.edges@) =~= seq![]);
    let mut i: usize = 0;
    while i < model.allocations.len()
        invariant
            i <= model.allocations@.len(),
            graph_frame(graph, title_v, kind),
            string_views(seen@) == alloc_scan(*model, model.allocations@.take(i as int)).seen,
            dnode_views(graph.nodes@) == alloc_scan(*model, model.allocations@.take(i as int)).nodes,
            dedge_views(graph.edges@) == alloc_scan(*model, model.allocations@.take(i as int)).edges,
        decreases model.allocations@.len() - i,
    {
        let a = &model.allocations[i];
        assert(model.allocations@.take(i + 1).drop_last() =~= model.allocations@.take(i as int));
        let ghost st = alloc_scan(*model, model.allocations@.take(i as int));
        let src = simple_name(a.source.as_str());
        let tgt = simple_name(a.target.as_str());
        let Ghost(st1) = add_node_once(&mut graph, &mut seen, src, NodeKind::Action, model, Ghost(st));
        let Ghost(st2) = add_node_once(&mut graph, &mut seen, tgt, NodeKind::Block, model, Ghost(st1));
        let e = DiagramEdge {
            source: own(src),
            target: own(tgt),
            label: Some(own("<<allocate>>")),
            kind: EdgeKind::Allocate,
        };
        graph.add_edge(e);
        i = i + 1;
    }
    assert(model.allocations@.take(model.allocations@.len() as int) =~= model.allocations@);
    let ghost st = alloc_scan(*model, model.allocations@);
    let ghost head = st.nodes;
    let ghost f = |d: Definition| d.kind == DefKind::Action && !st.seen.contains(d.name@);
    let ghost h = |d: Definition| unallocated_node(d);
    let mut k: usize = 0;
    while k < model.definitions.len()
        invariant
            k <= model.definitions@.len(),
            st == alloc_scan(*model, model.allocations@),
            string_views(seen@) == st.seen,
            forall|x: Definition| #[trigger] f(x) == (x.kind == DefKind::Action && !st.seen.contains(x.name@)),
            forall|x: Definition| #[trigger] h(x) == unallocated_node(x),
            graph_frame(graph, title_v, kind),
            dedge_views(graph.edges@) == st.edges,
            dnode_views(graph.nodes@) == head + filter_seq(model.definitions@.take(k as int), f).map_values(h),
        decreases model.definitions@.len() - k,
    {
        proof {
            lemma_filter_take(model.definitions@, f, k as int);
        }
        let d = &model.definitions[k];
        let hit = d.kind == DefKind::Action && !contains_string(&seen, d.name.as_str());
        assert(hit == f(*d));
        let ghost before = filter_seq(model.definitions@.take(k as int), f);
        if hit {
            let node = DiagramNode {
                id: d.name.clone(),
                label: d.name.clone(),
                kind: NodeKind::Action,
                stereotype: Some(own("<<action>> UNALLOCATED")),
                attributes: Vec::new(),
                is_definition: false,
            };
            assert(crate::diagram::graph::pair_texts(node.attributes@) =~= seq![]);
            graph.add_node(node);
            assert(filter_seq(model.definitions@.take(k + 1), f) =~= before.push(*d));
            assert(before.push(*d).map_values(h) =~= before.map_values(h).push(h(*d)));
        } else {
            assert(filter_seq(model.definitions@.take(k + 1), f) =~= before);
        }
        k = k + 1;
    }
    assert(model.definitions@.take(model.definitions@.len() as int) =~= model.definitions@);
    assert(f =~= (|d: Definition| d.kind == DefKind::Action && !alloc_scan(*model, model.allocations@).seen.contains(d.name@)));
    assert(filter_seq(model.definitions@, f).map_values(h) =~= unallocated(*model).map_values(|d: Definition| unallocated_node(d)));
    graph
}

// ------------------------------------------------------------------------
// Use case diagrams
// ------------------------------------------------------------------------

/// The actor an `actor` usage names: its type, or else its own name.
pub open spec fn actor_name(u: Usage) -> Seq<char> {
    match u.type_ref {
        Some(t) => t@,
        None => u.name@,
    }
}

/// The node of an actor.
pub open spec fn actor_node(n: Seq<char>) -> DNodeView {
    plain_node(n, NodeKind::Actor, Some("<<actor>>"@), seq![])
}

/// The actors of use case `owner` (its `actor` usages `us`): each actor
/// drawn once over the whole diagram, and an edge from it to the use case.
pub open spec fn actor_scan(st: BlockScan, us: Seq<Usage>, owner: Seq<char>) -> BlockScan
    decreases us.len(),
{
    if us.len() == 0 {
        st
    } else {
        let st0 = actor_scan(st, us.drop_last(), owner);
        let u = us.last();
        if u.kind@ == "actor"@ {
            block_step(
                st0,
                actor_name(u),
                actor_node(actor_name(u)),
                DEdgeView { source: actor_name(u), target: owner, label: None, kind: EdgeKind::Dependency },
            )
        } else {
            st0
        }
    }
}

/// The `<<include>>` edge of an included use case usage.
pub open spec fn include_edge(owner: Seq<char>, u: Usage) -> Seq<DEdgeView> {
    if u.kind@ == "use case"@ || u.kind@ == "usecase"@ {
        seq![DEdgeView { source: owner, target: actor_name(u), label: Some("<<include>>"@), kind: EdgeKind::Dependency }]
    } else {
        seq![]
    }
}

/// The node of a use case definition, with its doc comment as description.
pub open spec fn usecase_node(d: Definition) -> DNodeView {
    DNodeView {
        id: d.name@,
        label: d.name@,
        kind: NodeKind::UseCase,
        stereotype: Some("<<use case>>"@),
        attributes: doc_attr(d.doc, "description"@),
        is_definition: false,
    }
}

/// Nodes and edges of a use case diagram over definitions `ds`: for each
/// use case definition, its node, its actors and its includes.
pub open spec fn ucd_scan(model: Model, ds: Seq<Definition>) -> BlockScan
    decreases ds.len(),
{
    if ds.len() == 0 {
        empty_scan()
    } else {
        let st = ucd_scan(model, ds.drop_last());
        let d = ds.last();
        if d.kind == DefKind::UseCase {
            let us = usages_with_parent(model.usages@, d.name@);
            let st1 = BlockScan { nodes: st.nodes.push(usecase_node(d)), ..st };
            let st2 = actor_scan(st1, us, d.name@);
            BlockScan { edges: st2.edges + collect(us, |u: Usage| include_edge(d.name@, u)), ..st2 }
        } else {
            st
        }
    }
}

/// Adds the actors of use case `d` and their edges.
fn add_actors(graph: &mut DiagramGraph, seen: &mut Vec<String>, model: &Model, d: &Definition, Ghost(st): Ghost<BlockScan>) -> (r: Ghost<BlockScan>)
    requires
        string_views(old(seen)@) == st.seen,
        dnode_views(old(graph).nodes@) == st.nodes,
        dedge_views(old(graph).edges@) == st.edges,
    ensures
        r@ == actor_scan(st, usages_with_parent(model.usages@, d.name@), d.name@),
        string_views(final(seen)@) == r@.seen,
        dnode_views(final(graph).nodes@) == r@.nodes,
        dedge_views(final(graph).edges@) == r@.edges,
        final(graph).subgraphs@ == old(graph).subgraphs@,
        final(graph).title == old(graph).title,
        final(graph).kind == old(graph).kind,
        final(graph).direction == old(graph).direction,
        final(graph).max_depth == old(graph).max_depth,
{
    let ghost us = usages_with_parent(model.usages@, d.name@);
    let usages = model.usages_in_def(d.name.as_str());
    let mut j: usize = 0;
    while j < usages.len()
        invariant
            j <= usages@.len(),
            usages@.len() == us.len(),
            forall|k: int| 0 <= k < us.len() ==> *#[trigger] usages@[k] == us[k],
            string_views(seen@) == actor_scan(st, us.take(j as int), d.name@).seen,
            dnode_views(graph.nodes@) == actor_scan(st, us.take(j as int), d.name@).nodes,
            dedge_views(graph.edges@) == actor_scan(st, us.take(j as int), d.name@).edges,
            graph.subgraphs@ == old(graph).subgraphs@,
            graph.title == old(graph).title,
            graph.kind == old(graph).kind,
            graph.direction == old(graph).direction,
            graph.max_depth == old(graph).max_depth,
        decreases usages@.len() - j,
    {
        let u = usages[j];
        assert(us.take(j + 1).drop_last() =~= us.take(j as int));
        if str_eq(u.kind.as_str(), "actor") {
            let name: &str = match &u.type_ref {
                Some(t) => t.as_str(),
                None => u.name.as_str(),
            };
            if !contains_string(seen, name) {
                let node = DiagramNode {
                    id: own(name),
                    label: own(name),
                    kind: NodeKind::Actor,
                    stereotype: Some(own("<<actor>>")),
                    attributes: Vec::new(),
                    is_definition: false,
                };
                assert(crate::diagram::graph::pair_texts(node.attributes@) =~= seq![]);
                graph.add_node(node);
                let ghost s0 = string_views(seen@);
                seen.push(own(name));
                assert(string_views(seen@) =~= s0.push(name@));
            }
            graph.add_edge(DiagramEdge {
                source: own(name),
                target: d.name.clone(),
                label: None,
                kind: EdgeKind::Dependency,
            });
        }
        j = j + 1;
    }
    assert(us.take(us.len() as int) =~= us);
    Ghost(actor_scan(st, us, d.name@))
}

/// Adds the `<<include>>` edges of use case `d`.
fn add_includes(graph: &mut DiagramGraph, model: &Model, d: &Definition)
    ensures
        dedge_views(final(graph).edges@) == dedge_views(old(graph).edges@) + collect(
            usages_with_parent(model.usages@, d.name@),
            |u: Usage| include_edge(d.name@, u),
        ),
        final(graph).nodes@ == old(graph).nodes@,
        final(graph).subgraphs@ == old(graph).subgraphs@,
        final(graph).title == old(graph).title,
        final(graph).kind == old(graph).kind,
        final(graph).direction == old(graph).direction,
        final(graph).max_depth == old(graph).max_depth,
{
    let ghost us = usages_with_parent(model.usages@, d.name@);
    let ghost f = |u: Usage| include_edge(d.name@, u);
    let ghost start = dedge_views(graph.edges@);
    let usages = model.usages_in_def(d.name.as_str());
    let mut j: usize = 0;
    while j < usages.len()
        invariant
            j <= usages@.len(),
            usages@.len() == us.len(),
            forall|k: int| 0 <= k < us.len() ==> *#[trigger] usages@[k] == us[k],
            f == (|u: Usage| include_edge(d.name@, u)),
            dedge_views(graph.edges@) == start + collect(us.take(j as int), f),
            graph.nodes@ == old(graph).nodes@,
            graph.subgraphs@ == old(graph).subgraphs@,
            graph.title == old(graph).title,
            graph.kind == old(graph).kind,
            graph.direction == old(graph).direction,
            graph.max_depth == old(graph).max_depth,
        decreases usages@.len() - j,
    {
        let u = usages[j];
        proof {
            lemma_collect_take(us, f, j as int);
        }
        let ghost e0 = dedge_views(graph.edges@);
        if str_eq(u.kind.as_str(), "use case") || str_eq(u.kind.as_str(), "usecase") {
            let target: &str = match &u.type_ref {
                Some(t) => t.as_str(),
                None => u.name.as_str(),
            };
            graph.add_edge(DiagramEdge {
                source: d.name.clone(),
                target: own(target),
                label: Some(own("<<include>>")),
                kind: EdgeKind::Dependency,
            });
        }
        assert(dedge_views(graph.edges@) =~= e0 + f(*u));
        j = j + 1;
    }
    assert(us.take(us.len() as int) =~= us);
}

/// Build a Use Case Diagram: use case definitions (with their doc comment as
/// description), the actors they involve (each drawn once) with an edge to
/// the use case, and `<<include>>` edges to the use cases they include.
pub fn build_ucd(model: &Model) -> (g: DiagramGraph)
    ensures
        graph_frame(g, title_text("ucd"@, model.file@), DiagramKind::GeneralView(GeneralViewFlavor::UseCase)),
        dnode_views(g.nodes@) == ucd_scan(*model, model.definitions@).nodes,
        dedge_views(g.edges@) == ucd_scan(*model, model.definitions@).edges,
{
    let title = title_of("ucd", model.file.as_str());
    let mut graph = DiagramGraph::new(title, DiagramKind::GeneralView(GeneralViewFlavor::UseCase));
    let ghost title_v = title_text("ucd"@, model.file@);
    let ghost kind = DiagramKind::GeneralView(GeneralViewFlavor::UseCase);
    let mut seen: Vec<String> = Vec::new();
    assert(string_views(seen@) =~= seq![]);
    assert(dnode_views(graph.nodes@) =~= seq![]);
    assert(dedge_views(graph.edges@) =~= seq![]);
    let mut i: usize = 0;
    while i < model.definitions.len()
        invariant
            i <= model.definitions@.len(),
            graph_frame(graph, title_v, kind),
            string_views(seen@) == ucd_scan(*model, model.definitions@.take(i as int)).seen,
            dnode_views(graph.nodes@) == ucd_scan(*model, model.definitions@.take(i as int)).nodes,
            dedge_views(graph.edges@) == ucd_scan(*model, model.definitions@.take(i as int)).edges,
        decreases model.definitions@.len() - i,
    {
        let d = &model.definitions[i];
        assert(model.definitions@.take(i + 1).drop_last() =~= model.definitions@.take(i as int));
        if d.kind == DefKind::UseCase {
            let ghost st = ucd_scan(*model, model.definitions@.take(i as int));
            let node = DiagramNode {
                id: d.name.clone(),
                label: d.name.clone(),
                kind: NodeKind::UseCase,
                stereotype: Some(own("<<use case>>")),
                attributes: doc_attr_of(&d.doc, "description"),
                is_definition: false,
            };
            graph.add_node(node);
            let ghost st1 = BlockScan { nodes: st.nodes.push(usecase_node(*d)), ..st };
            let Ghost(st2) = add_actors(&mut graph, &mut seen, model, d, Ghost(st1));
            add_includes(&mut graph, model, d);
        }
        i = i + 1;
    }
    assert(model.definitions@.take(model.definitions@.len() as int) =~= model.definitions@);
    graph
}

// ------------------------------------------------------------------------
// Sequence views
// ------------------------------------------------------------------------

/// The lifeline participants: the part and item usages of the scope, or the
/// top-level ones.
pub open spec fn sv_parts(model: Model, scope: Option<Seq<char>>) -> Seq<Usage> {
    match scope {
        Some(s) => filter_seq(
            usages_with_parent(model.usages@, s),
            |u: Usage| u.kind@ == "part"@ || u.kind@ == "item"@,
        ),
        None => filter_seq(
            model.usages@,
            |u: Usage| (u.kind@ == "part"@ || u.kind@ == "item"@) && u.parent_def is None,
        ),
    }
}

/// ` : Type` for a typed usage.
pub open spec fn type_suffix(u: Usage) -> Seq<char> {
    match u.type_ref {
        Some(t) => " : "@ + t@,
        None => seq![],
    }
}

/// The lifeline of a participant.
pub open spec fn lifeline_node(u: Usage) -> DNodeView {
    DNodeView {
        id: u.name@,
        label: u.name@ + type_suffix(u),
        kind: NodeKind::Lifeline,
        stereotype: None,
        attributes: seq![],
        is_definition: false,
    }
}

/// The ids of node views.
pub open spec fn view_ids(vs: Seq<DNodeView>) -> Seq<Seq<char>> {
    vs.map_values(|n: DNodeView| n.id)
}

/// Nodes and edges drawn so far.
pub struct GraphScan {
    pub nodes: Seq<DNodeView>,
    pub edges: Seq<DEdgeView>,
}

/// Adds a bare lifeline for `n` unless a node has that id.
pub open spec fn lifeline_once(nodes: Seq<DNodeView>, n: Seq<char>) -> Seq<DNodeView> {
    if view_ids(nodes).contains(n) {
        nodes
    } else {
        nodes.push(plain_node(n, NodeKind::Lifeline, None, seq![]))
    }
}

/// The label of a message: the flow's name, or else its item type.
pub open spec fn message_label(f: Flow) -> Option<Seq<char>> {
    match f.name {
        Some(n) => Some(n@),
        None => opt_view(f.item_type),
    }
}

/// The sequence view over flows `fs`: lifelines of the participants, then
/// for each flow that touches a participant, lifelines for its ends (once)
/// and a message.
pub open spec fn sv_scan(model: Model, parts: Seq<Usage>, fs: Seq<Flow>) -> GraphScan
    decreases fs.len(),
{
    if fs.len() == 0 {
        GraphScan { nodes: parts.map_values(|u: Usage| lifeline_node(u)), edges: seq![] }
    } else {
        let st = sv_scan(model, parts, fs.drop_last());
        let f = fs.last();
        let src = simple_name_spec(f.source@);
        let tgt = simple_name_spec(f.target@);
        let names = parts.map_values(|u: Usage| u.name@);
        if names.contains(src) || names.contains(tgt) {
            GraphScan {
                nodes: lifeline_once(lifeline_once(st.nodes, src), tgt),
                edges: st.edges.push(DEdgeView { source: src, target: tgt, label: message_label(f), kind: EdgeKind::Message }),
            }
        } else {
            st
        }
    }
}

/// The participants of a sequence view.
fn sv_parts_of<'a>(model: &'a Model, scope: Option<&str>) -> (r: Vec<&'a Usage>)
    ensures
        r@.len() == sv_parts(*model, opt_str_text(scope)).len(),
        forall|k: int| 0 <= k < r@.len() ==> *#[trigger] r@[k] == sv_parts(*model, opt_str_text(scope))[k],
{
    let ghost sc = opt_str_text(scope);
    let ghost src = match sc {
        Some(s) => usages_with_parent(model.usages@, s),
        None => model.usages@,
    };
    let ghost f = |u: Usage| (u.kind@ == "part"@ || u.kind@ == "item"@) && match sc {
        Some(s) => true,
        None => u.parent_def is None,
    };
    let candidates: Vec<&Usage> = match scope {
        Some(s) => model.usages_in_def(s),
        None => {
            let mut all: Vec<&Usage> = Vec::new();
            let mut i: usize = 0;
            while i < model.usages.len()
                invariant
                    i <= model.usages@.len(),
                    all@.len() == i,
                    forall|k: int| 0 <= k < i ==> *#[trigger] all@[k] == model.usages@[k],
                decreases model.usages@.len() - i,
            {
                all.push(&model.usages[i]);
                i = i + 1;
            }
            all
        },
    };
    let mut r: Vec<&Usage> = Vec::new();
    let mut i: usize = 0;
    while i < candidates.len()
        invariant
            i <= candidates@.len(),
            candidates@.len() == src.len(),
            forall|k: int| 0 <= k < src.len() ==> *#[trigger] candidates@[k] == src[k],
            forall|x: Usage| #[trigger] f(x) == ((x.kind@ == "part"@ || x.kind@ == "item"@) && match sc {
                Some(s) => true,
                None => x.parent_def is None,
            }),
            sc == opt_str_text(scope),
            r@.len() == filter_seq(src.take(i as int), f).len(),
            forall|k: int| 0 <= k < r@.len() ==> *#[trigger] r@[k] == filter_seq(src.take(i as int), f)[k],
        decreases candidates@.len() - i,
    {
        proof {
            lemma_filter_take(src, f, i as int);
        }
        let u = candidates[i];
        let keep = (str_eq(u.kind.as_str(), "part") || str_eq(u.kind.as_str(), "item")) && match scope {
            Some(_) => true,
            None => u.parent_def.is_none(),
        };
        assert(keep == f(*u));
        if keep {
            r.push(u);
        }
        i = i + 1;
    }
    assert(src.take(src.len() as int) =~= src);
    proof {
        match sc {
            Some(s) => {
                assert(f =~= (|u: Usage| u.kind@ == "part"@ || u.kind@ == "item"@));
            },
            None => {
                assert(f =~= (|u: Usage| (u.kind@ == "part"@ || u.kind@ == "item"@) && u.parent_def is None));
            },
        }
    }
    r
}

/// Adds a bare lifeline for `n` unless the graph has a node with that id.
fn add_lifeline_once(graph: &mut DiagramGraph, n: &str)
    ensures
        dnode_views(final(graph).nodes@) == lifeline_once(dnode_views(old(graph).nodes@), n@),
        final(graph).edges@ == old(graph).edges@,
        final(graph).subgraphs@ == old(graph).subgraphs@,
        final(graph).title == old(graph).title,
        final(graph).kind == old(graph).kind,
        final(graph).direction == old(graph).direction,
        final(graph).max_depth == old(graph).max_depth,
{
    assert(crate::diagram::graph::node_ids(graph.nodes@) =~= view_ids(dnode_views(graph.nodes@)));
    if !graph.has_node(n) {
        let node = DiagramNode {
            id: own(n),
            label: own(n),
            kind: NodeKind::Lifeline,
            stereotype: None,
            attributes: Vec::new(),
            is_definition: false,
        };
        assert(crate::diagram::graph::pair_texts(node.attributes@) =~= seq![]);
        graph.add_node(node);
    }
}

/// Build a Sequence View: lifelines for the part and item usages of the
/// scope (or the top-level ones), and a message per flow that touches one
/// of them, adding lifelines for flow ends not drawn yet.
pub fn build_sv(model: &Model, scope: Option<&str>) -> (g: DiagramGraph)
    ensures
        graph_frame(g, scoped_title("sv"@, *model, opt_str_text(scope)), DiagramKind::SequenceView),
        dnode_views(g.nodes@) == sv_scan(*model, sv_parts(*model, opt_str_text(scope)), model.flows@).nodes,
        dedge_views(g.edges@) == sv_scan(*model, sv_parts(*model, opt_str_text(scope)), model.flows@).edges,
{
    let title = match scope {
        Some(s) => title_of("sv", s),
        None => title_of("sv", model.file.as_str()),
    };
    let mut graph = DiagramGraph::new(title, DiagramKind::SequenceView);
    let ghost title_v = scoped_title("sv"@, *model, opt_str_text(scope));
    let ghost kind = DiagramKind::SequenceView;
    let parts = sv_parts_of(model, scope);
    let ghost ps = sv_parts(*model, opt_str_text(scope));
    let mut names: Vec<&str> = Vec::new();
    let mut i: usize = 0;
    while i < parts.len()
        invariant
            i <= parts@.len(),
            parts@.len() == ps.len(),
            forall|k: int| 0 <= k < ps.len() ==> *#[trigger] parts@[k] == ps[k],
            graph_frame(graph, title_v, kind),
            dnode_views(graph.nodes@) == ps.take(i as int).map_values(|u: Usage| lifeline_node(u)),
            graph.edges@.len() == 0,
            names.deep_view() == ps.take(i as int).map_values(|u: Usage| u.name@),
        decreases parts@.len() - i,
    {
        let part = parts[i];
        let mut label = part.name.clone();
        match &part.type_ref {
            Some(t) => {
                push_str(&mut label, " : ");
                push_str(&mut label, t.as_str());
                assert(label@ =~= part.name@ + type_suffix(*part));
            },
            None => {
                assert(label@ =~= part.name@ + type_suffix(*part));
            },
        }
        let node = DiagramNode {
            id: part.name.clone(),
            label,
            kind: NodeKind::Lifeline,
            stereotype: None,
            attributes: Vec::new(),
            is_definition: false,
        };
        assert(crate::diagram::graph::pair_texts(node.attributes@) =~= seq![]);
        assert(node@ == lifeline_node(*part));
        graph.add_node(node);
        let ghost n0 = names.deep_view();
        names.push(part.name.as_str());
        assert(names.deep_view() =~= n0.push(part.name@));
        assert(ps.take(i + 1).map_values(|u: Usage| lifeline_node(u)) =~= ps.take(i as int).map_values(
            |u: Usage| lifeline_node(u),
        ).push(lifeline_node(*part)));
        assert(ps.take(i + 1).map_values(|u: Usage| u.name@) =~= ps.take(i as int).map_values(
            |u: Usage| u.name@,
        ).push(part.name@));
        i = i + 1;
    }
    assert(ps.take(ps.len() as int) =~= ps);
    assert(dedge_views(graph.edges@) =~= seq![]);
    let mut j: usize = 0;
    while j < model.flows.len()
        invariant
            j <= model.flows@.len(),
            ps == sv_parts(*model, opt_str_text(scope)),
            names.deep_view() == ps.map_values(|u: Usage| u.name@),
            graph_frame(graph, title_v, kind),
            dnode_views(graph.nodes@) == sv_scan(*model, ps, model.flows@.take(j as int)).nodes,
            dedge_views(graph.edges@) == sv_scan(*model, ps, model.flows@.take(j as int)).edges,
        decreases model.flows@.len() - j,
    {
        let flow = &model.flows[j];
        assert(model.flows@.take(j + 1).drop_last() =~= model.flows@.take(j as int));
        let src = simple_name(flow.source.as_str());
        let tgt = simple_name(flow.target.as_str());
        if listed_in(&names, src) || listed_in(&names, tgt) {
            add_lifeline_once(&mut graph, src);
            add_lifeline_once(&mut graph, tgt);
            let label = match &flow.name {
                Some(n) => Some(n.clone()),
                None => match &flow.item_type {
                    Some(t) => Some(t.clone()),
                    None => None,
                },
            };
            graph.add_edge(DiagramEdge { source: own(src), target: own(tgt), label, kind: EdgeKind::Message });
        }
        j = j + 1;
    }
    assert(model.flows@.take(model.flows@.len() as int) =~= model.flows@);
    graph
}

// ------------------------------------------------------------------------
// Internal block diagrams
// ------------------------------------------------------------------------

/// `inner` lies within `outer` (by bytes).
pub open spec fn span_within(outer: Span, inner: Span) -> bool {
    outer.start_byte <= inner.start_byte && inner.end_byte <= outer.end_byte
}

/// The usages inside `parent` whose spans lie within `sp`.
pub open spec fn nested_usages(model: Model, parent: Seq<char>, sp: Span) -> Seq<Usage> {
    filter_seq(model.usages@, |u: Usage| opt_view(u.parent_def) == Some(parent) && span_within(sp, u.span))
}

/// `prefix.name`, or `name` alone under an empty prefix.
pub open spec fn dotted(prefix: Seq<char>, name: Seq<char>) -> Seq<char> {
    if prefix.len() == 0 {
        name
    } else {
        prefix + "."@ + name
    }
}

/// `~` for a conjugated usage.
pub open spec fn conj_mark(u: Usage) -> Seq<char> {
    if u.is_conjugated {
        "~"@
    } else {
        seq![]
    }
}

/// The attribute row of a port: `(dir port prefix.name, ~Type)`.
pub open spec fn port_row(u: Usage, prefix: Seq<char>) -> (Seq<char>, Seq<char>) {
    (dir_prefix(u) + "port "@ + dotted(prefix, u.name@), conj_mark(u) + type_or_unknown(u))
}

/// The port rows of the part `parent` (spanning `sp`) and of the parts
/// nested in it, with `fuel` levels of nesting allowed (`None` when the
/// nesting goes deeper).
pub open spec fn port_rows(model: Model, parent: Seq<char>, sp: Span, prefix: Seq<char>, fuel: nat) -> Option<
    Seq<(Seq<char>, Seq<char>)>,
>
    decreases fuel, 0nat,
{
    if fuel == 0 {
        None
    } else {
        child_rows(model, nested_usages(model, parent, sp), prefix, (fuel - 1) as nat)
    }
}

/// The port rows of children `cs`: ports directly, parts through their own
/// ports under a longer prefix.
pub open spec fn child_rows(model: Model, cs: Seq<Usage>, prefix: Seq<char>, fuel: nat) -> Option<
    Seq<(Seq<char>, Seq<char>)>,
>
    decreases fuel, cs.len(),
{
    if cs.len() == 0 {
        Some(seq![])
    } else {
        match child_rows(model, cs.drop_last(), prefix, fuel) {
            None => None,
            Some(a) => {
                let u = cs.last();
                if u.kind@ == "port"@ {
                    Some(a.push(port_row(u, prefix)))
                } else if u.kind@ == "part"@ {
                    match port_rows(model, u.name@, u.span, dotted(prefix, u.name@), fuel) {
                        Some(b) => Some(a + b),
                        None => None,
                    }
                } else {
                    Some(a)
                }
            },
        }
    }
}

proof fn lemma_child_rows_prefix(model: Model, cs: Seq<Usage>, prefix: Seq<char>, fuel: nat, k: int)
    requires
        0 <= k <= cs.len(),
        child_rows(model, cs, prefix, fuel) is Some,
    ensures
        child_rows(model, cs.take(k), prefix, fuel) is Some,
    decreases cs.len() - k,
{
    if k == cs.len() {
        assert(cs.take(k) =~= cs);
    } else {
        lemma_child_rows_prefix(model, cs, prefix, fuel, k + 1);
        assert(cs.take(k + 1).drop_last() =~= cs.take(k));
    }
}

/// `prefix.name`, or `name` under an empty prefix.
fn dotted_name(prefix: &str, name: &str) -> (r: String)
    ensures
        r@ == dotted(prefix@, name@),
{
    if prefix.is_empty() {
        own(name)
    } else {
        let mut r = own(prefix);
        push_str(&mut r, ".");
        push_str(&mut r, name);
        r
    }
}

/// The attribute row of a port.
fn port_row_of(u: &Usage, prefix: &str) -> (r: (String, String))
    ensures
        (r.0@, r.1@) == port_row(*u, prefix@),
{
    let mut left = String::new();
    match u.direction {
        Some(d) => {
            push_str(&mut left, d.label());
            push_str(&mut left, " ");
        },
        None => {},
    }
    push_str(&mut left, "port ");
    let n = dotted_name(prefix, u.name.as_str());
    push_str(&mut left, n.as_str());
    let mut right = String::new();
    if u.is_conjugated {
        push_str(&mut right, "~");
    }
    match &u.type_ref {
        Some(t) => push_str(&mut right, t.as_str()),
        None => push_str(&mut right, "?"),
    }
    assert(left@ =~= port_row(*u, prefix@).0);
    assert(right@ =~= port_row(*u, prefix@).1);
    (left, right)
}

/// The ports of part `parent_name` (spanning `parent_span`) and of the parts
/// nested in it, named with `prefix`.
fn collect_ports_recursive(model: &Model, parent_name: &str, parent_span: &Span, prefix: &str, fuel: usize) -> (r: Vec<(String, String)>)
    requires
        port_rows(*model, parent_name@, *parent_span, prefix@, fuel as nat) is Some,
    ensures
        port_rows(*model, parent_name@, *parent_span, prefix@, fuel as nat) == Some(
            crate::diagram::graph::pair_texts(r@),
        ),
    decreases fuel,
{
    let ghost f = |u: Usage| opt_view(u.parent_def) == Some(parent_name@) && span_within(*parent_span, u.span);
    let ghost cs = nested_usages(*model, parent_name@, *parent_span);
    let ghost fl = (fuel - 1) as nat;
    proof {
        assert(f =~= (|u: Usage| opt_view(u.parent_def) == Some(parent_name@) && span_within(*parent_span, u.span)));
        assert(cs == filter_seq(model.usages@, f));
    }
    let mut ports: Vec<(String, String)> = Vec::new();
    assert(crate::diagram::graph::pair_texts(ports@) =~= seq![]);
    let mut i: usize = 0;
    while i < model.usages.len()
        invariant
            i <= model.usages@.len(),
            fuel > 0,
            fl == fuel - 1,
            forall|x: Usage| #[trigger] f(x) == (opt_view(x.parent_def) == Some(parent_name@) && span_within(*parent_span, x.span)),
            cs == filter_seq(model.usages@, f),
            child_rows(*model, cs, prefix@, fl) is Some,
            child_rows(*model, filter_seq(model.usages@.take(i as int), f), prefix@, fl) == Some(
                crate::diagram::graph::pair_texts(ports@),
            ),
        decreases model.usages@.len() - i,
    {
        proof {
            lemma_filter_take(model.usages@, f, i as int);
            lemma_filter_prefix(model.usages@, f, i + 1);
            let p = filter_seq(model.usages@.take(i + 1), f);
            assert(p =~= cs.take(p.len() as int));
            lemma_child_rows_prefix(*model, cs, prefix@, fl, p.len() as int);
        }
        let cu = &model.usages[i];
        let inside = match &cu.parent_def {
            Some(p) => str_eq(p.as_str(), parent_name),
            None => false,
        } && parent_span.contains(&cu.span);
        assert(inside == f(*cu));
        let ghost before = filter_seq(model.usages@.take(i as int), f);
        let ghost pre = crate::diagram::graph::pair_texts(ports@);
        if inside {
            assert(filter_seq(model.usages@.take(i + 1), f) =~= before.push(*cu));
            assert(before.push(*cu).drop_last() =~= before);
            if str_eq(cu.kind.as_str(), "port") {
                let row = port_row_of(cu, prefix);
                ports.push(row);
                assert(crate::diagram::graph::pair_texts(ports@) =~= pre.push(port_row(*cu, prefix@)));
            } else if str_eq(cu.kind.as_str(), "part") {
                let nested = dotted_name(prefix, cu.name.as_str());
                let sub = collect_ports_recursive(model, cu.name.as_str(), &cu.span, nested.as_str(), fuel - 1);
                let ghost subv = crate::diagram::graph::pair_texts(sub@);
                let mut k: usize = 0;
                while k < sub.len()
                    invariant
                        k <= sub@.len(),
                        subv == crate::diagram::graph::pair_texts(sub@),
                        crate::diagram::graph::pair_texts(ports@) == pre + subv.take(k as int),
                    decreases sub@.len() - k,
                {
                    let ghost p0 = crate::diagram::graph::pair_texts(ports@);
                    ports.push((sub[k].0.clone(), sub[k].1.clone()));
                    assert(crate::diagram::graph::pair_texts(ports@) =~= p0.push(subv[k as int]));
                    assert(subv.take(k + 1) =~= subv.take(k as int).push(subv[k as int]));
                    k = k + 1;
                }
                assert(subv.take(subv.len() as int) =~= subv);
            } else {
            }
        } else {
            assert(filter_seq(model.usages@.take(i + 1), f) =~= before);
        }
        i = i + 1;
    }
    assert(model.usages@.take(model.usages@.len() as int) =~= model.usages@);
    ports
}

/// The node an IBD draws for a usage of the definition: a block for a part
/// (with the ports nested in it), a port node for a port.
pub open spec fn ibd_part(model: Model, u: Usage) -> Seq<DNodeView> {
    if u.kind@ == "part"@ {
        seq![DNodeView {
            id: u.name@,
            label: u.name@ + " : "@ + type_or_unknown(u),
            kind: NodeKind::Block,
            stereotype: None,
            attributes: port_rows(model, u.name@, u.span, seq![], model.usages@.len()).unwrap(),
            is_definition: false,
        }]
    } else if u.kind@ == "port"@ {
        seq![DNodeView {
            id: u.name@,
            label: dir_prefix(u) + u.name@ + " : "@ + conj_mark(u) + type_or_unknown(u),
            kind: NodeKind::Port,
            stereotype: None,
            attributes: seq![],
            is_definition: false,
        }]
    } else {
        seq![]
    }
}

/// The nodes of the IBD of definition `name`.
pub open spec fn ibd_nodes(model: Model, name: Seq<char>) -> Seq<DNodeView> {
    collect(usages_with_parent(model.usages@, name), |u: Usage| ibd_part(model, u))
}

/// The nested port rows of every part of definition `name` are finite: no
/// part is nested in itself.
pub open spec fn ibd_well_nested(model: Model, name: Seq<char>) -> bool {
    forall|i: int|
        0 <= i < usages_with_parent(model.usages@, name).len() && (#[trigger] usages_with_parent(model.usages@, name)[i]).kind@ == "part"@
            ==> port_rows(
            model,
            usages_with_parent(model.usages@, name)[i].name@,
            usages_with_parent(model.usages@, name)[i].span,
            seq![],
            model.usages@.len(),
        ) is Some
}

/// The connection edge between the root elements of a connection's ends,
/// when one of them is drawn.
pub open spec fn ibd_conn_edge(ids: Seq<Seq<char>>, c: crate::model::Connection) -> Seq<DEdgeView> {
    let src = first_segment(c.source@);
    let tgt = first_segment(c.target@);
    if ids.contains(src) || ids.contains(tgt) {
        seq![DEdgeView { source: src, target: tgt, label: opt_view(c.name), kind: EdgeKind::Connection }]
    } else {
        seq![]
    }
}

/// The label of a flow edge: `<<Item>>`, or else the flow's name.
pub open spec fn flow_label(f: Flow) -> Option<Seq<char>> {
    match f.item_type {
        Some(t) => Some(guillemets(t@)),
        None => opt_view(f.name),
    }
}

/// The flow edge between the root elements of a flow's ends, when one of
/// them is drawn.
pub open spec fn ibd_flow_edge(ids: Seq<Seq<char>>, f: Flow) -> Seq<DEdgeView> {
    let src = first_segment(f.source@);
    let tgt = first_segment(f.target@);
    if ids.contains(src) || ids.contains(tgt) {
        seq![DEdgeView { source: src, target: tgt, label: flow_label(f), kind: EdgeKind::Flow }]
    } else {
        seq![]
    }
}

/// The edges of the IBD of definition `name`: connections, then flows.
pub open spec fn ibd_edges(model: Model, name: Seq<char>) -> Seq<DEdgeView> {
    let ids = view_ids(ibd_nodes(model, name));
    collect(model.connections@, |c: crate::model::Connection| ibd_conn_edge(ids, c))
        + collect(model.flows@, |f: Flow| ibd_flow_edge(ids, f))
}

/// Adds the edge of a connection or flow between `source` and `target` when
/// one end is drawn.
fn add_edge_if_drawn(graph: &mut DiagramGraph, source: &String, target: &String, label: Option<String>, kind: EdgeKind) -> (added: bool)
    ensures
        added == (view_ids(dnode_views(old(graph).nodes@)).contains(first_segment(source@))
            || view_ids(dnode_views(old(graph).nodes@)).contains(first_segment(target@))),
        dedge_views(final(graph).edges@) == dedge_views(old(graph).edges@) + if added {
            seq![DEdgeView { source: first_segment(source@), target: first_segment(target@), label: opt_view(label), kind: kind }]
        } else {
            seq![]
        },
        final(graph).nodes@ == old(graph).nodes@,
        final(graph).subgraphs@ == old(graph).subgraphs@,
        final(graph).title == old(graph).title,
        final(graph).kind == old(graph).kind,
        final(graph).direction == old(graph).direction,
        final(graph).max_depth == old(graph).max_depth,
{
    assert(crate::diagram::graph::node_ids(graph.nodes@) =~= view_ids(dnode_views(graph.nodes@)));
    let src = string_of(&first_segment_exec(&chars_of(source.as_str())));
    let tgt = string_of(&first_segment_exec(&chars_of(target.as_str())));
    let hit = graph.has_node(src.as_str()) || graph.has_node(tgt.as_str());
    let ghost e0 = dedge_views(graph.edges@);
    if hit {
        graph.add_edge(DiagramEdge { source: src, target: tgt, label, kind });
    }
    assert(dedge_views(graph.edges@) =~= e0 + if hit {
        seq![DEdgeView { source: first_segment(source@), target: first_segment(target@), label: opt_view(label), kind: kind }]
    } else {
        seq![]
    });
    hit
}

/// Build an Internal Block Diagram of a definition: its part usages as
/// blocks (listing the ports of the part and of the parts nested in it),
/// its port usages as ports, and the connections and flows whose ends'
/// root elements include a drawn node.
pub fn build_ibd(model: &Model, def_name: &str) -> (g: DiagramGraph)
    requires
        ibd_well_nested(*model, def_name@),
    ensures
        graph_frame(g, title_text("ibd"@, def_name@), DiagramKind::InterconnectionView),
        dnode_views(g.nodes@) == ibd_nodes(*model, def_name@),
        dedge_views(g.edges@) == ibd_edges(*model, def_name@),
{
    let title = title_of("ibd", def_name);
    let mut graph = DiagramGraph::new(title, DiagramKind::InterconnectionView);
    let ghost title_v = title_text("ibd"@, def_name@);
    let ghost kind = DiagramKind::InterconnectionView;
    let ghost us = usages_with_parent(model.usages@, def_name@);
    let ghost fp = |u: Usage| ibd_part(*model, u);
    let usages = model.usages_in_def(def_name);
    let mut i: usize = 0;
    while i < usages.len()
        invariant
            i <= usages@.len(),
            usages@.len() == us.len(),
            us == usages_with_parent(model.usages@, def_name@),
            forall|k: int| 0 <= k < us.len() ==> *#[trigger] usages@[k] == us[k],
            ibd_well_nested(*model, def_name@),
            fp == (|u: Usage| ibd_part(*model, u)),
            graph_frame(graph, title_v, kind),
            dnode_views(graph.nodes@) == collect(us.take(i as int), fp),
            graph.edges@.len() == 0,
        decreases usages@.len() - i,
    {
        proof {
            lemma_collect_take(us, fp, i as int);
        }
        let u = usages[i];
        let ghost n0 = dnode_views(graph.nodes@);
        if str_eq(u.kind.as_str(), "part") {
            assert(us[i as int].kind@ == "part"@);
            proof {
                reveal_strlit("");
                assert(""@ =~= Seq::<char>::empty());
            }
            let ports = collect_ports_recursive(model, u.name.as_str(), &u.span, "", model.usages.len());
            let mut label = u.name.clone();
            push_str(&mut label, " : ");
            match &u.type_ref {
                Some(t) => push_str(&mut label, t.as_str()),
                None => push_str(&mut label, "?"),
            }
            assert(label@ =~= u.name@ + " : "@ + type_or_unknown(*u));
            let node = DiagramNode {
                id: u.name.clone(),
                label,
                kind: NodeKind::Block,
                stereotype: None,
                attributes: ports,
                is_definition: false,
            };
            assert(node@ == ibd_part(*model, *u)[0]);
            graph.add_node(node);
        } else if str_eq(u.kind.as_str(), "port") {
            let mut label = String::new();
            match u.direction {
                Some(d) => {
                    push_str(&mut label, d.label());
                    push_str(&mut label, " ");
                },
                None => {},
            }
            push_str(&mut label, u.name.as_str());
            push_str(&mut label, " : ");
            if u.is_conjugated {
                push_str(&mut label, "~");
            }
            match &u.type_ref {
                Some(t) => push_str(&mut label, t.as_str()),
                None => push_str(&mut label, "?"),
            }
            let node = DiagramNode {
                id: u.name.clone(),
                label,
                kind: NodeKind::Port,
                stereotype: None,
                attributes: Vec::new(),
                is_definition: false,
            };
            assert(crate::diagram::graph::pair_texts(node.attributes@) =~= seq![]);
            assert(node@.label =~= ibd_part(*model, *u)[0].label);
            assert(node@ == ibd_part(*model, *u)[0]);
            graph.add_node(node);
        }
        assert(dnode_views(graph.nodes@) =~= n0 + fp(*u));
        i = i + 1;
    }
    assert(us.take(us.len() as int) =~= us);
    let ghost ids = view_ids(ibd_nodes(*model, def_name@));
    let ghost fc = |c: crate::model::Connection| ibd_conn_edge(ids, c);
    let mut j: usize = 0;
    while j < model.connections.len()
        invariant
            j <= model.connections@.len(),
            ids == view_ids(dnode_views(graph.nodes@)),
            fc == (|c: crate::model::Connection| ibd_conn_edge(ids, c)),
            graph_frame(graph, title_v, kind),
            dnode_views(graph.nodes@) == ibd_nodes(*model, def_name@),
            dedge_views(graph.edges@) == collect(model.connections@.take(j as int), fc),
        decreases model.connections@.len() - j,
    {
        proof {
            lemma_collect_take(model.connections@, fc, j as int);
        }
        let c = &model.connections[j];
        let label = match &c.name {
            Some(n) => Some(n.clone()),
            None => None,
        };
        add_edge_if_drawn(&mut graph, &c.source, &c.target, label, EdgeKind::Connection);
        j = j + 1;
    }
    assert(model.connections@.take(model.connections@.len() as int) =~= model.connections@);
    let ghost head = dedge_views(graph.edges@);
    let ghost ff = |f: Flow| ibd_flow_edge(ids, f);
    let mut k: usize = 0;
    while k < model.flows.len()
        invariant
            k <= model.flows@.len(),
            ids == view_ids(dnode_views(graph.nodes@)),
            ff == (|f: Flow| ibd_flow_edge(ids, f)),
            graph_frame(graph, title_v, kind),
            dnode_views(graph.nodes@) == ibd_nodes(*model, def_name@),
            dedge_views(graph.edges@) == head + collect(model.flows@.take(k as int), ff),
        decreases model.flows@.len() - k,
    {
        proof {
            lemma_collect_take(model.flows@, ff, k as int);
        }
        let f = &model.flows[k];
        let label = match &f.item_type {
            Some(t) => Some(in_guillemets(t.as_str())),
            None => match &f.name {
                Some(n) => Some(n.clone()),
                None => None,
            },
        };
        let ghost e0 = dedge_views(graph.edges@);
        add_edge_if_drawn(&mut graph, &f.source, &f.target, label, EdgeKind::Flow);
        assert(dedge_views(graph.edges@) =~= e0 + ff(*f));
        k = k + 1;
    }
    assert(model.flows@.take(model.flows@.len() as int) =~= model.flows@);
    graph
}

/// The names of the elements a filter lists: its definitions, then its usages.
pub open spec fn listed_names(model: Model, f: ListFilter) -> Seq<Seq<char>> {
    selected_defs(model, f).map_values(|d: Definition| d.name@) + selected_usages(model, f).map_values(|u: Usage| u.name@)
}

/// `g` is `old` with only the nodes named in `allowed` kept (control nodes
/// always stay), the edges with a remaining end, and in each subgraph the
/// members that remain, subgraphs left empty dropped.
pub open spec fn pruned_to(old: DiagramGraph, g: DiagramGraph, allowed: Seq<Seq<char>>) -> bool {
    &&& g.nodes@ == filter_seq(old.nodes@, |n: DiagramNode| crate::diagram::graph::is_control_node(n.kind) || allowed.contains(n.id@))
    &&& g.edges@ == filter_seq(
        old.edges@,
        |e: DiagramEdge| crate::diagram::graph::node_ids(g.nodes@).contains(e.source@) || crate::diagram::graph::node_ids(g.nodes@).contains(e.target@),
    )
    &&& g.subgraphs@.len() == crate::diagram::graph::filtered_subgraphs(old.subgraphs@, crate::diagram::graph::node_ids(g.nodes@)).len()
    &&& forall|i: int| 0 <= i < g.subgraphs@.len() ==> crate::diagram::graph::subgraph_view(#[trigger] g.subgraphs@[i])
        == crate::diagram::graph::filtered_subgraphs(old.subgraphs@, crate::diagram::graph::node_ids(g.nodes@))[i]
    &&& g.title == old.title
    &&& g.kind == old.kind
    &&& g.direction == old.direction
    &&& g.max_depth == old.max_depth
}

/// Prune a diagram to what a view shows: with the view's filter, keep only
/// the elements the filter lists (unless it lists none); without one, leave
/// the diagram as it is.
pub fn apply_view_filter(graph: &mut DiagramGraph, model: &Model, filter: Option<&ListFilter>)
    ensures
        match filter {
            Some(f) => if listed_names(*model, *f).len() > 0 {
                pruned_to(*old(graph), *final(graph), listed_names(*model, *f))
            } else {
                *final(graph) == *old(graph)
            },
            None => *final(graph) == *old(graph),
        },
{
    match filter {
        None => {},
        Some(f) => {
            let ghost ln = listed_names(*model, *f);
            let ghost nd = selected_defs(*model, *f).len();
            let elements = list_elements(model, f);
            let mut names: Vec<&str> = Vec::new();
            let mut i: usize = 0;
            while i < elements.len()
                invariant
                    i <= elements@.len(),
                    ln == listed_names(*model, *f),
                    nd == selected_defs(*model, *f).len(),
                    elements@.len() == ln.len(),
                    forall|j: int| 0 <= j < nd ==> elements@[j] == crate::query::Element::Def(&selected_defs(*model, *f)[j]),
                    forall|j: int| 0 <= j < ln.len() - nd ==> elements@[nd + j] == crate::query::Element::Usage(&selected_usages(*model, *f)[j]),
                    crate::checks::references::views(names@) == ln.take(i as int),
                decreases elements@.len() - i,
            {
                let ghost n0 = names@;
                let x = elements[i].name();
                names.push(x);
                proof {
                    if (i as int) < nd {
                        assert(x@ == ln[i as int]);
                    } else {
                        assert(elements@[i as int] == crate::query::Element::Usage(&selected_usages(*model, *f)[i - nd]));
                        assert(x@ == ln[i as int]);
                    }
                    assert(names@ == n0.push(x));
                    assert(crate::checks::references::views(names@) =~= crate::checks::references::views(n0).push(x@));
                    assert(ln.take(i + 1) =~= ln.take(i as int).push(ln[i as int]));
                    assert(crate::checks::references::views(names@) =~= ln.take(i + 1));
                }
                i = i + 1;
            }
            assert(ln.take(i as int) =~= ln);
            if names.len() > 0 {
                let ghost allowed = crate::checks::references::views(names@);
                graph.filter_by_names(&names);
                assert((|n: DiagramNode| crate::diagram::graph::is_control_node(n.kind) || allowed.contains(n.id@)) =~= (
                |n: DiagramNode| crate::diagram::graph::is_control_node(n.kind) || ln.contains(n.id@)));
            }
        },
    }
}

} // verus!
