//! Format-agnostic diagram representation, aligned with the SysML v2 standard
//! view definitions.
use vstd::prelude::*;
use crate::text::ascii_upper;
use crate::text::ascii_lower;
use crate::text::all_ascii;
use crate::cache::{contains_str, filter_seq, in_list, lemma_filter_take};
use crate::text::{lowercase_of, str_eq, to_lowercase, to_uppercase, uppercase_of};

verus! {

/// The kind of diagram, aligned with the SysML v2 standard view definitions.
#[derive(Debug, Clone, Copy, PartialEq, Eq, Structural)]
pub enum DiagramKind {
    /// General graph of definitions and relationships.
    GeneralView(GeneralViewFlavor),
    /// Internal structure with ports and connections.
    InterconnectionView,
    /// Action flows with control nodes.
    ActionFlowView,
    /// States and transitions.
    StateTransitionView,
    /// Lifelines and messages.
    SequenceView,
    /// Tabular or matrix presentations.
    GridView(GridViewFlavor),
    /// Hierarchical tree or outline.
    BrowserView,
}

/// Variants of the general view.
#[derive(Debug, Clone, Copy, PartialEq, Eq, Structural)]
pub enum GeneralViewFlavor {
    Default,
    Parametric,
    UseCase,
}

/// Variants of the grid view.
#[derive(Debug, Clone, Copy, PartialEq, Eq, Structural)]
pub enum GridViewFlavor {
    Default,
    Requirements,
    Trace,
    Alloc,
}

/// The diagram kind named by a lower-cased kind name, including legacy aliases.
pub open spec fn diagram_kind_named(s: Seq<char>) -> Option<DiagramKind> {
    if s == "gv"@ || s == "generalview"@ || s == "bdd"@ {
        Some(DiagramKind::GeneralView(GeneralViewFlavor::Default))
    } else if s == "iv"@ || s == "interconnectionview"@ || s == "ibd"@ {
        Some(DiagramKind::InterconnectionView)
    } else if s == "afv"@ || s == "actionflowview"@ || s == "act"@ || s == "activity"@ {
        Some(DiagramKind::ActionFlowView)
    } else if s == "stv"@ || s == "statetransitionview"@ || s == "stm"@ || s == "state"@ {
        Some(DiagramKind::StateTransitionView)
    } else if s == "sv"@ || s == "sequenceview"@ || s == "sequence"@ {
        Some(DiagramKind::SequenceView)
    } else if s == "grv"@ || s == "gridview"@ {
        Some(DiagramKind::GridView(GridViewFlavor::Default))
    } else if s == "bv"@ || s == "browserview"@ || s == "pkg"@ || s == "package"@ {
        Some(DiagramKind::BrowserView)
    } else if s == "req"@ || s == "requirements"@ {
        Some(DiagramKind::GridView(GridViewFlavor::Requirements))
    } else if s == "par"@ || s == "parametric"@ {
        Some(DiagramKind::GeneralView(GeneralViewFlavor::Parametric))
    } else if s == "trace"@ || s == "traceability"@ {
        Some(DiagramKind::GridView(GridViewFlavor::Trace))
    } else if s == "alloc"@ || s == "allocation"@ {
        Some(DiagramKind::GridView(GridViewFlavor::Alloc))
    } else if s == "ucd"@ || s == "usecase"@ || s == "use-case"@ {
        Some(DiagramKind::GeneralView(GeneralViewFlavor::UseCase))
    } else {
        None
    }
}

/// The diagram kind named by a render clause.
pub open spec fn render_clause_kind(s: Seq<char>) -> Option<DiagramKind> {
    if s == "asGeneralDiagram"@ {
        Some(DiagramKind::GeneralView(GeneralViewFlavor::Default))
    } else if s == "asInterconnectionDiagram"@ {
        Some(DiagramKind::InterconnectionView)
    } else if s == "asActionFlowDiagram"@ {
        Some(DiagramKind::ActionFlowView)
    } else if s == "asStateTransitionDiagram"@ {
        Some(DiagramKind::StateTransitionView)
    } else if s == "asSequenceDiagram"@ {
        Some(DiagramKind::SequenceView)
    } else if s == "asTableDiagram"@ || s == "asGridDiagram"@ {
        Some(DiagramKind::GridView(GridViewFlavor::Default))
    } else if s == "asBrowserDiagram"@ || s == "asTreeDiagram"@ {
        Some(DiagramKind::BrowserView)
    } else {
        None
    }
}

/// The display label of a diagram kind.
pub open spec fn diagram_kind_label(k: DiagramKind) -> Seq<char> {
    match k {
        DiagramKind::GeneralView(GeneralViewFlavor::Default) => "General View"@,
        DiagramKind::GeneralView(GeneralViewFlavor::Parametric) => "Parametric View"@,
        DiagramKind::GeneralView(GeneralViewFlavor::UseCase) => "Use Case View"@,
        DiagramKind::InterconnectionView => "Interconnection View"@,
        DiagramKind::ActionFlowView => "Action Flow View"@,
        DiagramKind::StateTransitionView => "State Transition View"@,
        DiagramKind::SequenceView => "Sequence View"@,
        DiagramKind::GridView(GridViewFlavor::Default) => "Grid View"@,
        DiagramKind::GridView(GridViewFlavor::Requirements) => "Requirements View"@,
        DiagramKind::GridView(GridViewFlavor::Trace) => "Traceability View"@,
        DiagramKind::GridView(GridViewFlavor::Alloc) => "Allocation View"@,
        DiagramKind::BrowserView => "Browser View"@,
    }
}

/// The short name of a diagram kind.
pub open spec fn diagram_kind_abbreviation(k: DiagramKind) -> Seq<char> {
    match k {
        DiagramKind::GeneralView(_) => "gv"@,
        DiagramKind::InterconnectionView => "iv"@,
        DiagramKind::ActionFlowView => "afv"@,
        DiagramKind::StateTransitionView => "stv"@,
        DiagramKind::SequenceView => "sv"@,
        DiagramKind::GridView(_) => "grv"@,
        DiagramKind::BrowserView => "bv"@,
    }
}

impl DiagramKind {
    /// The display label, e.g. `General View`.
    pub fn label(&self) -> (r: &'static str)
        ensures
            r@ == diagram_kind_label(*self),
    {
        match self {
            DiagramKind::GeneralView(GeneralViewFlavor::Default) => "General View",
            DiagramKind::GeneralView(GeneralViewFlavor::Parametric) => "Parametric View",
            DiagramKind::GeneralView(GeneralViewFlavor::UseCase) => "Use Case View",
            DiagramKind::InterconnectionView => "Interconnection View",
            DiagramKind::ActionFlowView => "Action Flow View",
            DiagramKind::StateTransitionView => "State Transition View",
            DiagramKind::SequenceView => "Sequence View",
            DiagramKind::GridView(GridViewFlavor::Default) => "Grid View",
            DiagramKind::GridView(GridViewFlavor::Requirements) => "Requirements View",
            DiagramKind::GridView(GridViewFlavor::Trace) => "Traceability View",
            DiagramKind::GridView(GridViewFlavor::Alloc) => "Allocation View",
            DiagramKind::BrowserView => "Browser View",
        }
    }

    /// The short name, e.g. `gv`.
    pub fn abbreviation(&self) -> (r: &'static str)
        ensures
            r@ == diagram_kind_abbreviation(*self),
    {
        match self {
            DiagramKind::GeneralView(_) => "gv",
            DiagramKind::InterconnectionView => "iv",
            DiagramKind::ActionFlowView => "afv",
            DiagramKind::StateTransitionView => "stv",
            DiagramKind::SequenceView => "sv",
            DiagramKind::GridView(_) => "grv",
            DiagramKind::BrowserView => "bv",
        }
    }

    /// The kind named by an already lower-cased name.
    pub fn from_lowercase_name(s: &str) -> (r: Option<Self>)
        ensures
            r == diagram_kind_named(s@),
    {
        if str_eq(s, "gv") || str_eq(s, "generalview") || str_eq(s, "bdd") {
            Some(DiagramKind::GeneralView(GeneralViewFlavor::Default))
        } else if str_eq(s, "iv") || str_eq(s, "interconnectionview") || str_eq(s, "ibd") {
            Some(DiagramKind::InterconnectionView)
        } else if str_eq(s, "afv") || str_eq(s, "actionflowview") || str_eq(s, "act") || str_eq(
            s,
            "activity",
        ) {
            Some(DiagramKind::ActionFlowView)
        } else if str_eq(s, "stv") || str_eq(s, "statetransitionview") || str_eq(s, "stm")
            || str_eq(s, "state") {
            Some(DiagramKind::StateTransitionView)
        } else if str_eq(s, "sv") || str_eq(s, "sequenceview") || str_eq(s, "sequence") {
            Some(DiagramKind::SequenceView)
        } else if str_eq(s, "grv") || str_eq(s, "gridview") {
            Some(DiagramKind::GridView(GridViewFlavor::Default))
        } else if str_eq(s, "bv") || str_eq(s, "browserview") || str_eq(s, "pkg") || str_eq(
            s,
            "package",
        ) {
            Some(DiagramKind::BrowserView)
        } else if str_eq(s, "req") || str_eq(s, "requirements") {
            Some(DiagramKind::GridView(GridViewFlavor::Requirements))
        } else if str_eq(s, "par") || str_eq(s, "parametric") {
            Some(DiagramKind::GeneralView(GeneralViewFlavor::Parametric))
        } else if str_eq(s, "trace") || str_eq(s, "traceability") {
            Some(DiagramKind::GridView(GridViewFlavor::Trace))
        } else if str_eq(s, "alloc") || str_eq(s, "allocation") {
            Some(DiagramKind::GridView(GridViewFlavor::Alloc))
        } else if str_eq(s, "ucd") || str_eq(s, "usecase") || str_eq(s, "use-case") {
            Some(DiagramKind::GeneralView(GeneralViewFlavor::UseCase))
        } else {
            None
        }
    }

    /// The kind named by `s` (case-insensitive), including legacy aliases
    /// such as `bdd` and `ibd`.
    pub fn from_str(s: &str) -> (r: Option<Self>)
        ensures
            r == diagram_kind_named(lowercase_of(s@)),
            all_ascii(s@) ==> r == diagram_kind_named(Seq::new(s@.len(), |i: int| ascii_lower(s@[i]))),
    {
        let lowered = to_lowercase(s);
        Self::from_lowercase_name(lowered.as_str())
    }

    /// Parse a render clause (e.g., `asInterconnectionDiagram`).
    pub fn from_render_clause(s: &str) -> (r: Option<Self>)
        ensures
            r == render_clause_kind(s@),
    {
        if str_eq(s, "asGeneralDiagram") {
            Some(DiagramKind::GeneralView(GeneralViewFlavor::Default))
        } else if str_eq(s, "asInterconnectionDiagram") {
            Some(DiagramKind::InterconnectionView)
        } else if str_eq(s, "asActionFlowDiagram") {
            Some(DiagramKind::ActionFlowView)
        } else if str_eq(s, "asStateTransitionDiagram") {
            Some(DiagramKind::StateTransitionView)
        } else if str_eq(s, "asSequenceDiagram") {
            Some(DiagramKind::SequenceView)
        } else if str_eq(s, "asTableDiagram") || str_eq(s, "asGridDiagram") {
            Some(DiagramKind::GridView(GridViewFlavor::Default))
        } else if str_eq(s, "asBrowserDiagram") || str_eq(s, "asTreeDiagram") {
            Some(DiagramKind::BrowserView)
        } else {
            None
        }
    }
}

/// Layout direction for the diagram.
#[derive(Debug, Clone, Copy, PartialEq, Eq, Structural)]
pub enum LayoutDirection {
    TopBottom,
    LeftRight,
    BottomTop,
    RightLeft,
}

/// The layout direction named by an upper-cased name.
pub open spec fn direction_named(s: Seq<char>) -> Option<LayoutDirection> {
    if s == "TB"@ || s == "TD"@ || s == "TOP-BOTTOM"@ || s == "TOP-DOWN"@ {
        Some(LayoutDirection::TopBottom)
    } else if s == "LR"@ || s == "LEFT-RIGHT"@ {
        Some(LayoutDirection::LeftRight)
    } else if s == "BT"@ || s == "BOTTOM-TOP"@ || s == "BOTTOM-UP"@ {
        Some(LayoutDirection::BottomTop)
    } else if s == "RL"@ || s == "RIGHT-LEFT"@ {
        Some(LayoutDirection::RightLeft)
    } else {
        None
    }
}

impl LayoutDirection {
    /// The default direction: top to bottom.
    pub fn default_direction() -> (r: Self)
        ensures
            r == LayoutDirection::TopBottom,
    {
        LayoutDirection::TopBottom
    }

    /// The direction named by an already upper-cased name.
    pub fn from_uppercase_name(s: &str) -> (r: Option<Self>)
        ensures
            r == direction_named(s@),
    {
        if str_eq(s, "TB") || str_eq(s, "TD") || str_eq(s, "TOP-BOTTOM") || str_eq(s, "TOP-DOWN") {
            Some(LayoutDirection::TopBottom)
        } else if str_eq(s, "LR") || str_eq(s, "LEFT-RIGHT") {
            Some(LayoutDirection::LeftRight)
        } else if str_eq(s, "BT") || str_eq(s, "BOTTOM-TOP") || str_eq(s, "BOTTOM-UP") {
            Some(LayoutDirection::BottomTop)
        } else if str_eq(s, "RL") || str_eq(s, "RIGHT-LEFT") {
            Some(LayoutDirection::RightLeft)
        } else {
            None
        }
    }

    /// The direction named by `s` (case-insensitive), e.g. `LR` or `top-down`.
    pub fn from_str(s: &str) -> (r: Option<Self>)
        ensures
            r == direction_named(uppercase_of(s@)),
            all_ascii(s@) ==> r == direction_named(Seq::new(s@.len(), |i: int| ascii_upper(s@[i]))),
    {
        let upper = to_uppercase(s);
        Self::from_uppercase_name(upper.as_str())
    }

    /// The Mermaid code of the direction.
    pub fn mermaid_code(&self) -> (r: &'static str)
        ensures
            r@ == (match *self {
                LayoutDirection::TopBottom => "TD"@,
                LayoutDirection::LeftRight => "LR"@,
                LayoutDirection::BottomTop => "BT"@,
                LayoutDirection::RightLeft => "RL"@,
            }),
    {
        match self {
            LayoutDirection::TopBottom => "TD",
            LayoutDirection::LeftRight => "LR",
            LayoutDirection::BottomTop => "BT",
            LayoutDirection::RightLeft => "RL",
        }
    }

    /// The Graphviz code of the direction.
    pub fn dot_code(&self) -> (r: &'static str)
        ensures
            r@ == (match *self {
                LayoutDirection::TopBottom => "TB"@,
                LayoutDirection::LeftRight => "LR"@,
                LayoutDirection::BottomTop => "BT"@,
                LayoutDirection::RightLeft => "RL"@,
            }),
    {
        match self {
            LayoutDirection::TopBottom => "TB",
            LayoutDirection::LeftRight => "LR",
            LayoutDirection::BottomTop => "BT",
            LayoutDirection::RightLeft => "RL",
        }
    }

    /// The D2 code of the direction.
    pub fn d2_code(&self) -> (r: &'static str)
        ensures
            r@ == (match *self {
                LayoutDirection::TopBottom => "down"@,
                LayoutDirection::LeftRight => "right"@,
                LayoutDirection::BottomTop => "up"@,
                LayoutDirection::RightLeft => "left"@,
            }),
    {
        match self {
            LayoutDirection::TopBottom => "down",
            LayoutDirection::LeftRight => "right",
            LayoutDirection::BottomTop => "up",
            LayoutDirection::RightLeft => "left",
        }
    }
}

/// A node in the diagram graph.
#[derive(Debug, Clone)]
pub struct DiagramNode {
    pub id: String,
    pub label: String,
    pub kind: NodeKind,
    pub stereotype: Option<String>,
    pub attributes: Vec<(String, String)>,
    /// Definitions are drawn with square corners, usages with rounded ones.
    pub is_definition: bool,
}

impl DiagramNode {
    /// A node for a definition (square corners).
    pub fn definition(id: String, label: String, kind: NodeKind) -> (r: Self)
        ensures
            r.id == id,
            r.label == label,
            r.kind == kind,
            r.stereotype is None,
            r.attributes@.len() == 0,
            r.is_definition,
    {
        DiagramNode { id, label, kind, stereotype: None, attributes: Vec::new(), is_definition: true }
    }

    /// A node for a usage (rounded corners).
    pub fn usage(id: String, label: String, kind: NodeKind) -> (r: Self)
        ensures
            r.id == id,
            r.label == label,
            r.kind == kind,
            r.stereotype is None,
            r.attributes@.len() == 0,
            !r.is_definition,
    {
        DiagramNode { id, label, kind, stereotype: None, attributes: Vec::new(), is_definition: false }
    }
}

/// Classification of diagram nodes.
#[derive(Debug, Clone, Copy, PartialEq, Eq, Structural)]
pub enum NodeKind {
    Block,
    Port,
    State,
    Action,
    Decision,
    Fork,
    Join,
    Requirement,
    Constraint,
    Package,
    InitialState,
    FinalState,
    Note,
    UseCase,
    Actor,
    Lifeline,
}

/// An edge in the diagram graph.
#[derive(Debug, Clone)]
pub struct DiagramEdge {
    pub source: String,
    pub target: String,
    pub label: Option<String>,
    pub kind: EdgeKind,
}

/// Classification of diagram edges.
#[derive(Debug, Clone, Copy, PartialEq, Eq, Structural)]
pub enum EdgeKind {
    Composition,
    Specialization,
    Connection,
    Flow,
    Transition,
    Satisfy,
    Verify,
    Allocate,
    Dependency,
    Containment,
    ConstraintBinding,
    Message,
}

/// The text of a diagram node.
pub struct DNodeView {
    pub id: Seq<char>,
    pub label: Seq<char>,
    pub kind: NodeKind,
    pub stereotype: Option<Seq<char>>,
    pub attributes: Seq<(Seq<char>, Seq<char>)>,
    pub is_definition: bool,
}

/// The text of a diagram edge.
pub struct DEdgeView {
    pub source: Seq<char>,
    pub target: Seq<char>,
    pub label: Option<Seq<char>>,
    pub kind: EdgeKind,
}

/// The text of a list of string pairs.
pub open spec fn pair_texts(v: Seq<(String, String)>) -> Seq<(Seq<char>, Seq<char>)> {
    v.map_values(|p: (String, String)| (p.0@, p.1@))
}

/// The text of an optional string.
pub open spec fn opt_text(o: Option<String>) -> Option<Seq<char>> {
    match o {
        Some(s) => Some(s@),
        None => None,
    }
}

impl View for DiagramNode {
    type V = DNodeView;

    open spec fn view(&self) -> DNodeView {
        DNodeView {
            id: self.id@,
            label: self.label@,
            kind: self.kind,
            stereotype: opt_text(self.stereotype),
            attributes: pair_texts(self.attributes@),
            is_definition: self.is_definition,
        }
    }
}

impl View for DiagramEdge {
    type V = DEdgeView;

    open spec fn view(&self) -> DEdgeView {
        DEdgeView {
            source: self.source@,
            target: self.target@,
            label: opt_text(self.label),
            kind: self.kind,
        }
    }
}

/// The text of a list of nodes.
pub open spec fn dnode_views(ns: Seq<DiagramNode>) -> Seq<DNodeView> {
    ns.map_values(|n: DiagramNode| n@)
}

/// The text of a list of edges.
pub open spec fn dedge_views(es: Seq<DiagramEdge>) -> Seq<DEdgeView> {
    es.map_values(|e: DiagramEdge| e@)
}

/// A subgraph (containment group).
#[derive(Debug, Clone)]
pub struct Subgraph {
    pub id: String,
    pub label: String,
    pub node_ids: Vec<String>,
}

/// The complete diagram graph.
#[derive(Debug, Clone)]
pub struct DiagramGraph {
    pub title: String,
    pub kind: DiagramKind,
    pub nodes: Vec<DiagramNode>,
    pub edges: Vec<DiagramEdge>,
    pub subgraphs: Vec<Subgraph>,
    pub direction: LayoutDirection,
    pub max_depth: Option<usize>,
}

/// Structural nodes that survive name filtering.
pub open spec fn is_control_node(k: NodeKind) -> bool {
    k == NodeKind::InitialState || k == NodeKind::FinalState || k == NodeKind::Fork || k
        == NodeKind::Join || k == NodeKind::Decision
}

/// The ids of a list of nodes.
pub open spec fn node_ids(ns: Seq<DiagramNode>) -> Seq<Seq<char>> {
    Seq::new(ns.len(), |i: int| ns[i].id@)
}

/// The texts of a list of strings.
pub open spec fn string_views(v: Seq<String>) -> Seq<Seq<char>> {
    Seq::new(v.len(), |i: int| v[i]@)
}

/// A subgraph as (id, label, member ids).
pub type SubgraphView = (Seq<char>, Seq<char>, Seq<Seq<char>>);

/// What remains of the subgraphs when only the nodes in `remaining` stay:
/// member lists are filtered and empty groups dropped.
pub open spec fn filtered_subgraphs(sgs: Seq<Subgraph>, remaining: Seq<Seq<char>>) -> Seq<
    SubgraphView,
>
    decreases sgs.len(),
{
    if sgs.len() == 0 {
        seq![]
    } else {
        let sg = sgs.last();
        let ids = filter_seq(string_views(sg.node_ids@), |x: Seq<char>| remaining.contains(x));
        filtered_subgraphs(sgs.drop_last(), remaining) + (if ids.len() > 0 {
            seq![(sg.id@, sg.label@, ids)]
        } else {
            seq![]
        })
    }
}

/// The view of a subgraph.
pub open spec fn subgraph_view(sg: Subgraph) -> SubgraphView {
    (sg.id@, sg.label@, string_views(sg.node_ids@))
}

impl DiagramGraph {
    /// An empty graph with the given title and kind, laid out top to bottom.
    pub fn new(title: String, kind: DiagramKind) -> (r: Self)
        ensures
            r.title == title,
            r.kind == kind,
            r.nodes@.len() == 0,
            r.edges@.len() == 0,
            r.subgraphs@.len() == 0,
            r.direction == LayoutDirection::TopBottom,
            r.max_depth is None,
    {
        DiagramGraph {
            title,
            kind,
            nodes: Vec::new(),
            edges: Vec::new(),
            subgraphs: Vec::new(),
            direction: LayoutDirection::TopBottom,
            max_depth: None,
        }
    }

    /// Append a node.
    pub fn add_node(&mut self, node: DiagramNode)
        ensures
            final(self).nodes@ == old(self).nodes@.push(node),
            dnode_views(final(self).nodes@) == dnode_views(old(self).nodes@).push(node@),
            final(self).edges@ == old(self).edges@,
            final(self).subgraphs@ == old(self).subgraphs@,
            final(self).title == old(self).title,
            final(self).kind == old(self).kind,
            final(self).direction == old(self).direction,
            final(self).max_depth == old(self).max_depth,
    {
        let ghost v = node@;
        self.nodes.push(node);
        assert(dnode_views(self.nodes@) =~= dnode_views(old(self).nodes@).push(v));
    }

    /// Append an edge.
    pub fn add_edge(&mut self, edge: DiagramEdge)
        ensures
            final(self).edges@ == old(self).edges@.push(edge),
            dedge_views(final(self).edges@) == dedge_views(old(self).edges@).push(edge@),
            final(self).nodes@ == old(self).nodes@,
            final(self).subgraphs@ == old(self).subgraphs@,
            final(self).title == old(self).title,
            final(self).kind == old(self).kind,
            final(self).direction == old(self).direction,
            final(self).max_depth == old(self).max_depth,
    {
        let ghost v = edge@;
        self.edges.push(edge);
        assert(dedge_views(self.edges@) =~= dedge_views(old(self).edges@).push(v));
    }

    /// Append a subgraph.
    pub fn add_subgraph(&mut self, subgraph: Subgraph)
        ensures
            final(self).subgraphs@ == old(self).subgraphs@.push(subgraph),
            final(self).nodes@ == old(self).nodes@,
            final(self).edges@ == old(self).edges@,
            final(self).title == old(self).title,
            final(self).kind == old(self).kind,
            final(self).direction == old(self).direction,
            final(self).max_depth == old(self).max_depth,
    {
        self.subgraphs.push(subgraph);
    }

    /// Whether some node has the given id.
    pub fn has_node(&self, id: &str) -> (r: bool)
        ensures
            r == node_ids(self.nodes@).contains(id@),
    {
        let mut i: usize = 0;
        while i < self.nodes.len()
            invariant
                i <= self.nodes@.len(),
                forall|k: int| 0 <= k < i ==> self.nodes@[k].id@ != id@,
            decreases self.nodes@.len() - i,
        {
            if str_eq(self.nodes[i].id.as_str(), id) {
                assert(node_ids(self.nodes@)[i as int] == id@);
                return true;
            }
            i = i + 1;
        }
        proof {
            if node_ids(self.nodes@).contains(id@) {
                let k = choose|k: int| 0 <= k < node_ids(self.nodes@).len() && node_ids(self.nodes@)[k] == id@;
                assert(self.nodes@[k].id@ == id@);
            }
        }
        false
    }

    /// Keep only the nodes named in `allowed` (control nodes such as
    /// initial/final states, forks, joins and decisions always stay), the
    /// edges with at least one remaining end, and the subgraph members that
    /// remain; subgraphs left empty are dropped.
    pub fn filter_by_names(&mut self, allowed: &Vec<&str>)
        ensures
            final(self).nodes@ == filter_seq(
                old(self).nodes@,
                |n: DiagramNode| is_control_node(n.kind) || crate::checks::references::views(allowed@).contains(n.id@),
            ),
            final(self).edges@ == filter_seq(
                old(self).edges@,
                |e: DiagramEdge| node_ids(final(self).nodes@).contains(e.source@) || node_ids(final(self).nodes@).contains(e.target@),
            ),
            final(self).subgraphs@.len() == filtered_subgraphs(old(self).subgraphs@, node_ids(final(self).nodes@)).len(),
            forall|i: int| 0 <= i < final(self).subgraphs@.len() ==> subgraph_view(#[trigger] final(self).subgraphs@[i])
                == filtered_subgraphs(old(self).subgraphs@, node_ids(final(self).nodes@))[i],
            final(self).title == old(self).title,
            final(self).kind == old(self).kind,
            final(self).direction == old(self).direction,
            final(self).max_depth == old(self).max_depth,
    {
        let ghost allowed_views = crate::checks::references::views(allowed@);
        let ghost fnode = |n: DiagramNode| is_control_node(n.kind) || allowed_views.contains(n.id@);
        let mut old_nodes: Vec<DiagramNode> = Vec::new();
        std::mem::swap(&mut old_nodes, &mut self.nodes);
        let ghost on = old_nodes@;
        for n in it: old_nodes
            invariant
                on == it.seq(),
                self.title == old(self).title,
                self.kind == old(self).kind,
                self.direction == old(self).direction,
                self.max_depth == old(self).max_depth,
                self.edges@ == old(self).edges@,
                self.subgraphs@ == old(self).subgraphs@,
                allowed_views == crate::checks::references::views(allowed@),
                forall|x: DiagramNode| #[trigger] fnode(x) == (is_control_node(x.kind) || allowed_views.contains(x.id@)),
                self.nodes@ == filter_seq(on.take(it.index() as int), fnode),
        {
            proof {
                lemma_filter_take(on, fnode, it.index() as int);
            }
            let k = n.kind;
            let control = k == NodeKind::InitialState || k == NodeKind::FinalState || k == NodeKind::Fork
                || k == NodeKind::Join || k == NodeKind::Decision;
            let listed = contains_str(&allowed, n.id.as_str());
            proof {
                if listed {
                    let j = choose|j: int| 0 <= j < allowed@.len() && (#[trigger] allowed@[j])@ == n.id@;
                    assert(allowed_views[j] == n.id@);
                }
                if allowed_views.contains(n.id@) {
                    let j = choose|j: int| 0 <= j < allowed_views.len() && allowed_views[j] == n.id@;
                    assert(allowed@[j]@ == n.id@);
                }
            }
            if control || listed {
                self.nodes.push(n);
            }
        }
        assert(on.take(on.len() as int) =~= on);
        let ghost final_nodes = self.nodes@;
        assert(final_nodes == filter_seq(on, fnode));
        let ghost rem = node_ids(self.nodes@);
        let ghost fedge = |e: DiagramEdge| rem.contains(e.source@) || rem.contains(e.target@);
        let mut old_edges: Vec<DiagramEdge> = Vec::new();
        std::mem::swap(&mut old_edges, &mut self.edges);
        let ghost oe = old_edges@;
        for e in it: old_edges
            invariant
                oe == it.seq(),
                self.title == old(self).title,
                self.kind == old(self).kind,
                self.direction == old(self).direction,
                self.max_depth == old(self).max_depth,
                self.nodes@ == final_nodes,
                self.subgraphs@ == old(self).subgraphs@,
                rem == node_ids(self.nodes@),
                forall|x: DiagramEdge| #[trigger] fedge(x) == (rem.contains(x.source@) || rem.contains(x.target@)),
                self.edges@ == filter_seq(oe.take(it.index() as int), fedge),
        {
            proof {
                lemma_filter_take(oe, fedge, it.index() as int);
            }
            let keep = self.has_node(e.source.as_str()) || self.has_node(e.target.as_str());
            if keep {
                self.edges.push(e);
            }
        }
        assert(oe.take(oe.len() as int) =~= oe);
        assert(self.edges@ == filter_seq(oe, fedge));
        let mut old_sgs: Vec<Subgraph> = Vec::new();
        std::mem::swap(&mut old_sgs, &mut self.subgraphs);
        let ghost os = old_sgs@;
        for sg in it: old_sgs
            invariant
                os == it.seq(),
                self.title == old(self).title,
                self.kind == old(self).kind,
                self.direction == old(self).direction,
                self.max_depth == old(self).max_depth,
                self.nodes@ == final_nodes,
                self.edges@ == filter_seq(oe, fedge),
                rem == node_ids(self.nodes@),
                self.subgraphs@.len() == filtered_subgraphs(os.take(it.index() as int), rem).len(),
                forall|i: int| 0 <= i < self.subgraphs@.len() ==> subgraph_view(#[trigger] self.subgraphs@[i])
                    == filtered_subgraphs(os.take(it.index() as int), rem)[i],
        {
            let ghost idx = it.index() as int;
            assert(os.take(idx + 1).drop_last() =~= os.take(idx));
            let ghost fid = |x: Seq<char>| rem.contains(x);
            let mut kept: Vec<String> = Vec::new();
            let ghost ids = sg.node_ids@;
            for id in jt: sg.node_ids
                invariant
                    ids == jt.seq(),
                    rem == node_ids(self.nodes@),
                    forall|x: Seq<char>| #[trigger] fid(x) == rem.contains(x),
                    string_views(kept@) == filter_seq(string_views(ids).take(jt.index() as int), fid),
            {
                let ghost j = jt.index() as int;
                proof {
                    lemma_filter_take(string_views(ids), fid, j);
                    assert(string_views(ids).take(j + 1) =~= string_views(ids).take(j + 1));
                    assert(string_views(ids)[j] == id@);
                }
                if self.has_node(id.as_str()) {
                    let ghost before = string_views(kept@);
                    kept.push(id);
                    assert(string_views(kept@) =~= before.push(string_views(ids)[j]));
                }
            }
            assert(string_views(ids).take(ids.len() as int) =~= string_views(ids));
            if kept.len() > 0 {
                self.subgraphs.push(Subgraph { id: sg.id, label: sg.label, node_ids: kept });
            }
        }
        assert(os.take(os.len() as int) =~= os);
        assert(fnode =~= |n: DiagramNode| is_control_node(n.kind) || crate::checks::references::views(allowed@).contains(n.id@));
        assert(fedge =~= |e: DiagramEdge| node_ids(self.nodes@).contains(e.source@) || node_ids(self.nodes@).contains(e.target@));
    }
}

} // verus!
