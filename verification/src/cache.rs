//! In-memory index of model elements, relationships and records.
//!
//! The cache is never the source of truth: it can always be rebuilt from
//! model files and records.
use vstd::prelude::*;
use crate::text::{own, str_eq};

verus! {

/// The elements of `s` that satisfy `f`, in order.
pub open spec fn filter_seq<T>(s: Seq<T>, f: spec_fn(T) -> bool) -> Seq<T>
    decreases s.len(),
{
    if s.len() == 0 {
        seq![]
    } else {
        filter_seq(s.drop_last(), f) + (if f(s.last()) {
            seq![s.last()]
        } else {
            seq![]
        })
    }
}

/// Filtering distributes over a prefix extended by one element.
pub proof fn lemma_filter_take<T>(s: Seq<T>, f: spec_fn(T) -> bool, i: int)
    requires
        0 <= i < s.len(),
    ensures
        filter_seq(s.take(i + 1), f) == filter_seq(s.take(i), f) + (if f(s[i]) {
            seq![s[i]]
        } else {
            seq![]
        }),
{
    assert(s.take(i + 1).drop_last() =~= s.take(i));
}

/// A model element (definition or usage) stored in the cache.
#[derive(Debug, Clone)]
pub struct CacheNode {
    pub qualified_name: String,
    pub kind: String,
    pub file: String,
    pub line: usize,
    pub parent: Option<String>,
}

/// A relationship between two model elements.
#[derive(Debug, Clone)]
pub struct CacheEdge {
    pub source: String,
    pub target: String,
    /// Relationship kind: `"specializes"`, `"satisfies"`, `"verifies"`, ...
    pub kind: String,
}

/// A TOML record (review, decision, change request, ...).
#[derive(Debug, Clone)]
pub struct CacheRecord {
    pub id: String,
    pub tool: String,
    pub record_type: String,
    pub created: String,
    pub author: String,
    pub file: String,
}

/// A reference edge linking a record to a model element.
#[derive(Debug, Clone)]
pub struct CacheRefEdge {
    pub record_id: String,
    pub qualified_name: String,
    pub ref_kind: String,
}

/// The text held by a [`CacheNode`].
#[verifier::ext_equal]
pub struct NodeView {
    pub qualified_name: Seq<char>,
    pub kind: Seq<char>,
    pub file: Seq<char>,
    pub line: usize,
    pub parent: Option<Seq<char>>,
}

/// The text held by a [`CacheEdge`].
#[verifier::ext_equal]
pub struct EdgeView {
    pub source: Seq<char>,
    pub target: Seq<char>,
    pub kind: Seq<char>,
}

/// The text held by a [`CacheRecord`].
#[verifier::ext_equal]
pub struct RecordView {
    pub id: Seq<char>,
    pub tool: Seq<char>,
    pub record_type: Seq<char>,
    pub created: Seq<char>,
    pub author: Seq<char>,
    pub file: Seq<char>,
}

/// The text held by a [`CacheRefEdge`].
#[verifier::ext_equal]
pub struct RefEdgeView {
    pub record_id: Seq<char>,
    pub qualified_name: Seq<char>,
    pub ref_kind: Seq<char>,
}

impl View for CacheNode {
    type V = NodeView;

    open spec fn view(&self) -> NodeView {
        NodeView {
            qualified_name: self.qualified_name@,
            kind: self.kind@,
            file: self.file@,
            line: self.line,
            parent: match self.parent {
                Some(p) => Some(p@),
                None => None,
            },
        }
    }
}

impl View for CacheEdge {
    type V = EdgeView;

    open spec fn view(&self) -> EdgeView {
        EdgeView { source: self.source@, target: self.target@, kind: self.kind@ }
    }
}

impl View for CacheRecord {
    type V = RecordView;

    open spec fn view(&self) -> RecordView {
        RecordView {
            id: self.id@,
            tool: self.tool@,
            record_type: self.record_type@,
            created: self.created@,
            author: self.author@,
            file: self.file@,
        }
    }
}

impl View for CacheRefEdge {
    type V = RefEdgeView;

    open spec fn view(&self) -> RefEdgeView {
        RefEdgeView {
            record_id: self.record_id@,
            qualified_name: self.qualified_name@,
            ref_kind: self.ref_kind@,
        }
    }
}

/// Summary statistics returned by [`Cache::stats`].
#[derive(Debug, Clone, PartialEq, Eq, Structural)]
pub struct CacheStats {
    pub nodes: usize,
    pub edges: usize,
    pub records: usize,
    pub ref_edges: usize,
}

/// In-memory model cache.
#[derive(Debug)]
pub struct Cache {
    nodes: Vec<CacheNode>,
    edges: Vec<CacheEdge>,
    records: Vec<CacheRecord>,
    ref_edges: Vec<CacheRefEdge>,
    git_head: Option<String>,
}

/// Whether a cache whose stored HEAD is `stored` is out of date for `current`.
pub open spec fn head_is_stale(stored: Option<Seq<char>>, current: Seq<char>) -> bool {
    match stored {
        Some(s) => s != current,
        None => true,
    }
}

/// Whether record `id` is referenced by some ref edge to `qn`.
pub open spec fn referenced_by(refs: Seq<CacheRefEdge>, id: Seq<char>, qn: Seq<char>) -> bool {
    exists|j: int| 0 <= j < refs.len() && refs[j].qualified_name@ == qn && refs[j].record_id@ == id
}

impl Cache {
    /// The stored nodes, in insertion order.
    pub closed spec fn nodes(&self) -> Seq<CacheNode> {
        self.nodes@
    }

    /// The stored edges, in insertion order.
    pub closed spec fn edges(&self) -> Seq<CacheEdge> {
        self.edges@
    }

    /// The stored records, in insertion order.
    pub closed spec fn records(&self) -> Seq<CacheRecord> {
        self.records@
    }

    /// The stored reference edges, in insertion order.
    pub closed spec fn ref_edges(&self) -> Seq<CacheRefEdge> {
        self.ref_edges@
    }

    /// The stored git HEAD.
    pub closed spec fn head(&self) -> Option<Seq<char>> {
        match self.git_head {
            Some(h) => Some(h@),
            None => None,
        }
    }

    /// The text of the stored nodes, in insertion order.
    pub open spec fn node_views(&self) -> Seq<NodeView> {
        self.nodes().map_values(|n: CacheNode| n@)
    }

    /// The text of the stored edges, in insertion order.
    pub open spec fn edge_views(&self) -> Seq<EdgeView> {
        self.edges().map_values(|e: CacheEdge| e@)
    }

    /// The text of the stored records, in insertion order.
    pub open spec fn record_views(&self) -> Seq<RecordView> {
        self.records().map_values(|r: CacheRecord| r@)
    }

    /// The text of the stored reference edges, in insertion order.
    pub open spec fn ref_edge_views(&self) -> Seq<RefEdgeView> {
        self.ref_edges().map_values(|r: CacheRefEdge| r@)
    }

    /// Create an empty cache.
    pub fn new() -> (r: Self)
        ensures
            r.nodes().len() == 0,
            r.edges().len() == 0,
            r.records().len() == 0,
            r.ref_edges().len() == 0,
            r.head() is None,
    {
        Cache {
            nodes: Vec::new(),
            edges: Vec::new(),
            records: Vec::new(),
            ref_edges: Vec::new(),
            git_head: None,
        }
    }

    /// Insert a model node.
    pub fn add_node(&mut self, node: CacheNode)
        ensures
            final(self).nodes() == old(self).nodes().push(node),
            final(self).node_views() == old(self).node_views().push(node@),
            final(self).edges() == old(self).edges(),
            final(self).records() == old(self).records(),
            final(self).ref_edges() == old(self).ref_edges(),
            final(self).head() == old(self).head(),
    {
        self.nodes.push(node);
        assert(self.node_views() =~= old(self).node_views().push(node@));
    }

    /// Insert a relationship edge.
    pub fn add_edge(&mut self, edge: CacheEdge)
        ensures
            final(self).edges() == old(self).edges().push(edge),
            final(self).edge_views() == old(self).edge_views().push(edge@),
            final(self).nodes() == old(self).nodes(),
            final(self).records() == old(self).records(),
            final(self).ref_edges() == old(self).ref_edges(),
            final(self).head() == old(self).head(),
    {
        self.edges.push(edge);
        assert(self.edge_views() =~= old(self).edge_views().push(edge@));
    }

    /// Insert a record.
    pub fn add_record(&mut self, record: CacheRecord)
        ensures
            final(self).records() == old(self).records().push(record),
            final(self).record_views() == old(self).record_views().push(record@),
            final(self).nodes() == old(self).nodes(),
            final(self).edges() == old(self).edges(),
            final(self).ref_edges() == old(self).ref_edges(),
            final(self).head() == old(self).head(),
    {
        self.records.push(record);
        assert(self.record_views() =~= old(self).record_views().push(record@));
    }

    /// Insert a reference edge linking a record to a model element.
    pub fn add_ref_edge(&mut self, ref_edge: CacheRefEdge)
        ensures
            final(self).ref_edges() == old(self).ref_edges().push(ref_edge),
            final(self).ref_edge_views() == old(self).ref_edge_views().push(ref_edge@),
            final(self).nodes() == old(self).nodes(),
            final(self).edges() == old(self).edges(),
            final(self).records() == old(self).records(),
            final(self).head() == old(self).head(),
    {
        self.ref_edges.push(ref_edge);
        assert(self.ref_edge_views() =~= old(self).ref_edge_views().push(ref_edge@));
    }

    /// All nodes whose `kind` matches exactly, in insertion order.
    pub fn find_nodes_by_kind(&self, kind: &str) -> (r: Vec<&CacheNode>)
        ensures
            r@.len() == filter_seq(self.nodes(), |n: CacheNode| n.kind@ == kind@).len(),
            forall|i: int|
                0 <= i < r@.len() ==> *#[trigger] r@[i] == filter_seq(
                    self.nodes(),
                    |n: CacheNode| n.kind@ == kind@,
                )[i],
    {
        let ghost f = |n: CacheNode| n.kind@ == kind@;
        let mut r: Vec<&CacheNode> = Vec::new();
        let mut i: usize = 0;
        while i < self.nodes.len()
            invariant
                i <= self.nodes@.len(),
                forall|x: CacheNode| #[trigger] f(x) == (x.kind@ == kind@),
                r@.len() == filter_seq(self.nodes@.take(i as int), f).len(),
                forall|k: int|
                    0 <= k < r@.len() ==> *#[trigger] r@[k] == filter_seq(
                        self.nodes@.take(i as int),
                        f,
                    )[k],
            decreases self.nodes@.len() - i,
        {
            proof {
                lemma_filter_take(self.nodes@, f, i as int);
            }
            let hit = str_eq(self.nodes[i].kind.as_str(), kind);
            assert(hit == f(self.nodes@[i as int]));
            if hit {
                r.push(&self.nodes[i]);
            }
            i = i + 1;
        }
        assert(self.nodes@.take(self.nodes@.len() as int) =~= self.nodes@);
        r
    }

    /// The first node whose qualified name matches exactly.
    pub fn find_node(&self, qualified_name: &str) -> (r: Option<&CacheNode>)
        ensures
            match r {
                Some(n) => exists|i: int|
                    0 <= i < self.nodes().len() && *n == self.nodes()[i]
                        && n.qualified_name@ == qualified_name@ && forall|j: int|
                        0 <= j < i ==> self.nodes()[j].qualified_name@ != qualified_name@,
                None => forall|i: int|
                    0 <= i < self.nodes().len() ==> self.nodes()[i].qualified_name@
                        != qualified_name@,
            },
    {
        let mut i: usize = 0;
        while i < self.nodes.len()
            invariant
                i <= self.nodes@.len(),
                forall|j: int| 0 <= j < i ==> self.nodes@[j].qualified_name@ != qualified_name@,
            decreases self.nodes@.len() - i,
        {
            if str_eq(self.nodes[i].qualified_name.as_str(), qualified_name) {
                return Some(&self.nodes[i]);
            }
            i = i + 1;
        }
        None
    }

    /// All edges whose source matches, in insertion order.
    pub fn find_edges_from(&self, source: &str) -> (r: Vec<&CacheEdge>)
        ensures
            r@.len() == filter_seq(self.edges(), |e: CacheEdge| e.source@ == source@).len(),
            forall|i: int|
                0 <= i < r@.len() ==> *#[trigger] r@[i] == filter_seq(
                    self.edges(),
                    |e: CacheEdge| e.source@ == source@,
                )[i],
    {
        let ghost f = |e: CacheEdge| e.source@ == source@;
        let mut r: Vec<&CacheEdge> = Vec::new();
        let mut i: usize = 0;
        while i < self.edges.len()
            invariant
                i <= self.edges@.len(),
                forall|x: CacheEdge| #[trigger] f(x) == (x.source@ == source@),
                r@.len() == filter_seq(self.edges@.take(i as int), f).len(),
                forall|k: int|
                    0 <= k < r@.len() ==> *#[trigger] r@[k] == filter_seq(
                        self.edges@.take(i as int),
                        f,
                    )[k],
            decreases self.edges@.len() - i,
        {
            proof {
                lemma_filter_take(self.edges@, f, i as int);
            }
            let hit = str_eq(self.edges[i].source.as_str(), source);
            assert(hit == f(self.edges@[i as int]));
            if hit {
                r.push(&self.edges[i]);
            }
            i = i + 1;
        }
        assert(self.edges@.take(self.edges@.len() as int) =~= self.edges@);
        r
    }

    /// All edges whose target matches, in insertion order.
    pub fn find_edges_to(&self, target: &str) -> (r: Vec<&CacheEdge>)
        ensures
            r@.len() == filter_seq(self.edges(), |e: CacheEdge| e.target@ == target@).len(),
            forall|i: int|
                0 <= i < r@.len() ==> *#[trigger] r@[i] == filter_seq(
                    self.edges(),
                    |e: CacheEdge| e.target@ == target@,
                )[i],
    {
        let ghost f = |e: CacheEdge| e.target@ == target@;
        let mut r: Vec<&CacheEdge> = Vec::new();
        let mut i: usize = 0;
        while i < self.edges.len()
            invariant
                i <= self.edges@.len(),
                forall|x: CacheEdge| #[trigger] f(x) == (x.target@ == target@),
                r@.len() == filter_seq(self.edges@.take(i as int), f).len(),
                forall|k: int|
                    0 <= k < r@.len() ==> *#[trigger] r@[k] == filter_seq(
                        self.edges@.take(i as int),
                        f,
                    )[k],
            decreases self.edges@.len() - i,
        {
            proof {
                lemma_filter_take(self.edges@, f, i as int);
            }
            let hit = str_eq(self.edges[i].target.as_str(), target);
            assert(hit == f(self.edges@[i as int]));
            if hit {
                r.push(&self.edges[i]);
            }
            i = i + 1;
        }
        assert(self.edges@.take(self.edges@.len() as int) =~= self.edges@);
        r
    }

    /// All records produced by a given tool, in insertion order.
    pub fn find_records_by_tool(&self, tool: &str) -> (r: Vec<&CacheRecord>)
        ensures
            r@.len() == filter_seq(self.records(), |c: CacheRecord| c.tool@ == tool@).len(),
            forall|i: int|
                0 <= i < r@.len() ==> *#[trigger] r@[i] == filter_seq(
                    self.records(),
                    |c: CacheRecord| c.tool@ == tool@,
                )[i],
    {
        let ghost f = |c: CacheRecord| c.tool@ == tool@;
        let mut r: Vec<&CacheRecord> = Vec::new();
        let mut i: usize = 0;
        while i < self.records.len()
            invariant
                i <= self.records@.len(),
                forall|x: CacheRecord| #[trigger] f(x) == (x.tool@ == tool@),
                r@.len() == filter_seq(self.records@.take(i as int), f).len(),
                forall|k: int|
                    0 <= k < r@.len() ==> *#[trigger] r@[k] == filter_seq(
                        self.records@.take(i as int),
                        f,
                    )[k],
            decreases self.records@.len() - i,
        {
            proof {
                lemma_filter_take(self.records@, f, i as int);
            }
            let hit = str_eq(self.records[i].tool.as_str(), tool);
            assert(hit == f(self.records@[i as int]));
            if hit {
                r.push(&self.records[i]);
            }
            i = i + 1;
        }
        assert(self.records@.take(self.records@.len() as int) =~= self.records@);
        r
    }

    /// All reference edges for a given record id, in insertion order.
    pub fn find_refs_for_record(&self, record_id: &str) -> (r: Vec<&CacheRefEdge>)
        ensures
            r@.len() == filter_seq(
                self.ref_edges(),
                |e: CacheRefEdge| e.record_id@ == record_id@,
            ).len(),
            forall|i: int|
                0 <= i < r@.len() ==> *#[trigger] r@[i] == filter_seq(
                    self.ref_edges(),
                    |e: CacheRefEdge| e.record_id@ == record_id@,
                )[i],
    {
        let ghost f = |e: CacheRefEdge| e.record_id@ == record_id@;
        let mut r: Vec<&CacheRefEdge> = Vec::new();
        let mut i: usize = 0;
        while i < self.ref_edges.len()
            invariant
                i <= self.ref_edges@.len(),
                forall|x: CacheRefEdge| #[trigger] f(x) == (x.record_id@ == record_id@),
                r@.len() == filter_seq(self.ref_edges@.take(i as int), f).len(),
                forall|k: int|
                    0 <= k < r@.len() ==> *#[trigger] r@[k] == filter_seq(
                        self.ref_edges@.take(i as int),
                        f,
                    )[k],
            decreases self.ref_edges@.len() - i,
        {
            proof {
                lemma_filter_take(self.ref_edges@, f, i as int);
            }
            let hit = str_eq(self.ref_edges[i].record_id.as_str(), record_id);
            assert(hit == f(self.ref_edges@[i as int]));
            if hit {
                r.push(&self.ref_edges[i]);
            }
            i = i + 1;
        }
        assert(self.ref_edges@.take(self.ref_edges@.len() as int) =~= self.ref_edges@);
        r
    }

    /// All records that some reference edge links to the element named
    /// `qualified_name`, in record insertion order.
    pub fn find_records_referencing(&self, qualified_name: &str) -> (r: Vec<&CacheRecord>)
        ensures
            r@.len() == filter_seq(
                self.records(),
                |c: CacheRecord| referenced_by(self.ref_edges(), c.id@, qualified_name@),
            ).len(),
            forall|i: int|
                0 <= i < r@.len() ==> *#[trigger] r@[i] == filter_seq(
                    self.records(),
                    |c: CacheRecord| referenced_by(self.ref_edges(), c.id@, qualified_name@),
                )[i],
    {
        let mut ids: Vec<&str> = Vec::new();
        let mut j: usize = 0;
        while j < self.ref_edges.len()
            invariant
                j <= self.ref_edges@.len(),
                forall|x: Seq<char>|
                    #[trigger] in_list(ids@, x) <==> referenced_by(
                        self.ref_edges@.take(j as int),
                        x,
                        qualified_name@,
                    ),
            decreases self.ref_edges@.len() - j,
        {
            let e = &self.ref_edges[j];
            let ghost old_ids = ids@;
            let ghost pre = self.ref_edges@.take(j as int);
            let ghost post = self.ref_edges@.take(j + 1);
            assert(post =~= pre.push(self.ref_edges@[j as int]));
            if str_eq(e.qualified_name.as_str(), qualified_name) {
                ids.push(e.record_id.as_str());
                assert forall|x: Seq<char>|
                    #[trigger] in_list(ids@, x) <==> referenced_by(post, x, qualified_name@) by {
                    if in_list(ids@, x) {
                        let k = choose|k: int| 0 <= k < ids@.len() && (#[trigger] ids@[k])@ == x;
                        if k < old_ids.len() {
                            assert(old_ids[k] == ids@[k]);
                            assert(in_list(old_ids, x));
                            let m = choose|m: int|
                                0 <= m < pre.len() && pre[m].qualified_name@ == qualified_name@
                                    && pre[m].record_id@ == x;
                            assert(post[m] == pre[m]);
                        } else {
                            assert(post[j as int].record_id@ == x);
                        }
                    }
                    if referenced_by(post, x, qualified_name@) {
                        let m = choose|m: int|
                            0 <= m < post.len() && post[m].qualified_name@ == qualified_name@
                                && post[m].record_id@ == x;
                        if m < j {
                            assert(pre[m] == post[m]);
                            assert(referenced_by(pre, x, qualified_name@));
                            assert(in_list(old_ids, x));
                            let k = choose|k: int|
                                0 <= k < old_ids.len() && (#[trigger] old_ids[k])@ == x;
                            assert(ids@[k] == old_ids[k]);
                        } else {
                            assert(ids@[old_ids.len() as int]@ == x);
                        }
                    }
                }
            } else {
                assert forall|x: Seq<char>|
                    #[trigger] in_list(ids@, x) <==> referenced_by(post, x, qualified_name@) by {
                    if referenced_by(post, x, qualified_name@) {
                        let m = choose|m: int|
                            0 <= m < post.len() && post[m].qualified_name@ == qualified_name@
                                && post[m].record_id@ == x;
                        assert(m < j);
                        assert(pre[m] == post[m]);
                        assert(referenced_by(pre, x, qualified_name@));
                    }
                    if referenced_by(pre, x, qualified_name@) {
                        let m = choose|m: int|
                            0 <= m < pre.len() && pre[m].qualified_name@ == qualified_name@
                                && pre[m].record_id@ == x;
                        assert(pre[m] == post[m]);
                    }
                }
            }
            j = j + 1;
        }
        assert(self.ref_edges@.take(self.ref_edges@.len() as int) =~= self.ref_edges@);
        let ghost f = |c: CacheRecord| referenced_by(self.ref_edges@, c.id@, qualified_name@);
        let mut r: Vec<&CacheRecord> = Vec::new();
        let mut i: usize = 0;
        while i < self.records.len()
            invariant
                i <= self.records@.len(),
                forall|x: CacheRecord| #[trigger] f(x) == (referenced_by(self.ref_edges@, x.id@, qualified_name@)),
                forall|x: Seq<char>|
                    #[trigger] in_list(ids@, x) <==> referenced_by(
                        self.ref_edges@,
                        x,
                        qualified_name@,
                    ),
                r@.len() == filter_seq(self.records@.take(i as int), f).len(),
                forall|k: int|
                    0 <= k < r@.len() ==> *#[trigger] r@[k] == filter_seq(
                        self.records@.take(i as int),
                        f,
                    )[k],
            decreases self.records@.len() - i,
        {
            proof {
                lemma_filter_take(self.records@, f, i as int);
            }
            let hit = contains_str(&ids, self.records[i].id.as_str());
            assert(hit == f(self.records@[i as int]));
            if hit {
                r.push(&self.records[i]);
            }
            i = i + 1;
        }
        assert(self.records@.take(self.records@.len() as int) =~= self.records@);
        r
    }

    /// Summary counts of cached data.
    pub fn stats(&self) -> (r: CacheStats)
        ensures
            r.nodes == self.nodes().len(),
            r.edges == self.edges().len(),
            r.records == self.records().len(),
            r.ref_edges == self.ref_edges().len(),
    {
        CacheStats {
            nodes: self.nodes.len(),
            edges: self.edges.len(),
            records: self.records.len(),
            ref_edges: self.ref_edges.len(),
        }
    }

    /// Store the current git HEAD hash so that staleness can be detected.
    pub fn set_git_head(&mut self, hash: &str)
        ensures
            final(self).head() == Some(hash@),
            final(self).nodes() == old(self).nodes(),
            final(self).edges() == old(self).edges(),
            final(self).records() == old(self).records(),
            final(self).ref_edges() == old(self).ref_edges(),
    {
        self.git_head = Some(own(hash));
    }

    /// The stored git HEAD hash, if any.
    pub fn git_head(&self) -> (r: Option<&str>)
        ensures
            match r {
                Some(h) => self.head() == Some(h@),
                None => self.head() is None,
            },
    {
        match &self.git_head {
            Some(h) => Some(h.as_str()),
            None => None,
        }
    }

    /// Whether the stored HEAD differs from `current_head` (or none is stored),
    /// meaning the cache may be out of date.
    pub fn is_stale(&self, current_head: &str) -> (r: bool)
        ensures
            r == head_is_stale(self.head(), current_head@),
    {
        match &self.git_head {
            Some(stored) => !str_eq(stored.as_str(), current_head),
            None => true,
        }
    }

    /// Drop all cached data (nodes, edges, records, ref edges and git HEAD).
    pub fn clear(&mut self)
        ensures
            final(self).nodes().len() == 0,
            final(self).edges().len() == 0,
            final(self).records().len() == 0,
            final(self).ref_edges().len() == 0,
            final(self).head() is None,
    {
        self.nodes.clear();
        self.edges.clear();
        self.records.clear();
        self.ref_edges.clear();
        self.git_head = None;
    }
}

/// Whether the text `x` is among `v`.
pub open spec fn in_list(v: Seq<&str>, x: Seq<char>) -> bool {
    exists|k: int| 0 <= k < v.len() && (#[trigger] v[k])@ == x
}

/// Whether `x` is among `v`.
pub fn contains_str(v: &Vec<&str>, x: &str) -> (r: bool)
    ensures
        r == in_list(v@, x@),
{
    let mut i: usize = 0;
    while i < v.len()
        invariant
            i <= v@.len(),
            forall|k: int| 0 <= k < i ==> (#[trigger] v@[k])@ != x@,
        decreases v@.len() - i,
    {
        if str_eq(v[i], x) {
            return true;
        }
        i = i + 1;
    }
    false
}

/// After storing `h`, the cache is current for `h` and stale for any other head.
pub proof fn law_set_head_freshness(h: Seq<char>, other: Seq<char>)
    ensures
        !head_is_stale(Some(h), h),
        other != h ==> head_is_stale(Some(h), other),
        head_is_stale(None, other),
{
}

/// A node added with a qualified name no earlier node carries is what
/// `find_node` returns for that name afterwards.
pub proof fn law_added_node_is_found(nodes: Seq<CacheNode>, node: CacheNode)
    requires
        forall|i: int| 0 <= i < nodes.len() ==> nodes[i].qualified_name@ != node.qualified_name@,
    ensures
        ({
            let after = nodes.push(node);
            &&& after[nodes.len() as int] == node
            &&& forall|j: int|
                0 <= j < nodes.len() ==> after[j].qualified_name@ != node.qualified_name@
        }),
{
}

} // verus!
