//! Indexing of parsed models and TOML records into the [`Cache`].
//!
//! [`Indexer::index_model`] turns the definitions, usages and relationships
//! of one parsed [`Model`] into cache nodes and edges; qualified names are
//! built from the `parent_def` chains.  [`Indexer::index_record_contents`]
//! reads the flat keys and `[[refs]]` tables of one record file.
use vstd::prelude::*;
use crate::cache::{
    Cache, CacheEdge, CacheNode, CacheRecord, CacheRefEdge, EdgeView, NodeView, RecordView,
    RefEdgeView,
};
use crate::config::{lines, lines_exec};
use crate::model::{
    Allocation, Connection, Definition, Flow, Model, Satisfaction, Usage, Verification,
    collect, def_kind_label, lemma_collect_take,
};
use crate::text::{
    chars_of, own, push_char, push_str, seq_eq, slice_chars, split_once, split_once_exec, starts_with,
    str_eq, string_of, trim, trim_chars,
};

verus! {

/// A table from text keys to text values in which no key occurs twice.
pub struct NameMap {
    keys: Vec<String>,
    vals: Vec<String>,
}

impl NameMap {
    /// The keys, in insertion order.
    pub closed spec fn key_seq(&self) -> Seq<Seq<char>> {
        self.keys@.map_values(|k: String| k@)
    }

    /// Keys and values pair up and no key occurs twice.
    pub closed spec fn wf(&self) -> bool {
        &&& self.keys@.len() == self.vals@.len()
        &&& self.key_seq().no_duplicates()
    }

    /// The table as a map from key to value.
    pub closed spec fn view(&self) -> Map<Seq<char>, Seq<char>> {
        Map::new(
            |k: Seq<char>| self.key_seq().contains(k),
            |k: Seq<char>|
                self.vals@[choose|i: int| 0 <= i < self.keys@.len() && self.keys@[i]@ == k]@,
        )
    }

    /// An empty table.
    pub fn new() -> (r: Self)
        ensures
            r.wf(),
            r@ == Map::<Seq<char>, Seq<char>>::empty(),
    {
        let r = NameMap { keys: Vec::new(), vals: Vec::new() };
        assert(r@ =~= Map::<Seq<char>, Seq<char>>::empty());
        r
    }

    /// The position of `k` among the keys.
    fn position(&self, k: &str) -> (r: Option<usize>)
        requires
            self.wf(),
        ensures
            match r {
                Some(i) => i < self.keys@.len() && self.keys@[i as int]@ == k@,
                None => !self.key_seq().contains(k@),
            },
    {
        let mut i: usize = 0;
        while i < self.keys.len()
            invariant
                i <= self.keys@.len(),
                forall|j: int| 0 <= j < i ==> self.keys@[j]@ != k@,
            decreases self.keys@.len() - i,
        {
            if str_eq(self.keys[i].as_str(), k) {
                return Some(i);
            }
            i = i + 1;
        }
        proof {
            if self.key_seq().contains(k@) {
                let j = choose|j: int| 0 <= j < self.key_seq().len() && self.key_seq()[j] == k@;
                assert(self.keys@[j]@ == k@);
            }
        }
        None
    }

    /// The value stored under `k`, if any.
    pub fn get(&self, k: &str) -> (r: Option<&String>)
        requires
            self.wf(),
        ensures
            match r {
                Some(v) => self@.contains_key(k@) && self@[k@] == v@,
                None => !self@.contains_key(k@),
            },
    {
        match self.position(k) {
            Some(i) => {
                proof {
                    let c = choose|j: int| 0 <= j < self.keys@.len() && self.keys@[j]@ == k@;
                    assert(self.key_seq()[c] == self.key_seq()[i as int]);
                    assert(self.key_seq()[i as int] == k@);
                    assert(self.key_seq().contains(k@));
                }
                Some(&self.vals[i])
            },
            None => None,
        }
    }

    /// Store `v` under `k`, replacing any earlier value.
    pub fn insert(&mut self, k: String, v: String)
        requires
            old(self).wf(),
        ensures
            final(self).wf(),
            final(self)@ == old(self)@.insert(k@, v@),
    {
        let ghost ks = self.key_seq();
        match self.position(k.as_str()) {
            Some(i) => {
                self.vals.set(i, v);
                proof {
                    assert(self.key_seq() =~= ks);
                    assert(ks[i as int] == k@);
                    assert(ks.contains(k@));
                    assert(self@.dom() =~= old(self)@.insert(k@, v@).dom());
                    assert forall|x: Seq<char>| #[trigger] self@.contains_key(x) implies self@[x]
                        == old(self)@.insert(k@, v@)[x] by {
                        let c = choose|j: int| 0 <= j < self.keys@.len() && self.keys@[j]@ == x;
                        assert(self.key_seq()[c] == x);
                        if x == k@ {
                            assert(self.key_seq()[i as int] == x);
                        } else {
                            let c0 = choose|j: int|
                                0 <= j < old(self).keys@.len() && old(self).keys@[j]@ == x;
                            assert(ks[c0] == x);
                            assert(ks[c] == x);
                        }
                    }
                    assert(self@ =~= old(self)@.insert(k@, v@));
                }
            },
            None => {
                let ghost kv = k@;
                self.keys.push(k);
                self.vals.push(v);
                proof {
                    assert(self.key_seq() =~= ks.push(kv));
                    let n = ks.len() as int;
                    assert(self.key_seq()[n] == kv);
                    assert forall|x: Seq<char>| #[trigger] self@.contains_key(x) implies self@[x]
                        == old(self)@.insert(kv, v@)[x] by {
                        let c = choose|j: int| 0 <= j < self.keys@.len() && self.keys@[j]@ == x;
                        assert(self.key_seq()[c] == x);
                        if x == kv {
                            if c < n {
                                assert(ks[c] == kv);
                            }
                        } else {
                            assert(c < n);
                            assert(ks[c] == x);
                            let c0 = choose|j: int|
                                0 <= j < old(self).keys@.len() && old(self).keys@[j]@ == x;
                            assert(ks[c0] == x);
                        }
                    }
                    assert forall|x: Seq<char>|
                        #[trigger] self@.contains_key(x) == old(self)@.insert(kv, v@).contains_key(
                            x,
                        ) by {
                        if x != kv && self.key_seq().contains(x) {
                            let c = choose|j: int|
                                0 <= j < self.key_seq().len() && self.key_seq()[j] == x;
                            assert(c < n);
                            assert(ks[c] == x);
                        }
                        if ks.contains(x) {
                            let c = choose|j: int| 0 <= j < ks.len() && ks[j] == x;
                            assert(self.key_seq()[c] == x);
                        }
                    }
                    assert(self@ =~= old(self)@.insert(kv, v@));
                }
            },
        }
    }

    /// The number of keys.
    pub fn len(&self) -> (r: usize)
        requires
            self.wf(),
        ensures
            r == self@.dom().len(),
    {
        proof {
            self.key_seq().unique_seq_to_set();
            assert(self@.dom() =~= self.key_seq().to_set());
        }
        self.keys.len()
    }
}

/// `m[k]` where `m` has `k`, else `k` itself.
pub open spec fn lookup_or_key(m: Map<Seq<char>, Seq<char>>, k: Seq<char>) -> Seq<char> {
    if m.contains_key(k) {
        m[k]
    } else {
        k
    }
}

/// `m[k]` for the parent name `p`, where there is a parent and `m` has it.
pub open spec fn parent_qn(m: Map<Seq<char>, Seq<char>>, p: Option<String>) -> Option<Seq<char>> {
    match p {
        Some(p) => if m.contains_key(p@) {
            Some(m[p@])
        } else {
            None
        },
        None => None,
    }
}

/// `a::b`.
pub open spec fn join2(a: Seq<char>, b: Seq<char>) -> Seq<char> {
    a + seq![':', ':'] + b
}

/// The qualified name of `d`, given the names of the definitions before it.
pub open spec fn def_qn(m: Map<Seq<char>, Seq<char>>, d: Definition) -> Seq<char> {
    match d.parent_def {
        Some(p) => join2(lookup_or_key(m, p@), d.name@),
        None => d.name@,
    }
}

/// Simple name to qualified name, built in definition order: each
/// definition extends the qualified name of its parent as known so far (or
/// the parent's bare name), and a later definition of a name replaces an
/// earlier one.
pub open spec fn qn_map(defs: Seq<Definition>) -> Map<Seq<char>, Seq<char>>
    decreases defs.len(),
{
    if defs.len() == 0 {
        Map::empty()
    } else {
        let m = qn_map(defs.drop_last());
        m.insert(defs.last().name@, def_qn(m, defs.last()))
    }
}

/// The node for a definition.
pub open spec fn def_node(m: Map<Seq<char>, Seq<char>>, file: Seq<char>, d: Definition) -> NodeView {
    NodeView {
        qualified_name: lookup_or_key(m, d.name@),
        kind: def_kind_label(d.kind),
        file: file,
        line: d.span.start_row,
        parent: parent_qn(m, d.parent_def),
    }
}

/// The specialization edge of a definition, if it has a super type.
pub open spec fn def_edges(m: Map<Seq<char>, Seq<char>>, d: Definition) -> Seq<EdgeView> {
    match d.super_type {
        Some(t) => seq![EdgeView { source: lookup_or_key(m, d.name@), target: t@, kind: "specializes"@ }],
        None => seq![],
    }
}

/// The node for a usage; unnamed usages give none.
pub open spec fn usage_nodes(m: Map<Seq<char>, Seq<char>>, file: Seq<char>, u: Usage) -> Seq<NodeView> {
    if u.name@.len() == 0 {
        seq![]
    } else {
        let p = parent_qn(m, u.parent_def);
        seq![NodeView {
            qualified_name: match p {
                Some(q) => join2(q, u.name@),
                None => u.name@,
            },
            kind: u.kind@,
            file: file,
            line: u.span.start_row,
            parent: p,
        }]
    }
}

/// The edge of a satisfaction that names what satisfies it.
pub open spec fn satisfaction_edges(s: Satisfaction) -> Seq<EdgeView> {
    match s.by {
        Some(b) => if b@.len() > 0 {
            seq![EdgeView { source: b@, target: s.requirement@, kind: "satisfies"@ }]
        } else {
            seq![]
        },
        None => seq![],
    }
}

/// The nodes of a sequence of definitions.
pub open spec fn def_nodes(m: Map<Seq<char>, Seq<char>>, file: Seq<char>, ds: Seq<Definition>) -> Seq<NodeView> {
    ds.map_values(|d: Definition| def_node(m, file, d))
}

/// The specialization edges of a sequence of definitions.
pub open spec fn specialization_edges(m: Map<Seq<char>, Seq<char>>, ds: Seq<Definition>) -> Seq<EdgeView> {
    collect(ds, |d: Definition| def_edges(m, d))
}

/// The nodes of the named usages of a sequence.
pub open spec fn named_usage_nodes(m: Map<Seq<char>, Seq<char>>, file: Seq<char>, us: Seq<Usage>) -> Seq<NodeView> {
    collect(us, |u: Usage| usage_nodes(m, file, u))
}

/// `connects` edges.
pub open spec fn connection_edges(cs: Seq<Connection>) -> Seq<EdgeView> {
    cs.map_values(|c: Connection| EdgeView { source: c.source@, target: c.target@, kind: "connects"@ })
}

/// `flows` edges.
pub open spec fn flow_edges(fs: Seq<Flow>) -> Seq<EdgeView> {
    fs.map_values(|f: Flow| EdgeView { source: f.source@, target: f.target@, kind: "flows"@ })
}

/// `satisfies` edges, from the satisfactions that name what satisfies them.
pub open spec fn satisfies_edges(ss: Seq<Satisfaction>) -> Seq<EdgeView> {
    collect(ss, |s: Satisfaction| satisfaction_edges(s))
}

/// `verifies` edges.
pub open spec fn verification_edges(vs: Seq<Verification>) -> Seq<EdgeView> {
    vs.map_values(|v: Verification| EdgeView { source: v.by@, target: v.requirement@, kind: "verifies"@ })
}

/// `allocates` edges.
pub open spec fn allocation_edges(xs: Seq<Allocation>) -> Seq<EdgeView> {
    xs.map_values(|a: Allocation| EdgeView { source: a.source@, target: a.target@, kind: "allocates"@ })
}

/// The nodes that indexing `model` adds: its definitions in order, then its
/// named usages in order.
pub open spec fn model_nodes(model: Model) -> Seq<NodeView> {
    let m = qn_map(model.definitions@);
    def_nodes(m, model.file@, model.definitions@) + named_usage_nodes(m, model.file@, model.usages@)
}

/// The edges that indexing `model` adds: specializations, connections,
/// flows, satisfactions, verifications and allocations, each in model order.
pub open spec fn model_edges(model: Model) -> Seq<EdgeView> {
    specialization_edges(qn_map(model.definitions@), model.definitions@)
        + connection_edges(model.connections@) + flow_edges(model.flows@)
        + satisfies_edges(model.satisfactions@) + verification_edges(model.verifications@)
        + allocation_edges(model.allocations@)
}

/// `a::b` as a new string.
fn join_names(a: &str, b: &str) -> (r: String)
    ensures
        r@ == join2(a@, b@),
{
    let mut r = own(a);
    push_char(&mut r, ':');
    push_char(&mut r, ':');
    push_str(&mut r, b);
    assert(r@ =~= join2(a@, b@));
    r
}

/// Adds a `connects` edge per connection.
fn index_connections(cache: &mut Cache, xs: &Vec<Connection>)
    ensures
        final(cache).edge_views() == old(cache).edge_views() + connection_edges(xs@),
        final(cache).nodes() == old(cache).nodes(),
        final(cache).records() == old(cache).records(),
        final(cache).ref_edges() == old(cache).ref_edges(),
        final(cache).head() == old(cache).head(),
{
    let mut i: usize = 0;
    while i < xs.len()
        invariant
            i <= xs@.len(),
            cache.edge_views() == old(cache).edge_views() + connection_edges(xs@.take(i as int)),
            cache.nodes() == old(cache).nodes(),
            cache.records() == old(cache).records(),
            cache.ref_edges() == old(cache).ref_edges(),
            cache.head() == old(cache).head(),
        decreases xs@.len() - i,
    {
        let x = &xs[i];
        let e = CacheEdge { source: x.source.clone(), target: x.target.clone(), kind: own("connects") };
        let ghost before = cache.edge_views();
        cache.add_edge(e);
        proof {
            let pre = connection_edges(xs@.take(i as int));
            assert(connection_edges(xs@.take(i + 1)) =~= pre.push(e@));
            assert(cache.edge_views() =~= old(cache).edge_views() + pre.push(e@));
        }
        i = i + 1;
    }
    assert(xs@.take(xs@.len() as int) =~= xs@);
}

/// Adds a `flows` edge per flow.
fn index_flows(cache: &mut Cache, xs: &Vec<Flow>)
    ensures
        final(cache).edge_views() == old(cache).edge_views() + flow_edges(xs@),
        final(cache).nodes() == old(cache).nodes(),
        final(cache).records() == old(cache).records(),
        final(cache).ref_edges() == old(cache).ref_edges(),
        final(cache).head() == old(cache).head(),
{
    let mut i: usize = 0;
    while i < xs.len()
        invariant
            i <= xs@.len(),
            cache.edge_views() == old(cache).edge_views() + flow_edges(xs@.take(i as int)),
            cache.nodes() == old(cache).nodes(),
            cache.records() == old(cache).records(),
            cache.ref_edges() == old(cache).ref_edges(),
            cache.head() == old(cache).head(),
        decreases xs@.len() - i,
    {
        let x = &xs[i];
        let e = CacheEdge { source: x.source.clone(), target: x.target.clone(), kind: own("flows") };
        let ghost before = cache.edge_views();
        cache.add_edge(e);
        proof {
            let pre = flow_edges(xs@.take(i as int));
            assert(flow_edges(xs@.take(i + 1)) =~= pre.push(e@));
            assert(cache.edge_views() =~= old(cache).edge_views() + pre.push(e@));
        }
        i = i + 1;
    }
    assert(xs@.take(xs@.len() as int) =~= xs@);
}

/// Adds a `verifies` edge per verification.
fn index_verifications(cache: &mut Cache, xs: &Vec<Verification>)
    ensures
        final(cache).edge_views() == old(cache).edge_views() + verification_edges(xs@),
        final(cache).nodes() == old(cache).nodes(),
        final(cache).records() == old(cache).records(),
        final(cache).ref_edges() == old(cache).ref_edges(),
        final(cache).head() == old(cache).head(),
{
    let mut i: usize = 0;
    while i < xs.len()
        invariant
            i <= xs@.len(),
            cache.edge_views() == old(cache).edge_views() + verification_edges(xs@.take(i as int)),
            cache.nodes() == old(cache).nodes(),
            cache.records() == old(cache).records(),
            cache.ref_edges() == old(cache).ref_edges(),
            cache.head() == old(cache).head(),
        decreases xs@.len() - i,
    {
        let x = &xs[i];
        let e = CacheEdge { source: x.by.clone(), target: x.requirement.clone(), kind: own("verifies") };
        let ghost before = cache.edge_views();
        cache.add_edge(e);
        proof {
            let pre = verification_edges(xs@.take(i as int));
            assert(verification_edges(xs@.take(i + 1)) =~= pre.push(e@));
            assert(cache.edge_views() =~= old(cache).edge_views() + pre.push(e@));
        }
        i = i + 1;
    }
    assert(xs@.take(xs@.len() as int) =~= xs@);
}

/// Adds an `allocates` edge per allocation.
fn index_allocations(cache: &mut Cache, xs: &Vec<Allocation>)
    ensures
        final(cache).edge_views() == old(cache).edge_views() + allocation_edges(xs@),
        final(cache).nodes() == old(cache).nodes(),
        final(cache).records() == old(cache).records(),
        final(cache).ref_edges() == old(cache).ref_edges(),
        final(cache).head() == old(cache).head(),
{
    let mut i: usize = 0;
    while i < xs.len()
        invariant
            i <= xs@.len(),
            cache.edge_views() == old(cache).edge_views() + allocation_edges(xs@.take(i as int)),
            cache.nodes() == old(cache).nodes(),
            cache.records() == old(cache).records(),
            cache.ref_edges() == old(cache).ref_edges(),
            cache.head() == old(cache).head(),
        decreases xs@.len() - i,
    {
        let x = &xs[i];
        let e = CacheEdge { source: x.source.clone(), target: x.target.clone(), kind: own("allocates") };
        let ghost before = cache.edge_views();
        cache.add_edge(e);
        proof {
            let pre = allocation_edges(xs@.take(i as int));
            assert(allocation_edges(xs@.take(i + 1)) =~= pre.push(e@));
            assert(cache.edge_views() =~= old(cache).edge_views() + pre.push(e@));
        }
        i = i + 1;
    }
    assert(xs@.take(xs@.len() as int) =~= xs@);
}

/// Adds a `satisfies` edge per satisfaction that names what satisfies it.
fn index_satisfactions(cache: &mut Cache, xs: &Vec<Satisfaction>)
    ensures
        final(cache).edge_views() == old(cache).edge_views() + satisfies_edges(xs@),
        final(cache).nodes() == old(cache).nodes(),
        final(cache).records() == old(cache).records(),
        final(cache).ref_edges() == old(cache).ref_edges(),
        final(cache).head() == old(cache).head(),
{
    let mut i: usize = 0;
    while i < xs.len()
        invariant
            i <= xs@.len(),
            cache.edge_views() == old(cache).edge_views() + satisfies_edges(xs@.take(i as int)),
            cache.nodes() == old(cache).nodes(),
            cache.records() == old(cache).records(),
            cache.ref_edges() == old(cache).ref_edges(),
            cache.head() == old(cache).head(),
        decreases xs@.len() - i,
    {
        let ghost pre = satisfies_edges(xs@.take(i as int));
        assert(xs@.take(i + 1).drop_last() =~= xs@.take(i as int));
        assert(satisfies_edges(xs@.take(i + 1)) == pre + satisfaction_edges(xs@[i as int]));
        let x = &xs[i];
        match &x.by {
            Some(b) => {
                if !b.as_str().is_empty() {
                    let e = CacheEdge {
                        source: b.clone(),
                        target: x.requirement.clone(),
                        kind: own("satisfies"),
                    };
                    cache.add_edge(e);
                    assert(satisfaction_edges(xs@[i as int]) =~= seq![e@]);
                    assert(cache.edge_views() =~= old(cache).edge_views() + (pre + seq![e@]));
                } else {
                    assert(satisfaction_edges(xs@[i as int]) =~= seq![]);
                    assert(pre + seq![] =~= pre);
                }
            },
            None => {
                assert(pre + seq![] =~= pre);
            },
        }
        i = i + 1;
    }
    assert(xs@.take(xs@.len() as int) =~= xs@);
}

/// Adds a node per definition and a `specializes` edge per super type.
fn index_definitions(cache: &mut Cache, model: &Model, names: &NameMap)
    requires
        names.wf(),
        names@ == qn_map(model.definitions@),
    ensures
        final(cache).node_views() == old(cache).node_views() + def_nodes(
            names@,
            model.file@,
            model.definitions@,
        ),
        final(cache).edge_views() == old(cache).edge_views() + specialization_edges(
            names@,
            model.definitions@,
        ),
        final(cache).records() == old(cache).records(),
        final(cache).ref_edges() == old(cache).ref_edges(),
        final(cache).head() == old(cache).head(),
{
    let ghost m = names@;
    let ghost ds = model.definitions@;
    let mut i: usize = 0;
    while i < model.definitions.len()
        invariant
            i <= ds.len(),
            ds == model.definitions@,
            m == names@,
            names.wf(),
            cache.node_views() == old(cache).node_views() + def_nodes(m, model.file@, ds.take(i as int)),
            cache.edge_views() == old(cache).edge_views() + specialization_edges(m, ds.take(i as int)),
            cache.records() == old(cache).records(),
            cache.ref_edges() == old(cache).ref_edges(),
            cache.head() == old(cache).head(),
        decreases ds.len() - i,
    {
        let def = &model.definitions[i];
        let ghost npre = def_nodes(m, model.file@, ds.take(i as int));
        let ghost epre = specialization_edges(m, ds.take(i as int));
        assert(ds.take(i + 1).drop_last() =~= ds.take(i as int));
        assert(specialization_edges(m, ds.take(i + 1)) == epre + def_edges(m, ds[i as int]));
        let qn = match names.get(def.name.as_str()) {
            Some(q) => q.clone(),
            None => def.name.clone(),
        };
        let parent = match &def.parent_def {
            Some(p) => match names.get(p.as_str()) {
                Some(q) => Some(q.clone()),
                None => None,
            },
            None => None,
        };
        let node = CacheNode {
            qualified_name: qn,
            kind: own(def.kind.label()),
            file: model.file.clone(),
            line: def.span.start_row,
            parent,
        };
        cache.add_node(node);
        assert(node@ == def_node(m, model.file@, ds[i as int]));
        assert(def_nodes(m, model.file@, ds.take(i + 1)) =~= npre.push(node@));
        assert(cache.node_views() =~= old(cache).node_views() + npre.push(node@));
        match &def.super_type {
            Some(super_type) => {
                let source_qn = match names.get(def.name.as_str()) {
                    Some(q) => q.clone(),
                    None => def.name.clone(),
                };
                let e = CacheEdge {
                    source: source_qn,
                    target: super_type.clone(),
                    kind: own("specializes"),
                };
                cache.add_edge(e);
                assert(def_edges(m, ds[i as int]) =~= seq![e@]);
                assert(cache.edge_views() =~= old(cache).edge_views() + (epre + seq![e@]));
            },
            None => {
                assert(epre + seq![] =~= epre);
            },
        }
        i = i + 1;
    }
    assert(ds.take(ds.len() as int) =~= ds);
}

/// Adds a node per named usage, qualified by its parent definition.
fn index_usages(cache: &mut Cache, model: &Model, names: &NameMap)
    requires
        names.wf(),
    ensures
        final(cache).node_views() == old(cache).node_views() + named_usage_nodes(
            names@,
            model.file@,
            model.usages@,
        ),
        final(cache).edges() == old(cache).edges(),
        final(cache).records() == old(cache).records(),
        final(cache).ref_edges() == old(cache).ref_edges(),
        final(cache).head() == old(cache).head(),
{
    let ghost m = names@;
    let ghost us = model.usages@;
    let mut i: usize = 0;
    while i < model.usages.len()
        invariant
            i <= us.len(),
            us == model.usages@,
            m == names@,
            names.wf(),
            cache.node_views() == old(cache).node_views() + named_usage_nodes(m, model.file@, us.take(i as int)),
            cache.edges() == old(cache).edges(),
            cache.records() == old(cache).records(),
            cache.ref_edges() == old(cache).ref_edges(),
            cache.head() == old(cache).head(),
        decreases us.len() - i,
    {
        let usage = &model.usages[i];
        let ghost pre = named_usage_nodes(m, model.file@, us.take(i as int));
        assert(us.take(i + 1).drop_last() =~= us.take(i as int));
        assert(named_usage_nodes(m, model.file@, us.take(i + 1)) == pre + usage_nodes(
            m,
            model.file@,
            us[i as int],
        ));
        if usage.name.as_str().is_empty() {
            assert(pre + seq![] =~= pre);
        } else {
            let parent_qn = match &usage.parent_def {
                Some(p) => match names.get(p.as_str()) {
                    Some(q) => Some(q.clone()),
                    None => None,
                },
                None => None,
            };
            let qn = match &parent_qn {
                Some(pqn) => join_names(pqn.as_str(), usage.name.as_str()),
                None => usage.name.clone(),
            };
            let node = CacheNode {
                qualified_name: qn,
                kind: usage.kind.clone(),
                file: model.file.clone(),
                line: usage.span.start_row,
                parent: parent_qn,
            };
            cache.add_node(node);
            assert(usage_nodes(m, model.file@, us[i as int]) =~= seq![node@]);
            assert(cache.node_views() =~= old(cache).node_views() + (pre + seq![node@]));
        }
        i = i + 1;
    }
    assert(us.take(us.len() as int) =~= us);
}

/// `v` without one pair of matching surrounding quotes (`"` or `'`).
pub open spec fn unquote(v: Seq<char>) -> Seq<char> {
    if v.len() >= 1 && ((v[0] == '"' && v.last() == '"') || (v[0] == '\'' && v.last() == '\'')) {
        v.subrange(1, v.len() - 1)
    } else {
        v
    }
}

/// A `key = value` line: the trimmed key before the first `=` and the
/// trimmed, unquoted value after it; none without `=`.
pub open spec fn kv_line(line: Seq<char>) -> Option<(Seq<char>, Seq<char>)> {
    match split_once(line, '=') {
        Some((k, v)) => Some((trim(k), unquote(trim(v)))),
        None => None,
    }
}

/// The value of a `key = value` line is a single quote character, which
/// cannot be unquoted (stripping its quotes would cross over).
pub open spec fn kv_line_fails(line: Seq<char>) -> bool {
    match split_once(line, '=') {
        Some((k, v)) => trim(v).len() == 1 && (trim(v)[0] == '"' || trim(v)[0] == '\''),
        None => false,
    }
}

/// The line starts a table (`[...]` or `[[...]]`).
pub open spec fn is_header(t: Seq<char>) -> bool {
    t.len() > 0 && t[0] == '['
}

/// The line is blank or a comment.
pub open spec fn is_blank_or_comment(t: Seq<char>) -> bool {
    t.len() == 0 || t[0] == '#'
}

/// State of the top-level key scan.
pub struct FlatScan {
    /// A table header has been seen: nothing after it is top level.
    pub in_section: bool,
    pub map: Map<Seq<char>, Seq<char>>,
    /// No top-level line had a value that cannot be unquoted.
    pub ok: bool,
}

/// One line of the top-level key scan.
pub open spec fn flat_step(st: FlatScan, line: Seq<char>) -> FlatScan {
    let t = trim(line);
    if is_header(t) {
        FlatScan { in_section: true, ..st }
    } else if st.in_section || is_blank_or_comment(t) {
        st
    } else {
        FlatScan {
            in_section: false,
            map: match kv_line(t) {
                Some((k, v)) => st.map.insert(k, v),
                None => st.map,
            },
            ok: st.ok && !kv_line_fails(t),
        }
    }
}

/// The top-level key scan over `ls`.
pub open spec fn flat_scan(ls: Seq<Seq<char>>) -> FlatScan
    decreases ls.len(),
{
    if ls.len() == 0 {
        FlatScan { in_section: false, map: Map::empty(), ok: true }
    } else {
        flat_step(flat_scan(ls.drop_last()), ls.last())
    }
}

/// Once a scan has failed it stays failed, so a scan that succeeds
/// succeeded on every prefix.
proof fn lemma_flat_ok_prefix(ls: Seq<Seq<char>>, i: int)
    requires
        0 <= i <= ls.len(),
        flat_scan(ls).ok,
    ensures
        flat_scan(ls.take(i)).ok,
    decreases ls.len() - i,
{
    if i < ls.len() {
        lemma_flat_ok_prefix(ls, i + 1);
        assert(ls.take(i + 1).drop_last() =~= ls.take(i));
    } else {
        assert(ls.take(i) =~= ls);
    }
}

/// State of the `[[refs]]` scan.
pub struct RefsScan {
    pub in_refs: bool,
    pub qn: Seq<char>,
    pub kind: Seq<char>,
    pub refs: Seq<(Seq<char>, Seq<char>)>,
    /// No line inside `[[refs]]` had a value that cannot be unquoted.
    pub ok: bool,
}

/// The finished references, with the pending one added if it has a name.
pub open spec fn flushed(st: RefsScan) -> Seq<(Seq<char>, Seq<char>)> {
    if st.in_refs && st.qn.len() > 0 {
        st.refs.push((st.qn, st.kind))
    } else {
        st.refs
    }
}

/// One line of the `[[refs]]` scan.
pub open spec fn refs_step(st: RefsScan, line: Seq<char>) -> RefsScan {
    let t = trim(line);
    if t == "[[refs]]"@ {
        RefsScan { in_refs: true, qn: seq![], kind: seq![], refs: flushed(st), ok: st.ok }
    } else if is_header(t) {
        if st.in_refs && st.qn.len() > 0 {
            RefsScan { in_refs: false, qn: seq![], kind: seq![], refs: flushed(st), ok: st.ok }
        } else {
            RefsScan { in_refs: false, ..st }
        }
    } else if st.in_refs {
        let st2 = RefsScan { ok: st.ok && !kv_line_fails(t), ..st };
        match kv_line(t) {
            Some((k, v)) => if k == "qualified_name"@ {
                RefsScan { qn: v, ..st2 }
            } else if k == "kind"@ {
                RefsScan { kind: v, ..st2 }
            } else {
                st2
            },
            None => st2,
        }
    } else {
        st
    }
}

/// The `[[refs]]` scan over `ls`.
pub open spec fn refs_scan(ls: Seq<Seq<char>>) -> RefsScan
    decreases ls.len(),
{
    if ls.len() == 0 {
        RefsScan { in_refs: false, qn: seq![], kind: seq![], refs: seq![], ok: true }
    } else {
        refs_step(refs_scan(ls.drop_last()), ls.last())
    }
}

/// Once a scan has failed it stays failed.
proof fn lemma_refs_ok_prefix(ls: Seq<Seq<char>>, i: int)
    requires
        0 <= i <= ls.len(),
        refs_scan(ls).ok,
    ensures
        refs_scan(ls.take(i)).ok,
    decreases ls.len() - i,
{
    if i < ls.len() {
        lemma_refs_ok_prefix(ls, i + 1);
        assert(ls.take(i + 1).drop_last() =~= ls.take(i));
    } else {
        assert(ls.take(i) =~= ls);
    }
}

/// The `(qualified_name, kind)` pairs of the `[[refs]]` tables of a record.
pub open spec fn record_refs(contents: Seq<char>) -> Seq<(Seq<char>, Seq<char>)> {
    flushed(refs_scan(lines(contents)))
}

/// The top-level `key = value` pairs of a record.
pub open spec fn record_keys(contents: Seq<char>) -> Map<Seq<char>, Seq<char>> {
    flat_scan(lines(contents)).map
}

/// Both scans of a record get through: no line that they read has a value
/// that is a lone quote character.
pub open spec fn record_readable(contents: Seq<char>) -> bool {
    flat_scan(lines(contents)).ok && refs_scan(lines(contents)).ok
}

/// The text of a list of string pairs.
pub open spec fn pair_views(v: Seq<(String, String)>) -> Seq<(Seq<char>, Seq<char>)> {
    v.map_values(|p: (String, String)| (p.0@, p.1@))
}

/// Whether `t` (a whole trimmed line) starts with `c`.
fn first_is(t: &Vec<char>, c: char) -> (r: bool)
    ensures
        r == (t@.len() > 0 && t@[0] == c),
{
    t.len() > 0 && t[0] == c
}

/// Splits a `key = value` line into its trimmed key and trimmed, unquoted value.
fn parse_kv_line(line: &Vec<char>) -> (r: Option<(String, String)>)
    requires
        !kv_line_fails(line@),
    ensures
        match (r, kv_line(line@)) {
            (Some((k, v)), Some((x, y))) => k@ == x && v@ == y,
            (None, None) => true,
            _ => false,
        },
{
    match split_once_exec(line, '=') {
        Some((k, v)) => {
            let key = trim_chars(&k);
            let raw = trim_chars(&v);
            let n = raw.len();
            let quoted = n >= 1 && ((raw[0] == '"' && raw[n - 1] == '"') || (raw[0] == '\''
                && raw[n - 1] == '\''));
            let value = if quoted {
                slice_chars(&raw, 1, n - 1)
            } else {
                slice_chars(&raw, 0, n)
            };
            assert(raw@.subrange(0, n as int) =~= raw@);
            Some((string_of(&key), string_of(&value)))
        },
        None => None,
    }
}

/// The top-level `key = "value"` pairs of a flat TOML text.
///
/// Table sections (`[...]`, `[[...]]`) end the top level: nothing after the
/// first header is read.  Blank lines and comments are skipped.
pub fn parse_flat_toml(contents: &str) -> (r: NameMap)
    requires
        flat_scan(lines(contents@)).ok,
    ensures
        r.wf(),
        r@ == record_keys(contents@),
{
    let cs = chars_of(contents);
    let ls = lines_exec(&cs);
    let ghost lv = lines(contents@);
    let mut map = NameMap::new();
    let mut in_section = false;
    let mut i: usize = 0;
    while i < ls.len()
        invariant
            i <= ls@.len(),
            ls@.len() == lv.len(),
            forall|k: int| 0 <= k < ls@.len() ==> (#[trigger] ls@[k])@ == lv[k],
            flat_scan(lv).ok,
            map.wf(),
            flat_scan(lv.take(i as int)).in_section == in_section,
            flat_scan(lv.take(i as int)).map == map@,
        decreases ls@.len() - i,
    {
        proof {
            lemma_flat_ok_prefix(lv, i + 1);
            assert(lv.take(i + 1).drop_last() =~= lv.take(i as int));
        }
        let t = trim_chars(&ls[i]);
        if first_is(&t, '[') {
            in_section = true;
        } else if in_section {
        } else if t.len() == 0 || first_is(&t, '#') {
        } else {
            match parse_kv_line(&t) {
                Some((k, v)) => {
                    map.insert(k, v);
                },
                None => {},
            }
        }
        i = i + 1;
    }
    assert(lv.take(lv.len() as int) =~= lv);
    map
}

/// The `(qualified_name, kind)` pairs of the `[[refs]]` tables of a TOML
/// text, in order.  A table without a `qualified_name` is dropped; a table
/// without a `kind` gets an empty one.
pub fn parse_toml_refs(contents: &str) -> (r: Vec<(String, String)>)
    requires
        refs_scan(lines(contents@)).ok,
    ensures
        pair_views(r@) == record_refs(contents@),
{
    let cs = chars_of(contents);
    let ls = lines_exec(&cs);
    let ghost lv = lines(contents@);
    let refs_header = chars_of("[[refs]]");
    let qn_key = chars_of("qualified_name");
    let kind_key = chars_of("kind");
    let mut refs: Vec<(String, String)> = Vec::new();
    let mut in_refs = false;
    let mut current_qn = String::new();
    let mut current_kind = String::new();
    let mut i: usize = 0;
    while i < ls.len()
        invariant
            i <= ls@.len(),
            ls@.len() == lv.len(),
            forall|k: int| 0 <= k < ls@.len() ==> (#[trigger] ls@[k])@ == lv[k],
            refs_header@ == "[[refs]]"@,
            qn_key@ == "qualified_name"@,
            kind_key@ == "kind"@,
            refs_scan(lv).ok,
            refs_scan(lv.take(i as int)).in_refs == in_refs,
            refs_scan(lv.take(i as int)).qn == current_qn@,
            refs_scan(lv.take(i as int)).kind == current_kind@,
            refs_scan(lv.take(i as int)).refs == pair_views(refs@),
        decreases ls@.len() - i,
    {
        proof {
            lemma_refs_ok_prefix(lv, i + 1);
            assert(lv.take(i + 1).drop_last() =~= lv.take(i as int));
        }
        let ghost st = refs_scan(lv.take(i as int));
        let t = trim_chars(&ls[i]);
        if seq_eq(&t, &refs_header) {
            if in_refs && !current_qn.as_str().is_empty() {
                let ghost pv = pair_views(refs@);
                refs.push((current_qn, current_kind));
                assert(pair_views(refs@) =~= pv.push((st.qn, st.kind)));
            }
            in_refs = true;
            current_qn = String::new();
            current_kind = String::new();
        } else if first_is(&t, '[') {
            if in_refs && !current_qn.as_str().is_empty() {
                let ghost pv = pair_views(refs@);
                refs.push((current_qn, current_kind));
                assert(pair_views(refs@) =~= pv.push((st.qn, st.kind)));
                current_qn = String::new();
                current_kind = String::new();
            }
            in_refs = false;
        } else if in_refs {
            match parse_kv_line(&t) {
                Some((key, value)) => {
                    let kc = chars_of(key.as_str());
                    if seq_eq(&kc, &qn_key) {
                        current_qn = value;
                    } else if seq_eq(&kc, &kind_key) {
                        current_kind = value;
                    }
                },
                None => {},
            }
        }
        i = i + 1;
    }
    assert(lv.take(lv.len() as int) =~= lv);
    if in_refs && !current_qn.as_str().is_empty() {
        let ghost pv = pair_views(refs@);
        refs.push((current_qn, current_kind));
        assert(pair_views(refs@) =~= pv.push((refs_scan(lv).qn, refs_scan(lv).kind)));
    }
    refs
}

/// The value of `k` in `m`, or empty text.
pub open spec fn key_or_empty(m: Map<Seq<char>, Seq<char>>, k: Seq<char>) -> Seq<char> {
    if m.contains_key(k) {
        m[k]
    } else {
        seq![]
    }
}

/// The `id` of a record text (empty when it has none).
pub open spec fn record_id(contents: Seq<char>) -> Seq<char> {
    key_or_empty(record_keys(contents), "id"@)
}

/// The cache record for a record text stored at `file`.
pub open spec fn record_view_of(contents: Seq<char>, file: Seq<char>) -> RecordView {
    let kv = record_keys(contents);
    RecordView {
        id: key_or_empty(kv, "id"@),
        tool: key_or_empty(kv, "tool"@),
        record_type: key_or_empty(kv, "type"@),
        created: key_or_empty(kv, "created"@),
        author: key_or_empty(kv, "author"@),
        file: file,
    }
}

/// The reference edges of record `id` for `(qualified_name, kind)` pairs.
pub open spec fn ref_edges_of(id: Seq<char>, refs: Seq<(Seq<char>, Seq<char>)>) -> Seq<RefEdgeView> {
    refs.map_values(|p: (Seq<char>, Seq<char>)| RefEdgeView { record_id: id, qualified_name: p.0, ref_kind: p.1 })
}

/// The value of `k` in `kv`, or an empty string.
fn value_or_empty(kv: &NameMap, k: &str) -> (r: String)
    requires
        kv.wf(),
    ensures
        r@ == key_or_empty(kv@, k@),
{
    match kv.get(k) {
        Some(v) => v.clone(),
        None => String::new(),
    }
}

/// Whether the value of a `key = value` line is a lone quote character.
fn kv_line_fails_exec(t: &Vec<char>) -> (r: bool)
    ensures
        r == kv_line_fails(t@),
{
    match split_once_exec(t, '=') {
        Some((_k, v)) => {
            let raw = trim_chars(&v);
            raw.len() == 1 && (raw[0] == '"' || raw[0] == '\'')
        },
        None => false,
    }
}

/// Stateless indexer; all methods are associated functions.
pub struct Indexer;

impl Indexer {
    /// Index one parsed model into the cache: a node per definition and per
    /// named usage (with qualified names built from the `parent_def`
    /// chains), and an edge per relationship.
    pub fn index_model(cache: &mut Cache, model: &Model)
        ensures
            final(cache).node_views() == old(cache).node_views() + model_nodes(*model),
            final(cache).edge_views() == old(cache).edge_views() + model_edges(*model),
            final(cache).records() == old(cache).records(),
            final(cache).ref_edges() == old(cache).ref_edges(),
            final(cache).head() == old(cache).head(),
    {
        let qualified_names = Self::build_qualified_names(model);
        let ghost m = qualified_names@;
        let ghost n0 = cache.node_views();
        let ghost e0 = cache.edge_views();
        index_definitions(cache, model, &qualified_names);
        let ghost e1 = cache.edge_views();
        index_usages(cache, model, &qualified_names);
        assert(cache.edge_views() == e1);
        index_connections(cache, &model.connections);
        index_flows(cache, &model.flows);
        index_satisfactions(cache, &model.satisfactions);
        index_verifications(cache, &model.verifications);
        index_allocations(cache, &model.allocations);
        proof {
            assert(cache.node_views() =~= n0 + model_nodes(*model));
            assert(cache.edge_views() =~= e0 + model_edges(*model));
        }
    }

    /// Whether a record text can be read: no line that the top-level scan
    /// or the `[[refs]]` scan reads has a value that is a lone quote.
    pub fn record_is_readable(contents: &str) -> (r: bool)
        ensures
            r == record_readable(contents@),
    {
        let cs = chars_of(contents);
        let ls = lines_exec(&cs);
        let ghost lv = lines(contents@);
        let refs_header = chars_of("[[refs]]");
        let mut in_section = false;
        let mut in_refs = false;
        let mut flat_ok = true;
        let mut refs_ok = true;
        let mut i: usize = 0;
        while i < ls.len()
            invariant
                i <= ls@.len(),
                ls@.len() == lv.len(),
                forall|k: int| 0 <= k < ls@.len() ==> (#[trigger] ls@[k])@ == lv[k],
                refs_header@ == "[[refs]]"@,
                flat_scan(lv.take(i as int)).in_section == in_section,
                flat_scan(lv.take(i as int)).ok == flat_ok,
                refs_scan(lv.take(i as int)).in_refs == in_refs,
                refs_scan(lv.take(i as int)).ok == refs_ok,
            decreases ls@.len() - i,
        {
            assert(lv.take(i + 1).drop_last() =~= lv.take(i as int));
            let t = trim_chars(&ls[i]);
            let fails = kv_line_fails_exec(&t);
            if first_is(&t, '[') {
                in_section = true;
            } else if !in_section && !(t.len() == 0 || first_is(&t, '#')) {
                flat_ok = flat_ok && !fails;
            }
            if seq_eq(&t, &refs_header) {
                in_refs = true;
            } else if first_is(&t, '[') {
                in_refs = false;
            } else if in_refs {
                refs_ok = refs_ok && !fails;
            }
            i = i + 1;
        }
        assert(lv.take(lv.len() as int) =~= lv);
        flat_ok && refs_ok
    }

    /// Index the text of one record file, stored at `file`: a record from
    /// its top-level keys and a reference edge per `[[refs]]` table.  A text
    /// without an `id` (or with an empty one) is skipped.
    pub fn index_record_contents(cache: &mut Cache, file: &str, contents: &str)
        requires
            record_readable(contents@),
        ensures
            record_id(contents@).len() == 0 ==> final(cache).record_views()
                == old(cache).record_views() && final(cache).ref_edge_views()
                == old(cache).ref_edge_views(),
            record_id(contents@).len() > 0 ==> final(cache).record_views()
                == old(cache).record_views().push(record_view_of(contents@, file@)),
            record_id(contents@).len() > 0 ==> final(cache).ref_edge_views()
                == old(cache).ref_edge_views() + ref_edges_of(
                record_id(contents@),
                record_refs(contents@),
            ),
            final(cache).nodes() == old(cache).nodes(),
            final(cache).edges() == old(cache).edges(),
            final(cache).head() == old(cache).head(),
    {
        let kv = parse_flat_toml(contents);
        let id = value_or_empty(&kv, "id");
        if id.as_str().is_empty() {
            return;
        }
        let record = CacheRecord {
            id: id.clone(),
            tool: value_or_empty(&kv, "tool"),
            record_type: value_or_empty(&kv, "type"),
            created: value_or_empty(&kv, "created"),
            author: value_or_empty(&kv, "author"),
            file: own(file),
        };
        cache.add_record(record);
        let refs = parse_toml_refs(contents);
        let ghost pv = pair_views(refs@);
        let ghost r0 = cache.ref_edge_views();
        let mut i: usize = 0;
        while i < refs.len()
            invariant
                i <= refs@.len(),
                pv == pair_views(refs@),
                pv == record_refs(contents@),
                id@ == record_id(contents@),
                cache.ref_edge_views() == r0 + ref_edges_of(id@, pv.take(i as int)),
                cache.record_views() == old(cache).record_views().push(record_view_of(contents@, file@)),
                r0 == old(cache).ref_edge_views(),
                cache.nodes() == old(cache).nodes(),
                cache.edges() == old(cache).edges(),
                cache.head() == old(cache).head(),
            decreases refs@.len() - i,
        {
            let (qn, kind) = &refs[i];
            let e = CacheRefEdge {
                record_id: id.clone(),
                qualified_name: qn.clone(),
                ref_kind: kind.clone(),
            };
            let ghost pre = ref_edges_of(id@, pv.take(i as int));
            cache.add_ref_edge(e);
            proof {
                assert(pv[i as int] == (qn@, kind@));
                assert(ref_edges_of(id@, pv.take(i + 1)) =~= pre.push(e@));
                assert(cache.ref_edge_views() =~= r0 + pre.push(e@));
            }
            i = i + 1;
        }
        assert(pv.take(pv.len() as int) =~= pv);
    }

    /// Simple name to qualified name for the definitions of `model`.
    ///
    /// The parser records only the immediate parent's simple name in
    /// `parent_def`; definitions come parents first, so chaining the names
    /// in order yields fully qualified names.
    pub fn build_qualified_names(model: &Model) -> (r: NameMap)
        ensures
            r.wf(),
            r@ == qn_map(model.definitions@),
    {
        let mut qn_map_exec = NameMap::new();
        let mut i: usize = 0;
        while i < model.definitions.len()
            invariant
                i <= model.definitions@.len(),
                qn_map_exec.wf(),
                qn_map_exec@ == qn_map(model.definitions@.take(i as int)),
            decreases model.definitions@.len() - i,
        {
            let ghost pre = model.definitions@.take(i as int);
            assert(model.definitions@.take(i + 1).drop_last() =~= pre);
            let def = &model.definitions[i];
            let qn = match &def.parent_def {
                Some(parent_name) => {
                    let parent_qn = match qn_map_exec.get(parent_name.as_str()) {
                        Some(q) => q.clone(),
                        None => parent_name.clone(),
                    };
                    join_names(parent_qn.as_str(), def.name.as_str())
                },
                None => def.name.clone(),
            };
            qn_map_exec.insert(def.name.clone(), qn);
            i = i + 1;
        }
        assert(model.definitions@.take(model.definitions@.len() as int) =~= model.definitions@);
        qn_map_exec
    }
}

} // verus!
