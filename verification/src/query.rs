//! Model queries behind the `list`, `trace` and `interfaces` commands:
//! filtering elements, requirements traceability and port analysis.
use vstd::prelude::*;
use crate::cache::{contains_str, filter_seq, in_list, lemma_filter_take};
use crate::diagram::graph::string_views;
use crate::model::{
    Connection, DefKind, Definition, Direction, Model, Span, Usage, Visibility, collect, lemma_collect_take,
    opt_view, referenced_seq, simple_name, simple_name_spec, Satisfaction, Verification,
};
use crate::text::{chars_of, contains, contains_exec, own, str_eq};

verus! {

/// A unified view of a model element: a definition or a usage.
#[derive(Debug, Clone)]
pub enum Element<'a> {
    Def(&'a Definition),
    Usage(&'a Usage),
}

impl<'a> Element<'a> {
    /// The element's name.
    pub fn name(&self) -> (r: &str)
        ensures
            r@ == (match *self {
                Element::Def(d) => d.name@,
                Element::Usage(u) => u.name@,
            }),
    {
        match self {
            Element::Def(d) => d.name.as_str(),
            Element::Usage(u) => u.name.as_str(),
        }
    }

    /// The kind label: the definition kind's label, or the usage keyword.
    pub fn kind_label(&self) -> (r: &str)
        ensures
            r@ == (match *self {
                Element::Def(d) => crate::model::def_kind_label(d.kind),
                Element::Usage(u) => u.kind@,
            }),
    {
        match self {
            Element::Def(d) => d.kind.label(),
            Element::Usage(u) => u.kind.as_str(),
        }
    }

    /// The source span.
    pub fn span(&self) -> (r: &Span)
        ensures
            *r == (match *self {
                Element::Def(d) => d.span,
                Element::Usage(u) => u.span,
            }),
    {
        match self {
            Element::Def(d) => &d.span,
            Element::Usage(u) => &u.span,
        }
    }

    /// The name of the enclosing definition, if any.
    pub fn parent_def(&self) -> (r: Option<&str>)
        ensures
            opt_str_view(r) == (match *self {
                Element::Def(d) => opt_view(d.parent_def),
                Element::Usage(u) => opt_view(u.parent_def),
            }),
    {
        match self {
            Element::Def(d) => opt_as_str(&d.parent_def),
            Element::Usage(u) => opt_as_str(&u.parent_def),
        }
    }

    /// The super type of a definition, or the type of a usage.
    pub fn type_ref(&self) -> (r: Option<&str>)
        ensures
            opt_str_view(r) == (match *self {
                Element::Def(d) => opt_view(d.super_type),
                Element::Usage(u) => opt_view(u.type_ref),
            }),
    {
        match self {
            Element::Def(d) => opt_as_str(&d.super_type),
            Element::Usage(u) => opt_as_str(&u.type_ref),
        }
    }

    /// The short name of a definition; usages have none here.
    pub fn short_name(&self) -> (r: Option<&str>)
        ensures
            opt_str_view(r) == (match *self {
                Element::Def(d) => opt_view(d.short_name),
                Element::Usage(_) => None,
            }),
    {
        match self {
            Element::Def(d) => opt_as_str(&d.short_name),
            Element::Usage(_) => None,
        }
    }

    /// The doc comment of a definition; usages have none here.
    pub fn doc(&self) -> (r: Option<&str>)
        ensures
            opt_str_view(r) == (match *self {
                Element::Def(d) => opt_view(d.doc),
                Element::Usage(_) => None,
            }),
    {
        match self {
            Element::Def(d) => opt_as_str(&d.doc),
            Element::Usage(_) => None,
        }
    }
}

/// The text of an optional string slice.
pub open spec fn opt_str_view(o: Option<&str>) -> Option<Seq<char>> {
    match o {
        Some(s) => Some(s@),
        None => None,
    }
}

/// An optional string as an optional slice.
fn opt_as_str(o: &Option<String>) -> (r: Option<&str>)
    ensures
        opt_str_view(r) == opt_view(*o),
{
    match o {
        Some(s) => Some(s.as_str()),
        None => None,
    }
}

/// Kind filter for the `list` command.
#[derive(Debug, Clone, PartialEq, Eq)]
pub enum KindFilter {
    /// All definitions.
    Definitions,
    /// All usages.
    Usages,
    /// One definition kind.
    DefKind(DefKind),
    /// One usage keyword (e.g. `part`, `port`).
    UsageKind(String),
    /// Everything.
    All,
}

/// Filter criteria for listing model elements.
#[derive(Debug, Clone)]
pub struct ListFilter {
    /// Element kind.
    pub kind: Option<KindFilter>,
    /// Substring that the name must contain.
    pub name_pattern: Option<String>,
    /// Name of the enclosing definition.
    pub parent: Option<String>,
    /// Only definitions that nothing references.
    pub unused_only: bool,
    /// Only abstract definitions.
    pub abstract_only: bool,
    /// Only definitions with this visibility.
    pub visibility: Option<Visibility>,
}

impl Default for ListFilter {
    fn default() -> (r: Self)
        ensures
            r.kind is None,
            r.name_pattern is None,
            r.parent is None,
            !r.unused_only,
            !r.abstract_only,
            r.visibility is None,
    {
        ListFilter {
            kind: None,
            name_pattern: None,
            parent: None,
            unused_only: false,
            abstract_only: false,
            visibility: None,
        }
    }
}

/// Whether definitions are listed under the kind filter.
pub open spec fn lists_defs(k: Option<KindFilter>) -> bool {
    match k {
        Some(KindFilter::Usages) | Some(KindFilter::UsageKind(_)) => false,
        _ => true,
    }
}

/// Whether usages are listed under the kind filter.
pub open spec fn lists_usages(k: Option<KindFilter>) -> bool {
    match k {
        Some(KindFilter::Definitions) | Some(KindFilter::DefKind(_)) => false,
        _ => true,
    }
}

/// Whether a definition passes every criterion of the filter; `refs` are
/// the names the model references.
pub open spec fn def_selected(f: ListFilter, refs: Seq<Seq<char>>, d: Definition) -> bool {
    &&& match f.kind {
        Some(KindFilter::DefKind(k)) => d.kind == k,
        _ => true,
    }
    &&& match f.name_pattern {
        Some(p) => contains(d.name@, p@),
        None => true,
    }
    &&& match f.parent {
        Some(p) => opt_view(d.parent_def) == Some(p@),
        None => true,
    }
    &&& (!f.abstract_only || d.is_abstract)
    &&& match f.visibility {
        Some(v) => d.visibility == Some(v),
        None => true,
    }
    &&& (!f.unused_only || !refs.contains(d.name@))
}

/// Whether a usage passes the kind, name and parent criteria of the filter.
pub open spec fn usage_selected(f: ListFilter, u: Usage) -> bool {
    &&& match f.kind {
        Some(KindFilter::UsageKind(k)) => u.kind@ == k@,
        _ => true,
    }
    &&& match f.name_pattern {
        Some(p) => contains(u.name@, p@),
        None => true,
    }
    &&& match f.parent {
        Some(p) => opt_view(u.parent_def) == Some(p@),
        None => true,
    }
}

/// The definitions that `list_elements` returns, in model order.
pub open spec fn selected_defs(model: Model, f: ListFilter) -> Seq<Definition> {
    if lists_defs(f.kind) {
        filter_seq(model.definitions@, |d: Definition| def_selected(f, referenced_seq(model), d))
    } else {
        seq![]
    }
}

/// The usages that `list_elements` returns, in model order: none when only
/// abstract or only unused definitions are asked for.
pub open spec fn selected_usages(model: Model, f: ListFilter) -> Seq<Usage> {
    if lists_usages(f.kind) && !f.abstract_only && !f.unused_only {
        filter_seq(model.usages@, |u: Usage| usage_selected(f, u))
    } else {
        seq![]
    }
}

/// Whether `name` contains the pattern `pat` (given as characters).
fn name_matches(name: &str, pat: &Option<Vec<char>>) -> (r: bool)
    ensures
        r == (match *pat {
            Some(p) => contains(name@, p@),
            None => true,
        }),
{
    match pat {
        Some(p) => {
            let n = chars_of(name);
            contains_exec(&n, p)
        },
        None => true,
    }
}

/// Whether an optional parent name equals the filter's parent.
fn parent_matches(parent_def: &Option<String>, want: &Option<String>) -> (r: bool)
    ensures
        r == (match *want {
            Some(p) => opt_view(*parent_def) == Some(p@),
            None => true,
        }),
{
    match want {
        Some(p) => match parent_def {
            Some(q) => str_eq(q.as_str(), p.as_str()),
            None => false,
        },
        None => true,
    }
}

/// List the model elements that match `filter`: the selected definitions
/// in model order, then the selected usages in model order.
pub fn list_elements<'a>(model: &'a Model, filter: &ListFilter) -> (r: Vec<Element<'a>>)
    ensures
        r@.len() == selected_defs(*model, *filter).len() + selected_usages(*model, *filter).len(),
        forall|i: int|
            0 <= i < selected_defs(*model, *filter).len() ==> r@[i] == Element::Def(
                &selected_defs(*model, *filter)[i],
            ),
        forall|i: int|
            0 <= i < selected_usages(*model, *filter).len() ==> r@[selected_defs(
                *model,
                *filter,
            ).len() + i] == Element::Usage(&selected_usages(*model, *filter)[i]),
{
    let mut results: Vec<Element<'a>> = Vec::new();
    let include_defs = match &filter.kind {
        Some(KindFilter::Usages) | Some(KindFilter::UsageKind(_)) => false,
        _ => true,
    };
    let include_usages = match &filter.kind {
        Some(KindFilter::Definitions) | Some(KindFilter::DefKind(_)) => false,
        _ => !filter.abstract_only && !filter.unused_only,
    };
    let pat: Option<Vec<char>> = match &filter.name_pattern {
        Some(p) => Some(chars_of(p.as_str())),
        None => None,
    };
    let referenced: Option<Vec<&str>> = if filter.unused_only {
        Some(model.referenced_names())
    } else {
        None
    };
    let ghost refs = referenced_seq(*model);
    let ghost fd = |d: Definition| def_selected(*filter, refs, d);
    if include_defs {
        let mut i: usize = 0;
        while i < model.definitions.len()
            invariant
                i <= model.definitions@.len(),
                refs == referenced_seq(*model),
                forall|x: Definition| #[trigger] fd(x) == def_selected(*filter, refs, x),
                match pat {
                    Some(p) => filter.name_pattern matches Some(q) && p@ == q@,
                    None => filter.name_pattern is None,
                },
                (referenced is Some) == filter.unused_only,
                referenced matches Some(v) ==> v.deep_view() == refs,
                results@.len() == filter_seq(model.definitions@.take(i as int), fd).len(),
                forall|k: int|
                    0 <= k < results@.len() ==> results@[k] == Element::Def(
                        &filter_seq(model.definitions@.take(i as int), fd)[k],
                    ),
            decreases model.definitions@.len() - i,
        {
            proof {
                lemma_filter_take(model.definitions@, fd, i as int);
            }
            let def = &model.definitions[i];
            let kind_ok = match &filter.kind {
                Some(KindFilter::DefKind(k)) => def.kind == *k,
                _ => true,
            };
            let vis_ok = match &filter.visibility {
                Some(v) => match &def.visibility {
                    Some(w) => *w == *v,
                    None => false,
                },
                None => true,
            };
            let unused_ok = match &referenced {
                Some(v) => {
                    let listed = contains_str(v, def.name.as_str());
                    proof {
                        if listed {
                            let k = choose|k: int| 0 <= k < v@.len() && (#[trigger] v@[k])@ == def.name@;
                            assert(v.deep_view()[k] == def.name@);
                        }
                        if refs.contains(def.name@) {
                            let k = choose|k: int| 0 <= k < refs.len() && refs[k] == def.name@;
                            assert(v@[k]@ == v.deep_view()[k]);
                        }
                    }
                    !listed
                },
                None => true,
            };
            let keep = kind_ok && name_matches(def.name.as_str(), &pat) && parent_matches(
                &def.parent_def,
                &filter.parent,
            ) && (!filter.abstract_only || def.is_abstract) && vis_ok && unused_ok;
            assert(keep == fd(model.definitions@[i as int]));
            if keep {
                results.push(Element::Def(def));
            }
            i = i + 1;
        }
        assert(model.definitions@.take(model.definitions@.len() as int) =~= model.definitions@);
    }
    let ghost sd = if include_defs { filter_seq(model.definitions@, fd) } else { seq![] };
    assert(results@.len() == sd.len());
    assert(forall|k: int| 0 <= k < sd.len() ==> results@[k] == Element::Def(&sd[k]));
    let ghost nd = results@.len();
    let ghost fu = |u: Usage| usage_selected(*filter, u);
    if include_usages {
        let ghost before = results@;
        let mut i: usize = 0;
        while i < model.usages.len()
            invariant
                i <= model.usages@.len(),
                forall|x: Usage| #[trigger] fu(x) == usage_selected(*filter, x),
                match pat {
                    Some(p) => filter.name_pattern matches Some(q) && p@ == q@,
                    None => filter.name_pattern is None,
                },
                nd == before.len(),
                results@.len() == nd + filter_seq(model.usages@.take(i as int), fu).len(),
                forall|k: int| 0 <= k < nd ==> results@[k] == before[k],
                nd == sd.len(),
                forall|k: int| 0 <= k < sd.len() ==> before[k] == Element::Def(&sd[k]),
                forall|k: int|
                    0 <= k < filter_seq(model.usages@.take(i as int), fu).len() ==> results@[nd + k]
                        == Element::Usage(&filter_seq(model.usages@.take(i as int), fu)[k]),
            decreases model.usages@.len() - i,
        {
            proof {
                lemma_filter_take(model.usages@, fu, i as int);
            }
            let usage = &model.usages[i];
            let kind_ok = match &filter.kind {
                Some(KindFilter::UsageKind(k)) => str_eq(usage.kind.as_str(), k.as_str()),
                _ => true,
            };
            let keep = kind_ok && name_matches(usage.name.as_str(), &pat) && parent_matches(
                &usage.parent_def,
                &filter.parent,
            );
            assert(keep == fu(model.usages@[i as int]));
            if keep {
                results.push(Element::Usage(usage));
            }
            i = i + 1;
        }
        assert(model.usages@.take(model.usages@.len() as int) =~= model.usages@);
        assert forall|k: int| 0 <= k < sd.len() implies results@[k] == Element::Def(&sd[k]) by {
            assert(results@[k] == before[k]);
        }
    }
    proof {
        assert(fd =~= |d: Definition| def_selected(*filter, referenced_seq(*model), d));
        assert(fu =~= |u: Usage| usage_selected(*filter, u));
        assert(include_defs == lists_defs(filter.kind));
        assert(selected_defs(*model, *filter) == sd);
        assert forall|i: int| 0 <= i < sd.len() implies results@[i] == Element::Def(&sd[i]) by {
        }
    }
    results
}

/// A row of the requirements traceability matrix.
#[derive(Debug, Clone)]
pub struct TraceRow {
    pub requirement: String,
    pub satisfied_by: Vec<String>,
    pub verified_by: Vec<String>,
}

/// A row as text: requirement, satisfiers, verifiers.
pub type TraceRowView = (Seq<char>, Seq<Seq<char>>, Seq<Seq<char>>);

/// The text of a row.
pub open spec fn row_view(r: TraceRow) -> TraceRowView {
    (r.requirement@, string_views(r.satisfied_by@), string_views(r.verified_by@))
}

/// The text of a list of rows.
pub open spec fn row_views(rs: Seq<TraceRow>) -> Seq<TraceRowView> {
    rs.map_values(|r: TraceRow| row_view(r))
}

/// What satisfies requirement `req`: the `by` of each satisfaction whose
/// requirement's simple name is `req` (`(implicit)` where none is named).
pub open spec fn satisfiers(sats: Seq<Satisfaction>, req: Seq<char>) -> Seq<Seq<char>> {
    collect(
        sats,
        |s: Satisfaction|
            if simple_name_spec(s.requirement@) == req {
                seq![
                    match s.by {
                        Some(b) => b@,
                        None => "(implicit)"@,
                    },
                ]
            } else {
                seq![]
            },
    )
}

/// What verifies requirement `req`, in model order.
pub open spec fn verifiers(vs: Seq<Verification>, req: Seq<char>) -> Seq<Seq<char>> {
    collect(
        vs,
        |v: Verification|
            if simple_name_spec(v.requirement@) == req {
                seq![v.by@]
            } else {
                seq![]
            },
    )
}

/// The requirement definitions of a model, in order.
pub open spec fn requirement_defs(model: Model) -> Seq<Definition> {
    filter_seq(model.definitions@, |d: Definition| d.kind == DefKind::Requirement)
}

/// The traceability matrix: a row per requirement definition.
pub open spec fn trace_rows(model: Model) -> Seq<TraceRowView> {
    requirement_defs(model).map_values(
        |d: Definition|
            (
                d.name@,
                satisfiers(model.satisfactions@, d.name@),
                verifiers(model.verifications@, d.name@),
            ),
    )
}

/// The satisfiers of `req` as strings.
fn satisfiers_of(sats: &Vec<Satisfaction>, req: &str) -> (r: Vec<String>)
    ensures
        string_views(r@) == satisfiers(sats@, req@),
{
    let mut r: Vec<String> = Vec::new();
    let mut i: usize = 0;
    while i < sats.len()
        invariant
            i <= sats@.len(),
            string_views(r@) == satisfiers(sats@.take(i as int), req@),
        decreases sats@.len() - i,
    {
        let ghost pre = string_views(r@);
        assert(sats@.take(i + 1).drop_last() =~= sats@.take(i as int));
        let s = &sats[i];
        if str_eq(simple_name(s.requirement.as_str()), req) {
            let by = match &s.by {
                Some(b) => b.clone(),
                None => own("(implicit)"),
            };
            r.push(by);
            assert(string_views(r@) =~= pre + seq![by@]);
        } else {
            assert(pre + seq![] =~= pre);
        }
        i = i + 1;
    }
    assert(sats@.take(sats@.len() as int) =~= sats@);
    r
}

/// The verifiers of `req` as strings.
fn verifiers_of(vs: &Vec<Verification>, req: &str) -> (r: Vec<String>)
    ensures
        string_views(r@) == verifiers(vs@, req@),
{
    let mut r: Vec<String> = Vec::new();
    let mut i: usize = 0;
    while i < vs.len()
        invariant
            i <= vs@.len(),
            string_views(r@) == verifiers(vs@.take(i as int), req@),
        decreases vs@.len() - i,
    {
        let ghost pre = string_views(r@);
        assert(vs@.take(i + 1).drop_last() =~= vs@.take(i as int));
        let v = &vs[i];
        if str_eq(simple_name(v.requirement.as_str()), req) {
            r.push(v.by.clone());
            assert(string_views(r@) =~= pre + seq![v.by@]);
        } else {
            assert(pre + seq![] =~= pre);
        }
        i = i + 1;
    }
    assert(vs@.take(vs@.len() as int) =~= vs@);
    r
}

/// The requirements traceability matrix: for each requirement definition,
/// in model order, what satisfies it and what verifies it.
pub fn trace_requirements(model: &Model) -> (r: Vec<TraceRow>)
    ensures
        row_views(r@) == trace_rows(*model),
{
    let ghost f = |d: Definition| d.kind == DefKind::Requirement;
    let ghost g = |d: Definition|
        (
            d.name@,
            satisfiers(model.satisfactions@, d.name@),
            verifiers(model.verifications@, d.name@),
        );
    let mut rows: Vec<TraceRow> = Vec::new();
    let mut i: usize = 0;
    while i < model.definitions.len()
        invariant
            i <= model.definitions@.len(),
            forall|x: Definition| #[trigger] f(x) == (x.kind == DefKind::Requirement),
            forall|x: Definition|
                #[trigger] g(x) == (
                    x.name@,
                    satisfiers(model.satisfactions@, x.name@),
                    verifiers(model.verifications@, x.name@),
                ),
            row_views(rows@) == filter_seq(model.definitions@.take(i as int), f).map_values(g),
        decreases model.definitions@.len() - i,
    {
        proof {
            lemma_filter_take(model.definitions@, f, i as int);
        }
        let ghost pre = row_views(rows@);
        let def = &model.definitions[i];
        if def.kind == DefKind::Requirement {
            let row = TraceRow {
                requirement: def.name.clone(),
                satisfied_by: satisfiers_of(&model.satisfactions, def.name.as_str()),
                verified_by: verifiers_of(&model.verifications, def.name.as_str()),
            };
            rows.push(row);
            assert(row_views(rows@) =~= pre.push(row_view(row)));
            assert(filter_seq(model.definitions@.take(i + 1), f).map_values(g) =~= filter_seq(
                model.definitions@.take(i as int),
                f,
            ).map_values(g).push(g(*def)));
        } else {
            assert(filter_seq(model.definitions@.take(i as int), f) + seq![] =~= filter_seq(
                model.definitions@.take(i as int),
                f,
            ));
        }
        i = i + 1;
    }
    assert(model.definitions@.take(model.definitions@.len() as int) =~= model.definitions@);
    proof {
        assert(f =~= |d: Definition| d.kind == DefKind::Requirement);
        assert(g =~= |d: Definition|
            (
                d.name@,
                satisfiers(model.satisfactions@, d.name@),
                verifiers(model.verifications@, d.name@),
            ));
    }
    rows
}

/// Requirements trace coverage counts.
#[derive(Debug, Clone)]
pub struct TraceCoverage {
    pub total_requirements: usize,
    pub satisfied_count: usize,
    pub verified_count: usize,
    pub fully_traced_count: usize,
}

/// The rows with at least one satisfier.
pub open spec fn satisfied_rows(rows: Seq<TraceRow>) -> Seq<TraceRow> {
    filter_seq(rows, |r: TraceRow| r.satisfied_by@.len() > 0)
}

/// The rows with at least one verifier.
pub open spec fn verified_rows(rows: Seq<TraceRow>) -> Seq<TraceRow> {
    filter_seq(rows, |r: TraceRow| r.verified_by@.len() > 0)
}

/// The rows with at least one satisfier and at least one verifier.
pub open spec fn fully_traced_rows(rows: Seq<TraceRow>) -> Seq<TraceRow> {
    filter_seq(rows, |r: TraceRow| r.satisfied_by@.len() > 0 && r.verified_by@.len() > 0)
}

/// Coverage counts of a traceability matrix.
pub fn trace_coverage(rows: &[TraceRow]) -> (r: TraceCoverage)
    ensures
        r.total_requirements == rows@.len(),
        r.satisfied_count == satisfied_rows(rows@).len(),
        r.verified_count == verified_rows(rows@).len(),
        r.fully_traced_count == fully_traced_rows(rows@).len(),
{
    let ghost fs = |r: TraceRow| r.satisfied_by@.len() > 0;
    let ghost fv = |r: TraceRow| r.verified_by@.len() > 0;
    let ghost ff = |r: TraceRow| r.satisfied_by@.len() > 0 && r.verified_by@.len() > 0;
    let mut sat: usize = 0;
    let mut ver: usize = 0;
    let mut full: usize = 0;
    let mut i: usize = 0;
    while i < rows.len()
        invariant
            i <= rows@.len(),
            forall|x: TraceRow| #[trigger] fs(x) == (x.satisfied_by@.len() > 0),
            forall|x: TraceRow| #[trigger] fv(x) == (x.verified_by@.len() > 0),
            forall|x: TraceRow|
                #[trigger] ff(x) == (x.satisfied_by@.len() > 0 && x.verified_by@.len() > 0),
            sat == filter_seq(rows@.take(i as int), fs).len(),
            ver == filter_seq(rows@.take(i as int), fv).len(),
            full == filter_seq(rows@.take(i as int), ff).len(),
            sat <= i,
            ver <= i,
            full <= i,
        decreases rows@.len() - i,
    {
        proof {
            lemma_filter_take(rows@, fs, i as int);
            lemma_filter_take(rows@, fv, i as int);
            lemma_filter_take(rows@, ff, i as int);
        }
        let s = rows[i].satisfied_by.len() > 0;
        let v = rows[i].verified_by.len() > 0;
        if s {
            sat = sat + 1;
        }
        if v {
            ver = ver + 1;
        }
        if s && v {
            full = full + 1;
        }
        i = i + 1;
    }
    assert(rows@.take(rows@.len() as int) =~= rows@);
    proof {
        assert(fs =~= |r: TraceRow| r.satisfied_by@.len() > 0);
        assert(fv =~= |r: TraceRow| r.verified_by@.len() > 0);
        assert(ff =~= |r: TraceRow| r.satisfied_by@.len() > 0 && r.verified_by@.len() > 0);
    }
    TraceCoverage {
        total_requirements: rows.len(),
        satisfied_count: sat,
        verified_count: ver,
        fully_traced_count: full,
    }
}

/// A port and the definition that owns it.
#[derive(Debug, Clone)]
pub struct PortInfo {
    pub name: String,
    pub type_ref: Option<String>,
    pub direction: Option<Direction>,
    pub is_conjugated: bool,
    pub owner: String,
}

/// The text of a port entry.
pub struct PortView {
    pub name: Seq<char>,
    pub type_ref: Option<Seq<char>>,
    pub direction: Option<Direction>,
    pub is_conjugated: bool,
    pub owner: Seq<char>,
}

impl View for PortInfo {
    type V = PortView;

    open spec fn view(&self) -> PortView {
        PortView {
            name: self.name@,
            type_ref: opt_view(self.type_ref),
            direction: self.direction,
            is_conjugated: self.is_conjugated,
            owner: self.owner@,
        }
    }
}

/// The text of a list of port entries.
pub open spec fn port_views(ps: Seq<PortInfo>) -> Seq<PortView> {
    ps.map_values(|p: PortInfo| p@)
}

/// The entry for a port usage (an owner-less port gets an empty owner).
pub open spec fn port_of(u: Usage) -> PortView {
    PortView {
        name: u.name@,
        type_ref: opt_view(u.type_ref),
        direction: u.direction,
        is_conjugated: u.is_conjugated,
        owner: match u.parent_def {
            Some(p) => p@,
            None => seq![],
        },
    }
}

/// The ports of a model: an entry per `port` usage, in model order.
pub open spec fn model_ports(model: Model) -> Seq<PortView> {
    collect(model.usages@, |u: Usage| if u.kind@ == "port"@ { seq![port_of(u)] } else { seq![] })
}

/// List all ports in the model with their owners.
pub fn list_ports(model: &Model) -> (r: Vec<PortInfo>)
    ensures
        port_views(r@) == model_ports(*model),
{
    let ghost f = |u: Usage| if u.kind@ == "port"@ { seq![port_of(u)] } else { seq![] };
    let mut r: Vec<PortInfo> = Vec::new();
    let mut i: usize = 0;
    while i < model.usages.len()
        invariant
            i <= model.usages@.len(),
            forall|x: Usage| #[trigger] f(x) == (if x.kind@ == "port"@ { seq![port_of(x)] } else { seq![] }),
            port_views(r@) == collect(model.usages@.take(i as int), f),
        decreases model.usages@.len() - i,
    {
        proof {
            lemma_collect_take(model.usages@, f, i as int);
        }
        let ghost pre = port_views(r@);
        let u = &model.usages[i];
        if str_eq(u.kind.as_str(), "port") {
            let p = PortInfo {
                name: u.name.clone(),
                type_ref: u.type_ref.clone(),
                direction: u.direction,
                is_conjugated: u.is_conjugated,
                owner: match &u.parent_def {
                    Some(o) => o.clone(),
                    None => String::new(),
                },
            };
            r.push(p);
            assert(port_views(r@) =~= pre + seq![port_of(*u)]);
        } else {
            assert(pre + seq![] =~= pre);
        }
        i = i + 1;
    }
    assert(model.usages@.take(model.usages@.len() as int) =~= model.usages@);
    proof {
        assert(f =~= |u: Usage| if u.kind@ == "port"@ { seq![port_of(u)] } else { seq![] });
    }
    r
}

/// The simple names of the ends of every connection.
pub open spec fn connected_names(model: Model) -> Seq<Seq<char>> {
    collect(
        model.connections@,
        |c: Connection| seq![simple_name_spec(c.source@), simple_name_spec(c.target@)],
    )
}

/// The ports that no connection end names.
pub open spec fn model_unconnected_ports(model: Model) -> Seq<PortView> {
    filter_seq(model_ports(model), |p: PortView| !connected_names(model).contains(p.name))
}

/// Ports that no connection references (by simple name).
pub fn unconnected_ports(model: &Model) -> (r: Vec<PortInfo>)
    ensures
        port_views(r@) == model_unconnected_ports(*model),
{
    let ghost fc = |c: Connection| seq![simple_name_spec(c.source@), simple_name_spec(c.target@)];
    let mut connected: Vec<&str> = Vec::new();
    let mut j: usize = 0;
    while j < model.connections.len()
        invariant
            j <= model.connections@.len(),
            forall|x: Connection| #[trigger] fc(x) == seq![simple_name_spec(x.source@), simple_name_spec(x.target@)],
            connected.deep_view() == collect(model.connections@.take(j as int), fc),
        decreases model.connections@.len() - j,
    {
        proof {
            lemma_collect_take(model.connections@, fc, j as int);
        }
        let ghost pre = connected.deep_view();
        let c = &model.connections[j];
        connected.push(simple_name(c.source.as_str()));
        connected.push(simple_name(c.target.as_str()));
        assert(connected.deep_view() =~= pre + fc(*c));
        j = j + 1;
    }
    assert(model.connections@.take(model.connections@.len() as int) =~= model.connections@);
    proof {
        assert(fc =~= |c: Connection| seq![simple_name_spec(c.source@), simple_name_spec(c.target@)]);
    }
    let ghost names = connected_names(*model);
    let ports = list_ports(model);
    let ghost pv = port_views(ports@);
    let ghost g = |p: PortView| !names.contains(p.name);
    let mut r: Vec<PortInfo> = Vec::new();
    for p in it: ports
        invariant
            pv == it.seq().map_values(|p: PortInfo| p@),
            names == connected.deep_view(),
            forall|x: PortView| #[trigger] g(x) == !names.contains(x.name),
            port_views(r@) == filter_seq(pv.take(it.index() as int), g),
    {
        proof {
            lemma_filter_take(pv, g, it.index() as int);
        }
        let ghost pre = port_views(r@);
        let listed = contains_str(&connected, p.name.as_str());
        proof {
            if listed {
                let k = choose|k: int| 0 <= k < connected@.len() && (#[trigger] connected@[k])@ == p.name@;
                assert(names[k] == p.name@);
            }
            if names.contains(p.name@) {
                let k = choose|k: int| 0 <= k < names.len() && names[k] == p.name@;
                assert(connected@[k]@ == names[k]);
            }
        }
        assert(pv[it.index() as int] == p@);
        if !listed {
            r.push(p);
            assert(port_views(r@) =~= pre.push(p@));
        }
    }
    assert(pv.take(pv.len() as int) =~= pv);
    proof {
        assert(g =~= |p: PortView| !connected_names(*model).contains(p.name));
    }
    r
}

} // verus!
