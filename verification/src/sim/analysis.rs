//! Analysis cases: their subject, objective, parameters, return
//! declaration, local bindings and trade-study alternatives, read from a
//! parsed model, and a text summary of them.
use vstd::prelude::*;
use crate::cache::{filter_seq, lemma_filter_take};
use crate::model::{
    collect, lemma_collect_take, opt_view, simple_name, simple_name_spec, DefKind, Definition,
    Direction, Model, Span, Usage,
};
use crate::qualified_name::join_with;
use crate::text::{chars_of, contains, contains_exec, own, push_str, str_eq};

verus! {

/// An analysis case with its parts.
#[derive(Debug, Clone)]
pub struct AnalysisCaseModel {
    /// Name of the analysis case definition or usage.
    pub name: String,
    /// The subject (the part being analysed).
    pub subject: Option<SubjectDecl>,
    /// The objective.
    pub objective: Option<ObjectiveDecl>,
    /// Input and output parameters.
    pub parameters: Vec<Parameter>,
    /// The returned result.
    pub return_decl: Option<ReturnDecl>,
    /// Intermediate calculations.
    pub local_bindings: Vec<LocalBinding>,
    /// Trade-study alternatives: the parts inside the case.
    pub alternatives: Vec<Alternative>,
    /// Span in source.
    pub span: Span,
}

/// The subject declaration.
#[derive(Debug, Clone)]
pub struct SubjectDecl {
    pub name: String,
    pub type_ref: Option<String>,
    pub value_binding: Option<String>,
}

/// The objective declaration.
#[derive(Debug, Clone)]
pub struct ObjectiveDecl {
    pub name: String,
    pub kind: ObjectiveKind,
    pub doc: Option<String>,
}

/// What an objective asks of the evaluation function.
#[derive(Debug, Clone, Copy, PartialEq, Eq, Structural)]
pub enum ObjectiveKind {
    /// No maximize or minimize.
    General,
    /// Maximize the evaluation function.
    Maximize,
    /// Minimize the evaluation function.
    Minimize,
}

/// An input or output parameter.
#[derive(Debug, Clone)]
pub struct Parameter {
    pub name: String,
    pub type_ref: Option<String>,
    pub direction: ParameterDirection,
}

/// The direction of a parameter.
#[derive(Debug, Clone, Copy, PartialEq, Eq, Structural)]
pub enum ParameterDirection {
    In,
    Out,
    InOut,
}

/// The return declaration.
#[derive(Debug, Clone)]
pub struct ReturnDecl {
    pub name: String,
    pub type_ref: Option<String>,
    pub value_expr: Option<String>,
}

/// A local attribute bound to an expression.
#[derive(Debug, Clone)]
pub struct LocalBinding {
    pub name: String,
    pub type_ref: Option<String>,
    pub value_expr: String,
}

/// A trade-study alternative.
#[derive(Debug, Clone)]
pub struct Alternative {
    pub name: String,
    pub type_ref: Option<String>,
    /// Attribute overrides within this alternative: `(name, value)`.
    pub overrides: Vec<(String, String)>,
}

/// The part a usage plays inside an analysis case, by its keyword.
#[derive(Debug, Clone, Copy, PartialEq, Eq, Structural)]
pub enum CaseRole {
    Subject,
    Objective,
    Return,
    Attribute,
    Part,
    Other,
}

/// The role of a usage keyword: `subject`, `objective`, `return`,
/// `attribute` or `feature`, `part`, or something else.
pub open spec fn role_of(k: Seq<char>) -> CaseRole {
    if k == "subject"@ {
        CaseRole::Subject
    } else if k == "objective"@ {
        CaseRole::Objective
    } else if k == "return"@ {
        CaseRole::Return
    } else if k == "attribute"@ || k == "feature"@ {
        CaseRole::Attribute
    } else if k == "part"@ {
        CaseRole::Part
    } else {
        CaseRole::Other
    }
}

/// The role of a usage keyword.
fn role(k: &str) -> (r: CaseRole)
    ensures
        r == role_of(k@),
{
    if str_eq(k, "subject") {
        CaseRole::Subject
    } else if str_eq(k, "objective") {
        CaseRole::Objective
    } else if str_eq(k, "return") {
        CaseRole::Return
    } else if str_eq(k, "attribute") || str_eq(k, "feature") {
        CaseRole::Attribute
    } else if str_eq(k, "part") {
        CaseRole::Part
    } else {
        CaseRole::Other
    }
}

/// A parameter as text: name, type, direction.
pub type ParameterView = (Seq<char>, Option<Seq<char>>, ParameterDirection);

/// A local binding as text: name, type, expression.
pub type BindingView = (Seq<char>, Option<Seq<char>>, Seq<char>);

/// An alternative as text: name, type, overrides.
pub type AlternativeView = (Seq<char>, Option<Seq<char>>, Seq<(Seq<char>, Seq<char>)>);

/// The text of parameters.
pub open spec fn parameter_views(ps: Seq<Parameter>) -> Seq<ParameterView> {
    ps.map_values(|p: Parameter| (p.name@, opt_view(p.type_ref), p.direction))
}

/// The text of local bindings.
pub open spec fn binding_views(bs: Seq<LocalBinding>) -> Seq<BindingView> {
    bs.map_values(|b: LocalBinding| (b.name@, opt_view(b.type_ref), b.value_expr@))
}

/// The text of string pairs.
pub open spec fn pair_views(ps: Seq<(String, String)>) -> Seq<(Seq<char>, Seq<char>)> {
    ps.map_values(|p: (String, String)| (p.0@, p.1@))
}

/// The text of alternatives.
pub open spec fn alternative_views(alts: Seq<Alternative>) -> Seq<AlternativeView> {
    alts.map_values(|a: Alternative| (a.name@, opt_view(a.type_ref), pair_views(a.overrides@)))
}

/// The usages directly inside the element named `name`.
pub open spec fn children_of(model: Model, name: Seq<char>) -> Seq<Usage> {
    filter_seq(model.usages@, |u: Usage| opt_view(u.parent_def) == Some(name))
}

/// The last of `us` whose keyword has role `kind`.
pub open spec fn last_of_kind(us: Seq<Usage>, kind: CaseRole) -> Option<Usage>
    decreases us.len(),
{
    if us.len() == 0 {
        None
    } else if role_of(us.last().kind@) == kind {
        Some(us.last())
    } else {
        last_of_kind(us.drop_last(), kind)
    }
}

/// The direction of a parameter with a port-like direction.
pub open spec fn param_direction(d: Direction) -> ParameterDirection {
    match d {
        Direction::In => ParameterDirection::In,
        Direction::Out => ParameterDirection::Out,
        Direction::InOut => ParameterDirection::InOut,
    }
}

/// An attribute or feature usage.
pub open spec fn is_attribute(u: Usage) -> bool {
    role_of(u.kind@) == CaseRole::Attribute
}

/// The parameter an attribute with a direction declares.
pub open spec fn parameter_of(u: Usage) -> Seq<ParameterView> {
    match u.direction {
        Some(d) => if is_attribute(u) {
            seq![(u.name@, opt_view(u.type_ref), param_direction(d))]
        } else {
            seq![]
        },
        None => seq![],
    }
}

/// The local binding an attribute without a direction but with a value declares.
pub open spec fn binding_of(u: Usage) -> Seq<BindingView> {
    match (u.direction, u.value_expr) {
        (None, Some(v)) => if is_attribute(u) {
            seq![(u.name@, opt_view(u.type_ref), v@)]
        } else {
            seq![]
        },
        _ => seq![],
    }
}

/// The attribute overrides inside the alternative `alt`: each usage in it
/// with a value.
pub open spec fn overrides_of(model: Model, alt: Seq<char>) -> Seq<(Seq<char>, Seq<char>)> {
    collect(
        model.usages@,
        |u: Usage|
            if opt_view(u.parent_def) == Some(alt) {
                match u.value_expr {
                    Some(v) => seq![(u.name@, v@)],
                    None => seq![],
                }
            } else {
                seq![]
            },
    )
}

/// The alternative a part usage declares.
pub open spec fn alternative_of(model: Model, u: Usage) -> Seq<AlternativeView> {
    if role_of(u.kind@) == CaseRole::Part {
        seq![(u.name@, opt_view(u.type_ref), overrides_of(model, u.name@))]
    } else {
        seq![]
    }
}

/// The objective kind named by a type: maximize or minimize by its simple name.
pub open spec fn objective_kind_of(type_ref: Option<String>) -> ObjectiveKind {
    match type_ref {
        Some(t) => if contains(simple_name_spec(t@), "Maximize"@) {
            ObjectiveKind::Maximize
        } else if contains(simple_name_spec(t@), "Minimize"@) {
            ObjectiveKind::Minimize
        } else {
            ObjectiveKind::General
        },
        None => ObjectiveKind::General,
    }
}

/// The kind of an objective usage, from its type.
fn detect_objective_kind(usage: &Usage) -> (r: ObjectiveKind)
    ensures
        r == objective_kind_of(usage.type_ref),
{
    match &usage.type_ref {
        Some(tr) => {
            let simple = chars_of(simple_name(tr.as_str()));
            let max = chars_of("Maximize");
            let min = chars_of("Minimize");
            if contains_exec(&simple, &max) {
                ObjectiveKind::Maximize
            } else if contains_exec(&simple, &min) {
                ObjectiveKind::Minimize
            } else {
                ObjectiveKind::General
            }
        },
        None => ObjectiveKind::General,
    }
}

/// The attribute overrides inside the alternative `alt_name`.
fn collect_overrides(model: &Model, alt_name: &str) -> (r: Vec<(String, String)>)
    ensures
        pair_views(r@) == overrides_of(*model, alt_name@),
{
    let ghost f = |u: Usage|
        if opt_view(u.parent_def) == Some(alt_name@) {
            match u.value_expr {
                Some(v) => seq![(u.name@, v@)],
                None => seq![],
            }
        } else {
            seq![]
        };
    let mut overrides: Vec<(String, String)> = Vec::new();
    let mut i: usize = 0;
    while i < model.usages.len()
        invariant
            i <= model.usages@.len(),
            forall|x: Usage| #[trigger] f(x) == (if opt_view(x.parent_def) == Some(alt_name@) {
                match x.value_expr {
                    Some(v) => seq![(x.name@, v@)],
                    None => seq![],
                }
            } else {
                seq![]
            }),
            pair_views(overrides@) == collect(model.usages@.take(i as int), f),
        decreases model.usages@.len() - i,
    {
        proof {
            lemma_collect_take(model.usages@, f, i as int);
        }
        let ghost pre = pair_views(overrides@);
        let u = &model.usages[i];
        let in_alt = match &u.parent_def {
            Some(p) => str_eq(p.as_str(), alt_name),
            None => false,
        };
        if in_alt {
            match &u.value_expr {
                Some(val) => {
                    overrides.push((u.name.clone(), val.clone()));
                },
                None => {},
            }
        }
        assert(pair_views(overrides@) =~= pre + f(*u));
        i = i + 1;
    }
    assert(model.usages@.take(model.usages@.len() as int) =~= model.usages@);
    proof {
        assert(f =~= |u: Usage|
            if opt_view(u.parent_def) == Some(alt_name@) {
                match u.value_expr {
                    Some(v) => seq![(u.name@, v@)],
                    None => seq![],
                }
            } else {
                seq![]
            });
    }
    overrides
}

/// The analysis case named `name` with span `span`, read from the usages
/// directly inside it: the last subject, objective and return usages, a
/// parameter per directed attribute, a local binding per undirected
/// attribute with a value, and an alternative per part.
pub open spec fn case_matches(model: Model, name: Seq<char>, span: Span, c: AnalysisCaseModel) -> bool {
    let ch = children_of(model, name);
    &&& c.name@ == name
    &&& c.span == span
    &&& match (c.subject, last_of_kind(ch, CaseRole::Subject)) {
        (Some(s), Some(u)) => s.name@ == u.name@ && opt_view(s.type_ref) == opt_view(u.type_ref)
            && opt_view(s.value_binding) == opt_view(u.value_expr),
        (None, None) => true,
        _ => false,
    }
    &&& match (c.objective, last_of_kind(ch, CaseRole::Objective)) {
        (Some(o), Some(u)) => o.name@ == u.name@ && o.kind == objective_kind_of(u.type_ref)
            && o.doc is None,
        (None, None) => true,
        _ => false,
    }
    &&& match (c.return_decl, last_of_kind(ch, CaseRole::Return)) {
        (Some(r), Some(u)) => r.name@ == u.name@ && opt_view(r.type_ref) == opt_view(u.type_ref)
            && opt_view(r.value_expr) == opt_view(u.value_expr),
        (None, None) => true,
        _ => false,
    }
    &&& parameter_views(c.parameters@) == collect(ch, |u: Usage| parameter_of(u))
    &&& binding_views(c.local_bindings@) == collect(ch, |u: Usage| binding_of(u))
    &&& alternative_views(c.alternatives@) == collect(ch, |u: Usage| alternative_of(model, u))
}

/// Collecting over a sequence extended by one element.
proof fn lemma_collect_push<T, U>(s: Seq<T>, f: spec_fn(T) -> Seq<U>, x: T)
    ensures
        collect(s.push(x), f) == collect(s, f) + f(x),
{
    assert(s.push(x).drop_last() =~= s);
}

/// Read the analysis case named `name` (with span `span`) from the usages
/// directly inside it.
fn build_analysis_case(model: &Model, name: &str, span: &Span) -> (r: AnalysisCaseModel)
    ensures
        case_matches(*model, name@, *span, r),
{
    let ghost fc = |u: Usage| opt_view(u.parent_def) == Some(name@);
    let ghost gp = |u: Usage| parameter_of(u);
    let ghost gb = |u: Usage| binding_of(u);
    let ghost ga = |u: Usage| alternative_of(*model, u);
    let mut subject: Option<SubjectDecl> = None;
    let mut objective: Option<ObjectiveDecl> = None;
    let mut parameters: Vec<Parameter> = Vec::new();
    let mut return_decl: Option<ReturnDecl> = None;
    let mut local_bindings: Vec<LocalBinding> = Vec::new();
    let mut alternatives: Vec<Alternative> = Vec::new();
    let mut i: usize = 0;
    while i < model.usages.len()
        invariant
            i <= model.usages@.len(),
            forall|x: Usage| #[trigger] fc(x) == (opt_view(x.parent_def) == Some(name@)),
            forall|x: Usage| #[trigger] gp(x) == parameter_of(x),
            forall|x: Usage| #[trigger] gb(x) == binding_of(x),
            forall|x: Usage| #[trigger] ga(x) == alternative_of(*model, x),
            match (subject, last_of_kind(filter_seq(model.usages@.take(i as int), fc), CaseRole::Subject)) {
                (Some(s), Some(u)) => s.name@ == u.name@ && opt_view(s.type_ref) == opt_view(u.type_ref)
                    && opt_view(s.value_binding) == opt_view(u.value_expr),
                (None, None) => true,
                _ => false,
            },
            match (objective, last_of_kind(filter_seq(model.usages@.take(i as int), fc), CaseRole::Objective)) {
                (Some(o), Some(u)) => o.name@ == u.name@ && o.kind == objective_kind_of(u.type_ref)
                    && o.doc is None,
                (None, None) => true,
                _ => false,
            },
            match (return_decl, last_of_kind(filter_seq(model.usages@.take(i as int), fc), CaseRole::Return)) {
                (Some(r), Some(u)) => r.name@ == u.name@ && opt_view(r.type_ref) == opt_view(u.type_ref)
                    && opt_view(r.value_expr) == opt_view(u.value_expr),
                (None, None) => true,
                _ => false,
            },
            parameter_views(parameters@) == collect(filter_seq(model.usages@.take(i as int), fc), gp),
            binding_views(local_bindings@) == collect(filter_seq(model.usages@.take(i as int), fc), gb),
            alternative_views(alternatives@) == collect(filter_seq(model.usages@.take(i as int), fc), ga),
        decreases model.usages@.len() - i,
    {
        proof {
            lemma_filter_take(model.usages@, fc, i as int);
        }
        let ghost ch = filter_seq(model.usages@.take(i as int), fc);
        let ghost pv = parameter_views(parameters@);
        let ghost bv = binding_views(local_bindings@);
        let ghost av = alternative_views(alternatives@);
        let usage = &model.usages[i];
        let in_case = match &usage.parent_def {
            Some(p) => str_eq(p.as_str(), name),
            None => false,
        };
        if in_case {
            proof {
                assert(ch + seq![*usage] =~= ch.push(*usage));
                assert(ch.push(*usage).drop_last() =~= ch);
                lemma_collect_push(ch, gp, *usage);
                lemma_collect_push(ch, gb, *usage);
                lemma_collect_push(ch, ga, *usage);
            }
            let r = role(usage.kind.as_str());
            if r == CaseRole::Attribute {
                match &usage.direction {
                    Some(dir) => {
                        let pd = match dir {
                            Direction::In => ParameterDirection::In,
                            Direction::Out => ParameterDirection::Out,
                            Direction::InOut => ParameterDirection::InOut,
                        };
                        let p = Parameter {
                            name: usage.name.clone(),
                            type_ref: usage.type_ref.clone(),
                            direction: pd,
                        };
                        parameters.push(p);
                        assert(parameter_views(parameters@) =~= pv + gp(*usage));
                    },
                    None => {
                        match &usage.value_expr {
                            Some(expr) => {
                                let b = LocalBinding {
                                    name: usage.name.clone(),
                                    type_ref: usage.type_ref.clone(),
                                    value_expr: expr.clone(),
                                };
                                local_bindings.push(b);
                                assert(binding_views(local_bindings@) =~= bv + gb(*usage));
                            },
                            None => {},
                        }
                    },
                }
            } else if r == CaseRole::Subject {
                subject = Some(SubjectDecl {
                    name: usage.name.clone(),
                    type_ref: usage.type_ref.clone(),
                    value_binding: usage.value_expr.clone(),
                });
            } else if r == CaseRole::Objective {
                let kind = detect_objective_kind(usage);
                objective = Some(ObjectiveDecl { name: usage.name.clone(), kind, doc: None });
            } else if r == CaseRole::Return {
                return_decl = Some(ReturnDecl {
                    name: usage.name.clone(),
                    type_ref: usage.type_ref.clone(),
                    value_expr: usage.value_expr.clone(),
                });
            } else if r == CaseRole::Part {
                let a = Alternative {
                    name: usage.name.clone(),
                    type_ref: usage.type_ref.clone(),
                    overrides: collect_overrides(model, usage.name.as_str()),
                };
                alternatives.push(a);
                assert(alternative_views(alternatives@) =~= av + ga(*usage));
            }
            assert(parameter_views(parameters@) =~= pv + gp(*usage));
            assert(binding_views(local_bindings@) =~= bv + gb(*usage));
            assert(alternative_views(alternatives@) =~= av + ga(*usage));
        } else {
            assert(ch + seq![] =~= ch);
        }
        i = i + 1;
    }
    assert(model.usages@.take(model.usages@.len() as int) =~= model.usages@);
    proof {
        assert(fc =~= |u: Usage| opt_view(u.parent_def) == Some(name@));
        assert(gp =~= |u: Usage| parameter_of(u));
        assert(gb =~= |u: Usage| binding_of(u));
        assert(ga =~= |u: Usage| alternative_of(*model, u));
    }
    AnalysisCaseModel {
        name: own(name),
        subject,
        objective,
        parameters,
        return_decl,
        local_bindings,
        alternatives,
        span: *span,
    }
}

/// The analysis cases of a model: a case per analysis definition, then a
/// case per analysis usage, each in model order.
pub open spec fn case_sources(model: Model) -> Seq<(Seq<char>, Span)> {
    collect(
        model.definitions@,
        |d: Definition| if d.kind == DefKind::Analysis { seq![(d.name@, d.span)] } else { seq![] },
    ) + collect(
        model.usages@,
        |u: Usage| if u.kind@ == "analysis"@ { seq![(u.name@, u.span)] } else { seq![] },
    )
}

/// Read the analysis cases of a parsed model: one per analysis definition,
/// then one per analysis usage.
pub fn extract_analysis_cases_from_model(model: &Model) -> (r: Vec<AnalysisCaseModel>)
    ensures
        r@.len() == case_sources(*model).len(),
        forall|i: int| 0 <= i < r@.len() ==> case_matches(*model, case_sources(*model)[i].0, case_sources(*model)[i].1, #[trigger] r@[i]),
{
    let ghost fd = |d: Definition| if d.kind == DefKind::Analysis { seq![(d.name@, d.span)] } else { seq![] };
    let ghost fu = |u: Usage| if u.kind@ == "analysis"@ { seq![(u.name@, u.span)] } else { seq![] };
    let mut cases: Vec<AnalysisCaseModel> = Vec::new();
    let mut i: usize = 0;
    while i < model.definitions.len()
        invariant
            i <= model.definitions@.len(),
            forall|x: Definition| #[trigger] fd(x) == (if x.kind == DefKind::Analysis { seq![(x.name@, x.span)] } else { seq![] }),
            cases@.len() == collect(model.definitions@.take(i as int), fd).len(),
            forall|k: int| 0 <= k < cases@.len() ==> case_matches(*model, collect(model.definitions@.take(i as int), fd)[k].0, collect(model.definitions@.take(i as int), fd)[k].1, #[trigger] cases@[k]),
        decreases model.definitions@.len() - i,
    {
        proof {
            lemma_collect_take(model.definitions@, fd, i as int);
        }
        let def = &model.definitions[i];
        if def.kind == DefKind::Analysis {
            let c = build_analysis_case(model, def.name.as_str(), &def.span);
            cases.push(c);
        }
        i = i + 1;
    }
    assert(model.definitions@.take(model.definitions@.len() as int) =~= model.definitions@);
    let ghost d_part = collect(model.definitions@, fd);
    let mut i: usize = 0;
    while i < model.usages.len()
        invariant
            i <= model.usages@.len(),
            forall|x: Usage| #[trigger] fu(x) == (if x.kind@ == "analysis"@ { seq![(x.name@, x.span)] } else { seq![] }),
            cases@.len() == d_part.len() + collect(model.usages@.take(i as int), fu).len(),
            forall|k: int| 0 <= k < cases@.len() ==> case_matches(*model, (d_part + collect(model.usages@.take(i as int), fu))[k].0, (d_part + collect(model.usages@.take(i as int), fu))[k].1, #[trigger] cases@[k]),
        decreases model.usages@.len() - i,
    {
        proof {
            lemma_collect_take(model.usages@, fu, i as int);
            assert(d_part + collect(model.usages@.take(i + 1), fu) =~= d_part + collect(model.usages@.take(i as int), fu) + fu(model.usages@[i as int]));
        }
        let u = &model.usages[i];
        if str_eq(u.kind.as_str(), "analysis") {
            let c = build_analysis_case(model, u.name.as_str(), &u.span);
            cases.push(c);
        }
        i = i + 1;
    }
    assert(model.usages@.take(model.usages@.len() as int) =~= model.usages@);
    proof {
        assert(fd =~= |d: Definition| if d.kind == DefKind::Analysis { seq![(d.name@, d.span)] } else { seq![] });
        assert(fu =~= |u: Usage| if u.kind@ == "analysis"@ { seq![(u.name@, u.span)] } else { seq![] });
    }
    cases
}

/// `sep text` for an optional text.
pub open spec fn opt_suffix(sep: Seq<char>, o: Option<String>) -> Seq<char> {
    match o {
        Some(t) => sep + t@,
        None => seq![],
    }
}

/// The marker of an objective kind.
pub open spec fn objective_marker(k: ObjectiveKind) -> Seq<char> {
    match k {
        ObjectiveKind::General => ""@,
        ObjectiveKind::Maximize => " [maximize]"@,
        ObjectiveKind::Minimize => " [minimize]"@,
    }
}

/// The keyword of a parameter direction.
pub open spec fn direction_word(d: ParameterDirection) -> Seq<char> {
    match d {
        ParameterDirection::In => "in"@,
        ParameterDirection::Out => "out"@,
        ParameterDirection::InOut => "inout"@,
    }
}

/// The summary line of a parameter.
pub open spec fn parameter_line(p: Parameter) -> Seq<char> {
    "  "@ + direction_word(p.direction) + " "@ + p.name@ + " "@ + opt_suffix(": "@, p.type_ref) + "\n"@
}

/// The summary line of a local binding.
pub open spec fn binding_line(b: LocalBinding) -> Seq<char> {
    "  "@ + b.name@ + " = "@ + b.value_expr@ + "\n"@
}

/// The first lines of a case summary: name, subject and objective.
pub open spec fn case_head(c: AnalysisCaseModel) -> Seq<char> {
    "analysis "@ + c.name@ + (match c.subject {
        Some(s) => " (subject: "@ + s.name@ + opt_suffix(" : "@, s.type_ref) + ")"@,
        None => seq![],
    }) + "\n"@ + (match c.objective {
        Some(o) => "  objective: "@ + o.name@ + objective_marker(o.kind) + "\n"@,
        None => seq![],
    })
}

/// The return line of a case summary.
pub open spec fn return_text(c: AnalysisCaseModel) -> Seq<char> {
    match c.return_decl {
        Some(r) => "  return "@ + r.name@ + opt_suffix(" : "@, r.type_ref) + opt_suffix(" = "@, r.value_expr) + "\n"@,
        None => seq![],
    }
}

/// The alternatives line of a case summary.
pub open spec fn alternatives_text(c: AnalysisCaseModel) -> Seq<char> {
    if c.alternatives@.len() > 0 {
        "  alternatives: "@ + join_with(c.alternatives@.map_values(|a: Alternative| a.name@), ", "@) + "\n"@
    } else {
        seq![]
    }
}

/// The summary of one analysis case.
pub open spec fn case_text(c: AnalysisCaseModel) -> Seq<char> {
    case_head(c) + collect(c.parameters@, |p: Parameter| parameter_line(p)) + return_text(c)
        + alternatives_text(c) + collect(c.local_bindings@, |b: LocalBinding| binding_line(b))
}

/// The summary of a list of analysis cases.
pub open spec fn cases_text(cases: Seq<AnalysisCaseModel>) -> Seq<char> {
    if cases.len() == 0 {
        "No analysis cases found."@
    } else {
        collect(cases, |c: AnalysisCaseModel| case_text(c))
    }
}

/// Appends `sep text` for an optional text.
fn push_opt_suffix(out: &mut String, sep: &str, o: &Option<String>)
    ensures
        final(out)@ == old(out)@ + opt_suffix(sep@, *o),
{
    match o {
        Some(t) => {
            push_str(out, sep);
            push_str(out, t.as_str());
        },
        None => {},
    }
    assert(out@ =~= old(out)@ + opt_suffix(sep@, *o));
}

/// Appends the first lines of a case summary.
fn push_case_head(out: &mut String, c: &AnalysisCaseModel)
    ensures
        final(out)@ == old(out)@ + case_head(*c),
{
    push_str(out, "analysis ");
    push_str(out, c.name.as_str());
    match &c.subject {
        Some(subj) => {
            push_str(out, " (subject: ");
            push_str(out, subj.name.as_str());
            push_opt_suffix(out, " : ", &subj.type_ref);
            push_str(out, ")");
        },
        None => {},
    }
    push_str(out, "\n");
    match &c.objective {
        Some(obj) => {
            push_str(out, "  objective: ");
            push_str(out, obj.name.as_str());
            match obj.kind {
                ObjectiveKind::General => push_str(out, ""),
                ObjectiveKind::Maximize => push_str(out, " [maximize]"),
                ObjectiveKind::Minimize => push_str(out, " [minimize]"),
            }
            push_str(out, "\n");
        },
        None => {},
    }
    assert(out@ =~= old(out)@ + case_head(*c));
}

/// Appends the parameter lines of a case summary.
fn push_parameters(out: &mut String, c: &AnalysisCaseModel)
    ensures
        final(out)@ == old(out)@ + collect(c.parameters@, |p: Parameter| parameter_line(p)),
{
    let ghost fp = |p: Parameter| parameter_line(p);
    let mut i: usize = 0;
    while i < c.parameters.len()
        invariant
            i <= c.parameters@.len(),
            forall|x: Parameter| #[trigger] fp(x) == parameter_line(x),
            out@ == old(out)@ + collect(c.parameters@.take(i as int), fp),
        decreases c.parameters@.len() - i,
    {
        proof {
            lemma_collect_take(c.parameters@, fp, i as int);
        }
        let param = &c.parameters[i];
        push_str(out, "  ");
        match param.direction {
            ParameterDirection::In => push_str(out, "in"),
            ParameterDirection::Out => push_str(out, "out"),
            ParameterDirection::InOut => push_str(out, "inout"),
        }
        push_str(out, " ");
        push_str(out, param.name.as_str());
        push_str(out, " ");
        push_opt_suffix(out, ": ", &param.type_ref);
        push_str(out, "\n");
        assert(out@ =~= old(out)@ + collect(c.parameters@.take(i + 1), fp));
        i = i + 1;
    }
    assert(c.parameters@.take(c.parameters@.len() as int) =~= c.parameters@);
    proof {
        assert(fp =~= |p: Parameter| parameter_line(p));
    }
}

/// Appends the return line of a case summary.
fn push_return(out: &mut String, c: &AnalysisCaseModel)
    ensures
        final(out)@ == old(out)@ + return_text(*c),
{
    match &c.return_decl {
        Some(ret) => {
            push_str(out, "  return ");
            push_str(out, ret.name.as_str());
            push_opt_suffix(out, " : ", &ret.type_ref);
            push_opt_suffix(out, " = ", &ret.value_expr);
            push_str(out, "\n");
        },
        None => {},
    }
    assert(out@ =~= old(out)@ + return_text(*c));
}

/// Appends the alternatives line of a case summary.
fn push_alternatives(out: &mut String, c: &AnalysisCaseModel)
    ensures
        final(out)@ == old(out)@ + alternatives_text(*c),
{
    if c.alternatives.len() > 0 {
        push_str(out, "  alternatives: ");
        let ghost names = c.alternatives@.map_values(|a: Alternative| a.name@);
        let ghost h3 = out@;
        let mut k: usize = 0;
        while k < c.alternatives.len()
            invariant
                k <= c.alternatives@.len(),
                names == c.alternatives@.map_values(|a: Alternative| a.name@),
                out@ == h3 + join_with(names.take(k as int), ", "@),
            decreases c.alternatives@.len() - k,
        {
            if k > 0 {
                push_str(out, ", ");
            }
            push_str(out, c.alternatives[k].name.as_str());
            proof {
                if k == 0 {
                    assert(names.take(1) =~= seq![names[0]]);
                    assert(names.take(0) =~= seq![]);
                } else {
                    assert(names.take(k + 1).drop_last() =~= names.take(k as int));
                }
            }
            assert(out@ =~= h3 + join_with(names.take(k + 1), ", "@));
            k = k + 1;
        }
        assert(names.take(names.len() as int) =~= names);
        push_str(out, "\n");
    }
    assert(out@ =~= old(out)@ + alternatives_text(*c));
}

/// Appends the local binding lines of a case summary.
fn push_bindings(out: &mut String, c: &AnalysisCaseModel)
    ensures
        final(out)@ == old(out)@ + collect(c.local_bindings@, |b: LocalBinding| binding_line(b)),
{
    let ghost fb = |b: LocalBinding| binding_line(b);
    let mut i: usize = 0;
    while i < c.local_bindings.len()
        invariant
            i <= c.local_bindings@.len(),
            forall|x: LocalBinding| #[trigger] fb(x) == binding_line(x),
            out@ == old(out)@ + collect(c.local_bindings@.take(i as int), fb),
        decreases c.local_bindings@.len() - i,
    {
        proof {
            lemma_collect_take(c.local_bindings@, fb, i as int);
        }
        let b = &c.local_bindings[i];
        push_str(out, "  ");
        push_str(out, b.name.as_str());
        push_str(out, " = ");
        push_str(out, b.value_expr.as_str());
        push_str(out, "\n");
        assert(out@ =~= old(out)@ + collect(c.local_bindings@.take(i + 1), fb));
        i = i + 1;
    }
    assert(c.local_bindings@.take(c.local_bindings@.len() as int) =~= c.local_bindings@);
    proof {
        assert(fb =~= |b: LocalBinding| binding_line(b));
    }
}

/// Appends the summary of one case.
fn push_case_text(out: &mut String, c: &AnalysisCaseModel)
    ensures
        final(out)@ == old(out)@ + case_text(*c),
{
    push_case_head(out, c);
    push_parameters(out, c);
    push_return(out, c);
    push_alternatives(out, c);
    push_bindings(out, c);
    assert(out@ =~= old(out)@ + case_text(*c));
}

/// A summary of analysis cases: per case its name and subject, objective,
/// parameters, return, alternatives and local bindings.
pub fn format_analysis_list(cases: &[AnalysisCaseModel]) -> (r: String)
    ensures
        r@ == cases_text(cases@),
{
    if cases.len() == 0 {
        return own("No analysis cases found.");
    }
    let ghost f = |c: AnalysisCaseModel| case_text(c);
    let mut out = String::new();
    let mut i: usize = 0;
    while i < cases.len()
        invariant
            i <= cases@.len(),
            forall|x: AnalysisCaseModel| #[trigger] f(x) == case_text(x),
            out@ == collect(cases@.take(i as int), f),
        decreases cases@.len() - i,
    {
        proof {
            lemma_collect_take(cases@, f, i as int);
        }
        push_case_text(&mut out, &cases[i]);
        i = i + 1;
    }
    assert(cases@.take(cases@.len() as int) =~= cases@);
    proof {
        assert(f =~= |c: AnalysisCaseModel| case_text(c));
    }
    out
}

} // verus!
