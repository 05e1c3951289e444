//! Model types for the structural elements of a SysML v2 model, in a form
//! suitable for running validation checks, queries and generators.
use vstd::prelude::*;
use crate::qualified_name::{clone_strings, QualifiedName};
use crate::text::{chars_of, own, str_eq};

verus! {

/// A source region: 1-based rows and columns, 0-based byte offsets.
#[derive(Debug, Clone, Copy, Default)]
pub struct Span {
    pub start_row: usize,
    pub start_col: usize,
    pub end_row: usize,
    pub end_col: usize,
    pub start_byte: usize,
    pub end_byte: usize,
}

impl Span {
    /// An empty span at the start of the file.
    pub fn empty() -> (r: Span)
        ensures
            r.start_row == 0 && r.start_col == 0 && r.end_row == 0 && r.end_col == 0
                && r.start_byte == 0 && r.end_byte == 0,
    {
        Span { start_row: 0, start_col: 0, end_row: 0, end_col: 0, start_byte: 0, end_byte: 0 }
    }

    /// Returns true if `other` is fully contained within this span.
    pub fn contains(&self, other: &Span) -> (r: bool)
        ensures
            r == (self.start_byte <= other.start_byte && other.end_byte <= self.end_byte),
    {
        self.start_byte <= other.start_byte && other.end_byte <= self.end_byte
    }
}

/// The kind of a definition.
#[derive(Debug, Clone, Copy, PartialEq, Eq, Hash, Structural)]
pub enum DefKind {
    Part,
    Port,
    Connection,
    Interface,
    Flow,
    Action,
    State,
    Constraint,
    Calc,
    Requirement,
    UseCase,
    Verification,
    Analysis,
    Concern,
    View,
    Viewpoint,
    Rendering,
    Enum,
    Attribute,
    Item,
    Allocation,
    Occurrence,
    Package,
    Class,
    Struct,
    Assoc,
    Behavior,
    Datatype,
    Feature,
    Function,
    Interaction,
    Connector,
    Predicate,
    Namespace,
    Type,
    Classifier,
    Metaclass,
    Expr,
    Step,
    Metadata,
    Annotation,
}

/// The keyword text of a definition kind.
pub open spec fn def_kind_label(k: DefKind) -> Seq<char> {
    match k {
        DefKind::Part => "part def"@,
        DefKind::Port => "port def"@,
        DefKind::Connection => "connection def"@,
        DefKind::Interface => "interface def"@,
        DefKind::Flow => "flow def"@,
        DefKind::Action => "action def"@,
        DefKind::State => "state def"@,
        DefKind::Constraint => "constraint def"@,
        DefKind::Calc => "calc def"@,
        DefKind::Requirement => "requirement def"@,
        DefKind::UseCase => "use case def"@,
        DefKind::Verification => "verification def"@,
        DefKind::Analysis => "analysis def"@,
        DefKind::Concern => "concern def"@,
        DefKind::View => "view def"@,
        DefKind::Viewpoint => "viewpoint def"@,
        DefKind::Rendering => "rendering def"@,
        DefKind::Enum => "enum def"@,
        DefKind::Attribute => "attribute def"@,
        DefKind::Item => "item def"@,
        DefKind::Allocation => "allocation def"@,
        DefKind::Occurrence => "occurrence def"@,
        DefKind::Package => "package"@,
        DefKind::Class => "class"@,
        DefKind::Struct => "struct"@,
        DefKind::Assoc => "assoc"@,
        DefKind::Behavior => "behavior"@,
        DefKind::Datatype => "datatype"@,
        DefKind::Feature => "feature"@,
        DefKind::Function => "function"@,
        DefKind::Interaction => "interaction"@,
        DefKind::Connector => "connector"@,
        DefKind::Predicate => "predicate"@,
        DefKind::Namespace => "namespace"@,
        DefKind::Type => "type"@,
        DefKind::Classifier => "classifier"@,
        DefKind::Metaclass => "metaclass"@,
        DefKind::Expr => "expr"@,
        DefKind::Step => "step"@,
        DefKind::Metadata => "metadata def"@,
        DefKind::Annotation => "annotation"@,
    }
}

impl DefKind {
    /// The keyword text of this kind, e.g. `part def`.
    pub fn label(&self) -> (r: &'static str)
        ensures
            r@ == def_kind_label(*self),
    {
        match self {
            DefKind::Part => "part def",
            DefKind::Port => "port def",
            DefKind::Connection => "connection def",
            DefKind::Interface => "interface def",
            DefKind::Flow => "flow def",
            DefKind::Action => "action def",
            DefKind::State => "state def",
            DefKind::Constraint => "constraint def",
            DefKind::Calc => "calc def",
            DefKind::Requirement => "requirement def",
            DefKind::UseCase => "use case def",
            DefKind::Verification => "verification def",
            DefKind::Analysis => "analysis def",
            DefKind::Concern => "concern def",
            DefKind::View => "view def",
            DefKind::Viewpoint => "viewpoint def",
            DefKind::Rendering => "rendering def",
            DefKind::Enum => "enum def",
            DefKind::Attribute => "attribute def",
            DefKind::Item => "item def",
            DefKind::Allocation => "allocation def",
            DefKind::Occurrence => "occurrence def",
            DefKind::Package => "package",
            DefKind::Class => "class",
            DefKind::Struct => "struct",
            DefKind::Assoc => "assoc",
            DefKind::Behavior => "behavior",
            DefKind::Datatype => "datatype",
            DefKind::Feature => "feature",
            DefKind::Function => "function",
            DefKind::Interaction => "interaction",
            DefKind::Connector => "connector",
            DefKind::Predicate => "predicate",
            DefKind::Namespace => "namespace",
            DefKind::Type => "type",
            DefKind::Classifier => "classifier",
            DefKind::Metaclass => "metaclass",
            DefKind::Expr => "expr",
            DefKind::Step => "step",
            DefKind::Metadata => "metadata def",
            DefKind::Annotation => "annotation",
        }
    }
}

/// A definition (`part def`, `port def`, `package`, ...).
#[derive(Debug, Clone)]
pub struct Definition {
    pub kind: DefKind,
    pub name: String,
    pub super_type: Option<String>,
    pub span: Span,
    /// Whether the definition has a body block (`{ ... }`) vs just `;`.
    pub has_body: bool,
    /// Number of `in` parameters (relevant for constraint/calc defs).
    pub param_count: usize,
    /// Whether a constraint def contains a constraint expression.
    pub has_constraint_expr: bool,
    /// Whether a calc def contains a return statement.
    pub has_return: bool,
    /// Visibility modifier (public/private/protected).
    pub visibility: Option<Visibility>,
    /// Short name alias (e.g., `<V>` in `part def Vehicle <V>`).
    pub short_name: Option<String>,
    /// Documentation comment text.
    pub doc: Option<String>,
    /// Whether the definition is abstract.
    pub is_abstract: bool,
    /// Members of an enum definition.
    pub enum_members: Vec<EnumMember>,
    /// Name of the enclosing definition, if any.
    pub parent_def: Option<String>,
    /// Byte offset of the opening `{` of the definition body.
    pub body_start_byte: Option<usize>,
    /// Byte offset of the closing `}` of the definition body.
    pub body_end_byte: Option<usize>,
    /// Fully qualified name (populated by `qualify_model`).
    pub qualified_name: Option<QualifiedName>,
}

/// A member of an enum definition.
#[derive(Debug, Clone)]
pub struct EnumMember {
    pub name: String,
    pub doc: Option<String>,
}

/// A visibility modifier.
#[derive(Debug, Clone, Copy, PartialEq, Eq, Hash, Structural)]
pub enum Visibility {
    Public,
    Private,
    Protected,
}

impl Visibility {
    /// The keyword of this visibility.
    pub fn label(&self) -> (r: &'static str)
        ensures
            r@ == (match *self {
                Visibility::Public => "public"@,
                Visibility::Private => "private"@,
                Visibility::Protected => "protected"@,
            }),
    {
        match self {
            Visibility::Public => "public",
            Visibility::Private => "private",
            Visibility::Protected => "protected",
        }
    }
}

/// A multiplicity such as `[0..1]` or `[1..*] ordered`.
#[derive(Debug, Clone, PartialEq, Eq)]
pub struct Multiplicity {
    pub lower: Option<String>,
    pub upper: Option<String>,
    pub is_ordered: bool,
    pub is_nonunique: bool,
}

/// The text of a multiplicity, e.g. `[0..1] ordered`.
pub open spec fn multiplicity_text(m: Multiplicity) -> Seq<char> {
    let bounds = match (m.lower, m.upper) {
        (Some(lo), Some(hi)) => lo@ + ".."@ + hi@,
        (Some(lo), None) => lo@,
        (None, Some(hi)) => hi@,
        (None, None) => "*"@,
    };
    "["@ + bounds + "]"@ + (if m.is_ordered {
        " ordered"@
    } else {
        seq![]
    }) + (if m.is_nonunique {
        " nonunique"@
    } else {
        seq![]
    })
}

impl Multiplicity {
    /// The text form, e.g. `[0..1] ordered`.
    pub fn to_string(&self) -> (r: String)
        ensures
            r@ == multiplicity_text(*self),
    {
        let mut out = own("[");
        match (&self.lower, &self.upper) {
            (Some(lo), Some(hi)) => {
                crate::text::push_str(&mut out, lo.as_str());
                crate::text::push_str(&mut out, "..");
                crate::text::push_str(&mut out, hi.as_str());
            },
            (Some(lo), None) => crate::text::push_str(&mut out, lo.as_str()),
            (None, Some(hi)) => crate::text::push_str(&mut out, hi.as_str()),
            (None, None) => crate::text::push_str(&mut out, "*"),
        }
        crate::text::push_str(&mut out, "]");
        if self.is_ordered {
            crate::text::push_str(&mut out, " ordered");
        }
        if self.is_nonunique {
            crate::text::push_str(&mut out, " nonunique");
        }
        proof {
            assert(out@ =~= multiplicity_text(*self));
        }
        out
    }
}

/// A feature direction.
#[derive(Debug, Clone, Copy, PartialEq, Eq, Structural)]
pub enum Direction {
    In,
    Out,
    InOut,
}

/// Conjugation: flips `In` and `Out`, keeps `InOut`.
pub open spec fn conjugate(d: Direction) -> Direction {
    match d {
        Direction::In => Direction::Out,
        Direction::Out => Direction::In,
        Direction::InOut => Direction::InOut,
    }
}

/// The keyword of a direction.
pub open spec fn direction_text(d: Direction) -> Seq<char> {
    match d {
        Direction::In => "in"@,
        Direction::Out => "out"@,
        Direction::InOut => "inout"@,
    }
}

impl Direction {
    /// The keyword of this direction.
    pub fn label(&self) -> (r: &'static str)
        ensures
            r@ == direction_text(*self),
    {
        match self {
            Direction::In => "in",
            Direction::Out => "out",
            Direction::InOut => "inout",
        }
    }

    /// Apply conjugation: flips In and Out, InOut stays.
    pub fn conjugated(self) -> (r: Self)
        ensures
            r == conjugate(self),
    {
        match self {
            Direction::In => Direction::Out,
            Direction::Out => Direction::In,
            Direction::InOut => Direction::InOut,
        }
    }
}

/// A usage (`part engine : Engine;`, `port p : P;`, ...).
#[derive(Debug, Clone)]
pub struct Usage {
    pub kind: String,
    pub name: String,
    pub type_ref: Option<String>,
    pub span: Span,
    /// Direction modifier (in/out/inout), if present.
    pub direction: Option<Direction>,
    /// Whether the type reference is conjugated (`~`).
    pub is_conjugated: bool,
    /// Name of the enclosing definition, if any.
    pub parent_def: Option<String>,
    /// Multiplicity (e.g., [0..1], [1..*]).
    pub multiplicity: Option<Multiplicity>,
    /// Default value expression text.
    pub value_expr: Option<String>,
    /// Short name alias.
    pub short_name: Option<String>,
    /// Redefines target name.
    pub redefinition: Option<String>,
    /// Subsets target name.
    pub subsets: Option<String>,
    /// Fully qualified name (populated by `qualify_model`).
    pub qualified_name: Option<QualifiedName>,
}

/// A `connect a to b` statement.
#[derive(Debug, Clone)]
pub struct Connection {
    pub name: Option<String>,
    pub source: String,
    pub target: String,
    pub span: Span,
}

/// A flow between two features.
#[derive(Debug, Clone)]
pub struct Flow {
    pub name: Option<String>,
    pub item_type: Option<String>,
    pub source: String,
    pub target: String,
    pub span: Span,
}

/// A `satisfy` statement.
#[derive(Debug, Clone)]
pub struct Satisfaction {
    pub requirement: String,
    pub by: Option<String>,
    pub span: Span,
}

/// A `verify` statement.
#[derive(Debug, Clone)]
pub struct Verification {
    pub requirement: String,
    pub by: String,
    pub span: Span,
}

/// An `allocate` statement.
#[derive(Debug, Clone)]
pub struct Allocation {
    pub source: String,
    pub target: String,
    pub span: Span,
}

/// A syntax error found while parsing.
#[derive(Debug, Clone)]
pub struct SyntaxError {
    pub message: String,
    pub context: String,
    pub span: Span,
}

/// A reference to a type by name.
#[derive(Debug, Clone)]
pub struct TypeReference {
    pub name: String,
    pub span: Span,
}

/// A doc comment (e.g., `doc /* description */`).
#[derive(Debug, Clone)]
pub struct Comment {
    pub text: String,
    /// Locale if specified (e.g., `doc locale "en" /* ... */`).
    pub locale: Option<String>,
    /// Name of the enclosing definition, if any.
    pub parent_def: Option<String>,
    pub span: Span,
}

/// An import statement (e.g., `import Vehicles::*;`).
#[derive(Debug, Clone)]
pub struct Import {
    pub path: String,
    pub is_wildcard: bool,
    pub is_recursive: bool,
    pub span: Span,
}

/// A view definition with its expose and filter clauses.
#[derive(Debug, Clone)]
pub struct ViewDef {
    pub name: String,
    /// Exposed qualified names (e.g., "Vehicle::*", "P::**").
    pub exposes: Vec<String>,
    /// Kind filters extracted from filter statements (e.g., "part", "port").
    pub kind_filters: Vec<String>,
    pub span: Span,
}

/// The complete model extracted from a SysML v2 file.
#[derive(Debug, Clone)]
pub struct Model {
    pub file: String,
    pub definitions: Vec<Definition>,
    pub usages: Vec<Usage>,
    pub connections: Vec<Connection>,
    pub flows: Vec<Flow>,
    pub satisfactions: Vec<Satisfaction>,
    pub verifications: Vec<Verification>,
    pub allocations: Vec<Allocation>,
    pub syntax_errors: Vec<SyntaxError>,
    pub type_references: Vec<TypeReference>,
    pub imports: Vec<Import>,
    pub comments: Vec<Comment>,
    pub views: Vec<ViewDef>,
    /// Names resolved from imports (populated by the resolver).
    pub resolved_imports: Vec<String>,
}

/// The text of an optional string.
pub open spec fn opt_view(o: Option<String>) -> Option<Seq<char>> {
    match o {
        Some(s) => Some(s@),
        None => None,
    }
}

/// Index of the first definition named `name`, if any.
pub open spec fn first_def_index(defs: Seq<Definition>, name: Seq<char>, from: int) -> Option<int>
    decreases defs.len() - from,
{
    if from < 0 || from >= defs.len() {
        None
    } else if defs[from].name@ == name {
        Some(from)
    } else {
        first_def_index(defs, name, from + 1)
    }
}

/// The usages whose parent definition is `name`, in model order.
pub open spec fn usages_with_parent(us: Seq<Usage>, name: Seq<char>) -> Seq<Usage>
    decreases us.len(),
{
    if us.len() == 0 {
        seq![]
    } else {
        usages_with_parent(us.drop_last(), name) + (if opt_view(us.last().parent_def) == Some(
            name,
        ) {
            seq![us.last()]
        } else {
            seq![]
        })
    }
}

/// The last `::` or `.` separated piece of a name: what `simple_name` returns.
pub open spec fn simple_name_spec(s: Seq<char>) -> Seq<char> {
    after_last(after_last(s, seq![':', ':']), seq!['.'])
}

/// The part of `s` after the rightmost occurrence of `p` (all of `s` if none).
pub open spec fn after_last(s: Seq<char>, p: Seq<char>) -> Seq<char> {
    match last_occurrence(s, p, s.len() - p.len()) {
        Some(i) => s.skip(i + p.len()),
        None => s,
    }
}

/// The largest index `i <= from` at which `p` occurs in `s`.
pub open spec fn last_occurrence(s: Seq<char>, p: Seq<char>, from: int) -> Option<int>
    decreases from + 1,
{
    if from < 0 {
        None
    } else if crate::text::occurs_at(s, p, from) {
        Some(from)
    } else {
        last_occurrence(s, p, from - 1)
    }
}

/// Searches backwards for `p` in `s` from index `from`.
fn rfind(s: &Vec<char>, p: &Vec<char>, from: usize) -> (r: Option<usize>)
    ensures
        r matches Some(i) ==> last_occurrence(s@, p@, from as int) == Some(i as int)
            && crate::text::occurs_at(s@, p@, i as int),
        r is None ==> last_occurrence(s@, p@, from as int) is None,
    decreases from,
{
    if crate::text::occurs_at_exec(s, p, from) {
        Some(from)
    } else if from == 0 {
        assert(last_occurrence(s@, p@, -1) is None);
        None
    } else {
        rfind(s, p, from - 1)
    }
}

/// Index after the rightmost occurrence of `p` in `s` (0 if none).
fn after_last_index(s: &Vec<char>, p: &Vec<char>) -> (r: usize)
    requires
        p@.len() > 0,
    ensures
        r <= s@.len(),
        s@.skip(r as int) == after_last(s@, p@),
{
    if p.len() > s.len() {
        assert(s@.skip(0) =~= s@);
        assert(last_occurrence(s@, p@, s@.len() - p@.len()) is None);
        return 0;
    }
    match rfind(s, p, s.len() - p.len()) {
        Some(i) => {
            i + p.len()
        },
        None => {
            assert(s@.skip(0) =~= s@);
            0
        },
    }
}

/// Where `last_occurrence` finds `p`, and that nothing later up to `from`
/// is an occurrence.
proof fn lemma_last_occurrence(s: Seq<char>, p: Seq<char>, from: int)
    ensures
        last_occurrence(s, p, from) matches Some(i) ==> i <= from && crate::text::occurs_at(s, p, i)
            && forall|j: int| i < j <= from ==> !crate::text::occurs_at(s, p, j),
        last_occurrence(s, p, from) is None ==> forall|j: int| j <= from ==> !crate::text::occurs_at(s, p, j),
    decreases from + 1,
{
    if from >= 0 && !crate::text::occurs_at(s, p, from) {
        lemma_last_occurrence(s, p, from - 1);
    }
}

/// What follows the last `p` is a suffix of `s` in which `p` does not occur.
proof fn lemma_after_last(s: Seq<char>, p: Seq<char>)
    requires
        p.len() > 0,
    ensures
        crate::text::ends_with(s, after_last(s, p)),
        !crate::text::contains(after_last(s, p), p),
{
    let from = s.len() - p.len();
    lemma_last_occurrence(s, p, from);
    let a = after_last(s, p);
    match last_occurrence(s, p, from) {
        Some(i) => {
            assert(s.skip(s.len() - a.len()) =~= a);
            if crate::text::contains(a, p) {
                let j = choose|j: int| crate::text::occurs_at(a, p, j);
                assert(s.subrange(i + p.len() + j, i + p.len() + j + p.len()) =~= a.subrange(j, j + p.len()));
                assert(crate::text::occurs_at(s, p, i + p.len() + j));
            }
        },
        None => {
            assert(s.skip(0) =~= s);
            if crate::text::contains(a, p) {
                let j = choose|j: int| crate::text::occurs_at(a, p, j);
                assert(crate::text::occurs_at(s, p, j));
            }
        },
    }
}

/// Text in which `p` does not occur is all that follows its last `p`.
proof fn lemma_after_last_none(s: Seq<char>, p: Seq<char>)
    requires
        !crate::text::contains(s, p),
    ensures
        after_last(s, p) == s,
{
    lemma_last_occurrence(s, p, s.len() - p.len());
    if last_occurrence(s, p, s.len() - p.len()) is Some {
        let i = last_occurrence(s, p, s.len() - p.len())->0;
        assert(crate::text::occurs_at(s, p, i));
    }
}

/// A suffix of text without `p` has no `p` either.
proof fn lemma_suffix_free(s: Seq<char>, t: Seq<char>, p: Seq<char>)
    requires
        crate::text::ends_with(s, t),
        !crate::text::contains(s, p),
    ensures
        !crate::text::contains(t, p),
{
    if crate::text::contains(t, p) {
        let j = choose|j: int| crate::text::occurs_at(t, p, j);
        let off = s.len() - t.len();
        assert(s.subrange(off + j, off + j + p.len()) =~= t.subrange(j, j + p.len()));
        assert(crate::text::occurs_at(s, p, off + j));
    }
}

/// The simple name of `s` is a suffix of it that holds neither `::` nor
/// `.`, and is its own simple name.
pub proof fn law_simple_name(s: Seq<char>)
    ensures
        crate::text::ends_with(s, simple_name_spec(s)),
        !crate::text::contains(simple_name_spec(s), seq![':', ':']),
        !crate::text::contains(simple_name_spec(s), seq!['.']),
        simple_name_spec(simple_name_spec(s)) == simple_name_spec(s),
{
    let a = after_last(s, seq![':', ':']);
    let r = simple_name_spec(s);
    lemma_after_last(s, seq![':', ':']);
    lemma_after_last(a, seq!['.']);
    assert(crate::text::ends_with(s, r)) by {
        assert(s.skip(s.len() - r.len()) =~= a.skip(a.len() - r.len()));
    }
    lemma_suffix_free(a, r, seq![':', ':']);
    lemma_after_last_none(r, seq![':', ':']);
    lemma_after_last_none(r, seq!['.']);
}

/// Extract the simple (unqualified) name from a potentially qualified name:
/// the part after the last `::`, then after the last `.`.
pub fn simple_name(name: &str) -> (r: &str)
    ensures
        r@ == simple_name_spec(name@),
{
    let cs = chars_of(name);
    let colons: Vec<char> = vec![':', ':'];
    let dot: Vec<char> = vec!['.'];
    assert(colons@ =~= seq![':', ':']);
    assert(dot@ =~= seq!['.']);
    let a = after_last_index(&cs, &colons);
    let rest = crate::text::slice_chars(&cs, a, cs.len());
    assert(rest@ =~= cs@.skip(a as int));
    let b = after_last_index(&rest, &dot);
    proof {
        assert(rest@.skip(b as int) =~= cs@.subrange(a + b, cs@.len() as int));
    }
    name.substring_char(a + b, cs.len())
}


/// The names that `f` extracts from each element of `s`, concatenated in order.
pub open spec fn collect<T, U>(s: Seq<T>, f: spec_fn(T) -> Seq<U>) -> Seq<U>
    decreases s.len(),
{
    if s.len() == 0 {
        seq![]
    } else {
        collect(s.drop_last(), f) + f(s.last())
    }
}

/// Collecting distributes over a prefix extended by one element.
pub proof fn lemma_collect_take<T, U>(s: Seq<T>, f: spec_fn(T) -> Seq<U>, i: int)
    requires
        0 <= i < s.len(),
    ensures
        collect(s.take(i + 1), f) == collect(s.take(i), f) + f(s[i]),
{
    assert(s.take(i + 1).drop_last() =~= s.take(i));
}

/// The simple name of an optional reference, as a list of zero or one names.
pub open spec fn opt_simple(o: Option<String>) -> Seq<Seq<char>> {
    match o {
        Some(t) => seq![simple_name_spec(t@)],
        None => seq![],
    }
}

/// Every simple name that the model refers to, in the order `referenced_names` lists them.
pub open spec fn referenced_seq(m: Model) -> Seq<Seq<char>> {
    collect(m.usages@, |u: Usage| opt_simple(u.type_ref))
    + collect(m.definitions@, |d: Definition| opt_simple(d.super_type))
    + collect(m.connections@, |c: Connection| seq![simple_name_spec(c.source@), simple_name_spec(c.target@)])
    + collect(m.flows@, |f: Flow| seq![simple_name_spec(f.source@), simple_name_spec(f.target@)] + opt_simple(f.item_type))
    + collect(m.satisfactions@, |s: Satisfaction| seq![simple_name_spec(s.requirement@)] + opt_simple(s.by))
    + collect(m.verifications@, |v: Verification| seq![simple_name_spec(v.requirement@), simple_name_spec(v.by@)])
    + collect(m.allocations@, |a: Allocation| seq![simple_name_spec(a.source@), simple_name_spec(a.target@)])
    + collect(m.type_references@, |t: TypeReference| seq![simple_name_spec(t.name@)])
}

/// Appends the simple name of an optional reference.
fn push_opt_simple<'a>(r: &mut Vec<&'a str>, o: &'a Option<String>)
    ensures
        final(r).deep_view() == old(r).deep_view() + opt_simple(*o),
{
    let ghost old_dv = r.deep_view();
    match o {
        Some(t) => {
            r.push(simple_name(t.as_str()));
            assert(r.deep_view() =~= old_dv + opt_simple(*o));
        },
        None => {
            assert(r.deep_view() =~= old_dv + opt_simple(*o));
        },
    }
}

/// Appends the simple name of a reference.
fn push_simple<'a>(r: &mut Vec<&'a str>, t: &'a String)
    ensures
        final(r).deep_view() == old(r).deep_view().push(simple_name_spec(t@)),
{
    let ghost old_dv = r.deep_view();
    r.push(simple_name(t.as_str()));
    assert(r.deep_view() =~= old_dv.push(simple_name_spec(t@)));
}

impl Model {
    /// A model for `file` with no elements.
    pub fn new(file: String) -> (r: Self)
        ensures
            r.file@ == file@,
            r.definitions@.len() == 0,
            r.usages@.len() == 0,
            r.connections@.len() == 0,
            r.flows@.len() == 0,
            r.satisfactions@.len() == 0,
            r.verifications@.len() == 0,
            r.allocations@.len() == 0,
            r.syntax_errors@.len() == 0,
            r.type_references@.len() == 0,
            r.imports@.len() == 0,
            r.comments@.len() == 0,
            r.views@.len() == 0,
            r.resolved_imports@.len() == 0,
    {
        Model {
            file,
            definitions: Vec::new(),
            usages: Vec::new(),
            connections: Vec::new(),
            flows: Vec::new(),
            satisfactions: Vec::new(),
            verifications: Vec::new(),
            allocations: Vec::new(),
            syntax_errors: Vec::new(),
            type_references: Vec::new(),
            imports: Vec::new(),
            comments: Vec::new(),
            views: Vec::new(),
            resolved_imports: Vec::new(),
        }
    }

    /// The names of all definitions, in model order.
    pub fn defined_names(&self) -> (r: Vec<&str>)
        ensures
            r@.len() == self.definitions@.len(),
            forall|i: int|
                0 <= i < r@.len() ==> (#[trigger] r@[i])@ == self.definitions@[i].name@,
    {
        let mut r: Vec<&str> = Vec::new();
        let mut i: usize = 0;
        while i < self.definitions.len()
            invariant
                i <= self.definitions@.len(),
                r@.len() == i,
                forall|k: int| 0 <= k < i ==> (#[trigger] r@[k])@ == self.definitions@[k].name@,
            decreases self.definitions@.len() - i,
        {
            r.push(self.definitions[i].name.as_str());
            i = i + 1;
        }
        r
    }

    /// Find the first definition with the given name.
    pub fn find_def(&self, name: &str) -> (r: Option<&Definition>)
        ensures
            match first_def_index(self.definitions@, name@, 0) {
                Some(i) => r == Some(&self.definitions@[i]),
                None => r is None,
            },
    {
        let mut i: usize = 0;
        while i < self.definitions.len()
            invariant
                i <= self.definitions@.len(),
                first_def_index(self.definitions@, name@, 0) == first_def_index(
                    self.definitions@,
                    name@,
                    i as int,
                ),
            decreases self.definitions@.len() - i,
        {
            if str_eq(self.definitions[i].name.as_str(), name) {
                return Some(&self.definitions[i]);
            }
            i = i + 1;
        }
        None
    }

    /// All usages whose parent definition is `def_name`, in model order.
    pub fn usages_in_def(&self, def_name: &str) -> (r: Vec<&Usage>)
        ensures
            r@.len() == usages_with_parent(self.usages@, def_name@).len(),
            forall|i: int|
                0 <= i < r@.len() ==> *#[trigger] r@[i] == usages_with_parent(
                    self.usages@,
                    def_name@,
                )[i],
    {
        let mut r: Vec<&Usage> = Vec::new();
        let mut i: usize = 0;
        while i < self.usages.len()
            invariant
                i <= self.usages@.len(),
                r@.len() == usages_with_parent(self.usages@.take(i as int), def_name@).len(),
                forall|k: int|
                    0 <= k < r@.len() ==> *#[trigger] r@[k] == usages_with_parent(
                        self.usages@.take(i as int),
                        def_name@,
                    )[k],
            decreases self.usages@.len() - i,
        {
            let u = &self.usages[i];
            let hit = match &u.parent_def {
                Some(p) => str_eq(p.as_str(), def_name),
                None => false,
            };
            assert(self.usages@.take(i + 1).drop_last() =~= self.usages@.take(i as int));
            if hit {
                r.push(u);
            }
            i = i + 1;
        }
        assert(self.usages@.take(self.usages@.len() as int) =~= self.usages@);
        r
    }

    /// All names referenced (used) in this model, as simple names: usage types,
    /// supertypes, connection and flow ends, flow item types, satisfied and
    /// verified requirements and their subjects, allocation ends and type
    /// references, in that order. A name may occur more than once.
    pub fn referenced_names(&self) -> (r: Vec<&str>)
        ensures
            r.deep_view() == referenced_seq(*self),
    {
        let mut r: Vec<&str> = Vec::new();
        let ghost f1 = |u: Usage| opt_simple(u.type_ref);
        let mut i: usize = 0;
        while i < self.usages.len()
            invariant
                i <= self.usages@.len(),
                forall|x: Usage| #[trigger] f1(x) == opt_simple(x.type_ref),
                r.deep_view() == collect(self.usages@.take(i as int), f1),
            decreases self.usages@.len() - i,
        {
            proof { lemma_collect_take(self.usages@, f1, i as int); }
            push_opt_simple(&mut r, &self.usages[i].type_ref);
            i = i + 1;
        }
        assert(self.usages@.take(i as int) =~= self.usages@);
        let ghost acc1 = r.deep_view();
        let ghost f2 = |d: Definition| opt_simple(d.super_type);
        let mut i: usize = 0;
        while i < self.definitions.len()
            invariant
                i <= self.definitions@.len(),
                forall|x: Definition| #[trigger] f2(x) == opt_simple(x.super_type),
                r.deep_view() == acc1 + collect(self.definitions@.take(i as int), f2),
            decreases self.definitions@.len() - i,
        {
            proof { lemma_collect_take(self.definitions@, f2, i as int); }
            push_opt_simple(&mut r, &self.definitions[i].super_type);
            i = i + 1;
        }
        assert(self.definitions@.take(i as int) =~= self.definitions@);
        let ghost acc2 = r.deep_view();
        let ghost f3 = |c: Connection| seq![simple_name_spec(c.source@), simple_name_spec(c.target@)];
        let mut i: usize = 0;
        while i < self.connections.len()
            invariant
                i <= self.connections@.len(),
                forall|x: Connection| #[trigger] f3(x) == seq![simple_name_spec(x.source@), simple_name_spec(x.target@)],
                r.deep_view() == acc2 + collect(self.connections@.take(i as int), f3),
            decreases self.connections@.len() - i,
        {
            proof { lemma_collect_take(self.connections@, f3, i as int); }
            let ghost before = r.deep_view();
            push_simple(&mut r, &self.connections[i].source);
            push_simple(&mut r, &self.connections[i].target);
            assert(r.deep_view() =~= before + f3(self.connections@[i as int]));
            i = i + 1;
        }
        assert(self.connections@.take(i as int) =~= self.connections@);
        let ghost acc3 = r.deep_view();
        let ghost f4 = |f: Flow| seq![simple_name_spec(f.source@), simple_name_spec(f.target@)] + opt_simple(f.item_type);
        let mut i: usize = 0;
        while i < self.flows.len()
            invariant
                i <= self.flows@.len(),
                forall|x: Flow| #[trigger] f4(x) == seq![simple_name_spec(x.source@), simple_name_spec(x.target@)] + opt_simple(x.item_type),
                r.deep_view() == acc3 + collect(self.flows@.take(i as int), f4),
            decreases self.flows@.len() - i,
        {
            proof { lemma_collect_take(self.flows@, f4, i as int); }
            let ghost before = r.deep_view();
            push_simple(&mut r, &self.flows[i].source);
            push_simple(&mut r, &self.flows[i].target);
            push_opt_simple(&mut r, &self.flows[i].item_type);
            assert(r.deep_view() =~= before + f4(self.flows@[i as int]));
            i = i + 1;
        }
        assert(self.flows@.take(i as int) =~= self.flows@);
        let ghost acc4 = r.deep_view();
        let ghost f5 = |s: Satisfaction| seq![simple_name_spec(s.requirement@)] + opt_simple(s.by);
        let mut i: usize = 0;
        while i < self.satisfactions.len()
            invariant
                i <= self.satisfactions@.len(),
                forall|x: Satisfaction| #[trigger] f5(x) == seq![simple_name_spec(x.requirement@)] + opt_simple(x.by),
                r.deep_view() == acc4 + collect(self.satisfactions@.take(i as int), f5),
            decreases self.satisfactions@.len() - i,
        {
            proof { lemma_collect_take(self.satisfactions@, f5, i as int); }
            let ghost before = r.deep_view();
            push_simple(&mut r, &self.satisfactions[i].requirement);
            push_opt_simple(&mut r, &self.satisfactions[i].by);
            assert(r.deep_view() =~= before + f5(self.satisfactions@[i as int]));
            i = i + 1;
        }
        assert(self.satisfactions@.take(i as int) =~= self.satisfactions@);
        let ghost acc5 = r.deep_view();
        let ghost f6 = |v: Verification| seq![simple_name_spec(v.requirement@), simple_name_spec(v.by@)];
        let mut i: usize = 0;
        while i < self.verifications.len()
            invariant
                i <= self.verifications@.len(),
                forall|x: Verification| #[trigger] f6(x) == seq![simple_name_spec(x.requirement@), simple_name_spec(x.by@)],
                r.deep_view() == acc5 + collect(self.verifications@.take(i as int), f6),
            decreases self.verifications@.len() - i,
        {
            proof { lemma_collect_take(self.verifications@, f6, i as int); }
            let ghost before = r.deep_view();
            push_simple(&mut r, &self.verifications[i].requirement);
            push_simple(&mut r, &self.verifications[i].by);
            assert(r.deep_view() =~= before + f6(self.verifications@[i as int]));
            i = i + 1;
        }
        assert(self.verifications@.take(i as int) =~= self.verifications@);
        let ghost acc6 = r.deep_view();
        let ghost f7 = |a: Allocation| seq![simple_name_spec(a.source@), simple_name_spec(a.target@)];
        let mut i: usize = 0;
        while i < self.allocations.len()
            invariant
                i <= self.allocations@.len(),
                forall|x: Allocation| #[trigger] f7(x) == seq![simple_name_spec(x.source@), simple_name_spec(x.target@)],
                r.deep_view() == acc6 + collect(self.allocations@.take(i as int), f7),
            decreases self.allocations@.len() - i,
        {
            proof { lemma_collect_take(self.allocations@, f7, i as int); }
            let ghost before = r.deep_view();
            push_simple(&mut r, &self.allocations[i].source);
            push_simple(&mut r, &self.allocations[i].target);
            assert(r.deep_view() =~= before + f7(self.allocations@[i as int]));
            i = i + 1;
        }
        assert(self.allocations@.take(i as int) =~= self.allocations@);
        let ghost acc7 = r.deep_view();
        let ghost f8 = |t: TypeReference| seq![simple_name_spec(t.name@)];
        let mut i: usize = 0;
        while i < self.type_references.len()
            invariant
                i <= self.type_references@.len(),
                forall|x: TypeReference| #[trigger] f8(x) == seq![simple_name_spec(x.name@)],
                r.deep_view() == acc7 + collect(self.type_references@.take(i as int), f8),
            decreases self.type_references@.len() - i,
        {
            proof { lemma_collect_take(self.type_references@, f8, i as int); }
            let ghost before = r.deep_view();
            push_simple(&mut r, &self.type_references[i].name);
            assert(r.deep_view() =~= before + f8(self.type_references@[i as int]));
            i = i + 1;
        }
        assert(self.type_references@.take(i as int) =~= self.type_references@);
        assert(r.deep_view() =~= referenced_seq(*self));
        r
    }
}

// ----------------------------------------------------------------------
// Qualified names
// ----------------------------------------------------------------------

/// The parent recorded for the last definition named `name`, if any
/// definition has that name.
pub open spec fn last_parent(defs: Seq<Definition>, name: Seq<char>) -> Option<Option<Seq<char>>>
    decreases defs.len(),
{
    if defs.len() == 0 {
        None
    } else if defs.last().name@ == name {
        Some(opt_view(defs.last().parent_def))
    } else {
        last_parent(defs.drop_last(), name)
    }
}

/// The chain of enclosing names of `p`, outermost first and ending with
/// `p`, following parents for at most `fuel` steps (`None` when the chain
/// is longer).
pub open spec fn ancestry(defs: Seq<Definition>, p: Seq<char>, fuel: nat) -> Option<Seq<Seq<char>>>
    decreases fuel,
{
    if fuel == 0 {
        None
    } else {
        match last_parent(defs, p) {
            Some(Some(gp)) => match ancestry(defs, gp, (fuel - 1) as nat) {
                Some(a) => Some(a.push(p)),
                None => None,
            },
            _ => Some(seq![p]),
        }
    }
}

/// The qualified name of an element named `name` whose parent is `parent`:
/// the parent's chain of enclosing names, then `name`.
pub open spec fn qualified_segments(defs: Seq<Definition>, name: Seq<char>, parent: Option<String>) -> Option<Seq<Seq<char>>> {
    match parent {
        Some(p) => match ancestry(defs, p@, (defs.len() + 1) as nat) {
            Some(a) => Some(a.push(name)),
            None => None,
        },
        None => Some(seq![name]),
    }
}

/// Every parent chain of the model ends (no definition is its own ancestor).
pub open spec fn chains_end(m: Model) -> bool {
    &&& forall|i: int| 0 <= i < m.definitions@.len() ==> qualified_segments(
        m.definitions@,
        (#[trigger] m.definitions@[i]).name@,
        m.definitions@[i].parent_def,
    ) is Some
    &&& forall|i: int| 0 <= i < m.usages@.len() ==> qualified_segments(
        m.definitions@,
        (#[trigger] m.usages@[i]).name@,
        m.usages@[i].parent_def,
    ) is Some
}

/// The qualified name an element gets: its segments, when they exist.
pub open spec fn qualified_as(q: Option<QualifiedName>, segs: Option<Seq<Seq<char>>>) -> bool {
    match (q, segs) {
        (Some(q), Some(s)) => q@ == s,
        _ => false,
    }
}

/// The parent recorded for the last definition named `name`.
fn last_parent_exec<'a>(defs: &'a Vec<Definition>, name: &str) -> (r: Option<Option<&'a String>>)
    ensures
        match (r, last_parent(defs@, name@)) {
            (Some(Some(a)), Some(Some(b))) => a@ == b,
            (Some(None), Some(None)) => true,
            (None, None) => true,
            _ => false,
        },
{
    let mut i: usize = defs.len();
    assert(defs@.take(i as int) =~= defs@);
    while i > 0
        invariant
            i <= defs@.len(),
            last_parent(defs@, name@) == last_parent(defs@.take(i as int), name@),
        decreases i,
    {
        assert(defs@.take(i as int).drop_last() =~= defs@.take(i - 1));
        if str_eq(defs[i - 1].name.as_str(), name) {
            return match &defs[i - 1].parent_def {
                Some(p) => Some(Some(p)),
                None => Some(None),
            };
        }
        i = i - 1;
    }
    None
}

/// The chain of enclosing names of `p`, outermost first.
fn ancestry_exec(defs: &Vec<Definition>, p: &str, fuel: usize) -> (r: Vec<String>)
    requires
        ancestry(defs@, p@, fuel as nat) is Some,
    ensures
        ancestry(defs@, p@, fuel as nat) == Some(r.deep_view()),
    decreases fuel,
{
    match last_parent_exec(defs, p) {
        Some(Some(gp)) => {
            let mut a = ancestry_exec(defs, gp.as_str(), fuel - 1);
            let ghost a0 = a.deep_view();
            a.push(own(p));
            assert(a.deep_view() =~= a0.push(p@));
            a
        },
        _ => {
            let mut a: Vec<String> = Vec::new();
            a.push(own(p));
            assert(a.deep_view() =~= seq![p@]);
            a
        },
    }
}

/// The qualified name of an element named `name` with parent `parent`.
fn qualified_of(defs: &Vec<Definition>, name: &String, parent: &Option<String>) -> (r: QualifiedName)
    requires
        defs@.len() < usize::MAX,
        qualified_segments(defs@, name@, *parent) is Some,
    ensures
        qualified_segments(defs@, name@, *parent) == Some(r@),
{
    match parent {
        Some(p) => {
            let mut a = ancestry_exec(defs, p.as_str(), defs.len() + 1);
            let ghost a0 = a.deep_view();
            a.push(name.clone());
            assert(a.deep_view() =~= a0.push(name@));
            QualifiedName::new(a)
        },
        None => {
            let mut a: Vec<String> = Vec::new();
            a.push(name.clone());
            assert(a.deep_view() =~= seq![name@]);
            QualifiedName::new(a)
        },
    }
}

/// Populate the `qualified_name` of every definition and usage by walking
/// `parent_def` chains: the enclosing names, outermost first, then the
/// element's own name.  Where several definitions share a name, the last
/// one's parent is followed.
pub fn qualify_model(model: &mut Model)
    requires
        chains_end(*old(model)),
        old(model).definitions@.len() < usize::MAX,
    ensures
        final(model).definitions@.len() == old(model).definitions@.len(),
        final(model).usages@.len() == old(model).usages@.len(),
        forall|i: int| 0 <= i < old(model).definitions@.len() ==> #[trigger] final(model).definitions@[i]
            == (Definition { qualified_name: final(model).definitions@[i].qualified_name, ..old(model).definitions@[i] }),
        forall|i: int| 0 <= i < old(model).definitions@.len() ==> qualified_as(
            #[trigger] final(model).definitions@[i].qualified_name,
            qualified_segments(old(model).definitions@, old(model).definitions@[i].name@, old(model).definitions@[i].parent_def),
        ),
        forall|i: int| 0 <= i < old(model).usages@.len() ==> #[trigger] final(model).usages@[i]
            == (Usage { qualified_name: final(model).usages@[i].qualified_name, ..old(model).usages@[i] }),
        forall|i: int| 0 <= i < old(model).usages@.len() ==> qualified_as(
            #[trigger] final(model).usages@[i].qualified_name,
            qualified_segments(old(model).definitions@, old(model).usages@[i].name@, old(model).usages@[i].parent_def),
        ),
        final(model).file == old(model).file,
        final(model).connections == old(model).connections,
        final(model).flows == old(model).flows,
        final(model).satisfactions == old(model).satisfactions,
        final(model).verifications == old(model).verifications,
        final(model).allocations == old(model).allocations,
        final(model).syntax_errors == old(model).syntax_errors,
        final(model).type_references == old(model).type_references,
        final(model).imports == old(model).imports,
        final(model).comments == old(model).comments,
        final(model).views == old(model).views,
        final(model).resolved_imports == old(model).resolved_imports,
{
    let ghost d0 = old(model).definitions@;
    let ghost u0 = old(model).usages@;
    let mut defs: Vec<Definition> = Vec::new();
    std::mem::swap(&mut defs, &mut model.definitions);
    assert(same_names(defs@, d0));
    let mut i: usize = 0;
    while i < defs.len()
        invariant
            i <= defs@.len(),
            defs@.len() == d0.len(),
            d0.len() < usize::MAX,
            same_names(defs@, d0),
            forall|k: int| 0 <= k < d0.len() ==> #[trigger] defs@[k] == (Definition { qualified_name: defs@[k].qualified_name, ..d0[k] }),
            forall|k: int| 0 <= k < i ==> qualified_as(#[trigger] defs@[k].qualified_name, qualified_segments(d0, d0[k].name@, d0[k].parent_def)),
            forall|k: int| 0 <= k < d0.len() ==> qualified_segments(d0, (#[trigger] d0[k]).name@, d0[k].parent_def) is Some,
        decreases defs@.len() - i,
    {
        proof {
            lemma_same_names_segments(defs@, d0);
        }
        assert(qualified_segments(d0, d0[i as int].name@, d0[i as int].parent_def) is Some);
        let q = qualified_of(&defs, &defs[i].name, &defs[i].parent_def);
        let ghost before = defs@;
        let mut d = defs.remove(i);
        d.qualified_name = Some(q);
        defs.insert(i, d);
        assert(defs@ =~= before.update(i as int, d));
        i = i + 1;
    }
    std::mem::swap(&mut defs, &mut model.definitions);
    let mut j: usize = 0;
    while j < model.usages.len()
        invariant
            j <= model.usages@.len(),
            model.usages@.len() == u0.len(),
            model.definitions@.len() == d0.len(),
            d0.len() < usize::MAX,
            same_names(model.definitions@, d0),
            forall|k: int| 0 <= k < d0.len() ==> #[trigger] model.definitions@[k] == (Definition { qualified_name: model.definitions@[k].qualified_name, ..d0[k] }),
            forall|k: int| 0 <= k < d0.len() ==> qualified_as(#[trigger] model.definitions@[k].qualified_name, qualified_segments(d0, d0[k].name@, d0[k].parent_def)),
            forall|k: int| 0 <= k < u0.len() ==> #[trigger] model.usages@[k] == (Usage { qualified_name: model.usages@[k].qualified_name, ..u0[k] }),
            forall|k: int| 0 <= k < j ==> qualified_as(#[trigger] model.usages@[k].qualified_name, qualified_segments(d0, u0[k].name@, u0[k].parent_def)),
            forall|k: int| 0 <= k < u0.len() ==> qualified_segments(d0, (#[trigger] u0[k]).name@, u0[k].parent_def) is Some,
            model.file == old(model).file,
            model.connections == old(model).connections,
            model.flows == old(model).flows,
            model.satisfactions == old(model).satisfactions,
            model.verifications == old(model).verifications,
            model.allocations == old(model).allocations,
            model.syntax_errors == old(model).syntax_errors,
            model.type_references == old(model).type_references,
            model.imports == old(model).imports,
            model.comments == old(model).comments,
            model.views == old(model).views,
            model.resolved_imports == old(model).resolved_imports,
        decreases u0.len() - j,
    {
        proof {
            lemma_same_names_segments(model.definitions@, d0);
        }
        assert(qualified_segments(d0, u0[j as int].name@, u0[j as int].parent_def) is Some);
        let q = qualified_of(&model.definitions, &model.usages[j].name, &model.usages[j].parent_def);
        let ghost before = model.usages@;
        let mut u = model.usages.remove(j);
        u.qualified_name = Some(q);
        model.usages.insert(j, u);
        assert(model.usages@ =~= before.update(j as int, u));
        j = j + 1;
    }
}

/// Two definition lists with the same names and parents, position by position.
pub open spec fn same_names(a: Seq<Definition>, b: Seq<Definition>) -> bool {
    &&& a.len() == b.len()
    &&& forall|k: int| 0 <= k < a.len() ==> (#[trigger] a[k]).name == b[k].name && a[k].parent_def == b[k].parent_def
}

proof fn lemma_same_names_parent(a: Seq<Definition>, b: Seq<Definition>, n: Seq<char>)
    requires
        same_names(a, b),
    ensures
        last_parent(a, n) == last_parent(b, n),
    decreases a.len(),
{
    if a.len() > 0 {
        assert(same_names(a.drop_last(), b.drop_last()));
        lemma_same_names_parent(a.drop_last(), b.drop_last(), n);
        assert(a.last().name == b.last().name);
    }
}

proof fn lemma_same_names_ancestry(a: Seq<Definition>, b: Seq<Definition>, p: Seq<char>, fuel: nat)
    requires
        same_names(a, b),
    ensures
        ancestry(a, p, fuel) == ancestry(b, p, fuel),
    decreases fuel,
{
    lemma_same_names_parent(a, b, p);
    if fuel > 0 {
        match last_parent(a, p) {
            Some(Some(gp)) => {
                lemma_same_names_ancestry(a, b, gp, (fuel - 1) as nat);
            },
            _ => {},
        }
    }
}

/// Lists with the same names and parents give the same qualified names.
proof fn lemma_same_names_segments(a: Seq<Definition>, b: Seq<Definition>)
    requires
        same_names(a, b),
    ensures
        forall|n: Seq<char>, p: Option<String>| #[trigger] qualified_segments(a, n, p) == qualified_segments(b, n, p),
{
    assert forall|n: Seq<char>, p: Option<String>| #[trigger] qualified_segments(a, n, p) == qualified_segments(b, n, p) by {
        match p {
            Some(x) => {
                lemma_same_names_ancestry(a, b, x@, (a.len() + 1) as nat);
            },
            None => {},
        }
    }
}

} // verus!
