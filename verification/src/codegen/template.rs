//! SysML v2 boilerplate template generation.
use vstd::prelude::*;
use crate::model::{def_kind_label, collect, lemma_collect_take, DefKind};
use crate::text::{
    all_ascii, ascii_lower, chars_of, contains, contains_exec, ends_with, ends_with_exec,
    lowercase_of, own, push_seq, push_spaces, push_str, replace_char, replace_char_exec,
    slice_chars, spaces, starts_with, starts_with_exec, string_of, str_eq, to_lowercase,
    trim, trim_chars, trim_end, trim_end_chars, words, words_exec, split_once, split_once_exec,
    strip_trailing, strip_trailing_exec, lemma_strip_trailing_prefix, lemma_trim_no_leading,
    trim_start, word_len, lemma_trim_start, lemma_word_len,
};

verus! {

/// Options for generating a SysML v2 definition template.
#[derive(Debug, Clone)]
pub struct TemplateOptions {
    pub kind: DefKind,
    pub name: String,
    pub super_type: Option<String>,
    pub is_abstract: bool,
    pub short_name: Option<String>,
    pub doc: Option<String>,
    pub members: Vec<MemberSpec>,
    /// View-specific: expose clauses (e.g., "Vehicle::*").
    pub exposes: Vec<String>,
    /// View-specific: filter kind (e.g., "part", "port").
    pub filter: Option<String>,
    /// Base indent level (number of spaces).
    pub indent: usize,
}

/// A member (usage) to include in a generated template.
#[derive(Debug, Clone)]
pub struct MemberSpec {
    pub usage_kind: String,
    pub name: String,
    pub type_ref: Option<String>,
    pub direction: Option<String>,
    pub multiplicity: Option<String>,
    /// If true, render as verbatim text (for transitions, successions, expressions).
    pub raw_line: bool,
}

/// The kind named by a normalized (lower-case, dashes replaced) kind string.
pub open spec fn kind_named(s: Seq<char>) -> Option<DefKind> {
    if s == "part def"@ || s == "part"@ {
        Some(DefKind::Part)
    } else if s == "port def"@ || s == "port"@ {
        Some(DefKind::Port)
    } else if s == "connection def"@ || s == "connection"@ {
        Some(DefKind::Connection)
    } else if s == "interface def"@ || s == "interface"@ {
        Some(DefKind::Interface)
    } else if s == "flow def"@ || s == "flow"@ {
        Some(DefKind::Flow)
    } else if s == "action def"@ || s == "action"@ {
        Some(DefKind::Action)
    } else if s == "state def"@ || s == "state"@ {
        Some(DefKind::State)
    } else if s == "constraint def"@ || s == "constraint"@ {
        Some(DefKind::Constraint)
    } else if s == "calc def"@ || s == "calc"@ {
        Some(DefKind::Calc)
    } else if s == "requirement def"@ || s == "requirement"@ || s == "req"@ {
        Some(DefKind::Requirement)
    } else if s == "verification def"@ || s == "verification"@ || s == "verification-def"@
        || s == "vcase"@ {
        Some(DefKind::Verification)
    } else if s == "use case def"@ || s == "use case"@ || s == "usecase"@ {
        Some(DefKind::UseCase)
    } else if s == "enum def"@ || s == "enum"@ {
        Some(DefKind::Enum)
    } else if s == "attribute def"@ || s == "attribute"@ || s == "attr"@ {
        Some(DefKind::Attribute)
    } else if s == "item def"@ || s == "item"@ {
        Some(DefKind::Item)
    } else if s == "view def"@ || s == "view"@ {
        Some(DefKind::View)
    } else if s == "viewpoint def"@ || s == "viewpoint"@ {
        Some(DefKind::Viewpoint)
    } else if s == "package"@ || s == "pkg"@ {
        Some(DefKind::Package)
    } else if s == "allocation def"@ || s == "allocation"@ {
        Some(DefKind::Allocation)
    } else {
        None
    }
}

/// The kind named by an already lower-cased kind string: dashes count as spaces.
pub fn template_kind_of(lowered: &str) -> (r: Option<DefKind>)
    ensures
        r == kind_named(replace_char(lowered@, '-', ' ')),
{
    let cs = chars_of(lowered);
    let n = replace_char_exec(&cs, '-', ' ');
    let t = string_of(&n);
    let s = t.as_str();
    if str_eq(s, "part def") || str_eq(s, "part") {
        Some(DefKind::Part)
    } else if str_eq(s, "port def") || str_eq(s, "port") {
        Some(DefKind::Port)
    } else if str_eq(s, "connection def") || str_eq(s, "connection") {
        Some(DefKind::Connection)
    } else if str_eq(s, "interface def") || str_eq(s, "interface") {
        Some(DefKind::Interface)
    } else if str_eq(s, "flow def") || str_eq(s, "flow") {
        Some(DefKind::Flow)
    } else if str_eq(s, "action def") || str_eq(s, "action") {
        Some(DefKind::Action)
    } else if str_eq(s, "state def") || str_eq(s, "state") {
        Some(DefKind::State)
    } else if str_eq(s, "constraint def") || str_eq(s, "constraint") {
        Some(DefKind::Constraint)
    } else if str_eq(s, "calc def") || str_eq(s, "calc") {
        Some(DefKind::Calc)
    } else if str_eq(s, "requirement def") || str_eq(s, "requirement") || str_eq(s, "req") {
        Some(DefKind::Requirement)
    } else if str_eq(s, "verification def") || str_eq(s, "verification") || str_eq(
        s,
        "verification-def",
    ) || str_eq(s, "vcase") {
        Some(DefKind::Verification)
    } else if str_eq(s, "use case def") || str_eq(s, "use case") || str_eq(s, "usecase") {
        Some(DefKind::UseCase)
    } else if str_eq(s, "enum def") || str_eq(s, "enum") {
        Some(DefKind::Enum)
    } else if str_eq(s, "attribute def") || str_eq(s, "attribute") || str_eq(s, "attr") {
        Some(DefKind::Attribute)
    } else if str_eq(s, "item def") || str_eq(s, "item") {
        Some(DefKind::Item)
    } else if str_eq(s, "view def") || str_eq(s, "view") {
        Some(DefKind::View)
    } else if str_eq(s, "viewpoint def") || str_eq(s, "viewpoint") {
        Some(DefKind::Viewpoint)
    } else if str_eq(s, "package") || str_eq(s, "pkg") {
        Some(DefKind::Package)
    } else if str_eq(s, "allocation def") || str_eq(s, "allocation") {
        Some(DefKind::Allocation)
    } else {
        None
    }
}

/// Parse a template kind string into a `DefKind` (case-insensitive; `-`
/// counts as a space).
pub fn parse_template_kind(s: &str) -> (r: Option<DefKind>)
    ensures
        r == kind_named(replace_char(lowercase_of(s@), '-', ' ')),
        all_ascii(s@) ==> r == kind_named(
            replace_char(Seq::new(s@.len(), |i: int| ascii_lower(s@[i])), '-', ' '),
        ),
{
    let lowered = to_lowercase(s);
    template_kind_of(lowered.as_str())
}

/// `o` as the text `pre + o + post`, or nothing.
pub open spec fn opt_text(o: Option<String>, pre: Seq<char>, post: Seq<char>) -> Seq<char> {
    match o {
        Some(v) => pre + v@ + post,
        None => seq![],
    }
}

/// The line for one member, without the leading indent.
pub open spec fn member_text(m: MemberSpec, is_enum: bool) -> Seq<char> {
    if m.raw_line {
        let t = trim_end(m.name@);
        t + (if ends_with(t, ";"@) {
            seq![]
        } else {
            ";"@
        }) + "\n"@
    } else if is_enum {
        "enum "@ + m.name@ + ";\n"@
    } else {
        opt_text(m.direction, ""@, " "@) + m.usage_kind@ + " "@ + m.name@ + opt_text(m.type_ref, " : "@, ""@) + opt_text(m.multiplicity, " ["@, "]"@) + ";\n"@
    }
}

/// Whether the template has a body block.
pub open spec fn has_body(o: TemplateOptions) -> bool {
    o.doc is Some || o.members@.len() > 0 || o.exposes@.len() > 0 || o.filter is Some
}

/// The documentation part of a body.
pub open spec fn doc_text(o: TemplateOptions, inner: Seq<char>) -> Seq<char> {
    match o.doc {
        Some(d) => if o.kind == DefKind::Verification {
            inner + "objective {\n"@ + inner + "    doc /* "@ + d@ + " */\n"@ + inner + "}\n"@
        } else {
            inner + "doc /* "@ + d@ + " */\n"@
        },
        None => seq![],
    }
}

/// The text of the body block (after ` {\n`, before the closing line).
pub open spec fn body_text(o: TemplateOptions) -> Seq<char> {
    let inner = spaces((o.indent + 4) as nat);
    doc_text(o, inner) + collect(o.exposes@, |e: String| inner + "expose "@ + e@ + ";\n"@)
        + opt_text(o.filter, inner + "filter @type istype "@, ";\n"@) + collect(
        o.members@,
        |m: MemberSpec| inner + member_text(m, o.kind == DefKind::Enum),
    )
}

/// The full generated text of a definition template.
pub open spec fn template_text(o: TemplateOptions) -> Seq<char> {
    let indent = spaces(o.indent as nat);
    (if o.is_abstract {
        indent + "abstract "@
    } else {
        indent
    }) + def_kind_label(o.kind) + opt_text(o.short_name, " <"@, ">"@) + " "@ + o.name@
        + opt_text(o.super_type, " :> "@, ""@) + (if has_body(o) {
        " {\n"@ + body_text(o) + indent + "}\n"@
    } else {
        ";\n"@
    })
}

/// Appends `pre + o + post` when `o` is present.
fn push_opt(out: &mut String, o: &Option<String>, pre: &str, post: &str)
    ensures
        final(out)@ == old(out)@ + opt_text(*o, pre@, post@),
{
    match o {
        Some(v) => {
            push_str(out, pre);
            push_str(out, v.as_str());
            push_str(out, post);
        },
        None => {},
    }
}

/// Appends the line of one member (without indent).
fn push_member(out: &mut String, m: &MemberSpec, is_enum: bool)
    ensures
        final(out)@ == old(out)@ + member_text(*m, is_enum),
{
    let ghost o = out@;
    if m.raw_line {
        let cs = chars_of(m.name.as_str());
        let t = trim_end_chars(&cs);
        push_seq(out, &t);
        let semi = chars_of(";");
        if !ends_with_exec(&t, &semi) {
            push_str(out, ";");
        }
        push_str(out, "\n");
        assert(out@ =~= o + member_text(*m, is_enum));
    } else if is_enum {
        push_str(out, "enum ");
        push_str(out, m.name.as_str());
        push_str(out, ";\n");
        assert(out@ =~= o + member_text(*m, is_enum));
    } else {
        push_opt(out, &m.direction, "", " ");
        push_str(out, m.usage_kind.as_str());
        push_str(out, " ");
        push_str(out, m.name.as_str());
        push_opt(out, &m.type_ref, " : ", "");
        push_opt(out, &m.multiplicity, " [", "]");
        push_str(out, ";\n");
        assert(out@ =~= o + member_text(*m, is_enum));
    }
}

/// The first line of a template up to the body: modifiers, keyword, short
/// name, name and supertype.
pub open spec fn header_text(o: TemplateOptions) -> Seq<char> {
    (if o.is_abstract {
        spaces(o.indent as nat) + "abstract "@
    } else {
        spaces(o.indent as nat)
    }) + def_kind_label(o.kind) + opt_text(o.short_name, " <"@, ">"@) + " "@ + o.name@
        + opt_text(o.super_type, " :> "@, ""@)
}

/// Appends the header of the template.
fn push_header(out: &mut String, opts: &TemplateOptions)
    ensures
        final(out)@ == old(out)@ + header_text(*opts),
{
    let ghost o = out@;
    push_spaces(out, opts.indent);
    if opts.is_abstract {
        push_str(out, "abstract ");
    }
    push_str(out, opts.kind.label());
    push_opt(out, &opts.short_name, " <", ">");
    push_str(out, " ");
    push_str(out, opts.name.as_str());
    push_opt(out, &opts.super_type, " :> ", "");
    assert(out@ =~= o + header_text(*opts));
}

/// Appends the documentation part of the body.
fn push_doc(out: &mut String, opts: &TemplateOptions)
    requires
        opts.indent + 4 <= usize::MAX,
    ensures
        final(out)@ == old(out)@ + doc_text(*opts, spaces((opts.indent + 4) as nat)),
{
    let ghost o = out@;
    let inner = opts.indent + 4;
    match &opts.doc {
        Some(d) => {
            if opts.kind == DefKind::Verification {
                push_spaces(out, inner);
                push_str(out, "objective {\n");
                push_spaces(out, inner);
                push_str(out, "    doc /* ");
                push_str(out, d.as_str());
                push_str(out, " */\n");
                push_spaces(out, inner);
                push_str(out, "}\n");
            } else {
                push_spaces(out, inner);
                push_str(out, "doc /* ");
                push_str(out, d.as_str());
                push_str(out, " */\n");
            }
        },
        None => {},
    }
    assert(out@ =~= o + doc_text(*opts, spaces(inner as nat)));
}

/// Appends the expose clauses of the body.
fn push_exposes(out: &mut String, opts: &TemplateOptions)
    requires
        opts.indent + 4 <= usize::MAX,
    ensures
        final(out)@ == old(out)@ + collect(
            opts.exposes@,
            |e: String| spaces((opts.indent + 4) as nat) + "expose "@ + e@ + ";\n"@,
        ),
{
    let inner = opts.indent + 4;
    let ghost ins = spaces(inner as nat);
    let ghost start = out@;
    let ghost fe = |e: String| ins + "expose "@ + e@ + ";\n"@;
    let mut i: usize = 0;
    while i < opts.exposes.len()
        invariant
            i <= opts.exposes@.len(),
            inner == opts.indent + 4,
            ins == spaces(inner as nat),
            forall|x: String| #[trigger] fe(x) == ins + "expose "@ + x@ + ";\n"@,
            out@ == start + collect(opts.exposes@.take(i as int), fe),
        decreases opts.exposes@.len() - i,
    {
        proof {
            lemma_collect_take(opts.exposes@, fe, i as int);
        }
        let ghost before = out@;
        push_spaces(out, inner);
        push_str(out, "expose ");
        push_str(out, opts.exposes[i].as_str());
        push_str(out, ";\n");
        assert(out@ =~= before + fe(opts.exposes@[i as int]));
        i = i + 1;
    }
    assert(opts.exposes@.take(i as int) =~= opts.exposes@);
}

/// Appends the member lines of the body.
fn push_members(out: &mut String, opts: &TemplateOptions)
    requires
        opts.indent + 4 <= usize::MAX,
    ensures
        final(out)@ == old(out)@ + collect(
            opts.members@,
            |m: MemberSpec|
                spaces((opts.indent + 4) as nat) + member_text(m, opts.kind == DefKind::Enum),
        ),
{
    let inner = opts.indent + 4;
    let ghost ins = spaces(inner as nat);
    let ghost start = out@;
    let is_enum = opts.kind == DefKind::Enum;
    let ghost fm = |m: MemberSpec| ins + member_text(m, opts.kind == DefKind::Enum);
    let mut i: usize = 0;
    while i < opts.members.len()
        invariant
            i <= opts.members@.len(),
            inner == opts.indent + 4,
            ins == spaces(inner as nat),
            is_enum == (opts.kind == DefKind::Enum),
            forall|x: MemberSpec| #[trigger] fm(x) == ins + member_text(x, opts.kind == DefKind::Enum),
            out@ == start + collect(opts.members@.take(i as int), fm),
        decreases opts.members@.len() - i,
    {
        proof {
            lemma_collect_take(opts.members@, fm, i as int);
        }
        let ghost before = out@;
        push_spaces(out, inner);
        push_member(out, &opts.members[i], is_enum);
        assert(out@ =~= before + fm(opts.members@[i as int]));
        i = i + 1;
    }
    assert(opts.members@.take(i as int) =~= opts.members@);
}

/// Appends the body block contents.
fn push_body(out: &mut String, opts: &TemplateOptions)
    requires
        opts.indent + 4 <= usize::MAX,
    ensures
        final(out)@ == old(out)@ + body_text(*opts),
{
    let ghost b0 = out@;
    push_doc(out, opts);
    let ghost b1 = out@;
    push_exposes(out, opts);
    let ghost b2 = out@;
    match &opts.filter {
        Some(f) => {
            push_spaces(out, opts.indent + 4);
            push_str(out, "filter @type istype ");
            push_str(out, f.as_str());
            push_str(out, ";\n");
        },
        None => {},
    }
    let ghost b3 = out@;
    assert(b3 =~= b2 + opt_text(
        opts.filter,
        spaces((opts.indent + 4) as nat) + "filter @type istype "@,
        ";\n"@,
    ));
    push_members(out, opts);
    assert(out@ =~= b0 + body_text(*opts));
}

/// Generate SysML v2 text for a definition template.
pub fn generate_template(opts: &TemplateOptions) -> (r: String)
    requires
        opts.indent + 4 <= usize::MAX,
    ensures
        r@ == template_text(*opts),
{
    let mut out = String::new();
    push_header(&mut out, opts);
    let ghost head = out@;
    let with_body = opts.doc.is_some() || opts.members.len() > 0 || opts.exposes.len() > 0
        || opts.filter.is_some();
    if with_body {
        push_str(&mut out, " {\n");
        push_body(&mut out, opts);
        push_spaces(&mut out, opts.indent);
        push_str(&mut out, "}\n");
        assert(out@ =~= head + (" {\n"@ + body_text(*opts) + spaces(opts.indent as nat) + "}\n"@));
    } else {
        push_str(&mut out, ";\n");
    }
    out
}

/// The text of a connection usage with a connect binding.
pub open spec fn connection_usage_text(
    name: Seq<char>,
    type_ref: Option<Seq<char>>,
    endpoints: Seq<char>,
    indent: nat,
) -> Seq<char> {
    spaces(indent) + "connection "@ + name + (match type_ref {
        Some(t) => " : "@ + t,
        None => seq![],
    }) + "\n"@ + spaces(indent + 4) + "connect "@ + endpoints + ";\n"@
}

/// Generate a connection usage with connect binding, e.g.
/// `connection c : C` then an indented `connect a.x to b.y;`.
pub fn generate_connection_usage(
    name: &str,
    type_ref: Option<&str>,
    connect_endpoints: &str,
    indent: usize,
) -> (r: String)
    requires
        indent + 4 <= usize::MAX,
    ensures
        r@ == connection_usage_text(
            name@,
            match type_ref {
                Some(t) => Some(t@),
                None => None,
            },
            connect_endpoints@,
            indent as nat,
        ),
{
    let mut out = String::new();
    push_spaces(&mut out, indent);
    push_str(&mut out, "connection ");
    push_str(&mut out, name);
    match type_ref {
        Some(t) => {
            push_str(&mut out, " : ");
            push_str(&mut out, t);
        },
        None => {},
    }
    push_str(&mut out, "\n");
    push_spaces(&mut out, indent + 4);
    push_str(&mut out, "connect ");
    push_str(&mut out, connect_endpoints);
    push_str(&mut out, ";\n");
    proof {
        let tr = match type_ref {
            Some(t) => Some(t@),
            None => None,
        };
        assert(out@ =~= connection_usage_text(name@, tr, connect_endpoints@, indent as nat));
    }
    out
}

/// Generate a satisfy or verify relationship statement, e.g.
/// `satisfy requirement R by X;`.
pub fn generate_relationship(rel_kind: &str, requirement: &str, by: &str, indent: usize) -> (r:
    String)
    ensures
        r@ == spaces(indent as nat) + rel_kind@ + " requirement "@ + requirement@ + " by "@ + by@
            + ";\n"@,
{
    let mut out = String::new();
    push_spaces(&mut out, indent);
    push_str(&mut out, rel_kind);
    push_str(&mut out, " requirement ");
    push_str(&mut out, requirement);
    push_str(&mut out, " by ");
    push_str(&mut out, by);
    push_str(&mut out, ";\n");
    out
}

/// Generate an import statement, e.g. `import P::*;`.
pub fn generate_import(import_path: &str, indent: usize) -> (r: String)
    ensures
        r@ == spaces(indent as nat) + "import "@ + import_path@ + ";\n"@,
{
    let mut out = String::new();
    push_spaces(&mut out, indent);
    push_str(&mut out, "import ");
    push_str(&mut out, import_path);
    push_str(&mut out, ";\n");
    out
}

/// The pieces of `name[:Type[mult]]`: name, optional type, optional multiplicity.
pub open spec fn name_type_mult(s: Seq<char>) -> (Seq<char>, Option<Seq<char>>, Option<Seq<char>>) {
    match split_once(s, ':') {
        Some((name, rest)) => match split_once(rest, '[') {
            Some((t, m)) => (name, Some(t), Some(strip_trailing(m, ']'))),
            None => (name, Some(rest), None),
        },
        None => match split_once(s, '[') {
            Some((name, m)) => (name, None, Some(strip_trailing(m, ']'))),
            None => (s, None, None),
        },
    }
}

/// Parse `name[:Type[mult]]` into (name, type, multiplicity).
pub fn parse_name_type_mult(s: &Vec<char>) -> (r: (String, Option<String>, Option<String>))
    ensures
        r.0@ == name_type_mult(s@).0,
        match (r.1, name_type_mult(s@).1) {
            (Some(a), Some(b)) => a@ == b,
            (None, None) => true,
            _ => false,
        },
        match (r.2, name_type_mult(s@).2) {
            (Some(a), Some(b)) => a@ == b,
            (None, None) => true,
            _ => false,
        },
{
    match split_once_exec(s, ':') {
        Some((name, rest)) => match split_once_exec(&rest, '[') {
            Some((t, m)) => {
                let m2 = strip_trailing_exec(&m, ']');
                (string_of(&name), Some(string_of(&t)), Some(string_of(&m2)))
            },
            None => (string_of(&name), Some(string_of(&rest)), None),
        },
        None => match split_once_exec(s, '[') {
            Some((name, m)) => {
                let m2 = strip_trailing_exec(&m, ']');
                (string_of(&name), None, Some(string_of(&m2)))
            },
            None => (string_of(s), None, None),
        },
    }
}

/// The view of a member spec: kind, name, type, direction, multiplicity, raw.
pub type MemberView = (Seq<char>, Seq<char>, Option<Seq<char>>, Option<Seq<char>>, Option<Seq<char>>, bool);

/// The view of an optional string.
pub open spec fn ov(o: Option<String>) -> Option<Seq<char>> {
    match o {
        Some(s) => Some(s@),
        None => None,
    }
}

/// The view of a member spec.
pub open spec fn member_view(m: MemberSpec) -> MemberView {
    (m.usage_kind@, m.name@, ov(m.type_ref), ov(m.direction), ov(m.multiplicity), m.raw_line)
}

/// Leading words that make a member a verbatim line.
pub open spec fn is_raw_keyword(w: Seq<char>) -> bool {
    w == "transition"@ || w == "entry"@ || w == "exit"@ || w == "first"@ || w == "accept"@
        || w == "send"@
}

/// Whether `rest` reads as a constraint expression rather than a typed usage.
pub open spec fn is_constraint_expr(rest: Seq<char>) -> bool {
    !contains(rest, ":"@) && (contains(rest, ">="@) || contains(rest, "<="@) || contains(
        rest,
        "=="@,
    ) || contains(rest, " and "@) || contains(rest, " or "@))
}

/// What `parse_member_spec` yields for a member spec string.
pub open spec fn member_spec_of(s: Seq<char>) -> Option<MemberView> {
    let t = trim(s);
    let ws = words(t);
    let first = if ws.len() > 0 {
        ws[0]
    } else {
        seq![]
    };
    let fw = strip_trailing(first, ';');
    if t.len() == 0 {
        None
    } else if is_raw_keyword(fw) {
        Some((seq![], t, None, None, None, true))
    } else if fw == "constraint"@ && is_constraint_expr(trim(t.skip(10))) {
        Some((seq![], trim(t.skip(10)), None, None, None, true))
    } else {
        let idx: int = if ws.len() > 0 && (ws[0] == "in"@ || ws[0] == "out"@ || ws[0] == "inout"@) {
            1
        } else {
            0
        };
        let dir = if idx == 1 {
            Some(ws[0])
        } else {
            None
        };
        if ws.len() <= idx + 1 {
            None
        } else {
            let ntm = name_type_mult(ws[idx + 1]);
            Some((ws[idx], ntm.0, ntm.1, dir, ntm.2, false))
        }
    }
}

/// A spec with an empty kind and no type, direction or multiplicity.
fn raw_member(name: &Vec<char>) -> (r: MemberSpec)
    ensures
        member_view(r) == (Seq::<char>::empty(), name@, None::<Seq<char>>, None::<Seq<char>>, None::<Seq<char>>, true),
{
    MemberSpec {
        usage_kind: String::new(),
        name: string_of(name),
        type_ref: None,
        direction: None,
        multiplicity: None,
        raw_line: true,
    }
}

/// Whether two character buffers hold the given literal.
fn is_lit(v: &Vec<char>, lit: &str) -> (r: bool)
    ensures
        r == (v@ == lit@),
{
    let l = chars_of(lit);
    crate::text::seq_eq(v, &l)
}

/// Parse a member spec string like `part engine:Engine` or `in port fuelIn:FuelPort[2]`.
///
/// Lines starting with `transition`, `entry`, `exit`, `first`, `accept` or
/// `send`, and `constraint` followed by an expression, are kept verbatim.
pub fn parse_member_spec(s: &str) -> (r: Option<MemberSpec>)
    ensures
        match (r, member_spec_of(s@)) {
            (Some(m), Some(v)) => member_view(m) == v,
            (None, None) => true,
            _ => false,
        },
{
    let cs = chars_of(s);
    let t = trim_chars(&cs);
    if t.len() == 0 {
        return None;
    }
    let ws = words_exec(&t);
    let first: Vec<char> = if ws.len() > 0 {
        slice_chars(&ws[0], 0, ws[0].len())
    } else {
        Vec::new()
    };
    assert(ws.len() > 0 ==> first@ =~= ws@[0]@);
    assert(ws.len() == 0 ==> first@ =~= Seq::<char>::empty());
    let fw = strip_trailing_exec(&first, ';');
    if is_lit(&fw, "transition") || is_lit(&fw, "entry") || is_lit(&fw, "exit") || is_lit(
        &fw,
        "first",
    ) || is_lit(&fw, "accept") || is_lit(&fw, "send") {
        return Some(raw_member(&t));
    }
    if is_lit(&fw, "constraint") {
        proof {
            reveal_strlit("constraint");
            lemma_trim_no_leading(cs@);
            lemma_trim_start(t@);
            lemma_word_len(t@);
            lemma_strip_trailing_prefix(first@, ';');
            assert(first@ == t@.take(word_len(t@) as int));
            assert(t@.take(10) =~= "constraint"@);
        }
        let tail = slice_chars(&t, 10, t.len());
        assert(tail@ =~= t@.skip(10));
        let rest = trim_chars(&tail);
        let colon = chars_of(":");
        let ge = chars_of(">=");
        let le = chars_of("<=");
        let eq = chars_of("==");
        let and = chars_of(" and ");
        let or = chars_of(" or ");
        if !contains_exec(&rest, &colon) && (contains_exec(&rest, &ge) || contains_exec(&rest, &le)
            || contains_exec(&rest, &eq) || contains_exec(&rest, &and) || contains_exec(
            &rest,
            &or,
        )) {
            return Some(raw_member(&rest));
        }
    }
    let mut idx: usize = 0;
    let mut direction: Option<String> = None;
    if ws.len() > 0 && (is_lit(&ws[0], "in") || is_lit(&ws[0], "out") || is_lit(&ws[0], "inout")) {
        direction = Some(string_of(&ws[0]));
        idx = 1;
    }
    if ws.len() <= idx + 1 {
        return None;
    }
    let usage_kind = string_of(&ws[idx]);
    let (name, type_ref, multiplicity) = parse_name_type_mult(&ws[idx + 1]);
    Some(MemberSpec { usage_kind, name, type_ref, direction, multiplicity, raw_line: false })
}

/// The report line of a syntax error: `line {row}: {message} ({context})`.
pub open spec fn syntax_error_line(e: crate::model::SyntaxError) -> Seq<char> {
    "line "@ + crate::text::decimal(e.span.start_row as nat) + ": "@ + e.message@ + " ("@ + e.context@ + ")"@
}

/// The verdict on a parsed generated text: `Ok` without syntax errors,
/// otherwise one report line per error, in order.
pub fn validate_parsed(model: &crate::model::Model) -> (r: Result<(), Vec<String>>)
    ensures
        match r {
            Ok(()) => model.syntax_errors@.len() == 0,
            Err(lines) => model.syntax_errors@.len() > 0 && lines.deep_view() == model.syntax_errors@.map_values(
                |e: crate::model::SyntaxError| syntax_error_line(e),
            ),
        },
{
    if model.syntax_errors.len() == 0 {
        return Ok(());
    }
    let mut lines: Vec<String> = Vec::new();
    let mut i: usize = 0;
    while i < model.syntax_errors.len()
        invariant
            i <= model.syntax_errors@.len(),
            lines.deep_view() == model.syntax_errors@.take(i as int).map_values(
                |e: crate::model::SyntaxError| syntax_error_line(e),
            ),
        decreases model.syntax_errors@.len() - i,
    {
        let e = &model.syntax_errors[i];
        let mut l = own("line ");
        let row = crate::text::usize_to_decimal(e.span.start_row);
        push_str(&mut l, row.as_str());
        push_str(&mut l, ": ");
        push_str(&mut l, e.message.as_str());
        push_str(&mut l, " (");
        push_str(&mut l, e.context.as_str());
        push_str(&mut l, ")");
        let ghost before = lines.deep_view();
        lines.push(l);
        assert(lines.deep_view() =~= before.push(syntax_error_line(*e)));
        assert(model.syntax_errors@.take(i + 1).map_values(|e: crate::model::SyntaxError| syntax_error_line(e))
            =~= model.syntax_errors@.take(i as int).map_values(|e: crate::model::SyntaxError| syntax_error_line(e)).push(
            syntax_error_line(*e),
        ));
        i = i + 1;
    }
    assert(model.syntax_errors@.take(model.syntax_errors@.len() as int) =~= model.syntax_errors@);
    Err(lines)
}

} // verus!
