//! Checks for unused definitions and unresolved type references, with
//! "did you mean" suggestions by edit distance.
use vstd::prelude::*;
use crate::checks::Check;
use crate::diagnostic::codes;
use crate::diagnostic::{message3, Diagnostic};
use crate::cache::{filter_seq, lemma_filter_take};
use crate::checks::is_diag;
use crate::diagnostic::Severity;
use crate::model::{
    collect, def_kind_label, lemma_collect_take, referenced_seq, simple_name, simple_name_spec,
    Allocation, Connection, DefKind, Definition, Model, Span, TypeReference,
};
use crate::text::{own, push_str, starts_with, starts_with_exec, chars_of};
use vstd::string::StringSliceAdditionalSpecFns;
use vstd::utf8::encode_utf8;

verus! {

/// Levenshtein edit distance between two byte strings.
pub open spec fn lev(a: Seq<u8>, b: Seq<u8>) -> nat
    decreases a.len() + b.len(),
{
    if a.len() == 0 {
        b.len()
    } else if b.len() == 0 {
        a.len()
    } else {
        let x = lev(a.drop_last(), b) + 1;
        let y = lev(a, b.drop_last()) + 1;
        let z = lev(a.drop_last(), b.drop_last()) + (if a.last() == b.last() {
            0nat
        } else {
            1nat
        });
        min_nat(min_nat(x, y), z)
    }
}

/// The smaller of two naturals.
pub open spec fn min_nat(x: nat, y: nat) -> nat {
    if x <= y {
        x
    } else {
        y
    }
}

/// The larger of two naturals.
pub open spec fn max_nat(x: nat, y: nat) -> nat {
    if x >= y {
        x
    } else {
        y
    }
}

/// The edit distance never exceeds the longer length.
pub proof fn lemma_lev_bound(a: Seq<u8>, b: Seq<u8>)
    ensures
        lev(a, b) <= max_nat(a.len(), b.len()),
    decreases a.len() + b.len(),
{
    if a.len() > 0 && b.len() > 0 {
        lemma_lev_bound(a.drop_last(), b.drop_last());
    }
}

/// The distance from a string to itself is zero.
pub proof fn law_lev_identity(a: Seq<u8>)
    ensures
        lev(a, a) == 0,
    decreases a.len(),
{
    if a.len() > 0 {
        law_lev_identity(a.drop_last());
    }
}

/// The distance from or to the empty string is the other length.
pub proof fn law_lev_empty(a: Seq<u8>)
    ensures
        lev(a, Seq::<u8>::empty()) == a.len(),
        lev(Seq::<u8>::empty(), a) == a.len(),
{
}

/// Levenshtein edit distance between two strings, counted over their UTF-8 bytes.
pub fn levenshtein(a: &str, b: &str) -> (r: usize)
    requires
        a.spec_bytes().len() < usize::MAX,
        b.spec_bytes().len() < usize::MAX,
    ensures
        r == lev(a.spec_bytes(), b.spec_bytes()),
{
    let ab = a.as_bytes();
    let bb = b.as_bytes();
    let n = ab.len();
    let m = bb.len();
    let ghost sa = ab@;
    let ghost sb = bb@;
    let mut prev: Vec<usize> = Vec::new();
    let mut j: usize = 0;
    while j <= m
        invariant
            m == sb.len(),
            m < usize::MAX,
            j <= m + 1,
            prev@.len() == j,
            forall|k: int| 0 <= k < j ==> prev@[k] == lev(sa.take(0), sb.take(k)),
        decreases m + 1 - j,
    {
        assert(sa.take(0).len() == 0);
        prev.push(j);
        j = j + 1;
    }
    let mut curr: Vec<usize> = Vec::new();
    let mut j: usize = 0;
    while j <= m
        invariant
            m < usize::MAX,
            j <= m + 1,
            curr@.len() == j,
        decreases m + 1 - j,
    {
        curr.push(0);
        j = j + 1;
    }
    let mut i: usize = 1;
    while i <= n
        invariant
            n == sa.len(),
            m == sb.len(),
            n < usize::MAX,
            m < usize::MAX,
            ab@ == sa,
            bb@ == sb,
            1 <= i <= n + 1,
            prev@.len() == m + 1,
            curr@.len() == m + 1,
            forall|k: int| 0 <= k <= m ==> prev@[k] == lev(sa.take(i - 1), sb.take(k)),
        decreases n + 1 - i,
    {
        let ghost ai = sa.take(i as int);
        assert(ai.drop_last() =~= sa.take(i - 1));
        assert(sb.take(0).len() == 0);
        curr.set(0, i);
        let mut j: usize = 1;
        while j <= m
            invariant
                n == sa.len(),
                m == sb.len(),
                n < usize::MAX,
                m < usize::MAX,
                ab@ == sa,
                bb@ == sb,
                1 <= i <= n,
                1 <= j <= m + 1,
                ai == sa.take(i as int),
                ai.drop_last() == sa.take(i - 1),
                prev@.len() == m + 1,
                curr@.len() == m + 1,
                forall|k: int| 0 <= k <= m ==> prev@[k] == lev(sa.take(i - 1), sb.take(k)),
                forall|k: int| 0 <= k < j ==> curr@[k] == lev(ai, sb.take(k)),
            decreases m + 1 - j,
        {
            let ghost bj = sb.take(j as int);
            assert(bj.drop_last() =~= sb.take(j - 1));
            assert(ai.last() == sa[i - 1]);
            assert(bj.last() == sb[j - 1]);
            proof {
                lemma_lev_bound(sa.take(i - 1), sb.take(j as int));
                lemma_lev_bound(ai, sb.take(j - 1));
                lemma_lev_bound(sa.take(i - 1), sb.take(j - 1));
            }
            let cost: usize = if ab[i - 1] == bb[j - 1] {
                0
            } else {
                1
            };
            let x = prev[j] + 1;
            let y = curr[j - 1] + 1;
            let z = prev[j - 1] + cost;
            let xy = if x <= y {
                x
            } else {
                y
            };
            let v = if xy <= z {
                xy
            } else {
                z
            };
            curr.set(j, v);
            j = j + 1;
        }
        std::mem::swap(&mut prev, &mut curr);
        i = i + 1;
    }
    assert(sa.take(n as int) =~= sa);
    assert(sb.take(m as int) =~= sb);
    prev[m]
}

/// Whether candidate `c` is close enough to `name` to be suggested.
pub open spec fn eligible(name: Seq<u8>, c: Seq<u8>, max_dist: nat) -> bool {
    &&& (if c.len() >= name.len() {
        c.len() - name.len()
    } else {
        name.len() - c.len()
    }) <= max_dist
    &&& 0 < lev(name, c) <= max_dist
}

/// Index of the suggestion among `cands`: the first candidate with the
/// smallest distance among the eligible ones.
pub open spec fn best_index(name: Seq<u8>, cands: Seq<Seq<char>>, max_dist: nat) -> Option<int>
    decreases cands.len(),
{
    if cands.len() == 0 {
        None
    } else {
        let prev = best_index(name, cands.drop_last(), max_dist);
        let c = encode_utf8(cands.last());
        if eligible(name, c, max_dist) && (match prev {
            None => true,
            Some(p) => lev(name, c) < lev(name, encode_utf8(cands[p])),
        }) {
            Some(cands.len() - 1)
        } else {
            prev
        }
    }
}

/// The texts of a list of string slices.
pub open spec fn views(s: Seq<&str>) -> Seq<Seq<char>> {
    Seq::new(s.len(), |i: int| s[i]@)
}

/// The distance limit for a name of `n` bytes: at most 3 edits, and at
/// most half the name's length.
pub open spec fn max_dist_for(n: nat) -> nat {
    if n / 2 <= 3 {
        n / 2
    } else {
        3
    }
}

/// `best_index` stays within bounds.
proof fn lemma_best_index_bounds(name: Seq<u8>, cands: Seq<Seq<char>>, max_dist: nat)
    ensures
        best_index(name, cands, max_dist) matches Some(k) ==> 0 <= k < cands.len(),
    decreases cands.len(),
{
    if cands.len() > 0 {
        lemma_best_index_bounds(name, cands.drop_last(), max_dist);
    }
}

/// Find the closest match for `name` among `candidates` by edit distance.
///
/// Returns `None` when no candidate is within the limit (at most 3 edits,
/// and at most half the name's length) or when the only close candidates
/// equal `name`.
pub fn find_closest_match<'a>(name: &str, candidates: &[&'a str]) -> (r: Option<&'a str>)
    requires
        name.spec_bytes().len() + 8 < usize::MAX,
    ensures
        match best_index(
            name.spec_bytes(),
            views(candidates@),
            max_dist_for(name.spec_bytes().len()),
        ) {
            Some(k) => r matches Some(c) && c@ == candidates@[k]@,
            None => r is None,
        },
{
    let nlen = name.len();
    let half = nlen / 2;
    let max_dist = if half <= 3 {
        half
    } else {
        3
    };
    let ghost md = max_dist_for(name.spec_bytes().len());
    assert(max_dist == md);
    let mut best: Option<(&'a str, usize)> = None;
    let ghost mut best_k: int = 0;
    let mut i: usize = 0;
    while i < candidates.len()
        invariant
            nlen == name.spec_bytes().len(),
            nlen + 8 < usize::MAX,
            max_dist == md,
            md <= 3,
            md == max_dist_for(name.spec_bytes().len()),
            i <= candidates@.len(),
            match best_index(name.spec_bytes(), views(candidates@.take(i as int)), md) {
                Some(k) => best matches Some((c, d)) && k == best_k && c@ == candidates@[k]@
                    && d == lev(name.spec_bytes(), candidates@[k].spec_bytes()) && 0 <= k < i,
                None => best is None,
            },
        decreases candidates@.len() - i,
    {
        let candidate: &'a str = candidates[i];
        let clen = candidate.as_bytes().len();
        let ghost pre = views(candidates@.take(i as int));
        let ghost post = views(candidates@.take(i + 1));
        assert(post.drop_last() =~= pre);
        assert(post.last() == candidate@);
        let len_diff = if clen > nlen {
            clen - nlen
        } else {
            nlen - clen
        };
        let ghost nb = name.spec_bytes();
        let ghost prev_best = best_index(nb, pre, md);
        proof {
            lemma_best_index_bounds(nb, pre, md);
            if let Some(k) = prev_best {
                assert(post[k] == candidates@[k]@);
            }
        }
        assert(clen == candidate.spec_bytes().len());
        if len_diff <= max_dist {
            assert(clen <= nlen + 4);
            let dist = levenshtein(name, candidate);
            let better = match best {
                None => true,
                Some((_, d)) => dist < d,
            };
            if dist > 0 && dist <= max_dist && better {
                best = Some((candidate, dist));
                proof {
                    best_k = i as int;
                }
            }
        }
        i = i + 1;
    }
    assert(candidates@.take(candidates@.len() as int) =~= candidates@);
    match best {
        Some((s, _)) => Some(s),
        None => None,
    }
}

/// Standard library types that are always available.
pub open spec fn builtin_types() -> Seq<Seq<char>> {
    seq![
        "Boolean"@, "String"@, "Integer"@, "Real"@, "Natural"@, "Complex"@, "Rational"@,
        "ScalarValues"@, "MassValue"@, "LengthValue"@, "TimeValue"@, "PowerValue"@,
        "ForceValue"@, "PressureValue"@, "TemperatureValue"@, "VelocityValue"@,
        "AccelerationValue"@, "AreaValue"@, "VolumeValue"@, "DensityValue"@, "EnergyValue"@,
        "TorqueValue"@, "AngularVelocityValue"@, "FrequencyValue"@, "ElectricCurrentValue"@,
        "VoltageValue"@, "ResistanceValue"@, "CapacitanceValue"@, "ISQ"@, "SI"@, "kg"@, "m"@,
        "s"@, "A"@, "K"@, "mol"@, "cd"@, "N"@, "Pa"@, "J"@, "W"@, "Hz"@, "Anything"@,
        "Nothing"@, "Object"@, "Occurrence"@, "Item"@, "Part"@, "Connection"@, "Interface"@,
        "Port"@, "Flow"@, "Action"@, "State"@, "Constraint"@, "Requirement"@, "Calculation"@,
        "Analysis"@, "Verification"@, "UseCase"@, "View"@, "Viewpoint"@, "Rendering"@,
        "Attribute"@, "Enum"@, "Package"@, "Feature"@, "Classifier"@, "Type"@, "TradeStudy"@,
        "MaximizeObjective"@, "MinimizeObjective"@, "VerdictKind"@, "PassFail"@,
        "SampledFunction"@,
    ]
}

/// Prefixes of standard-library packages whose qualified names always resolve.
pub open spec fn stdlib_prefixes() -> Seq<Seq<char>> {
    seq![
        "ISQ::"@, "SI::"@, "ScalarValues::"@, "Quantities::"@, "MeasurementReferences::"@,
        "SampledFunctions::"@, "VerificationCases::"@, "TradeStudies::"@, "BaseFunctions::"@,
        "ControlFunctions::"@, "DataFunctions::"@, "NumericalFunctions::"@,
        "SequenceFunctions::"@, "TrigFunctions::"@,
    ]
}

/// `name` is qualified by a standard-library package.
pub open spec fn is_stdlib(name: Seq<char>) -> bool {
    exists|k: int| 0 <= k < stdlib_prefixes().len() && starts_with(name, #[trigger] stdlib_prefixes()[k])
}

/// Whether `name` is qualified by a standard-library package.
pub fn is_qualified_stdlib(name: &str) -> (r: bool)
    ensures
        r == is_stdlib(name@),
{
    let prefixes: Vec<&str> = vec![
        "ISQ::", "SI::", "ScalarValues::", "Quantities::", "MeasurementReferences::",
        "SampledFunctions::", "VerificationCases::", "TradeStudies::", "BaseFunctions::",
        "ControlFunctions::", "DataFunctions::", "NumericalFunctions::", "SequenceFunctions::",
        "TrigFunctions::",
    ];
    assert(views(prefixes@) =~= stdlib_prefixes());
    let cs = chars_of(name);
    let mut i: usize = 0;
    while i < prefixes.len()
        invariant
            i <= prefixes@.len(),
            views(prefixes@) == stdlib_prefixes(),
            cs@ == name@,
            forall|k: int| 0 <= k < i ==> !starts_with(name@, #[trigger] stdlib_prefixes()[k]),
        decreases prefixes@.len() - i,
    {
        let p = chars_of(prefixes[i]);
        assert(p@ == stdlib_prefixes()[i as int]);
        if starts_with_exec(&cs, &p) {
            return true;
        }
        i = i + 1;
    }
    false
}

/// The names that resolve: definitions, usages, built-in types and names
/// resolved from imports, in that order.
pub open spec fn known_seq(m: Model) -> Seq<Seq<char>> {
    Seq::new(m.definitions@.len(), |i: int| m.definitions@[i].name@) + Seq::new(
        m.usages@.len(),
        |i: int| m.usages@[i].name@,
    ) + builtin_types() + Seq::new(m.resolved_imports@.len(), |i: int| m.resolved_imports@[i]@)
}

/// The "did you mean" hint for an unresolved simple name, if a close known name exists.
pub open spec fn suggestion_for(known: Seq<Seq<char>>, name: Seq<char>) -> Option<Seq<char>> {
    let nb = encode_utf8(name);
    if nb.len() + 8 < usize::MAX {
        match best_index(nb, known, max_dist_for(nb.len())) {
            Some(k) => Some("did you mean `"@ + known[k] + "`?"@),
            None => None,
        }
    } else {
        None
    }
}

/// What a reported unresolved reference carries: span, code, message, suggestion.
pub type Finding = (Span, &'static str, Seq<char>, Option<Seq<char>>);

/// The finding for reference `raw`, if it does not resolve.
pub open spec fn unresolved(
    known: Seq<Seq<char>>,
    raw: Seq<char>,
    span: Span,
    code: &'static str,
    msg: Seq<char>,
) -> Seq<Finding> {
    let simple = simple_name_spec(raw);
    if !known.contains(simple) && !is_stdlib(raw) {
        seq![(span, code, msg, suggestion_for(known, simple))]
    } else {
        seq![]
    }
}

/// The message for an unresolved connection or allocation end.
pub open spec fn target_message(raw: Seq<char>) -> Seq<char> {
    "reference `"@ + raw + "` does not resolve to any definition or usage"@
}

/// The message for an unresolved type reference.
pub open spec fn type_message(raw: Seq<char>) -> Seq<char> {
    "type `"@ + raw + "` is not defined in this file"@
}

/// All findings of the unresolved-reference check, in report order: type
/// references, then connection ends, then allocation ends.
pub open spec fn unresolved_findings(m: Model) -> Seq<Finding> {
    let known = known_seq(m);
    collect(
        m.type_references@,
        |t: TypeReference|
            unresolved(known, t.name@, t.span, codes::UNRESOLVED_TYPE, type_message(t.name@)),
    ) + collect(
        m.connections@,
        |c: Connection|
            unresolved(known, c.source@, c.span, codes::UNRESOLVED_TARGET, target_message(c.source@))
                + unresolved(known, c.target@, c.span, codes::UNRESOLVED_TARGET, target_message(c.target@)),
    ) + collect(
        m.allocations@,
        |a: Allocation|
            unresolved(known, a.source@, a.span, codes::UNRESOLVED_TARGET, target_message(a.source@))
                + unresolved(known, a.target@, a.span, codes::UNRESOLVED_TARGET, target_message(a.target@)),
    )
}

/// `d` reports finding `f` as a warning for `file`.
pub open spec fn reports(d: Diagnostic, file: Seq<char>, f: Finding) -> bool {
    &&& d.file@ == file
    &&& d.span == f.0
    &&& d.severity == Severity::Warning
    &&& d.code == f.1
    &&& d.message@ == f.2
    &&& match (d.suggestion, f.3) {
        (Some(s), Some(t)) => s@ == t,
        (None, None) => true,
        _ => false,
    }
}

/// The diagnostics in `out` report `fs` in order.
pub open spec fn reports_all(out: Seq<Diagnostic>, file: Seq<char>, fs: Seq<Finding>) -> bool {
    out.len() == fs.len() && forall|i: int| 0 <= i < out.len() ==> reports(#[trigger] out[i], file, fs[i])
}

/// The known names of a model as string slices, in `known_seq` order.
fn known_names(m: &Model) -> (r: Vec<&str>)
    ensures
        views(r@) == known_seq(*m),
{
    let mut r: Vec<&str> = Vec::new();
    let mut i: usize = 0;
    while i < m.definitions.len()
        invariant
            i <= m.definitions@.len(),
            views(r@) == Seq::new(i as nat, |k: int| m.definitions@[k].name@),
        decreases m.definitions@.len() - i,
    {
        let ghost old = views(r@);
        r.push(m.definitions[i].name.as_str());
        assert(views(r@) =~= old.push(m.definitions@[i as int].name@));
        i = i + 1;
        assert(views(r@) =~= Seq::new(i as nat, |k: int| m.definitions@[k].name@));
    }
    let ghost a = views(r@);
    let mut i: usize = 0;
    while i < m.usages.len()
        invariant
            i <= m.usages@.len(),
            views(r@) == a + Seq::new(i as nat, |k: int| m.usages@[k].name@),
        decreases m.usages@.len() - i,
    {
        let ghost old = views(r@);
        r.push(m.usages[i].name.as_str());
        assert(views(r@) =~= old.push(m.usages@[i as int].name@));
        i = i + 1;
        assert(views(r@) =~= a + Seq::new(i as nat, |k: int| m.usages@[k].name@));
    }
    let ghost b = views(r@);
    let builtins: Vec<&str> = vec![
        "Boolean", "String", "Integer", "Real", "Natural", "Complex", "Rational",
        "ScalarValues", "MassValue", "LengthValue", "TimeValue", "PowerValue", "ForceValue",
        "PressureValue", "TemperatureValue", "VelocityValue", "AccelerationValue", "AreaValue",
        "VolumeValue", "DensityValue", "EnergyValue", "TorqueValue", "AngularVelocityValue",
        "FrequencyValue", "ElectricCurrentValue", "VoltageValue", "ResistanceValue",
        "CapacitanceValue", "ISQ", "SI", "kg", "m", "s", "A", "K", "mol", "cd", "N", "Pa", "J",
        "W", "Hz", "Anything", "Nothing", "Object", "Occurrence", "Item", "Part", "Connection",
        "Interface", "Port", "Flow", "Action", "State", "Constraint", "Requirement",
        "Calculation", "Analysis", "Verification", "UseCase", "View", "Viewpoint", "Rendering",
        "Attribute", "Enum", "Package", "Feature", "Classifier", "Type", "TradeStudy",
        "MaximizeObjective", "MinimizeObjective", "VerdictKind", "PassFail", "SampledFunction",
    ];
    assert(views(builtins@) =~= builtin_types());
    let mut i: usize = 0;
    while i < builtins.len()
        invariant
            i <= builtins@.len(),
            views(builtins@) == builtin_types(),
            views(r@) == b + builtin_types().take(i as int),
        decreases builtins@.len() - i,
    {
        let ghost old = views(r@);
        r.push(builtins[i]);
        assert(views(r@) =~= old.push(builtin_types()[i as int]));
        i = i + 1;
        assert(views(r@) =~= b + builtin_types().take(i as int));
    }
    assert(builtin_types().take(builtins@.len() as int) =~= builtin_types());
    let ghost c = views(r@);
    let mut i: usize = 0;
    while i < m.resolved_imports.len()
        invariant
            i <= m.resolved_imports@.len(),
            views(r@) == c + Seq::new(i as nat, |k: int| m.resolved_imports@[k]@),
        decreases m.resolved_imports@.len() - i,
    {
        let ghost old = views(r@);
        r.push(m.resolved_imports[i].as_str());
        assert(views(r@) =~= old.push(m.resolved_imports@[i as int]@));
        i = i + 1;
        assert(views(r@) =~= c + Seq::new(i as nat, |k: int| m.resolved_imports@[k]@));
    }
    assert(views(r@) =~= known_seq(*m));
    r
}

/// Whether `x` is among `known`.
fn known_contains(known: &Vec<&str>, x: &str) -> (r: bool)
    ensures
        r == views(known@).contains(x@),
{
    let r = crate::cache::contains_str(known, x);
    proof {
        if r {
            let k = choose|k: int| 0 <= k < known@.len() && (#[trigger] known@[k])@ == x@;
            assert(views(known@)[k] == x@);
        }
        if views(known@).contains(x@) {
            let k = choose|k: int| 0 <= k < views(known@).len() && views(known@)[k] == x@;
            assert(known@[k]@ == x@);
        }
    }
    r
}

/// The suggestion text for `simple` among `known`.
fn suggestion(known: &Vec<&str>, simple: &str) -> (r: Option<String>)
    ensures
        match (r, suggestion_for(views(known@), simple@)) {
            (Some(s), Some(t)) => s@ == t,
            (None, None) => true,
            _ => false,
        },
{
    let nb = simple.as_bytes().len();
    assert(nb == encode_utf8(simple@).len());
    if nb < usize::MAX - 8 {
        assert(simple.len() == simple.spec_bytes().len());
        let cands = known.as_slice();
        assert(cands@ == known@);
        proof {
            lemma_best_index_bounds(encode_utf8(simple@), views(known@), max_dist_for(encode_utf8(simple@).len()));
        }
        match find_closest_match(simple, cands) {
            Some(c) => Some(message3("did you mean `", c, "`?")),
            None => None,
        }
    } else {
        None
    }
}

/// Appending diagnostics that report `ys` to ones that report `xs`.
proof fn lemma_reports_extend(
    old: Seq<Diagnostic>,
    new: Seq<Diagnostic>,
    file: Seq<char>,
    xs: Seq<Finding>,
    ys: Seq<Finding>,
)
    requires
        reports_all(old, file, xs),
        new.len() == old.len() + ys.len(),
        forall|i: int| 0 <= i < old.len() ==> new[i] == old[i],
        forall|i: int| 0 <= i < ys.len() ==> reports(#[trigger] new[old.len() + i], file, ys[i]),
    ensures
        reports_all(new, file, xs + ys),
{
    assert forall|i: int| 0 <= i < new.len() implies reports(#[trigger] new[i], file, (xs + ys)[i]) by {
        if i >= old.len() {
            let j = i - old.len();
            assert(reports(new[old.len() + j], file, ys[j]));
        }
    }
}

/// Reports `name` if it resolves neither to a known name nor to the
/// standard library.
fn check_ref_exists(
    name: &str,
    span: &Span,
    known: &Vec<&str>,
    file: &str,
    code: &'static str,
    msg: String,
    diagnostics: &mut Vec<Diagnostic>,
)
    ensures
        final(diagnostics)@.len() == old(diagnostics)@.len() + unresolved(
            views(known@),
            name@,
            *span,
            code,
            msg@,
        ).len(),
        forall|i: int|
            0 <= i < old(diagnostics)@.len() ==> final(diagnostics)@[i] == old(diagnostics)@[i],
        forall|i: int|
            0 <= i < unresolved(views(known@), name@, *span, code, msg@).len() ==> reports(
                #[trigger] final(diagnostics)@[old(diagnostics)@.len() + i],
                file@,
                unresolved(views(known@), name@, *span, code, msg@)[i],
            ),
{
    let simple = simple_name(name);
    if !known_contains(known, simple) && !is_qualified_stdlib(name) {
        let diag = Diagnostic::warning(file, *span, code, msg);
        let diag = match suggestion(known, simple) {
            Some(s) => diag.with_suggestion(s),
            None => diag,
        };
        diagnostics.push(diag);
    }
}

/// Flags type references, connection ends and allocation ends that do not
/// resolve, suggesting the closest known name.
pub struct UnresolvedTypeCheck;

impl Check for UnresolvedTypeCheck {
    open spec fn name_spec(&self) -> Seq<char> {
        "unresolved"@
    }

    fn name(&self) -> (r: &'static str)
    {
        "unresolved"
    }

    fn run(&self, model: &Model) -> (r: Vec<Diagnostic>)
        ensures
            reports_all(r@, model.file@, unresolved_findings(*model)),
    {
        let known = known_names(model);
        let ghost kn = known_seq(*model);
        let ghost f1 = |t: TypeReference|
            unresolved(kn, t.name@, t.span, codes::UNRESOLVED_TYPE, type_message(t.name@));
        let ghost f2 = |c: Connection|
            unresolved(kn, c.source@, c.span, codes::UNRESOLVED_TARGET, target_message(c.source@))
                + unresolved(kn, c.target@, c.span, codes::UNRESOLVED_TARGET, target_message(c.target@));
        let ghost f3 = |a: Allocation|
            unresolved(kn, a.source@, a.span, codes::UNRESOLVED_TARGET, target_message(a.source@))
                + unresolved(kn, a.target@, a.span, codes::UNRESOLVED_TARGET, target_message(a.target@));
        let mut out: Vec<Diagnostic> = Vec::new();
        let mut i: usize = 0;
        while i < model.type_references.len()
            invariant
                i <= model.type_references@.len(),
                views(known@) == kn,
                forall|x: TypeReference| #[trigger] f1(x) == unresolved(kn, x.name@, x.span, codes::UNRESOLVED_TYPE, type_message(x.name@)),
                reports_all(out@, model.file@, collect(model.type_references@.take(i as int), f1)),
            decreases model.type_references@.len() - i,
        {
            proof { lemma_collect_take(model.type_references@, f1, i as int); }
            let t = &model.type_references[i];
            let msg = message3("type `", t.name.as_str(), "` is not defined in this file");
            let ghost o0 = out@;
            check_ref_exists(t.name.as_str(), &t.span, &known, model.file.as_str(), codes::UNRESOLVED_TYPE, msg, &mut out);
            proof {
                lemma_reports_extend(o0, out@, model.file@, collect(model.type_references@.take(i as int), f1), f1(*t));
            }
            i = i + 1;
        }
        assert(model.type_references@.take(i as int) =~= model.type_references@);
        let ghost acc1 = collect(model.type_references@, f1);
        let mut i: usize = 0;
        while i < model.connections.len()
            invariant
                i <= model.connections@.len(),
                views(known@) == kn,
                forall|x: Connection| #[trigger] f2(x) == unresolved(kn, x.source@, x.span, codes::UNRESOLVED_TARGET, target_message(x.source@))
                    + unresolved(kn, x.target@, x.span, codes::UNRESOLVED_TARGET, target_message(x.target@)),
                reports_all(out@, model.file@, acc1 + collect(model.connections@.take(i as int), f2)),
            decreases model.connections@.len() - i,
        {
            proof { lemma_collect_take(model.connections@, f2, i as int); }
            let c = &model.connections[i];
            let m1 = message3("reference `", c.source.as_str(), "` does not resolve to any definition or usage");
            let ghost xs = acc1 + collect(model.connections@.take(i as int), f2);
            let ghost ya = unresolved(kn, c.source@, c.span, codes::UNRESOLVED_TARGET, target_message(c.source@));
            let ghost yb = unresolved(kn, c.target@, c.span, codes::UNRESOLVED_TARGET, target_message(c.target@));
            let ghost o0 = out@;
            check_ref_exists(c.source.as_str(), &c.span, &known, model.file.as_str(), codes::UNRESOLVED_TARGET, m1, &mut out);
            proof { lemma_reports_extend(o0, out@, model.file@, xs, ya); }
            let m2 = message3("reference `", c.target.as_str(), "` does not resolve to any definition or usage");
            let ghost o1 = out@;
            check_ref_exists(c.target.as_str(), &c.span, &known, model.file.as_str(), codes::UNRESOLVED_TARGET, m2, &mut out);
            proof {
                lemma_reports_extend(o1, out@, model.file@, xs + ya, yb);
                assert(xs + ya + yb =~= acc1 + collect(model.connections@.take(i + 1), f2));
            }
            i = i + 1;
        }
        assert(model.connections@.take(i as int) =~= model.connections@);
        let ghost acc2 = acc1 + collect(model.connections@, f2);
        let mut i: usize = 0;
        while i < model.allocations.len()
            invariant
                i <= model.allocations@.len(),
                views(known@) == kn,
                forall|x: Allocation| #[trigger] f3(x) == unresolved(kn, x.source@, x.span, codes::UNRESOLVED_TARGET, target_message(x.source@))
                    + unresolved(kn, x.target@, x.span, codes::UNRESOLVED_TARGET, target_message(x.target@)),
                reports_all(out@, model.file@, acc2 + collect(model.allocations@.take(i as int), f3)),
            decreases model.allocations@.len() - i,
        {
            proof { lemma_collect_take(model.allocations@, f3, i as int); }
            let a = &model.allocations[i];
            let m1 = message3("reference `", a.source.as_str(), "` does not resolve to any definition or usage");
            let ghost xs = acc2 + collect(model.allocations@.take(i as int), f3);
            let ghost ya = unresolved(kn, a.source@, a.span, codes::UNRESOLVED_TARGET, target_message(a.source@));
            let ghost yb = unresolved(kn, a.target@, a.span, codes::UNRESOLVED_TARGET, target_message(a.target@));
            let ghost o0 = out@;
            check_ref_exists(a.source.as_str(), &a.span, &known, model.file.as_str(), codes::UNRESOLVED_TARGET, m1, &mut out);
            proof { lemma_reports_extend(o0, out@, model.file@, xs, ya); }
            let m2 = message3("reference `", a.target.as_str(), "` does not resolve to any definition or usage");
            let ghost o1 = out@;
            check_ref_exists(a.target.as_str(), &a.span, &known, model.file.as_str(), codes::UNRESOLVED_TARGET, m2, &mut out);
            proof {
                lemma_reports_extend(o1, out@, model.file@, xs + ya, yb);
                assert(xs + ya + yb =~= acc2 + collect(model.allocations@.take(i + 1), f3));
            }
            i = i + 1;
        }
        assert(model.allocations@.take(i as int) =~= model.allocations@);
        out
    }
}

/// A definition (other than a package) whose name is never referenced.
pub open spec fn unused_def(m: Model, d: Definition) -> bool {
    d.kind != DefKind::Package && !referenced_seq(m).contains(d.name@)
}

/// The message for an unused definition.
pub open spec fn unused_message(d: Definition) -> Seq<char> {
    def_kind_label(d.kind) + " `"@ + d.name@ + "` is defined but never referenced"@
}

/// Flags definitions (other than packages) that nothing references.
pub struct UnusedDefCheck;

impl Check for UnusedDefCheck {
    open spec fn name_spec(&self) -> Seq<char> {
        "unused"@
    }

    fn name(&self) -> (r: &'static str)
    {
        "unused"
    }

    fn run(&self, model: &Model) -> (r: Vec<Diagnostic>)
        ensures
            r@.len() == filter_seq(model.definitions@, |d: Definition| unused_def(*model, d)).len(),
            forall|i: int|
                0 <= i < r@.len() ==> {
                    let d = filter_seq(model.definitions@, |d: Definition| unused_def(*model, d))[i];
                    is_diag(#[trigger] r@[i], model.file@, d.span, Severity::Note, codes::UNUSED_DEF, unused_message(d))
                },
    {
        let referenced = model.referenced_names();
        let ghost f = |d: Definition| unused_def(*model, d);
        let mut out: Vec<Diagnostic> = Vec::new();
        let mut i: usize = 0;
        while i < model.definitions.len()
            invariant
                i <= model.definitions@.len(),
                referenced.deep_view() == referenced_seq(*model),
                forall|x: Definition| #[trigger] f(x) == unused_def(*model, x),
                out@.len() == filter_seq(model.definitions@.take(i as int), f).len(),
                forall|k: int|
                    0 <= k < out@.len() ==> {
                        let d = filter_seq(model.definitions@.take(i as int), f)[k];
                        is_diag(#[trigger] out@[k], model.file@, d.span, Severity::Note, codes::UNUSED_DEF, unused_message(d))
                    },
            decreases model.definitions@.len() - i,
        {
            proof {
                lemma_filter_take(model.definitions@, f, i as int);
            }
            let d = &model.definitions[i];
            let used = known_contains(&referenced, d.name.as_str());
            assert(views(referenced@) =~= referenced.deep_view());
            if d.kind != DefKind::Package && !used {
                let mut msg = own(d.kind.label());
                push_str(&mut msg, " `");
                push_str(&mut msg, d.name.as_str());
                push_str(&mut msg, "` is defined but never referenced");
                out.push(Diagnostic::note(model.file.as_str(), d.span, codes::UNUSED_DEF, msg));
            }
            i = i + 1;
        }
        assert(model.definitions@.take(model.definitions@.len() as int) =~= model.definitions@);
        out
    }
}

/// Every definition that is not a package and whose name the model never
/// references is reported as unused; packages and referenced names never are.
pub proof fn law_unused_defs(m: Model, d: Definition)
    ensures
        !referenced_seq(m).contains(d.name@) && d.kind != DefKind::Package ==> unused_def(m, d),
        d.kind == DefKind::Package ==> !unused_def(m, d),
        referenced_seq(m).contains(d.name@) ==> !unused_def(m, d),
{
}

/// A definition of the model that is not a package and is never referenced
/// gets an unused-definition note: it is among those the check reports.
pub proof fn law_unused_reported(m: Model, i: int)
    requires
        0 <= i < m.definitions@.len(),
        m.definitions@[i].kind != DefKind::Package,
        !referenced_seq(m).contains(m.definitions@[i].name@),
    ensures
        filter_seq(m.definitions@, |d: Definition| unused_def(m, d)).contains(m.definitions@[i]),
{
    lemma_filter_contains(m.definitions@, |d: Definition| unused_def(m, d), i);
}

/// An element that passes the filter is kept.
proof fn lemma_filter_contains<T>(s: Seq<T>, f: spec_fn(T) -> bool, i: int)
    requires
        0 <= i < s.len(),
        f(s[i]),
    ensures
        filter_seq(s, f).contains(s[i]),
    decreases s.len(),
{
    if i == s.len() - 1 {
        let r = filter_seq(s, f);
        assert(r == filter_seq(s.drop_last(), f) + seq![s.last()]);
        assert(r[r.len() - 1] == s[i]);
    } else {
        lemma_filter_contains(s.drop_last(), f, i);
        let r0 = filter_seq(s.drop_last(), f);
        let k = choose|k: int| 0 <= k < r0.len() && r0[k] == s.drop_last()[i];
        let r = filter_seq(s, f);
        assert(r[k] == r0[k]);
    }
}

} // verus!
