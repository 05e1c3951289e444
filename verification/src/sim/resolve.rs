//! Attribute values across the part hierarchy.
//!
//! From a root definition, the part usages inside it form a tree: each part
//! leads to the definition it is typed by, whose parts are its children; a
//! definition already on the path from the root is not entered again.  Each
//! node carries the quantity from its multiplicity and the value of a named
//! attribute, its own or inherited from a supertype.  A value is kept as the
//! literal text of a floating-point number, for the caller to convert.
use vstd::prelude::*;
use crate::model::{first_def_index, opt_view, simple_name, simple_name_spec, usages_with_parent, Model, Usage};
use crate::record_toml::{float_literal, float_literal_exec};
use crate::sim::rollup::{quantity_from_multiplicity, quantity_of};
use crate::text::{chars_of, own, str_eq, string_of, trim, trim_chars};

verus! {

// ------------------------------------------------------------------------
// Attribute values
// ------------------------------------------------------------------------

/// Kinds of usage that give an attribute its value.
pub open spec fn is_value_kind(k: Seq<char>) -> bool {
    k == "attribute"@ || k == "feature"@
}

/// Kinds of usage that make up the part structure.
pub open spec fn is_part_kind(k: Seq<char>) -> bool {
    k == "part"@ || k == "item"@ || k == "connection"@ || k == "flow"@ || k == "allocation"@
}

/// The value that usage `u` gives attribute `attr`: its trimmed value text,
/// when `u` is an attribute or feature named `attr` whose value is a
/// floating-point literal.
pub open spec fn usage_value(u: Usage, attr: Seq<char>) -> Option<Seq<char>> {
    if u.name@ == attr && is_value_kind(u.kind@) {
        match u.value_expr {
            Some(e) => if float_literal(trim(e@)) {
                Some(trim(e@))
            } else {
                None
            },
            None => None,
        }
    } else {
        None
    }
}

/// The first value that `us` gives attribute `attr`.
pub open spec fn first_value(us: Seq<Usage>, attr: Seq<char>) -> Option<Seq<char>>
    decreases us.len(),
{
    if us.len() == 0 {
        None
    } else {
        match usage_value(us[0], attr) {
            Some(t) => Some(t),
            None => first_value(us.drop_first(), attr),
        }
    }
}

/// One step up from definition `d`: the simple name of the supertype of the
/// first definition named `d`, unless that is `d` itself.
pub open spec fn super_step(m: Model, d: Seq<char>) -> Option<Seq<char>> {
    match first_def_index(m.definitions@, d, 0) {
        Some(i) => match m.definitions@[i].super_type {
            Some(s) => if simple_name_spec(s@) != d {
                Some(simple_name_spec(s@))
            } else {
                None
            },
            None => None,
        },
        None => None,
    }
}

/// The search for `attr` from `d` ends within `fuel` steps up.
pub open spec fn lookup_ends(m: Model, d: Seq<char>, attr: Seq<char>, fuel: nat) -> bool
    decreases fuel,
{
    ||| first_value(usages_with_parent(m.usages@, d), attr) is Some
    ||| match super_step(m, d) {
        None => true,
        Some(n) => fuel > 0 && lookup_ends(m, n, attr, (fuel - 1) as nat),
    }
}

/// The value of `attr` for `d` found within `fuel` steps up: the value the
/// definition's own usages give, else its supertype's.
pub open spec fn value_within(m: Model, d: Seq<char>, attr: Seq<char>, fuel: nat) -> Option<Seq<char>>
    decreases fuel,
{
    match first_value(usages_with_parent(m.usages@, d), attr) {
        Some(t) => Some(t),
        None => match super_step(m, d) {
            Some(n) => if fuel > 0 {
                value_within(m, n, attr, (fuel - 1) as nat)
            } else {
                None
            },
            None => None,
        },
    }
}

/// The search for `attr` from `d` ends: no cycle of supertypes without a
/// value on it is met.
pub open spec fn lookup_terminates(m: Model, d: Seq<char>, attr: Seq<char>) -> bool {
    exists|f: nat| #[trigger] lookup_ends(m, d, attr, f)
}

/// The value of `attr` for definition `d`.
pub open spec fn attr_value(m: Model, d: Seq<char>, attr: Seq<char>) -> Option<Seq<char>> {
    value_within(m, d, attr, choose|f: nat| #[trigger] lookup_ends(m, d, attr, f))
}

/// The value that the usages of `def_name` themselves give `attr`.
fn own_value(model: &Model, def_name: &str, attr: &str) -> (r: Option<String>)
    ensures
        opt_view(r) == first_value(usages_with_parent(model.usages@, def_name@), attr@),
{
    let us = model.usages_in_def(def_name);
    let ghost all = usages_with_parent(model.usages@, def_name@);
    assert(all.skip(0) =~= all);
    let mut i: usize = 0;
    while i < us.len()
        invariant
            i <= us@.len(),
            us@.len() == all.len(),
            all == usages_with_parent(model.usages@, def_name@),
            forall|k: int| 0 <= k < us@.len() ==> *#[trigger] us@[k] == all[k],
            first_value(all, attr@) == first_value(all.skip(i as int), attr@),
        decreases us@.len() - i,
    {
        let u = us[i];
        assert(*u == all[i as int]);
        assert(all.skip(i as int)[0] == all[i as int]);
        assert(all.skip(i as int).drop_first() =~= all.skip(i + 1));
        if str_eq(u.name.as_str(), attr) && (str_eq(u.kind.as_str(), "attribute") || str_eq(u.kind.as_str(), "feature")) {
            if let Some(e) = &u.value_expr {
                let cs = chars_of(e.as_str());
                let t = trim_chars(&cs);
                if float_literal_exec(&t) {
                    return Some(string_of(&t));
                }
            }
        }
        i = i + 1;
    }
    None
}

/// The value of `attr` for `def_name`, searching at most `fuel` steps up.
fn value_up_to(model: &Model, def_name: &str, attr: &str, Ghost(fuel): Ghost<nat>) -> (r: Option<String>)
    requires
        lookup_ends(*model, def_name@, attr@, fuel),
    ensures
        opt_view(r) == value_within(*model, def_name@, attr@, fuel),
    decreases fuel,
{
    match own_value(model, def_name, attr) {
        Some(t) => Some(t),
        None => match model.find_def(def_name) {
            Some(def) => match &def.super_type {
                Some(s) => {
                    let st = simple_name(s.as_str());
                    if str_eq(st, def_name) {
                        None
                    } else {
                        value_up_to(model, st, attr, Ghost((fuel - 1) as nat))
                    }
                },
                None => None,
            },
            None => None,
        },
    }
}

/// The value of attribute `attr_name` for definition `def_name`: the first
/// attribute or feature of that name among the definition's usages whose
/// value is a floating-point literal, else the value for its supertype.
pub fn find_attribute_value(model: &Model, def_name: &str, attr_name: &str) -> (r: Option<String>)
    requires
        lookup_terminates(*model, def_name@, attr_name@),
    ensures
        opt_view(r) == attr_value(*model, def_name@, attr_name@),
{
    let ghost f = choose|f: nat| #[trigger] lookup_ends(*model, def_name@, attr_name@, f);
    value_up_to(model, def_name, attr_name, Ghost(f))
}

/// Whether the search for `attr` from `d` ends within `fuel` steps up.
fn ends_within(model: &Model, d: &str, attr: &str, fuel: usize) -> (r: bool)
    ensures
        r == lookup_ends(*model, d@, attr@, fuel as nat),
    decreases fuel,
{
    if own_value(model, d, attr).is_some() {
        return true;
    }
    match model.find_def(d) {
        Some(def) => match &def.super_type {
            Some(s) => {
                let st = simple_name(s.as_str());
                if str_eq(st, d) {
                    true
                } else if fuel == 0 {
                    false
                } else {
                    ends_within(model, st, attr, fuel - 1)
                }
            },
            None => true,
        },
        None => true,
    }
}

/// The first definition named `name` has that name.
proof fn lemma_first_def_index(m: Model, name: Seq<char>, from: int)
    requires
        0 <= from,
    ensures
        first_def_index(m.definitions@, name, from) matches Some(k) ==> 0 <= k < m.definitions@.len()
            && m.definitions@[k].name@ == name,
    decreases m.definitions@.len() - from,
{
    if from < m.definitions@.len() && m.definitions@[from].name@ != name {
        lemma_first_def_index(m, name, from + 1);
    }
}

/// The definition reached from `d` by `k` steps up (staying put where
/// there is no step).
pub open spec fn walk_up(m: Model, d: Seq<char>, k: nat) -> Seq<char>
    decreases k,
{
    if k == 0 {
        d
    } else {
        let w = walk_up(m, d, (k - 1) as nat);
        match super_step(m, w) {
            Some(x) => x,
            None => w,
        }
    }
}

/// A search that does not end within `f` steps passes, at each of its
/// first `f` steps, a definition without a value and with a step up.
proof fn lemma_walk_unended(m: Model, d: Seq<char>, attr: Seq<char>, f: nat, k: nat)
    requires
        !lookup_ends(m, d, attr, f),
        k <= f,
    ensures
        !lookup_ends(m, walk_up(m, d, k), attr, (f - k) as nat),
    decreases k,
{
    if k > 0 {
        lemma_walk_unended(m, d, attr, f, (k - 1) as nat);
    }
}

/// A walk that comes back to a definition it passed, with no value and a
/// step up everywhere before, never ends.
proof fn lemma_cycle_unended(m: Model, d: Seq<char>, attr: Seq<char>, j: nat, k: nat, f: nat)
    requires
        j < k,
        walk_up(m, d, j) == walk_up(m, d, k),
        forall|t: nat| t < k ==> first_value(usages_with_parent(m.usages@, #[trigger] walk_up(m, d, t)), attr) is None
            && super_step(m, walk_up(m, d, t)) is Some,
    ensures
        forall|t: nat| t < k ==> !lookup_ends(m, #[trigger] walk_up(m, d, t), attr, f),
    decreases f,
{
    if f > 0 {
        lemma_cycle_unended(m, d, attr, j, k, (f - 1) as nat);
    }
    assert forall|t: nat| t < k implies !lookup_ends(m, #[trigger] walk_up(m, d, t), attr, f) by {
        let w = walk_up(m, d, t);
        assert(walk_up(m, d, t + 1) == super_step(m, w)->0);
        if f > 0 {
            if t + 1 == k {
                assert(!lookup_ends(m, walk_up(m, d, j), attr, (f - 1) as nat));
            } else {
                assert(!lookup_ends(m, walk_up(m, d, (t + 1) as nat), attr, (f - 1) as nat));
            }
        }
    }
}

/// A search that does not end within as many steps as there are
/// definitions never ends: it has met one definition twice.
proof fn lemma_unended_forever(m: Model, d: Seq<char>, attr: Seq<char>)
    requires
        !lookup_ends(m, d, attr, m.definitions@.len()),
    ensures
        !lookup_terminates(m, d, attr),
{
    let n = m.definitions@.len();
    assert forall|t: nat| t <= n implies first_value(usages_with_parent(m.usages@, #[trigger] walk_up(m, d, t)), attr) is None
        && super_step(m, walk_up(m, d, t)) is Some by {
        lemma_walk_unended(m, d, attr, n, t);
    }
    let idx = Seq::new((n + 1) as nat, |t: int| first_def_index(m.definitions@, walk_up(m, d, t as nat), 0)->0);
    assert forall|t: int| 0 <= t < idx.len() implies 0 <= #[trigger] idx[t] < n && m.definitions@[idx[t]].name@ == walk_up(m, d, t as nat) by {
        lemma_first_def_index(m, walk_up(m, d, t as nat), 0);
        assert(super_step(m, walk_up(m, d, t as nat)) is Some);
    }
    if idx.no_duplicates() {
        idx.unique_seq_to_set();
        vstd::set_lib::lemma_int_range(0, n as int);
        assert(idx.to_set().subset_of(vstd::set_lib::set_int_range(0, n as int))) by {
            assert forall|x: int| idx.to_set().contains(x) implies vstd::set_lib::set_int_range(0, n as int).contains(x) by {
                let t = choose|t: int| 0 <= t < idx.len() && idx[t] == x;
                assert(0 <= idx[t] < n);
            }
        }
        vstd::set_lib::lemma_len_subset(idx.to_set(), vstd::set_lib::set_int_range(0, n as int));
        assert(false);
    }
    let (j, k) = choose|j: int, k: int| 0 <= j < idx.len() && 0 <= k < idx.len() && j != k && idx[j] == idx[k];
    let (a, b) = if j < k { (j as nat, k as nat) } else { (k as nat, j as nat) };
    assert(walk_up(m, d, a) == walk_up(m, d, b));
    assert forall|f: nat| !lookup_ends(m, d, attr, f) by {
        lemma_cycle_unended(m, d, attr, a, b, f);
        assert(walk_up(m, d, 0) == d);
    }
}

/// Whether the search for `attr` ends from every definition, that is, no
/// cycle of supertypes without a value for `attr` is reachable.
pub fn attribute_lookups_end(model: &Model, attr: &str) -> (r: bool)
    ensures
        r == forall|d: Seq<char>| #[trigger] lookup_terminates(*model, d, attr@),
{
    let n = model.definitions.len();
    let mut i: usize = 0;
    while i < n
        invariant
            i <= n,
            n == model.definitions@.len(),
            forall|k: int| 0 <= k < i ==> #[trigger] lookup_ends(*model, model.definitions@[k].name@, attr@, n as nat),
        decreases n - i,
    {
        if !ends_within(model, model.definitions[i].name.as_str(), attr, n) {
            proof {
                lemma_unended_forever(*model, model.definitions@[i as int].name@, attr@);
            }
            return false;
        }
        i = i + 1;
    }
    proof {
        assert forall|d: Seq<char>| #[trigger] lookup_terminates(*model, d, attr@) by {
            lemma_first_def_index(*model, d, 0);
            match first_def_index(model.definitions@, d, 0) {
                Some(k) => {
                    assert(lookup_ends(*model, model.definitions@[k].name@, attr@, n as nat));
                },
                None => {
                    assert(super_step(*model, d) is None);
                    assert(lookup_ends(*model, d, attr@, 0));
                },
            }
        }
    }
    true
}

// ------------------------------------------------------------------------
// The part tree
// ------------------------------------------------------------------------

/// A part in the tree.
#[derive(Debug)]
pub struct AttributeNode {
    /// The usage's name.
    pub name: String,
    /// The definition the part is typed by (its simple name).
    pub definition: String,
    /// The quantity from the multiplicity (1 by default).
    pub quantity: u32,
    /// The attribute's value text on this part's definition, if any.
    pub own_value: Option<String>,
    /// The parts inside the definition.
    pub children: Vec<AttributeNode>,
}

/// The tree of parts from a root definition.
#[derive(Debug)]
pub struct AttributeTree {
    /// The root definition's name.
    pub root: String,
    /// The attribute searched for.
    pub attribute: String,
    /// The attribute's value text on the root, if any.
    pub own_value: Option<String>,
    /// The root's parts.
    pub children: Vec<AttributeNode>,
}

/// A part as plain data.
pub struct NodeView {
    pub name: Seq<char>,
    pub definition: Seq<char>,
    pub quantity: u32,
    pub value: Option<Seq<char>>,
    pub children: Seq<NodeView>,
}

/// The plain data of a part.
pub open spec fn node_view(n: AttributeNode) -> NodeView
    decreases n,
{
    let c = n.children;
    proof {
        assert(decreases_to!(c => c@));
    }
    NodeView {
        name: n.name@,
        definition: n.definition@,
        quantity: n.quantity,
        value: opt_view(n.own_value),
        children: nodes_view(c@),
    }
}

/// The plain data of a list of parts.
pub open spec fn nodes_view(s: Seq<AttributeNode>) -> Seq<NodeView>
    decreases s,
{
    if s.len() == 0 {
        seq![]
    } else {
        nodes_view(s.subrange(0, s.len() - 1)).push(node_view(s[s.len() - 1]))
    }
}

/// The definition a usage leads to: its type's simple name, or its own name.
pub open spec fn type_name_of(u: Usage) -> Seq<char> {
    match u.type_ref {
        Some(t) => simple_name_spec(t@),
        None => u.name@,
    }
}

/// Every definition a usage of `m` leads to.
pub open spec fn part_names(m: Model) -> Set<Seq<char>> {
    m.usages@.map_values(|u: Usage| type_name_of(u)).to_set()
}

/// How many of those are not on `path`.
pub open spec fn names_left(m: Model, path: Set<Seq<char>>) -> nat {
    part_names(m).difference(path).len()
}

/// The parts inside definition `d`, for a walk whose path from the root
/// holds the definitions in `path`.
pub open spec fn children_of(m: Model, d: Seq<char>, attr: Seq<char>, path: Set<Seq<char>>) -> Seq<NodeView>
    decreases names_left(m, path), m.usages@.len() + 1,
{
    proof {
        lemma_parent_names(m.usages@, d);
    }
    nodes_from(m, d, attr, path, 0)
}

/// The parts among the usages of `d` from the `i`-th on.
pub open spec fn nodes_from(m: Model, d: Seq<char>, attr: Seq<char>, path: Set<Seq<char>>, i: nat) -> Seq<NodeView>
    decreases names_left(m, path), usages_with_parent(m.usages@, d).len() - i,
{
    let us = usages_with_parent(m.usages@, d);
    if i >= us.len() {
        seq![]
    } else {
        let u = us[i as int];
        let rest = nodes_from(m, d, attr, path, i + 1);
        if !is_part_kind(u.kind@) {
            rest
        } else {
            let tn = type_name_of(u);
            let kids = if path.contains(tn) {
                seq![]
            } else {
                proof {
                    lemma_parent_names(m.usages@, d);
                    lemma_left_shrinks(m, path, tn);
                }
                children_of(m, tn, attr, path.insert(tn))
            };
            seq![NodeView {
                name: u.name@,
                definition: tn,
                quantity: quantity_of(u.multiplicity),
                value: attr_value(m, tn, attr),
                children: kids,
            }] + rest
        }
    }
}

/// The usages under a parent are usages of the model, no more of them.
pub proof fn lemma_parent_names(us: Seq<Usage>, d: Seq<char>)
    ensures
        usages_with_parent(us, d).len() <= us.len(),
        forall|i: int|
            0 <= i < usages_with_parent(us, d).len() ==> us.map_values(|u: Usage| type_name_of(u)).to_set().contains(
                type_name_of(#[trigger] usages_with_parent(us, d)[i]),
            ),
    decreases us.len(),
{
    if us.len() > 0 {
        let prev = us.drop_last();
        lemma_parent_names(prev, d);
        let names = us.map_values(|u: Usage| type_name_of(u));
        let prev_names = prev.map_values(|u: Usage| type_name_of(u));
        assert forall|i: int| 0 <= i < usages_with_parent(us, d).len() implies names.to_set().contains(
            type_name_of(#[trigger] usages_with_parent(us, d)[i]),
        ) by {
            let w = usages_with_parent(us, d);
            if i < usages_with_parent(prev, d).len() {
                assert(w[i] == usages_with_parent(prev, d)[i]);
                assert(prev_names.to_set().contains(type_name_of(w[i])));
                let j = choose|j: int| 0 <= j < prev_names.len() && prev_names[j] == type_name_of(w[i]);
                assert(names[j] == prev_names[j]);
                assert(names.contains(type_name_of(w[i])));
            } else {
                assert(w[i] == us.last());
                assert(names[us.len() - 1] == type_name_of(w[i]));
                assert(names.contains(type_name_of(w[i])));
            }
        }
    }
}

/// Entering a new definition leaves fewer to enter.
pub proof fn lemma_left_shrinks(m: Model, path: Set<Seq<char>>, tn: Seq<char>)
    requires
        part_names(m).contains(tn),
        !path.contains(tn),
    ensures
        names_left(m, path.insert(tn)) < names_left(m, path),
{
    let s = part_names(m);
    vstd::seq_lib::seq_to_set_is_finite(m.usages@.map_values(|u: Usage| type_name_of(u)));
    vstd::set::axiom_set_difference_finite(s, path);
    assert(s.difference(path.insert(tn)) =~= s.difference(path).remove(tn));
    vstd::set::axiom_set_remove_len(s.difference(path), tn);
}

/// Length and items of the plain data of a list of parts.
proof fn lemma_nodes_view(s: Seq<AttributeNode>)
    ensures
        nodes_view(s).len() == s.len(),
        forall|i: int| 0 <= i < s.len() ==> #[trigger] nodes_view(s)[i] == node_view(s[i]),
    decreases s.len(),
{
    if s.len() > 0 {
        lemma_nodes_view(s.subrange(0, s.len() - 1));
    }
}

/// Whether `name` is on the path.
fn on_path(path: &Vec<String>, name: &str) -> (r: bool)
    ensures
        r == path.deep_view().to_set().contains(name@),
{
    let mut i: usize = 0;
    while i < path.len()
        invariant
            i <= path@.len(),
            forall|k: int| 0 <= k < i ==> path.deep_view()[k] != name@,
        decreases path@.len() - i,
    {
        if str_eq(path[i].as_str(), name) {
            assert(path.deep_view()[i as int] == name@);
            assert(path.deep_view().contains(name@));
            return true;
        }
        i = i + 1;
    }
    assert(!path.deep_view().contains(name@));
    false
}

/// A usage's part kind, checked.
fn part_kind(k: &str) -> (r: bool)
    ensures
        r == is_part_kind(k@),
{
    str_eq(k, "part") || str_eq(k, "item") || str_eq(k, "connection") || str_eq(k, "flow") || str_eq(k, "allocation")
}

/// The parts inside `def_name`; `path` holds the definitions from the root
/// down to it and is as it was on return.
fn resolve_children(model: &Model, def_name: &str, attr: &str, path: &mut Vec<String>) -> (r: Vec<AttributeNode>)
    requires
        forall|d: Seq<char>| #[trigger] lookup_terminates(*model, d, attr@),
    ensures
        final(path)@ == old(path)@,
        nodes_view(r@) == children_of(*model, def_name@, attr@, old(path).deep_view().to_set()),
    decreases names_left(*model, old(path).deep_view().to_set()), model.usages@.len() + 1,
{
    let ghost d0 = path.deep_view();
    let ghost p0 = d0.to_set();
    let ghost v0 = path@;
    let ghost total = nodes_from(*model, def_name@, attr@, p0, 0);
    let us = model.usages_in_def(def_name);
    let ghost all = usages_with_parent(model.usages@, def_name@);
    proof {
        lemma_parent_names(model.usages@, def_name@);
    }
    let mut out: Vec<AttributeNode> = Vec::new();
    proof {
        lemma_nodes_view(out@);
        assert(nodes_view(out@) + total =~= total);
    }
    let mut i: usize = 0;
    while i < us.len()
        invariant
            i <= us@.len(),
            us@.len() == all.len(),
            all == usages_with_parent(model.usages@, def_name@),
            forall|k: int| 0 <= k < us@.len() ==> *#[trigger] us@[k] == all[k],
            forall|d: Seq<char>| #[trigger] lookup_terminates(*model, d, attr@),
            path@ == v0,
            path.deep_view() == d0,
            p0 == d0.to_set(),
            names_left(*model, p0) == names_left(*model, old(path).deep_view().to_set()),
            forall|k: int| 0 <= k < all.len() ==> part_names(*model).contains(type_name_of(#[trigger] all[k])),
            total == nodes_from(*model, def_name@, attr@, p0, 0),
            nodes_view(out@) + nodes_from(*model, def_name@, attr@, p0, i as nat) == total,
        decreases us@.len() - i,
    {
        let u = us[i];
        assert(*u == all[i as int]);
        let ghost rest = nodes_from(*model, def_name@, attr@, p0, (i + 1) as nat);
        if part_kind(u.kind.as_str()) {
            let tn: &str = match &u.type_ref {
                Some(t) => simple_name(t.as_str()),
                None => u.name.as_str(),
            };
            assert(tn@ == type_name_of(all[i as int]));
            let quantity = quantity_from_multiplicity(u);
            proof {
                assert(lookup_terminates(*model, tn@, attr@));
            }
            let value = find_attribute_value(model, tn, attr);
            let children = if on_path(path, tn) {
                Vec::new()
            } else {
                proof {
                    lemma_left_shrinks(*model, p0, tn@);
                }
                path.push(own(tn));
                assert(path.deep_view() =~= d0.push(tn@));
                proof {
                    d0.lemma_push_to_set_commute(tn@);
                }
                let c = resolve_children(model, tn, attr, path);
                path.pop();
                assert(path@ =~= v0);
                assert(path.deep_view() =~= d0);
                c
            };
            let ghost o0 = out@;
            out.push(AttributeNode {
                name: own(u.name.as_str()),
                definition: own(tn),
                quantity,
                own_value: value,
                children,
            });
            proof {
                lemma_nodes_view(o0);
                lemma_nodes_view(out@);
                assert(nodes_view(out@) =~= nodes_view(o0).push(node_view(out@[o0.len() as int])));
                assert(nodes_view(out@) + rest =~= nodes_view(o0) + (seq![node_view(out@[o0.len() as int])] + rest));
            }
        } else {
            proof {
                assert(nodes_from(*model, def_name@, attr@, p0, i as nat) == rest);
            }
        }
        i = i + 1;
    }
    assert(nodes_view(out@) + seq![] =~= nodes_view(out@));
    out
}

/// The tree of parts from `root_def`, with the value of `attribute_name` on
/// the root and on every part.
pub fn resolve_attribute_tree(model: &Model, root_def: &str, attribute_name: &str) -> (r: AttributeTree)
    requires
        forall|d: Seq<char>| #[trigger] lookup_terminates(*model, d, attribute_name@),
    ensures
        r.root@ == root_def@,
        r.attribute@ == attribute_name@,
        opt_view(r.own_value) == attr_value(*model, root_def@, attribute_name@),
        nodes_view(r.children@) == children_of(*model, root_def@, attribute_name@, set![root_def@]),
{
    proof {
        assert(lookup_terminates(*model, root_def@, attribute_name@));
    }
    let own_value = find_attribute_value(model, root_def, attribute_name);
    let mut path: Vec<String> = Vec::new();
    path.push(own(root_def));
    assert(path.deep_view().to_set() =~= set![root_def@]) by {
        assert(path.deep_view() =~= seq![root_def@]);
        assert(seq![root_def@][0] == root_def@);
        assert(seq![root_def@].contains(root_def@));
    }
    let children = resolve_children(model, root_def, attribute_name, &mut path);
    AttributeTree { root: own(root_def), attribute: own(attribute_name), own_value, children }
}

} // verus!
