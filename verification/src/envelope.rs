//! The `[meta]` and `[refs]` sections of a record envelope, read from the
//! parsed root table.
//!
//! A table that names a key twice holds the last value given for it.  The
//! meta fields are checked in the order `id`, `tool`, `record_type`,
//! `created`, `author`; the refs entries in increasing order of their keys,
//! the first faulty one ending the read.
use vstd::prelude::*;
use crate::interactive::{
    key_less, key_lt, keys_sorted, lemma_lookup_at, lemma_lookup_none, lemma_lt_irreflexive, lemma_lt_total, lemma_lt_trans,
    lookup,
};
use crate::record::RecordMeta;
use crate::record_toml::{entries_view, lemma_entries_view, lemma_values_view, toml_view, values_view, TomlValue, TomlView};
use crate::text::{own, str_eq};

verus! {

/// What keeps the sections from being read; the value found is named by
/// its key (and, inside a refs array, its position).
#[derive(Debug)]
pub enum EnvelopeFault {
    /// A required section or key is missing.
    Missing(String),
    /// The meta field with this key is not a string.
    NotString(String),
    /// The refs entry with this key is not an array.
    NotArray(String),
    /// The item at this position of the refs array with this key is not a string.
    NotStringItem(String, usize),
}

/// A fault as plain data.
pub enum FaultView {
    Missing(Seq<char>),
    NotString(Seq<char>),
    NotArray(Seq<char>),
    NotStringItem(Seq<char>, nat),
}

impl View for EnvelopeFault {
    type V = FaultView;

    open spec fn view(&self) -> FaultView {
        match self {
            EnvelopeFault::Missing(k) => FaultView::Missing(k@),
            EnvelopeFault::NotString(k) => FaultView::NotString(k@),
            EnvelopeFault::NotArray(k) => FaultView::NotArray(k@),
            EnvelopeFault::NotStringItem(k, i) => FaultView::NotStringItem(k@, *i as nat),
        }
    }
}

/// The meta record as plain data.
pub struct MetaView {
    pub id: Seq<char>,
    pub tool: Seq<char>,
    pub record_type: Seq<char>,
    pub created: Seq<char>,
    pub author: Seq<char>,
}

/// The plain data of a meta record.
pub open spec fn meta_view(m: RecordMeta) -> MetaView {
    MetaView { id: m.id@, tool: m.tool@, record_type: m.record_type@, created: m.created@, author: m.author@ }
}

/// The plain data of a refs list.
pub open spec fn refs_view(r: Seq<(String, Vec<String>)>) -> Seq<(Seq<char>, Seq<Seq<char>>)> {
    r.map_values(|p: (String, Vec<String>)| (p.0@, p.1.deep_view()))
}

/// The position of the last entry with key `k`.
pub open spec fn last_index(t: Seq<(Seq<char>, TomlView)>, k: Seq<char>) -> Option<int>
    decreases t.len(),
{
    if t.len() == 0 {
        None
    } else if t.last().0 == k {
        Some(t.len() - 1)
    } else {
        last_index(t.drop_last(), k)
    }
}

/// The value a table holds for `k`: that of its last entry with that key.
pub open spec fn last_entry(t: Seq<(Seq<char>, TomlView)>, k: Seq<char>) -> Option<TomlView> {
    match last_index(t, k) {
        Some(j) => Some(t[j].1),
        None => None,
    }
}

/// A required string field of the meta table.
pub open spec fn meta_field(t: Seq<(Seq<char>, TomlView)>, k: Seq<char>) -> Result<Seq<char>, FaultView> {
    match last_entry(t, k) {
        Some(TomlView::Str(s)) => Ok(s),
        Some(_) => Err(FaultView::NotString(k)),
        None => Err(FaultView::Missing(k)),
    }
}

/// The meta record of a root table, or the first fault in it.
pub open spec fn meta_of(root: Seq<(Seq<char>, TomlView)>) -> Result<MetaView, FaultView> {
    match last_entry(root, "meta"@) {
        Some(TomlView::Table(t)) => match meta_field(t, "id"@) {
            Err(f) => Err(f),
            Ok(id) => match meta_field(t, "tool"@) {
                Err(f) => Err(f),
                Ok(tool) => match meta_field(t, "record_type"@) {
                    Err(f) => Err(f),
                    Ok(record_type) => match meta_field(t, "created"@) {
                        Err(f) => Err(f),
                        Ok(created) => match meta_field(t, "author"@) {
                            Err(f) => Err(f),
                            Ok(author) => Ok(MetaView { id, tool, record_type, created, author }),
                        },
                    },
                },
            },
        },
        _ => Err(FaultView::Missing("meta"@)),
    }
}

/// The position of the first item from `i` on that is not a string.
pub open spec fn first_non_string(items: Seq<TomlView>, i: int) -> Option<int>
    decreases items.len() - i,
{
    if i < 0 || i >= items.len() {
        None
    } else if items[i] is Str {
        first_non_string(items, i + 1)
    } else {
        Some(i)
    }
}

/// The fault of the refs value held for `k`, if any.
pub open spec fn refs_fault(rt: Seq<(Seq<char>, TomlView)>, k: Seq<char>) -> Option<FaultView> {
    match last_entry(rt, k) {
        Some(TomlView::Array(items)) => match first_non_string(items, 0) {
            Some(i) => Some(FaultView::NotStringItem(k, i as nat)),
            None => None,
        },
        Some(_) => Some(FaultView::NotArray(k)),
        None => None,
    }
}

/// The strings of an array of strings.
pub open spec fn string_items(items: Seq<TomlView>) -> Seq<Seq<char>> {
    Seq::new(items.len(), |i: int| match items[i] {
        TomlView::Str(s) => s,
        _ => seq![],
    })
}

/// The names the refs table holds for `k`.
pub open spec fn ref_names(rt: Seq<(Seq<char>, TomlView)>, k: Seq<char>) -> Option<Seq<Seq<char>>> {
    match last_entry(rt, k) {
        Some(TomlView::Array(items)) => Some(string_items(items)),
        _ => None,
    }
}

/// `f` is the fault of the refs entry with the least faulty key.
pub open spec fn least_fault(rt: Seq<(Seq<char>, TomlView)>, f: FaultView) -> bool {
    exists|k: Seq<char>|
        #![trigger refs_fault(rt, k)]
        refs_fault(rt, k) == Some(f) && forall|k2: Seq<char>|
            (#[trigger] refs_fault(rt, k2)) is Some ==> k2 == k || key_lt(k, k2)
}

/// The sections read well: this meta record, and these refs, in increasing
/// key order, holding for each key the names the table holds for it.
pub open spec fn head_ok(root: Seq<(Seq<char>, TomlView)>, m: MetaView, refs: Seq<(Seq<char>, Seq<Seq<char>>)>) -> bool {
    &&& meta_of(root) == Ok::<MetaView, FaultView>(m)
    &&& match last_entry(root, "refs"@) {
        Some(TomlView::Table(rt)) => {
            &&& forall|k: Seq<char>| #[trigger] refs_fault(rt, k) is None
            &&& keys_sorted(refs)
            &&& forall|k: Seq<char>| #[trigger] lookup(refs, k) == ref_names(rt, k)
        },
        _ => false,
    }
}

/// The sections fail to read with `f`: the meta fault, a missing refs
/// table, or the fault of the least faulty refs key.
pub open spec fn head_fault(root: Seq<(Seq<char>, TomlView)>, f: FaultView) -> bool {
    match meta_of(root) {
        Err(e) => f == e,
        Ok(_) => match last_entry(root, "refs"@) {
            Some(TomlView::Table(rt)) => least_fault(rt, f),
            _ => f == FaultView::Missing("refs"@),
        },
    }
}

// ------------------------------------------------------------------------
// Proofs
// ------------------------------------------------------------------------

/// Where the last entry with key `k` stands.
pub proof fn lemma_last_index(t: Seq<(Seq<char>, TomlView)>, k: Seq<char>)
    ensures
        match last_index(t, k) {
            Some(j) => 0 <= j < t.len() && t[j].0 == k && forall|i: int| j < i < t.len() ==> t[i].0 != k,
            None => forall|i: int| 0 <= i < t.len() ==> t[i].0 != k,
        },
    decreases t.len(),
{
    if t.len() > 0 && t.last().0 != k {
        lemma_last_index(t.drop_last(), k);
        assert forall|i: int| 0 <= i < t.len() - 1 implies t[i] == t.drop_last()[i] by {}
    }
}

/// The first non-string item, from the items in front.
proof fn lemma_first_non_string(items: Seq<TomlView>, i: int)
    requires
        0 <= i <= items.len(),
        forall|j: int| 0 <= j < i ==> items[j] is Str,
    ensures
        first_non_string(items, 0) == first_non_string(items, i),
    decreases i,
{
    if i > 0 {
        lemma_first_non_string(items, i - 1);
    }
}

// ------------------------------------------------------------------------
// Reading
// ------------------------------------------------------------------------

/// The position of the last entry with key `k`.
fn last_index_exec(t: &Vec<(String, TomlValue)>, k: &str) -> (r: Option<usize>)
    ensures
        match r {
            Some(j) => j < t@.len() && last_index(entries_view(t@), k@) == Some(j as int),
            None => last_index(entries_view(t@), k@) is None,
        },
{
    let ghost tv = entries_view(t@);
    proof {
        lemma_entries_view(t@);
    }
    assert(tv.take(tv.len() as int) =~= tv);
    let mut i: usize = t.len();
    while i > 0
        invariant
            i <= t@.len(),
            tv == entries_view(t@),
            tv.len() == t@.len(),
            forall|j: int| 0 <= j < t@.len() ==> #[trigger] tv[j] == (t@[j].0@, toml_view(t@[j].1)),
            last_index(tv, k@) == match last_index(tv.take(i as int), k@) {
                Some(j) => Some(j),
                None => None::<int>,
            },
        decreases i,
    {
        assert(tv.take(i as int).drop_last() =~= tv.take(i - 1));
        assert(tv.take(i as int).last() == tv[i - 1]);
        if str_eq(t[i - 1].0.as_str(), k) {
            return Some(i - 1);
        }
        i = i - 1;
    }
    None
}

/// A required string field of a meta table.
fn meta_field_exec(t: &Vec<(String, TomlValue)>, k: &str) -> (r: Result<String, EnvelopeFault>)
    ensures
        match r {
            Ok(s) => meta_field(entries_view(t@), k@) == Ok::<Seq<char>, FaultView>(s@),
            Err(f) => meta_field(entries_view(t@), k@) == Err::<Seq<char>, FaultView>(f@),
        },
{
    proof {
        lemma_entries_view(t@);
    }
    match last_index_exec(t, k) {
        Some(j) => match &t[j].1 {
            TomlValue::Str(s) => Ok(own(s.as_str())),
            _ => Err(EnvelopeFault::NotString(own(k))),
        },
        None => Err(EnvelopeFault::Missing(own(k))),
    }
}

/// The meta record of a root table.
fn meta_exec(root: &Vec<(String, TomlValue)>) -> (r: Result<RecordMeta, EnvelopeFault>)
    ensures
        match r {
            Ok(m) => meta_of(entries_view(root@)) == Ok::<MetaView, FaultView>(meta_view(m)),
            Err(f) => meta_of(entries_view(root@)) == Err::<MetaView, FaultView>(f@),
        },
{
    proof {
        lemma_entries_view(root@);
    }
    let j = match last_index_exec(root, "meta") {
        Some(j) => j,
        None => {
            return Err(EnvelopeFault::Missing(own("meta")));
        },
    };
    match &root[j].1 {
        TomlValue::Table(t) => {
            assert(toml_view(root@[j as int].1) == TomlView::Table(entries_view(t@)));
            let id = match meta_field_exec(t, "id") {
                Ok(x) => x,
                Err(f) => {
                    return Err(f);
                },
            };
            let tool = match meta_field_exec(t, "tool") {
                Ok(x) => x,
                Err(f) => {
                    return Err(f);
                },
            };
            let record_type = match meta_field_exec(t, "record_type") {
                Ok(x) => x,
                Err(f) => {
                    return Err(f);
                },
            };
            let created = match meta_field_exec(t, "created") {
                Ok(x) => x,
                Err(f) => {
                    return Err(f);
                },
            };
            let author = match meta_field_exec(t, "author") {
                Ok(x) => x,
                Err(f) => {
                    return Err(f);
                },
            };
            Ok(RecordMeta { id, tool, record_type, created, author })
        },
        _ => Err(EnvelopeFault::Missing(own("meta"))),
    }
}

/// Whether a refs value is an array of strings: `Err(None)` when it is not
/// an array, `Err(Some(i))` when item `i` is the first non-string.
fn check_ref_value(v: &TomlValue) -> (r: Result<(), Option<usize>>)
    ensures
        match toml_view(*v) {
            TomlView::Array(items) => match first_non_string(items, 0) {
                Some(i) => r matches Err(Some(j)) && j as int == i && i < items.len(),
                None => r is Ok,
            },
            _ => r == Err::<(), Option<usize>>(None),
        },
{
    match v {
        TomlValue::Array(items) => {
            let ghost iv = values_view(items@);
            proof {
                lemma_values_view(items@);
            }
            assert(toml_view(*v) == TomlView::Array(iv));
            let mut i: usize = 0;
            while i < items.len()
                invariant
                    i <= items@.len(),
                    iv == values_view(items@),
                    iv.len() == items@.len(),
                    forall|j: int| 0 <= j < items@.len() ==> #[trigger] iv[j] == toml_view(items@[j]),
                    forall|j: int| 0 <= j < i ==> (#[trigger] iv[j]) is Str,
                    toml_view(*v) == TomlView::Array(iv),
                decreases items@.len() - i,
            {
                match &items[i] {
                    TomlValue::Str(_) => {},
                    _ => {
                        proof {
                            lemma_first_non_string(iv, i as int);
                            assert(iv[i as int] == toml_view(items@[i as int]));
                            assert(!(iv[i as int] is Str));
                            assert(first_non_string(iv, i as int) == Some(i as int));
                        }
                        return Err(Some(i));
                    },
                }
                i = i + 1;
            }
            proof {
                lemma_first_non_string(iv, i as int);
            }
            Ok(())
        },
        _ => Err(None),
    }
}

/// The strings of an array of strings.
fn string_list(items: &Vec<TomlValue>) -> (r: Vec<String>)
    requires
        first_non_string(values_view(items@), 0) is None,
    ensures
        r.deep_view() == string_items(values_view(items@)),
{
    let ghost iv = values_view(items@);
    proof {
        lemma_values_view(items@);
    }
    let mut r: Vec<String> = Vec::new();
    let mut i: usize = 0;
    while i < items.len()
        invariant
            i <= items@.len(),
            iv == values_view(items@),
            iv.len() == items@.len(),
            forall|j: int| 0 <= j < items@.len() ==> #[trigger] iv[j] == toml_view(items@[j]),
            first_non_string(iv, 0) is None,
            first_non_string(iv, 0) == first_non_string(iv, i as int),
            r.deep_view() == string_items(iv).take(i as int),
        decreases items@.len() - i,
    {
        let ghost r0 = r.deep_view();
        match &items[i] {
            TomlValue::Str(s) => {
                r.push(own(s.as_str()));
                assert(r.deep_view() =~= r0.push(s@));
            },
            _ => {
                assert(iv[i as int] == toml_view(items@[i as int]));
                assert(!(iv[i as int] is Str));
                assert(first_non_string(iv, i as int) == Some(i as int));
                assert(false);
            },
        }
        assert(string_items(iv).take(i + 1) =~= string_items(iv).take(i as int).push(string_items(iv)[i as int]));
        i = i + 1;
    }
    assert(string_items(iv).take(i as int) =~= string_items(iv));
    r
}

/// Insert names under a key not yet present, keeping keys in order.
fn insert_sorted(v: &mut Vec<(String, Vec<String>)>, k: String, names: Vec<String>)
    requires
        keys_sorted(refs_view(old(v)@)),
        lookup(refs_view(old(v)@), k@) is None,
    ensures
        keys_sorted(refs_view(final(v)@)),
        forall|k2: Seq<char>| #[trigger] lookup(refs_view(final(v)@), k2) == if k2 == k@ {
            Some(names.deep_view())
        } else {
            lookup(refs_view(old(v)@), k2)
        },
{
    let ghost e = refs_view(v@);
    let ghost kv = k@;
    let ghost nv = names.deep_view();
    let mut p: usize = 0;
    while p < v.len() && key_less(v[p].0.as_str(), k.as_str())
        invariant
            p <= v@.len(),
            e == refs_view(v@),
            e.len() == v@.len(),
            keys_sorted(e),
            kv == k@,
            forall|q: int| 0 <= q < p ==> key_lt((#[trigger] e[q]).0, kv),
        decreases v@.len() - p,
    {
        assert(e[p as int].0 == v@[p as int].0@);
        p = p + 1;
    }
    let ghost pi = p as int;
    proof {
        if pi < e.len() {
            assert(e[pi].0 == v@[pi].0@);
            assert(!key_lt(e[pi].0, kv));
            if e[pi].0 == kv {
                lemma_lookup_at(e, pi);
            }
            assert(e[pi].0 != kv);
            lemma_lt_total(e[pi].0, kv);
            assert forall|j: int| pi <= j < e.len() implies key_lt(kv, (#[trigger] e[j]).0) by {
                if j > pi {
                    lemma_lt_trans(kv, e[pi].0, e[j].0);
                }
            }
        }
    }
    v.insert(p, (k, names));
    let ghost e2 = refs_view(v@);
    assert(e2 =~= e.insert(pi, (kv, nv)));
    proof {
        assert forall|i: int, j: int| 0 <= i < j < e2.len() implies key_lt(#[trigger] e2[i].0, #[trigger] e2[j].0) by {
            if j < pi {
                assert(e2[i] == e[i] && e2[j] == e[j]);
            } else if j == pi {
                assert(e2[i] == e[i]);
            } else if i < pi {
                assert(e2[i] == e[i] && e2[j] == e[j - 1]);
                lemma_lt_trans(e[i].0, kv, e[j - 1].0);
            } else if i == pi {
                assert(e2[j] == e[j - 1]);
            } else {
                assert(e2[i] == e[i - 1] && e2[j] == e[j - 1]);
            }
        }
        lemma_lookup_at(e2, pi);
        assert forall|k2: Seq<char>| #[trigger] lookup(e2, k2) == if k2 == kv {
            Some(nv)
        } else {
            lookup(e, k2)
        } by {
            if k2 != kv {
                if exists|i: int| 0 <= i < e.len() && (#[trigger] e[i]).0 == k2 {
                    let i = choose|i: int| 0 <= i < e.len() && (#[trigger] e[i]).0 == k2;
                    lemma_lookup_at(e, i);
                    if i < pi {
                        assert(e2[i] == e[i]);
                        lemma_lookup_at(e2, i);
                    } else {
                        assert(e2[i + 1] == e[i]);
                        lemma_lookup_at(e2, i + 1);
                    }
                } else {
                    lemma_lookup_none(e, k2);
                    assert forall|i: int| 0 <= i < e2.len() implies (#[trigger] e2[i]).0 != k2 by {
                        if i < pi {
                            assert(e2[i] == e[i]);
                        } else if i > pi {
                            assert(e2[i] == e[i - 1]);
                        }
                    }
                    lemma_lookup_none(e2, k2);
                }
            }
        }
    }
}

/// The refs of a refs table in increasing key order, or the fault of its
/// least faulty key.
fn refs_exec(rt: &Vec<(String, TomlValue)>) -> (r: Result<Vec<(String, Vec<String>)>, EnvelopeFault>)
    ensures
        match r {
            Ok(refs) => {
                &&& forall|k: Seq<char>| #[trigger] refs_fault(entries_view(rt@), k) is None
                &&& keys_sorted(refs_view(refs@))
                &&& forall|k: Seq<char>| #[trigger] lookup(refs_view(refs@), k) == ref_names(entries_view(rt@), k)
            },
            Err(f) => least_fault(entries_view(rt@), f@),
        },
{
    let ghost tv = entries_view(rt@);
    proof {
        lemma_entries_view(rt@);
    }
    let mut best: Option<usize> = None;
    let mut i: usize = 0;
    while i < rt.len()
        invariant
            i <= rt@.len(),
            tv == entries_view(rt@),
            tv.len() == rt@.len(),
            forall|j: int| 0 <= j < rt@.len() ==> #[trigger] tv[j] == (rt@[j].0@, toml_view(rt@[j].1)),
            match best {
                Some(b) => {
                    &&& b < i
                    &&& last_index(tv, tv[b as int].0) == Some(b as int)
                    &&& refs_fault(tv, tv[b as int].0) is Some
                    &&& forall|j: int|
                        0 <= j < i && last_index(tv, tv[j].0) == Some(j) && (#[trigger] refs_fault(tv, tv[j].0)) is Some
                            ==> j == b || key_lt(tv[b as int].0, tv[j].0)
                },
                None => forall|j: int|
                    0 <= j < i && last_index(tv, tv[j].0) == Some(j) ==> (#[trigger] refs_fault(tv, tv[j].0)) is None,
            },
        decreases rt@.len() - i,
    {
        let ghost ki = tv[i as int].0;
        let eff = match last_index_exec(rt, rt[i].0.as_str()) {
            Some(j) => j == i,
            None => false,
        };
        if eff {
            let bad = check_ref_value(&rt[i].1).is_err();
            assert(last_entry(tv, ki) == Some(toml_view(rt@[i as int].1)));
            assert(bad == refs_fault(tv, ki) is Some);
            if bad {
                let better = match best {
                    None => true,
                    Some(b) => key_less(rt[i].0.as_str(), rt[b].0.as_str()),
                };
                proof {
                    if let Some(b) = best {
                        let kb = tv[b as int].0;
                        assert(kb != ki);
                        if better {
                            assert forall|j: int|
                                0 <= j < i + 1 && last_index(tv, tv[j].0) == Some(j) && (#[trigger] refs_fault(tv, tv[j].0)) is Some
                                    implies j == i || key_lt(ki, tv[j].0) by {
                                if j < i && j != b {
                                    lemma_lt_trans(ki, kb, tv[j].0);
                                }
                            }
                        } else {
                            lemma_lt_total(kb, ki);
                        }
                    }
                }
                if better {
                    best = Some(i);
                }
            }
        }
        i = i + 1;
    }
    match best {
        Some(b) => {
            let ghost kb = tv[b as int].0;
            let key = own(rt[b].0.as_str());
            let f = match check_ref_value(&rt[b].1) {
                Err(Some(x)) => EnvelopeFault::NotStringItem(key, x),
                _ => EnvelopeFault::NotArray(key),
            };
            proof {
                assert(last_entry(tv, kb) == Some(toml_view(rt@[b as int].1)));
                assert(refs_fault(tv, kb) == Some(f@));
                assert forall|k2: Seq<char>| (#[trigger] refs_fault(tv, k2)) is Some implies k2 == kb || key_lt(kb, k2) by {
                    lemma_last_index(tv, k2);
                    let j = last_index(tv, k2).unwrap();
                    assert(tv[j].0 == k2);
                }
            }
            Err(f)
        },
        None => {
            proof {
                assert forall|k: Seq<char>| #[trigger] refs_fault(tv, k) is None by {
                    lemma_last_index(tv, k);
                    if let Some(j) = last_index(tv, k) {
                        assert(tv[j].0 == k);
                    }
                }
            }
            let mut out: Vec<(String, Vec<String>)> = Vec::new();
            assert(refs_view(out@) =~= Seq::<(Seq<char>, Seq<Seq<char>>)>::empty());
            proof {
                assert forall|k: Seq<char>| #[trigger] lookup(refs_view(out@), k) == match last_index(tv, k) {
                    Some(j) => if j < 0 {
                        ref_names(tv, k)
                    } else {
                        None
                    },
                    None => None,
                } by {
                    lemma_last_index(tv, k);
                    lemma_lookup_none(refs_view(out@), k);
                }
            }
            let mut i: usize = 0;
            while i < rt.len()
                invariant
                    i <= rt@.len(),
                    tv == entries_view(rt@),
                    tv.len() == rt@.len(),
                    forall|j: int| 0 <= j < rt@.len() ==> #[trigger] tv[j] == (rt@[j].0@, toml_view(rt@[j].1)),
                    forall|k: Seq<char>| #[trigger] refs_fault(tv, k) is None,
                    keys_sorted(refs_view(out@)),
                    forall|k: Seq<char>| #[trigger] lookup(refs_view(out@), k) == match last_index(tv, k) {
                        Some(j) => if j < i {
                            ref_names(tv, k)
                        } else {
                            None
                        },
                        None => None,
                    },
                decreases rt@.len() - i,
            {
                let ghost ki = tv[i as int].0;
                let ghost o0 = refs_view(out@);
                proof {
                    lemma_last_index(tv, ki);
                }
                let eff = match last_index_exec(rt, rt[i].0.as_str()) {
                    Some(j) => j == i,
                    None => false,
                };
                if eff {
                    assert(last_entry(tv, ki) == Some(toml_view(rt@[i as int].1)));
                    assert(refs_fault(tv, ki) is None);
                    let names = match &rt[i].1 {
                        TomlValue::Array(items) => string_list(items),
                        _ => Vec::new(),
                    };
                    assert(ref_names(tv, ki) == Some(names.deep_view()));
                    assert(lookup(o0, ki) is None);
                    insert_sorted(&mut out, own(rt[i].0.as_str()), names);
                    proof {
                        assert forall|k: Seq<char>| #[trigger] lookup(refs_view(out@), k) == match last_index(tv, k) {
                            Some(j) => if j < i + 1 {
                                ref_names(tv, k)
                            } else {
                                None
                            },
                            None => None,
                        } by {
                            lemma_last_index(tv, k);
                            if k != ki {
                                assert(lookup(o0, k) == match last_index(tv, k) {
                                    Some(j) => if j < i {
                                        ref_names(tv, k)
                                    } else {
                                        None
                                    },
                                    None => None,
                                });
                            }
                        }
                    }
                } else {
                    proof {
                        assert forall|k: Seq<char>| #[trigger] lookup(refs_view(out@), k) == match last_index(tv, k) {
                            Some(j) => if j < i + 1 {
                                ref_names(tv, k)
                            } else {
                                None
                            },
                            None => None,
                        } by {
                            lemma_last_index(tv, k);
                            assert(lookup(o0, k) == match last_index(tv, k) {
                                Some(j) => if j < i {
                                    ref_names(tv, k)
                                } else {
                                    None
                                },
                                None => None,
                            });
                        }
                    }
                }
                i = i + 1;
            }
            proof {
                assert forall|k: Seq<char>| #[trigger] lookup(refs_view(out@), k) == ref_names(tv, k) by {
                    lemma_last_index(tv, k);
                }
            }
            Ok(out)
        },
    }
}

/// Read the meta record and the refs of a record's root table: the meta
/// fields in order, then the refs in increasing key order, the first fault
/// ending the read.
pub fn envelope_head(root: &Vec<(String, TomlValue)>) -> (r: Result<(RecordMeta, Vec<(String, Vec<String>)>), EnvelopeFault>)
    ensures
        match r {
            Ok(x) => head_ok(entries_view(root@), meta_view(x.0), refs_view(x.1@)),
            Err(f) => head_fault(entries_view(root@), f@),
        },
{
    let meta = match meta_exec(root) {
        Ok(m) => m,
        Err(f) => {
            return Err(f);
        },
    };
    proof {
        lemma_entries_view(root@);
    }
    let j = match last_index_exec(root, "refs") {
        Some(j) => j,
        None => {
            return Err(EnvelopeFault::Missing(own("refs")));
        },
    };
    match &root[j].1 {
        TomlValue::Table(rt) => {
            assert(toml_view(root@[j as int].1) == TomlView::Table(entries_view(rt@)));
            match refs_exec(rt) {
                Ok(refs) => Ok((meta, refs)),
                Err(f) => Err(f),
            }
        },
        _ => Err(EnvelopeFault::Missing(own("refs"))),
    }
}

} // verus!
