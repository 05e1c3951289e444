//! Cross-file import resolution: an index from package names to the names
//! of the definitions they provide, and the names an import brings in.
//!
//! The index is an association list with distinct keys, kept in the order
//! in which packages first appear.
use vstd::prelude::*;
use crate::model::{collect, lemma_collect_take, DefKind, Definition, Import, Model};
use crate::text::{chars_of, find_from, first_occurrence, lemma_first_occurrence, own, slice_chars, starts_with, starts_with_exec, str_eq, string_of};

verus! {

/// Package name and the names of the definitions it provides, in order.
pub type PkgIndex = Seq<(Seq<char>, Seq<Seq<char>>)>;

/// The first entry of the index whose key is `key`, from `i` on.
pub open spec fn key_pos(e: PkgIndex, key: Seq<char>, i: int) -> Option<int>
    decreases e.len() - i,
{
    if i < 0 || i >= e.len() {
        None
    } else if e[i].0 == key {
        Some(i)
    } else {
        key_pos(e, key, i + 1)
    }
}

/// The index with `name` appended under `key` (a new entry for a new key).
pub open spec fn insert_name(e: PkgIndex, key: Seq<char>, name: Seq<char>) -> PkgIndex {
    match key_pos(e, key, 0) {
        Some(i) => e.update(i, (key, e[i].1.push(name))),
        None => e.push((key, seq![name])),
    }
}

/// No key occurs twice.
pub open spec fn keys_distinct(e: PkgIndex) -> bool {
    forall|i: int, j: int| 0 <= i < j < e.len() ==> e[i].0 != e[j].0
}

/// What `Path::file_stem` gives for a path (the empty text when it gives
/// nothing).
pub uninterp spec fn file_stem_of(path: Seq<char>) -> Seq<char>;

/// The file stem of a path, or the empty string (`Path::file_stem`).
#[verifier::external_body]
fn file_stem(path: &str) -> (r: String)
    ensures
        r@ == file_stem_of(path@),
{
    match std::path::Path::new(path).file_stem() {
        Some(stem) => stem.to_str().unwrap_or("").to_string(),
        None => String::new(),
    }
}

/// One definition of a file: a package becomes the current package; any
/// other definition is listed under the current package, if there is one.
/// Every definition is also listed under the file's stem when it has one.
pub open spec fn def_step(st: (PkgIndex, Option<Seq<char>>), d: Definition, stem: Seq<char>) -> (PkgIndex, Option<Seq<char>>) {
    let (e1, cur) = if d.kind == DefKind::Package {
        (st.0, Some(d.name@))
    } else {
        match st.1 {
            Some(p) => (insert_name(st.0, p, d.name@), st.1),
            None => (st.0, st.1),
        }
    };
    let e2 = if stem.len() > 0 {
        insert_name(e1, stem, d.name@)
    } else {
        e1
    };
    (e2, cur)
}

/// The definitions of one file, in order.
pub open spec fn defs_fold(st: (PkgIndex, Option<Seq<char>>), ds: Seq<Definition>, stem: Seq<char>) -> (PkgIndex, Option<Seq<char>>)
    decreases ds.len(),
{
    if ds.len() == 0 {
        st
    } else {
        def_step(defs_fold(st, ds.drop_last(), stem), ds.last(), stem)
    }
}

/// The package index of a list of models.
pub open spec fn package_index(ms: Seq<Model>) -> PkgIndex
    decreases ms.len(),
{
    if ms.len() == 0 {
        seq![]
    } else {
        defs_fold((package_index(ms.drop_last()), None), ms.last().definitions@, file_stem_of(ms.last().file@)).0
    }
}

/// `names` appended to `res`, skipping those already present.
pub open spec fn add_missing(res: Seq<Seq<char>>, names: Seq<Seq<char>>) -> Seq<Seq<char>>
    decreases names.len(),
{
    if names.len() == 0 {
        res
    } else {
        add_missing(if res.contains(names[0]) { res } else { res.push(names[0]) }, names.drop_first())
    }
}

/// The definitions of every package whose name starts with `path`, or that
/// `path` starts with, added once each.
pub open spec fn prefix_scan(res: Seq<Seq<char>>, e: PkgIndex, path: Seq<char>) -> Seq<Seq<char>>
    decreases e.len(),
{
    if e.len() == 0 {
        res
    } else {
        let r1 = if starts_with(e[0].0, path) || starts_with(path, e[0].0) {
            add_missing(res, e[0].1)
        } else {
            res
        };
        prefix_scan(r1, e.drop_first(), path)
    }
}

/// The definitions of the package named exactly `path`.
pub open spec fn exact_names(e: PkgIndex, path: Seq<char>) -> Seq<Seq<char>> {
    match key_pos(e, path, 0) {
        Some(i) => e[i].1,
        None => seq![],
    }
}

/// The last `::`-separated piece of `s[from..]`, splitting left to right.
pub open spec fn last_piece(s: Seq<char>, from: int) -> Seq<char>
    decreases s.len() + 1 - from,
{
    if from < 0 || from > s.len() {
        seq![]
    } else {
        match first_occurrence(s, seq![':', ':'], from) {
            Some(k) => {
                proof {
                    lemma_first_occurrence(s, seq![':', ':'], from);
                }
                last_piece(s, k + 2)
            },
            None => s.skip(from),
        }
    }
}

/// The names one import brings in: a wildcard or recursive import the
/// definitions of its package and of the packages related by prefix; a
/// plain import its last name and its full path.
pub open spec fn import_step(res: Seq<Seq<char>>, e: PkgIndex, imp: Import) -> Seq<Seq<char>> {
    if imp.is_wildcard || imp.is_recursive {
        prefix_scan(res + exact_names(e, imp.path@), e, imp.path@)
    } else {
        res.push(last_piece(imp.path@, 0)).push(imp.path@)
    }
}

/// The names a list of imports brings in, in order.
pub open spec fn resolve_all(res: Seq<Seq<char>>, e: PkgIndex, imps: Seq<Import>) -> Seq<Seq<char>>
    decreases imps.len(),
{
    if imps.len() == 0 {
        res
    } else {
        resolve_all(import_step(res, e, imps[0]), e, imps.drop_first())
    }
}

/// The names of all definitions of the models, in order (repeats included).
pub open spec fn all_names(ms: Seq<Model>) -> Seq<Seq<char>> {
    collect(ms, |m: Model| m.definitions@.map_values(|d: Definition| d.name@))
}

/// The names of all definitions of the models, each once, in order of first
/// appearance.
pub open spec fn defined_names(ms: Seq<Model>) -> Seq<Seq<char>> {
    add_missing(seq![], all_names(ms))
}

/// No element occurs twice.
pub open spec fn no_duplicates(s: Seq<Seq<char>>) -> bool {
    forall|i: int, j: int| 0 <= i < j < s.len() ==> s[i] != s[j]
}

/// Adding names keeps a list free of repeats, and it then holds exactly the
/// names of both.
pub proof fn lemma_add_missing_members(res: Seq<Seq<char>>, names: Seq<Seq<char>>)
    requires
        no_duplicates(res),
    ensures
        no_duplicates(add_missing(res, names)),
        forall|n: Seq<char>| add_missing(res, names).contains(n) <==> res.contains(n) || names.contains(n),
    decreases names.len(),
{
    if names.len() > 0 {
        let r1 = if res.contains(names[0]) { res } else { res.push(names[0]) };
        assert(no_duplicates(r1)) by {
            if !res.contains(names[0]) {
                assert forall|i: int, j: int| 0 <= i < j < r1.len() implies r1[i] != r1[j] by {
                    if j == res.len() {
                        assert(r1[i] == res[i]);
                    }
                }
            }
        }
        lemma_add_missing_members(r1, names.drop_first());
        assert forall|n: Seq<char>| add_missing(res, names).contains(n) <==> res.contains(n) || names.contains(n) by {
            if names.contains(n) && !names.drop_first().contains(n) {
                let k = choose|k: int| 0 <= k < names.len() && names[k] == n;
                if k > 0 {
                    assert(names.drop_first()[k - 1] == n);
                }
                if !res.contains(names[0]) {
                    assert(r1[res.len() as int] == names[0]);
                }
            }
            if names.drop_first().contains(n) {
                let k = choose|k: int| 0 <= k < names.drop_first().len() && names.drop_first()[k] == n;
                assert(names[k + 1] == n);
            }
            if r1.contains(n) && !res.contains(n) {
                let k = choose|k: int| 0 <= k < r1.len() && r1[k] == n;
                assert(k == res.len());
                assert(names[0] == n);
            }
            if res.contains(n) {
                let k = choose|k: int| 0 <= k < res.len() && res[k] == n;
                assert(r1[k] == n);
            }
        }
    }
}

/// A set of parsed models with a package index for import resolution.
#[derive(Debug)]
pub struct Project {
    pub models: Vec<Model>,
    /// Package name and the names of the definitions it provides.
    package_defs: Vec<(String, Vec<String>)>,
}

/// The index as plain values.
pub open spec fn index_view(v: Seq<(String, Vec<String>)>) -> PkgIndex {
    v.map_values(|p: (String, Vec<String>)| (p.0@, p.1.deep_view()))
}

impl Project {
    /// The parsed models.
    pub closed spec fn model_list(&self) -> Seq<Model> {
        self.models@
    }

    /// The package index.
    pub closed spec fn index(&self) -> PkgIndex {
        index_view(self.package_defs@)
    }

    /// The index is the one the models give, with distinct keys.
    pub closed spec fn wf(&self) -> bool {
        &&& self.index() == package_index(self.models@)
        &&& keys_distinct(self.index())
    }
}

proof fn lemma_key_pos(e: PkgIndex, key: Seq<char>, i: int)
    requires
        0 <= i,
    ensures
        key_pos(e, key, i) matches Some(k) ==> i <= k < e.len() && e[k].0 == key && forall|j: int| i <= j < k ==> e[j].0 != key,
        key_pos(e, key, i) is None ==> forall|j: int| i <= j < e.len() ==> e[j].0 != key,
    decreases e.len() - i,
{
    if i < e.len() && e[i].0 != key {
        lemma_key_pos(e, key, i + 1);
    }
}

/// Inserting a name keeps the keys distinct.
proof fn lemma_insert_distinct(e: PkgIndex, key: Seq<char>, name: Seq<char>)
    requires
        keys_distinct(e),
    ensures
        keys_distinct(insert_name(e, key, name)),
{
    lemma_key_pos(e, key, 0);
}

/// Appends `name` under `key`.
fn insert_name_exec(v: &mut Vec<(String, Vec<String>)>, key: &str, name: &str)
    requires
        keys_distinct(index_view(old(v)@)),
    ensures
        index_view(final(v)@) == insert_name(index_view(old(v)@), key@, name@),
        keys_distinct(index_view(final(v)@)),
{
    let ghost e = index_view(v@);
    proof {
        lemma_insert_distinct(e, key@, name@);
        lemma_key_pos(e, key@, 0);
    }
    let mut i: usize = 0;
    while i < v.len()
        invariant
            i <= v@.len(),
            e == index_view(v@),
            e == index_view(old(v)@),
            keys_distinct(insert_name(e, key@, name@)),
            key_pos(e, key@, 0) == key_pos(e, key@, i as int),
        decreases v@.len() - i,
    {
        if str_eq(v[i].0.as_str(), key) {
            assert(e[i as int].0 == key@);
            assert(key_pos(e, key@, i as int) == Some(i as int));
            let (k, mut names) = v.remove(i);
            let ghost n0 = names.deep_view();
            names.push(own(name));
            assert(names.deep_view() =~= n0.push(name@));
            v.insert(i, (k, names));
            assert(index_view(v@) =~= e.update(i as int, (key@, e[i as int].1.push(name@))));
            return;
        }
        i = i + 1;
    }
    let mut names: Vec<String> = Vec::new();
    names.push(own(name));
    assert(names.deep_view() =~= seq![name@]);
    v.push((own(key), names));
    assert(index_view(v@) =~= e.push((key@, seq![name@])));
}

impl Project {
    /// A project over already parsed models, with its package index built:
    /// every package lists the definitions that follow it in its file (up
    /// to the next package), and every file stem lists the definitions of
    /// its file.
    pub fn from_models(models: Vec<Model>) -> (p: Project)
        ensures
            p.model_list() == models@,
            p.index() == package_index(models@),
            p.wf(),
    {
        let mut index: Vec<(String, Vec<String>)> = Vec::new();
        assert(index_view(index@) =~= Seq::<(Seq<char>, Seq<Seq<char>>)>::empty());
        let mut i: usize = 0;
        while i < models.len()
            invariant
                i <= models@.len(),
                index_view(index@) == package_index(models@.take(i as int)),
                keys_distinct(index_view(index@)),
            decreases models@.len() - i,
        {
            let model = &models[i];
            assert(models@.take(i + 1).drop_last() =~= models@.take(i as int));
            let stem = file_stem(model.file.as_str());
            let ghost start = (index_view(index@), None::<Seq<char>>);
            let mut current: Option<String> = None;
            let mut j: usize = 0;
            assert(model.definitions@.take(0) =~= Seq::<Definition>::empty());
            while j < model.definitions.len()
                invariant
                    j <= model.definitions@.len(),
                    stem@ == file_stem_of(model.file@),
                    keys_distinct(index_view(index@)),
                    (index_view(index@), match current {
                        Some(c) => Some(c@),
                        None => None,
                    }) == defs_fold(start, model.definitions@.take(j as int), stem@),
                decreases model.definitions@.len() - j,
            {
                let d = &model.definitions[j];
                assert(model.definitions@.take(j + 1).drop_last() =~= model.definitions@.take(j as int));
                if d.kind == DefKind::Package {
                    current = Some(d.name.clone());
                } else {
                    match &current {
                        Some(pkg) => {
                            insert_name_exec(&mut index, pkg.as_str(), d.name.as_str());
                        },
                        None => {},
                    }
                }
                if !stem.as_str().is_empty() {
                    insert_name_exec(&mut index, stem.as_str(), d.name.as_str());
                }
                j = j + 1;
            }
            assert(model.definitions@.take(model.definitions@.len() as int) =~= model.definitions@);
            i = i + 1;
        }
        assert(models@.take(models@.len() as int) =~= models@);
        Project { models, package_defs: index }
    }
}

/// Appends the names of `names` that `res` lacks.
fn add_missing_exec(res: &mut Vec<String>, names: &Vec<String>)
    ensures
        final(res).deep_view() == add_missing(old(res).deep_view(), names.deep_view()),
{
    let ghost total = add_missing(res.deep_view(), names.deep_view());
    let ghost nd = names.deep_view();
    assert(nd.skip(0) =~= nd);
    let mut i: usize = 0;
    while i < names.len()
        invariant
            i <= names@.len(),
            nd == names.deep_view(),
            nd.len() == names@.len(),
            add_missing(res.deep_view(), nd.skip(i as int)) == total,
        decreases names@.len() - i,
    {
        let n = names[i].as_str();
        assert(nd.skip(i as int)[0] == n@);
        assert(nd.skip(i as int).drop_first() =~= nd.skip(i + 1));
        let ghost r0 = res.deep_view();
        assert(crate::diagram::graph::string_views(res@) =~= r0);
        if !crate::diagram::builders::contains_string(res, n) {
            res.push(own(n));
            assert(res.deep_view() =~= r0.push(n@));
        }
        i = i + 1;
    }
    assert(nd.skip(names@.len() as int) =~= Seq::<Seq<char>>::empty());
}

/// The last `::`-separated piece of a path.
fn last_piece_exec(s: &str) -> (r: String)
    ensures
        r@ == last_piece(s@, 0),
{
    let cs = chars_of(s);
    let sep = chars_of("::");
    proof {
        reveal_strlit("::");
    }
    assert(sep@ =~= seq![':', ':']);
    let mut from: usize = 0;
    while from <= cs.len()
        invariant
            from <= cs@.len(),
            cs@ == s@,
            sep@ == seq![':', ':'],
            last_piece(s@, from as int) == last_piece(s@, 0),
        decreases cs@.len() - from,
    {
        match find_from(&cs, &sep, from) {
            Some(k) => {
                proof {
                    lemma_first_occurrence(cs@, sep@, from as int);
                }
                from = k + 2;
            },
            None => {
                let rest = slice_chars(&cs, from, cs.len());
                assert(rest@ =~= cs@.skip(from as int));
                return string_of(&rest);
            },
        }
    }
    String::new()
}

/// Adds the definitions of the packages related to `path` by prefix.
fn prefix_scan_exec(res: &mut Vec<String>, index: &Vec<(String, Vec<String>)>, path: &str)
    ensures
        final(res).deep_view() == prefix_scan(old(res).deep_view(), index_view(index@), path@),
{
    let ghost e = index_view(index@);
    let ghost total = prefix_scan(res.deep_view(), e, path@);
    let pc = chars_of(path);
    assert(e.skip(0) =~= e);
    let mut i: usize = 0;
    while i < index.len()
        invariant
            i <= index@.len(),
            e == index_view(index@),
            pc@ == path@,
            prefix_scan(res.deep_view(), e.skip(i as int), path@) == total,
        decreases index@.len() - i,
    {
        let (k, names) = &index[i];
        assert(e.skip(i as int)[0] == (k@, names.deep_view()));
        assert(e.skip(i as int).drop_first() =~= e.skip(i + 1));
        let kc = chars_of(k.as_str());
        if starts_with_exec(&kc, &pc) || starts_with_exec(&pc, &kc) {
            add_missing_exec(res, names);
        }
        i = i + 1;
    }
    assert(e.skip(index@.len() as int) =~= PkgIndex::empty());
}

impl Project {
    /// The definition names that the imports of `model` make available: for
    /// a wildcard or recursive import, the definitions of the package it
    /// names and then (once each) those of every package related to it by
    /// prefix; for a plain import, its last name and its full path.
    pub fn resolve_imports(&self, model: &Model) -> (r: Vec<String>)
        ensures
            r.deep_view() == resolve_all(seq![], self.index(), model.imports@),
    {
        let ghost e = self.index();
        let ghost total = resolve_all(seq![], e, model.imports@);
        let mut resolved: Vec<String> = Vec::new();
        assert(resolved.deep_view() =~= Seq::<Seq<char>>::empty());
        assert(model.imports@.skip(0) =~= model.imports@);
        let mut i: usize = 0;
        while i < model.imports.len()
            invariant
                i <= model.imports@.len(),
                e == self.index(),
                e == index_view(self.package_defs@),
                resolve_all(resolved.deep_view(), e, model.imports@.skip(i as int)) == total,
            decreases model.imports@.len() - i,
        {
            let imp = &model.imports[i];
            assert(model.imports@.skip(i as int)[0] == *imp);
            assert(model.imports@.skip(i as int).drop_first() =~= model.imports@.skip(i + 1));
            let path = imp.path.as_str();
            if imp.is_wildcard || imp.is_recursive {
                let mut j: usize = 0;
                let mut found = false;
                while !found && j < self.package_defs.len()
                    invariant
                        j <= self.package_defs@.len(),
                        e == index_view(self.package_defs@),
                        key_pos(e, path@, 0) == key_pos(e, path@, j as int),
                        found ==> j < self.package_defs@.len() && e[j as int].0 == path@,
                    decreases self.package_defs@.len() - j + if found { 0int } else { 1int },
                {
                    if str_eq(self.package_defs[j].0.as_str(), path) {
                        found = true;
                    } else {
                        j = j + 1;
                    }
                }
                if found {
                    assert(key_pos(e, path@, j as int) == Some(j as int));
                    let names = &self.package_defs[j].1;
                    let mut k: usize = 0;
                    let ghost r0 = resolved.deep_view();
                    while k < names.len()
                        invariant
                            k <= names@.len(),
                            resolved.deep_view() == r0 + names.deep_view().take(k as int),
                        decreases names@.len() - k,
                    {
                        let ghost r1 = resolved.deep_view();
                        resolved.push(names[k].clone());
                        assert(resolved.deep_view() =~= r1.push(names@[k as int]@));
                        assert(names.deep_view().take(k + 1) =~= names.deep_view().take(k as int).push(names@[k as int]@));
                        k = k + 1;
                    }
                    assert(names.deep_view().take(names@.len() as int) =~= names.deep_view());
                } else {
                    assert(resolved.deep_view() + exact_names(e, path@) =~= resolved.deep_view());
                }
                prefix_scan_exec(&mut resolved, &self.package_defs, path);
            } else {
                let ghost r0 = resolved.deep_view();
                resolved.push(last_piece_exec(path));
                resolved.push(imp.path.clone());
                assert(resolved.deep_view() =~= r0.push(last_piece(path@, 0)).push(path@));
            }
            i = i + 1;
        }
        assert(model.imports@.skip(model.imports@.len() as int) =~= Seq::<Import>::empty());
        resolved
    }

    /// The names of all definitions in the project, each once, in order of
    /// first appearance.
    pub fn all_defined_names(&self) -> (r: Vec<String>)
        ensures
            r.deep_view() == defined_names(self.model_list()),
            no_duplicates(r.deep_view()),
            forall|n: Seq<char>| r.deep_view().contains(n) <==> all_names(self.model_list()).contains(n),
    {
        let ghost f = |m: Model| m.definitions@.map_values(|d: Definition| d.name@);
        let mut names: Vec<String> = Vec::new();
        let mut i: usize = 0;
        while i < self.models.len()
            invariant
                i <= self.models@.len(),
                f == (|m: Model| m.definitions@.map_values(|d: Definition| d.name@)),
                names.deep_view() == add_missing(seq![], collect(self.models@.take(i as int), f)),
            decreases self.models@.len() - i,
        {
            proof {
                lemma_collect_take(self.models@, f, i as int);
            }
            let model = &self.models[i];
            let mut own_names: Vec<String> = Vec::new();
            let mut j: usize = 0;
            while j < model.definitions.len()
                invariant
                    j <= model.definitions@.len(),
                    own_names.deep_view() == model.definitions@.take(j as int).map_values(|d: Definition| d.name@),
                decreases model.definitions@.len() - j,
            {
                let ghost o0 = own_names.deep_view();
                own_names.push(model.definitions[j].name.clone());
                assert(own_names.deep_view() =~= o0.push(model.definitions@[j as int].name@));
                assert(model.definitions@.take(j + 1).map_values(|d: Definition| d.name@) =~= model.definitions@.take(j as int).map_values(|d: Definition| d.name@).push(model.definitions@[j as int].name@));
                j = j + 1;
            }
            assert(model.definitions@.take(model.definitions@.len() as int) =~= model.definitions@);
            proof {
                lemma_add_missing_append(seq![], collect(self.models@.take(i as int), f), f(*model));
                assert(all_names(self.models@) == collect(self.models@, f));
            }
            add_missing_exec(&mut names, &own_names);
            i = i + 1;
        }
        assert(self.models@.take(self.models@.len() as int) =~= self.models@);
        proof {
            lemma_add_missing_members(seq![], all_names(self.models@));
        }
        names
    }
}

/// Adding two lists one after the other is adding their concatenation.
proof fn lemma_add_missing_append(res: Seq<Seq<char>>, a: Seq<Seq<char>>, b: Seq<Seq<char>>)
    ensures
        add_missing(add_missing(res, a), b) == add_missing(res, a + b),
    decreases a.len(),
{
    if a.len() == 0 {
        assert(a + b =~= b);
    } else {
        assert((a + b).drop_first() =~= a.drop_first() + b);
        assert((a + b)[0] == a[0]);
        lemma_add_missing_append(if res.contains(a[0]) { res } else { res.push(a[0]) }, a.drop_first(), b);
    }
}

} // verus!
