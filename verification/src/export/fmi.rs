//! FMI interface extraction: the ports of a part definition become FMI
//! variables, with SysML types mapped to FMI types and conjugated ports
//! flipping their items' directions.
use vstd::prelude::*;
use crate::model::{
    collect, conjugate, direction_text, first_def_index, lemma_collect_take, usages_with_parent, Connection,
    DefKind, Direction, Model, Usage,
};
use crate::text::{
    chars_of, first_segment, first_segment_exec, own, push_str, seq_eq, starts_with,
    starts_with_exec, str_eq,
};

verus! {

/// The FMI type that a SysML type name maps to (`Float64` for unknown types).
pub open spec fn fmi_type_of(t: Seq<char>) -> Seq<char> {
    if t == "Real"@ || t == "ScalarValues::Real"@ {
        "Float64"@
    } else if t == "Integer"@ || t == "ScalarValues::Integer"@ || t == "Natural"@ {
        "Int32"@
    } else if t == "Boolean"@ || t == "ScalarValues::Boolean"@ {
        "Boolean"@
    } else if t == "String"@ || t == "ScalarValues::String"@ {
        "String"@
    } else {
        "Float64"@
    }
}

/// Map a SysML type name to its FMI type.
pub fn map_type(sysml_type: &str) -> (r: &'static str)
    ensures
        r@ == fmi_type_of(sysml_type@),
{
    let t = sysml_type;
    if str_eq(t, "Real") || str_eq(t, "ScalarValues::Real") {
        "Float64"
    } else if str_eq(t, "Integer") || str_eq(t, "ScalarValues::Integer") || str_eq(t, "Natural") {
        "Int32"
    } else if str_eq(t, "Boolean") || str_eq(t, "ScalarValues::Boolean") {
        "Boolean"
    } else if str_eq(t, "String") || str_eq(t, "ScalarValues::String") {
        "String"
    } else {
        "Float64"
    }
}

/// The FMI causality of a direction: `output` for `out`, `input` otherwise.
pub open spec fn causality_of(d: Direction) -> Seq<char> {
    match d {
        Direction::Out => "output"@,
        _ => "input"@,
    }
}

/// The FMI causality of a direction.
pub fn direction_to_causality(dir: Direction) -> (r: &'static str)
    ensures
        r@ == causality_of(dir),
{
    match dir {
        Direction::In => "input",
        Direction::Out => "output",
        Direction::InOut => "input",
    }
}

/// A single FMI interface item extracted from a port.
#[derive(Debug, Clone)]
pub struct FmiInterfaceItem {
    pub name: String,
    pub direction: String,
    pub sysml_type: String,
    pub fmi_type: String,
    pub causality: String,
    pub variability: String,
    pub source_port: String,
}

/// An attribute of a part definition.
#[derive(Debug, Clone)]
pub struct FmiAttribute {
    pub name: String,
    pub sysml_type: String,
}

/// The FMI interface contract of a part definition.
#[derive(Debug, Clone)]
pub struct FmiInterface {
    pub part_name: String,
    pub items: Vec<FmiInterfaceItem>,
    pub attributes: Vec<FmiAttribute>,
}

/// An exportable part definition and the size of its interface.
#[derive(Debug, Clone)]
pub struct ExportablePart {
    pub name: String,
    pub ports: usize,
    pub attributes: usize,
    pub connections: usize,
}

/// The texts of an interface item.
pub struct FmiItemView {
    pub name: Seq<char>,
    pub direction: Seq<char>,
    pub sysml_type: Seq<char>,
    pub fmi_type: Seq<char>,
    pub causality: Seq<char>,
    pub variability: Seq<char>,
    pub source_port: Seq<char>,
}

/// The texts of an attribute.
pub struct FmiAttrView {
    pub name: Seq<char>,
    pub sysml_type: Seq<char>,
}

/// An interface as plain values.
pub struct FmiInterfaceView {
    pub part_name: Seq<char>,
    pub items: Seq<FmiItemView>,
    pub attributes: Seq<FmiAttrView>,
}

/// An exportable part as plain values.
pub struct ExportView {
    pub name: Seq<char>,
    pub ports: nat,
    pub attributes: nat,
    pub connections: nat,
}

impl View for FmiInterfaceItem {
    type V = FmiItemView;

    open spec fn view(&self) -> FmiItemView {
        FmiItemView {
            name: self.name@,
            direction: self.direction@,
            sysml_type: self.sysml_type@,
            fmi_type: self.fmi_type@,
            causality: self.causality@,
            variability: self.variability@,
            source_port: self.source_port@,
        }
    }
}

impl View for FmiAttribute {
    type V = FmiAttrView;

    open spec fn view(&self) -> FmiAttrView {
        FmiAttrView { name: self.name@, sysml_type: self.sysml_type@ }
    }
}

/// The views of a list of items.
pub open spec fn item_views(v: Seq<FmiInterfaceItem>) -> Seq<FmiItemView> {
    v.map_values(|x: FmiInterfaceItem| x@)
}

/// The views of a list of attributes.
pub open spec fn attr_views(v: Seq<FmiAttribute>) -> Seq<FmiAttrView> {
    v.map_values(|x: FmiAttribute| x@)
}

impl View for FmiInterface {
    type V = FmiInterfaceView;

    open spec fn view(&self) -> FmiInterfaceView {
        FmiInterfaceView {
            part_name: self.part_name@,
            items: item_views(self.items@),
            attributes: attr_views(self.attributes@),
        }
    }
}

impl View for ExportablePart {
    type V = ExportView;

    open spec fn view(&self) -> ExportView {
        ExportView {
            name: self.name@,
            ports: self.ports as nat,
            attributes: self.attributes as nat,
            connections: self.connections as nat,
        }
    }
}

/// The declared type of a usage, `Real` when it has none.
pub open spec fn type_or_real(u: Usage) -> Seq<char> {
    match u.type_ref {
        Some(t) => t@,
        None => "Real"@,
    }
}

/// The direction of an item seen through a port: its own direction (`in`
/// when it has none), flipped when the port is conjugated.
pub open spec fn effective_direction(item: Usage, conjugated: bool) -> Direction {
    let raw = match item.direction {
        Some(d) => d,
        None => Direction::In,
    };
    if conjugated {
        conjugate(raw)
    } else {
        raw
    }
}

/// The interface item that `item` of the type of `port` becomes.
pub open spec fn interface_item(item: Usage, port: Usage) -> FmiItemView {
    let t = type_or_real(item);
    let d = effective_direction(item, port.is_conjugated);
    FmiItemView {
        name: item.name@,
        direction: direction_text(d),
        sysml_type: t,
        fmi_type: fmi_type_of(t),
        causality: causality_of(d),
        variability: "continuous"@,
        source_port: port.name@,
    }
}

/// The items a port contributes: the `item` usages of its port type, in order.
pub open spec fn port_items(m: Model, port: Usage) -> Seq<FmiItemView> {
    match port.type_ref {
        Some(t) => collect(
            usages_with_parent(m.usages@, t@),
            |it: Usage|
                if it.kind@ == "item"@ {
                    seq![interface_item(it, port)]
                } else {
                    seq![]
                },
        ),
        None => seq![],
    }
}

/// What one usage of the part contributes to the interface items.
pub open spec fn usage_items(m: Model, u: Usage) -> Seq<FmiItemView> {
    if u.kind@ == "port"@ {
        port_items(m, u)
    } else {
        seq![]
    }
}

/// What one usage of the part contributes to the attributes.
pub open spec fn usage_attrs(u: Usage) -> Seq<FmiAttrView> {
    if u.kind@ == "attribute"@ {
        seq![FmiAttrView { name: u.name@, sysml_type: type_or_real(u) }]
    } else {
        seq![]
    }
}

/// The first definition named `name` exists and is a part definition.
pub open spec fn is_part_def(m: Model, name: Seq<char>) -> bool {
    match first_def_index(m.definitions@, name, 0) {
        Some(i) => m.definitions@[i].kind == DefKind::Part,
        None => false,
    }
}

/// The interface of part definition `name`: the items of its ports and its
/// attributes, in the order of its usages.
pub open spec fn interface_of(m: Model, name: Seq<char>) -> FmiInterfaceView {
    let us = usages_with_parent(m.usages@, name);
    FmiInterfaceView {
        part_name: name,
        items: collect(us, |u: Usage| usage_items(m, u)),
        attributes: collect(us, |u: Usage| usage_attrs(u)),
    }
}

/// Appends the items that `port` (of type `t`) contributes.
fn push_port_items(model: &Model, port: &Usage, t: &String, items: &mut Vec<FmiInterfaceItem>)
    requires
        port.type_ref == Some(*t),
    ensures
        item_views(final(items)@) == item_views(old(items)@) + port_items(*model, *port),
{
    let ghost its = usages_with_parent(model.usages@, t@);
    let ghost f = |it: Usage|
        if it.kind@ == "item"@ {
            seq![interface_item(it, *port)]
        } else {
            seq![]
        };
    let ghost start = item_views(items@);
    let port_items_v = model.usages_in_def(t.as_str());
    let mut j: usize = 0;
    while j < port_items_v.len()
        invariant
            j <= port_items_v@.len(),
            port_items_v@.len() == its.len(),
            forall|k: int| 0 <= k < its.len() ==> *#[trigger] port_items_v@[k] == its[k],
            item_views(items@) == start + collect(its.take(j as int), f),
            f == (|it: Usage|
                if it.kind@ == "item"@ {
                    seq![interface_item(it, *port)]
                } else {
                    seq![]
                }),
            its == usages_with_parent(model.usages@, t@),
        decreases port_items_v@.len() - j,
    {
        let item = port_items_v[j];
        proof {
            lemma_collect_take(its, f, j as int);
            assert(f(its[j as int]) == (if item.kind@ == "item"@ {
                seq![interface_item(*item, *port)]
            } else {
                seq![]
            }));
        }
        if str_eq(item.kind.as_str(), "item") {
            let item_type: &str = match &item.type_ref {
                Some(x) => x.as_str(),
                None => "Real",
            };
            let raw_dir = match item.direction {
                Some(d) => d,
                None => Direction::In,
            };
            let effective = if port.is_conjugated {
                raw_dir.conjugated()
            } else {
                raw_dir
            };
            let entry = FmiInterfaceItem {
                name: item.name.clone(),
                direction: own(effective.label()),
                sysml_type: own(item_type),
                fmi_type: own(map_type(item_type)),
                causality: own(direction_to_causality(effective)),
                variability: own("continuous"),
                source_port: port.name.clone(),
            };
            let ghost before = items@;
            items.push(entry);
            assert(entry@ == interface_item(*item, *port));
            assert(item_views(items@) =~= item_views(before) + seq![entry@]);
        } else {
            assert(item_views(items@) =~= item_views(items@) + Seq::<FmiItemView>::empty());
        }
        assert(start + collect(its.take(j + 1), f) =~= start + collect(its.take(j as int), f) + f(
            its[j as int],
        ));
        j = j + 1;
    }
    assert(its.take(its.len() as int) =~= its);
}

/// The FMI interface of the part definition named `part_name`; an error when
/// the first definition of that name is missing or not a part definition.
pub fn extract_interface(model: &Model, part_name: &str) -> (r: Result<FmiInterface, String>)
    ensures
        match r {
            Ok(fi) => is_part_def(*model, part_name@) && fi@ == interface_of(*model, part_name@),
            Err(e) => !is_part_def(*model, part_name@) && e@ == "part def `"@ + part_name@
                + "` not found"@,
        },
{
    let found = match model.find_def(part_name) {
        Some(d) => d.kind == DefKind::Part,
        None => false,
    };
    if !found {
        let mut e = own("part def `");
        push_str(&mut e, part_name);
        push_str(&mut e, "` not found");
        return Err(e);
    }
    let ghost us = usages_with_parent(model.usages@, part_name@);
    let ghost fi = |u: Usage| usage_items(*model, u);
    let ghost fa = |u: Usage| usage_attrs(u);
    let part_usages = model.usages_in_def(part_name);
    let mut items: Vec<FmiInterfaceItem> = Vec::new();
    let mut attributes: Vec<FmiAttribute> = Vec::new();
    let mut i: usize = 0;
    while i < part_usages.len()
        invariant
            i <= part_usages@.len(),
            part_usages@.len() == us.len(),
            forall|k: int| 0 <= k < us.len() ==> *#[trigger] part_usages@[k] == us[k],
            item_views(items@) == collect(us.take(i as int), fi),
            attr_views(attributes@) == collect(us.take(i as int), fa),
            fi == (|u: Usage| usage_items(*model, u)),
            fa == (|u: Usage| usage_attrs(u)),
        decreases part_usages@.len() - i,
    {
        let usage = part_usages[i];
        proof {
            lemma_collect_take(us, fi, i as int);
            lemma_collect_take(us, fa, i as int);
            reveal_strlit("port");
            reveal_strlit("attribute");
            assert("port"@.len() != "attribute"@.len());
            assert(fi(us[i as int]) == usage_items(*model, *usage));
            assert(fa(us[i as int]) == usage_attrs(*usage));
        }
        if str_eq(usage.kind.as_str(), "port") {
            match &usage.type_ref {
                Some(t) => {
                    push_port_items(model, usage, t, &mut items);
                },
                None => {
                    assert(item_views(items@) =~= item_views(items@) + seq![]);
                },
            }
            assert(attr_views(attributes@) =~= attr_views(attributes@) + fa(*usage));
        } else if str_eq(usage.kind.as_str(), "attribute") {
            let attr_type: &str = match &usage.type_ref {
                Some(x) => x.as_str(),
                None => "Real",
            };
            let a = FmiAttribute { name: usage.name.clone(), sysml_type: own(attr_type) };
            let ghost before = attributes@;
            attributes.push(a);
            assert(attr_views(attributes@) =~= attr_views(before) + seq![a@]);
            assert(item_views(items@) =~= item_views(items@) + fi(*usage));
        } else {
            assert(item_views(items@) =~= item_views(items@) + fi(*usage));
            assert(attr_views(attributes@) =~= attr_views(attributes@) + fa(*usage));
        }
        i = i + 1;
    }
    assert(us.take(us.len() as int) =~= us);
    Ok(FmiInterface { part_name: own(part_name), items, attributes })
}

/// How many of `us` have kind `k`.
pub open spec fn count_kind(us: Seq<Usage>, k: Seq<char>) -> nat
    decreases us.len(),
{
    if us.len() == 0 {
        0
    } else {
        count_kind(us.drop_last(), k) + if us.last().kind@ == k {
            1nat
        } else {
            0nat
        }
    }
}

/// Some part usage of `us` is named `n`.
pub open spec fn has_part_named(us: Seq<Usage>, n: Seq<char>) -> bool {
    exists|j: int| 0 <= j < us.len() && us[j].kind@ == "part"@ && #[trigger] us[j].name@ == n
}

/// A connection belongs to part definition `name` (whose usages are `us`):
/// one of its ends starts with `name.`, or its source starts with the name
/// of one of the part's part usages.
pub open spec fn conn_touches(c: Connection, name: Seq<char>, us: Seq<Usage>) -> bool {
    ||| starts_with(c.source@, name + seq!['.'])
    ||| starts_with(c.target@, name + seq!['.'])
    ||| has_part_named(us, first_segment(c.source@))
}

/// How many of `cs` belong to part definition `name`.
pub open spec fn count_conns(cs: Seq<Connection>, name: Seq<char>, us: Seq<Usage>) -> nat
    decreases cs.len(),
{
    if cs.len() == 0 {
        0
    } else {
        count_conns(cs.drop_last(), name, us) + if conn_touches(cs.last(), name, us) {
            1nat
        } else {
            0nat
        }
    }
}

/// The listing entry of definition `d`: part definitions with at least one
/// port or attribute usage.
pub open spec fn export_entry(m: Model, d: crate::model::Definition) -> Seq<ExportView> {
    let us = usages_with_parent(m.usages@, d.name@);
    let p = count_kind(us, "port"@);
    let a = count_kind(us, "attribute"@);
    if d.kind == DefKind::Part && (p > 0 || a > 0) {
        seq![ExportView { name: d.name@, ports: p, attributes: a, connections: count_conns(m.connections@, d.name@, us) }]
    } else {
        seq![]
    }
}

/// The exportable part definitions of a model, in model order.
pub open spec fn exportable(m: Model) -> Seq<ExportView> {
    collect(m.definitions@, |d: crate::model::Definition| export_entry(m, d))
}

/// The views of a list of exportable parts.
pub open spec fn export_views(v: Seq<ExportablePart>) -> Seq<ExportView> {
    v.map_values(|x: ExportablePart| x@)
}

fn count_kind_exec(us: &Vec<&Usage>, k: &str, Ghost(uv): Ghost<Seq<Usage>>) -> (r: usize)
    requires
        us@.len() == uv.len(),
        forall|j: int| 0 <= j < uv.len() ==> *#[trigger] us@[j] == uv[j],
    ensures
        r == count_kind(uv, k@),
{
    let mut n: usize = 0;
    let mut i: usize = 0;
    while i < us.len()
        invariant
            i <= us@.len(),
            us@.len() == uv.len(),
            forall|j: int| 0 <= j < uv.len() ==> *#[trigger] us@[j] == uv[j],
            n == count_kind(uv.take(i as int), k@),
            n <= i,
        decreases us@.len() - i,
    {
        assert(uv.take(i + 1).drop_last() =~= uv.take(i as int));
        if str_eq(us[i].kind.as_str(), k) {
            n = n + 1;
        }
        i = i + 1;
    }
    assert(uv.take(us@.len() as int) =~= uv);
    n
}

fn has_part_named_exec(us: &Vec<&Usage>, n: &Vec<char>, Ghost(uv): Ghost<Seq<Usage>>) -> (r: bool)
    requires
        us@.len() == uv.len(),
        forall|j: int| 0 <= j < uv.len() ==> *#[trigger] us@[j] == uv[j],
    ensures
        r == has_part_named(uv, n@),
{
    let mut i: usize = 0;
    while i < us.len()
        invariant
            i <= us@.len(),
            us@.len() == uv.len(),
            forall|j: int| 0 <= j < uv.len() ==> *#[trigger] us@[j] == uv[j],
            forall|j: int|
                0 <= j < i ==> !(uv[j].kind@ == "part"@ && #[trigger] uv[j].name@ == n@),
        decreases us@.len() - i,
    {
        let u = us[i];
        if str_eq(u.kind.as_str(), "part") {
            let name = chars_of(u.name.as_str());
            if seq_eq(&name, n) {
                assert(uv[i as int].name@ == n@);
                return true;
            }
        }
        i = i + 1;
    }
    false
}

fn conn_touches_exec(c: &Connection, name: &str, us: &Vec<&Usage>, Ghost(uv): Ghost<Seq<Usage>>) -> (r: bool)
    requires
        us@.len() == uv.len(),
        forall|j: int| 0 <= j < uv.len() ==> *#[trigger] us@[j] == uv[j],
    ensures
        r == conn_touches(*c, name@, uv),
{
    let mut prefix = chars_of(name);
    prefix.push('.');
    assert(prefix@ =~= name@ + seq!['.']);
    let src = chars_of(c.source.as_str());
    let tgt = chars_of(c.target.as_str());
    if starts_with_exec(&src, &prefix) {
        return true;
    }
    if starts_with_exec(&tgt, &prefix) {
        return true;
    }
    let head = first_segment_exec(&src);
    has_part_named_exec(us, &head, Ghost(uv))
}

/// The part definitions that can be exported (those with at least one port
/// or attribute usage), with their port, attribute and connection counts.
pub fn list_exportable(model: &Model) -> (r: Vec<ExportablePart>)
    ensures
        export_views(r@) == exportable(*model),
{
    let ghost f = |d: crate::model::Definition| export_entry(*model, d);
    let mut parts: Vec<ExportablePart> = Vec::new();
    let mut i: usize = 0;
    while i < model.definitions.len()
        invariant
            i <= model.definitions@.len(),
            f == (|d: crate::model::Definition| export_entry(*model, d)),
            export_views(parts@) == collect(model.definitions@.take(i as int), f),
        decreases model.definitions@.len() - i,
    {
        let def = &model.definitions[i];
        proof {
            lemma_collect_take(model.definitions@, f, i as int);
        }
        let ghost uv = usages_with_parent(model.usages@, def.name@);
        let usages = model.usages_in_def(def.name.as_str());
        let ports = count_kind_exec(&usages, "port", Ghost(uv));
        let attrs = count_kind_exec(&usages, "attribute", Ghost(uv));
        if def.kind == DefKind::Part && (ports > 0 || attrs > 0) {
            let mut connections: usize = 0;
            let mut j: usize = 0;
            while j < model.connections.len()
                invariant
                    j <= model.connections@.len(),
                    usages@.len() == uv.len(),
                    forall|k: int| 0 <= k < uv.len() ==> *#[trigger] usages@[k] == uv[k],
                    connections == count_conns(model.connections@.take(j as int), def.name@, uv),
                    connections <= j,
                decreases model.connections@.len() - j,
            {
                assert(model.connections@.take(j + 1).drop_last() =~= model.connections@.take(j as int));
                if conn_touches_exec(&model.connections[j], def.name.as_str(), &usages, Ghost(uv)) {
                    connections = connections + 1;
                }
                j = j + 1;
            }
            assert(model.connections@.take(model.connections@.len() as int) =~= model.connections@);
            let e = ExportablePart { name: def.name.clone(), ports, attributes: attrs, connections };
            let ghost before = parts@;
            parts.push(e);
            assert(export_views(parts@) =~= export_views(before) + seq![e@]);
        } else {
            assert(export_views(parts@) =~= export_views(parts@) + Seq::<ExportView>::empty());
        }
        i = i + 1;
    }
    assert(model.definitions@.take(model.definitions@.len() as int) =~= model.definitions@);
    parts
}

} // verus!
