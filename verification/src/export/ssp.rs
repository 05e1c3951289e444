//! SSP (System Structure and Parameterization) output: part usages become
//! components, connections become SSP connections, and the structure is
//! written as a SystemStructureDescription XML document.
use vstd::prelude::*;
use crate::diagram::builders::contains_string;
use crate::diagram::graph::string_views;
use crate::model::{collect, lemma_collect_take, Connection, Model, Usage};
use crate::qualified_name::{join_strings, join_with};
use crate::text::{
    chars_of, first_segment, first_segment_exec, index_of, index_of_exec, lowercase_of, own,
    push_str, slice_chars, str_eq, string_of, to_lowercase,
};

verus! {

/// A component of the system structure.
#[derive(Debug, Clone)]
pub struct SspComponent {
    pub name: String,
    pub component_type: String,
}

/// A connection between two components' connectors.
#[derive(Debug, Clone)]
pub struct SspConnection {
    pub name: Option<String>,
    pub start_element: String,
    pub start_connector: String,
    pub end_element: String,
    pub end_connector: String,
}

/// The components and connections of a system.
#[derive(Debug, Clone)]
pub struct SspStructure {
    pub components: Vec<SspComponent>,
    pub connections: Vec<SspConnection>,
}

/// A component as plain values.
pub struct SspCompView {
    pub name: Seq<char>,
    pub component_type: Seq<char>,
}

/// A connection as plain values.
pub struct SspConnView {
    pub name: Option<Seq<char>>,
    pub start_element: Seq<char>,
    pub start_connector: Seq<char>,
    pub end_element: Seq<char>,
    pub end_connector: Seq<char>,
}

/// A system structure as plain values.
pub struct SspView {
    pub components: Seq<SspCompView>,
    pub connections: Seq<SspConnView>,
}

impl View for SspComponent {
    type V = SspCompView;

    open spec fn view(&self) -> SspCompView {
        SspCompView { name: self.name@, component_type: self.component_type@ }
    }
}

impl View for SspConnection {
    type V = SspConnView;

    open spec fn view(&self) -> SspConnView {
        SspConnView {
            name: match self.name {
                Some(n) => Some(n@),
                None => None,
            },
            start_element: self.start_element@,
            start_connector: self.start_connector@,
            end_element: self.end_element@,
            end_connector: self.end_connector@,
        }
    }
}

/// The views of a list of components.
pub open spec fn comp_views(v: Seq<SspComponent>) -> Seq<SspCompView> {
    v.map_values(|c: SspComponent| c@)
}

/// The views of a list of connections.
pub open spec fn conn_views(v: Seq<SspConnection>) -> Seq<SspConnView> {
    v.map_values(|c: SspConnection| c@)
}

impl View for SspStructure {
    type V = SspView;

    open spec fn view(&self) -> SspView {
        SspView { components: comp_views(self.components@), connections: conn_views(self.connections@) }
    }
}

/// The second `.`-separated piece of a reference (the whole text when it
/// has no `.`).
pub open spec fn second_segment(s: Seq<char>) -> Seq<char> {
    match index_of(s, '.') {
        Some(k) => first_segment(s.skip(k + 1)),
        None => s,
    }
}

/// The component a usage stands for: typed part usages only.
pub open spec fn usage_component(u: Usage) -> Seq<SspCompView> {
    if u.kind@ == "part"@ {
        match u.type_ref {
            Some(t) => seq![SspCompView { name: u.name@, component_type: t@ }],
            None => seq![],
        }
    } else {
        seq![]
    }
}

/// The SSP connection of a model connection: each end split into element
/// and connector at its first `.`.
pub open spec fn ssp_connection(c: Connection) -> SspConnView {
    SspConnView {
        name: match c.name {
            Some(n) => Some(n@),
            None => None,
        },
        start_element: first_segment(c.source@),
        start_connector: second_segment(c.source@),
        end_element: first_segment(c.target@),
        end_connector: second_segment(c.target@),
    }
}

/// The system structure of a model.
pub open spec fn ssp_of(m: Model) -> SspView {
    SspView {
        components: collect(m.usages@, |u: Usage| usage_component(u)),
        connections: m.connections@.map_values(|c: Connection| ssp_connection(c)),
    }
}

fn second_segment_exec(s: &Vec<char>) -> (r: Vec<char>)
    ensures
        r@ == second_segment(s@),
{
    match index_of_exec(s, '.') {
        Some(k) => {
            let rest = slice_chars(s, k + 1, s.len());
            assert(rest@ =~= s@.skip(k + 1));
            first_segment_exec(&rest)
        },
        None => {
            let r = slice_chars(s, 0, s.len());
            assert(r@ =~= s@);
            r
        },
    }
}

/// Extract the SSP structure of a model: its typed part usages as
/// components, and its connections with each end split at the first `.`
/// into element and connector (the connector is the element again when
/// the end has no `.`).
pub fn extract_ssp_structure(model: &Model) -> (r: SspStructure)
    ensures
        r@ == ssp_of(*model),
{
    let ghost f = |u: Usage| usage_component(u);
    let mut components: Vec<SspComponent> = Vec::new();
    let mut i: usize = 0;
    while i < model.usages.len()
        invariant
            i <= model.usages@.len(),
            f == (|u: Usage| usage_component(u)),
            comp_views(components@) == collect(model.usages@.take(i as int), f),
        decreases model.usages@.len() - i,
    {
        let u = &model.usages[i];
        proof {
            lemma_collect_take(model.usages@, f, i as int);
        }
        let ghost before = components@;
        if str_eq(u.kind.as_str(), "part") {
            match &u.type_ref {
                Some(t) => {
                    let c = SspComponent { name: u.name.clone(), component_type: t.clone() };
                    components.push(c);
                    assert(comp_views(components@) =~= comp_views(before) + seq![c@]);
                },
                None => {
                    assert(comp_views(components@) =~= comp_views(before) + Seq::<SspCompView>::empty());
                },
            }
        } else {
            assert(comp_views(components@) =~= comp_views(before) + Seq::<SspCompView>::empty());
        }
        i = i + 1;
    }
    assert(model.usages@.take(model.usages@.len() as int) =~= model.usages@);
    let mut connections: Vec<SspConnection> = Vec::new();
    let mut j: usize = 0;
    while j < model.connections.len()
        invariant
            j <= model.connections@.len(),
            conn_views(connections@) == model.connections@.take(j as int).map_values(
                |c: Connection| ssp_connection(c),
            ),
        decreases model.connections@.len() - j,
    {
        let conn = &model.connections[j];
        let src = chars_of(conn.source.as_str());
        let tgt = chars_of(conn.target.as_str());
        let name = match &conn.name {
            Some(n) => Some(n.clone()),
            None => None,
        };
        let c = SspConnection {
            name,
            start_element: string_of(&first_segment_exec(&src)),
            start_connector: string_of(&second_segment_exec(&src)),
            end_element: string_of(&first_segment_exec(&tgt)),
            end_connector: string_of(&second_segment_exec(&tgt)),
        };
        let ghost before = connections@;
        connections.push(c);
        assert(c@ == ssp_connection(*conn));
        assert(conn_views(connections@) =~= conn_views(before).push(c@));
        assert(model.connections@.take(j + 1).map_values(|c: Connection| ssp_connection(c))
            =~= model.connections@.take(j as int).map_values(|c: Connection| ssp_connection(c)).push(
            ssp_connection(*conn),
        ));
        j = j + 1;
    }
    assert(model.connections@.take(model.connections@.len() as int) =~= model.connections@);
    SspStructure { components, connections }
}

/// The connector line of an output connector.
pub open spec fn output_connector_line(n: Seq<char>) -> Seq<char> {
    "          <ssd:Connector name=\""@ + n + "\" kind=\"output\"/>"@
}

/// The connector line of an input connector.
pub open spec fn input_connector_line(n: Seq<char>) -> Seq<char> {
    "          <ssd:Connector name=\""@ + n + "\" kind=\"input\"/>"@
}

/// The connector lines of component `name`, scanning connections in order:
/// a connection starting at the component gives an output connector, one
/// ending at it an input connector, each connector name once (`seen` holds
/// the names already listed).
pub open spec fn connector_lines(cs: Seq<SspConnView>, name: Seq<char>, seen: Seq<Seq<char>>) -> Seq<Seq<char>>
    decreases cs.len(),
{
    if cs.len() == 0 {
        seq![]
    } else {
        let c = cs[0];
        let out_new = c.start_element == name && !seen.contains(c.start_connector);
        let seen1 = if out_new {
            seen.push(c.start_connector)
        } else {
            seen
        };
        let in_new = c.end_element == name && !seen1.contains(c.end_connector);
        let seen2 = if in_new {
            seen1.push(c.end_connector)
        } else {
            seen1
        };
        (if out_new {
            seq![output_connector_line(c.start_connector)]
        } else {
            seq![]
        }) + (if in_new {
            seq![input_connector_line(c.end_connector)]
        } else {
            seq![]
        }) + connector_lines(cs.drop_first(), name, seen2)
    }
}

/// The lines of one component element.
pub open spec fn component_lines(c: SspCompView, cs: Seq<SspConnView>) -> Seq<Seq<char>> {
    seq![
        "      <ssd:Component name=\""@ + c.name + "\" source=\"resources/"@ + lowercase_of(c.component_type)
            + ".fmu\">"@,
        "        <ssd:Connectors>"@,
    ] + connector_lines(cs, c.name, seq![]) + seq![
        "        </ssd:Connectors>"@,
        "      </ssd:Component>"@,
    ]
}

/// The line of one connection element.
pub open spec fn connection_line(c: SspConnView) -> Seq<char> {
    "      <ssd:Connection startElement=\""@ + c.start_element + "\" startConnector=\""@
        + c.start_connector + "\" endElement=\""@ + c.end_element + "\" endConnector=\""@
        + c.end_connector + "\"/>"@
}

/// The opening lines of the document.
pub open spec fn ssd_head() -> Seq<Seq<char>> {
    seq![
        "<?xml version=\"1.0\" encoding=\"UTF-8\"?>"@,
        "<ssd:SystemStructureDescription version=\"1.0\" name=\"system\"\n    xmlns:ssd=\"http://ssp-standard.org/SSP1/SystemStructureDescription\">"@,
        "  <ssd:System name=\"root\">"@,
        "    <ssd:Elements>"@,
    ]
}

/// The lines of the SSD document of a structure.
pub open spec fn ssd_lines(st: SspView) -> Seq<Seq<char>> {
    ssd_head() + collect(st.components, |c: SspCompView| component_lines(c, st.connections))
        + seq!["    </ssd:Elements>"@, "    <ssd:Connections>"@]
        + st.connections.map_values(|c: SspConnView| connection_line(c))
        + seq![
        "    </ssd:Connections>"@,
        "  </ssd:System>"@,
        "</ssd:SystemStructureDescription>"@,
    ]
}

/// Appends the lines of one component element.
fn push_component(lines: &mut Vec<String>, comp: &SspComponent, conns: &Vec<SspConnection>)
    ensures
        final(lines).deep_view() == old(lines).deep_view() + component_lines(comp@, conn_views(conns@)),
{
    let ghost cs = conn_views(conns@);
    let ghost start = lines.deep_view();
    let mut open = own("      <ssd:Component name=\"");
    push_str(&mut open, comp.name.as_str());
    push_str(&mut open, "\" source=\"resources/");
    let lower = to_lowercase(comp.component_type.as_str());
    push_str(&mut open, lower.as_str());
    push_str(&mut open, ".fmu\">");
    assert(open@ =~= "      <ssd:Component name=\""@ + comp.name@ + "\" source=\"resources/"@ + lowercase_of(
        comp.component_type@,
    ) + ".fmu\">"@);
    lines.push(open);
    lines.push(own("        <ssd:Connectors>"));
    let ghost head = start + seq![open@, "        <ssd:Connectors>"@];
    assert(lines.deep_view() =~= head);
    let mut seen: Vec<String> = Vec::new();
    assert(string_views(seen@) =~= Seq::<Seq<char>>::empty());
    assert(cs.skip(0) =~= cs);
    let mut i: usize = 0;
    while i < conns.len()
        invariant
            i <= conns@.len(),
            cs == conn_views(conns@),
            head + connector_lines(cs, comp.name@, seq![]) == lines.deep_view() + connector_lines(
                cs.skip(i as int),
                comp.name@,
                string_views(seen@),
            ),
        decreases conns@.len() - i,
    {
        let c = &conns[i];
        let ghost seen0 = string_views(seen@);
        let ghost before = lines.deep_view();
        assert(cs.skip(i as int)[0] == c@);
        assert(cs.skip(i as int).drop_first() =~= cs.skip(i + 1));
        if str_eq(c.start_element.as_str(), comp.name.as_str()) && !contains_string(&seen, c.start_connector.as_str()) {
            let mut l = own("          <ssd:Connector name=\"");
            push_str(&mut l, c.start_connector.as_str());
            push_str(&mut l, "\" kind=\"output\"/>");
            lines.push(l);
            seen.push(c.start_connector.clone());
            assert(string_views(seen@) =~= seen0.push(c.start_connector@));
        }
        let ghost seen1 = string_views(seen@);
        let ghost mid = lines.deep_view();
        if str_eq(c.end_element.as_str(), comp.name.as_str()) && !contains_string(&seen, c.end_connector.as_str()) {
            let mut l = own("          <ssd:Connector name=\"");
            push_str(&mut l, c.end_connector.as_str());
            push_str(&mut l, "\" kind=\"input\"/>");
            lines.push(l);
            seen.push(c.end_connector.clone());
            assert(string_views(seen@) =~= seen1.push(c.end_connector@));
        }
        assert(lines.deep_view() + connector_lines(cs.skip(i + 1), comp.name@, string_views(seen@))
            =~= before + connector_lines(cs.skip(i as int), comp.name@, seen0));
        i = i + 1;
    }
    assert(cs.skip(conns@.len() as int) =~= Seq::<SspConnView>::empty());
    assert(connector_lines(Seq::<SspConnView>::empty(), comp.name@, string_views(seen@)) =~= Seq::<Seq<char>>::empty());
    let ghost body = lines.deep_view();
    assert(body =~= head + connector_lines(cs, comp.name@, seq![]));
    lines.push(own("        </ssd:Connectors>"));
    lines.push(own("      </ssd:Component>"));
    assert(lines.deep_view() =~= body + seq!["        </ssd:Connectors>"@, "      </ssd:Component>"@]);
    assert(lines.deep_view() =~= start + component_lines(comp@, cs));
}

/// Generate the SSP SystemStructureDescription XML of a structure: its lines
/// joined by newlines.
pub fn generate_ssd_xml(structure: &SspStructure) -> (r: String)
    ensures
        r@ == join_with(ssd_lines(structure@), "\n"@),
{
    let ghost st = structure@;
    let mut lines: Vec<String> = Vec::new();
    lines.push(own("<?xml version=\"1.0\" encoding=\"UTF-8\"?>"));
    lines.push(own("<ssd:SystemStructureDescription version=\"1.0\" name=\"system\"\n    xmlns:ssd=\"http://ssp-standard.org/SSP1/SystemStructureDescription\">"));
    lines.push(own("  <ssd:System name=\"root\">"));
    lines.push(own("    <ssd:Elements>"));
    assert(lines.deep_view() =~= ssd_head());
    let ghost f = |c: SspCompView| component_lines(c, st.connections);
    let mut i: usize = 0;
    while i < structure.components.len()
        invariant
            i <= structure.components@.len(),
            st == structure@,
            f == (|c: SspCompView| component_lines(c, st.connections)),
            lines.deep_view() == ssd_head() + collect(st.components.take(i as int), f),
        decreases structure.components@.len() - i,
    {
        proof {
            lemma_collect_take(st.components, f, i as int);
        }
        let ghost before = lines.deep_view();
        push_component(&mut lines, &structure.components[i], &structure.connections);
        assert(st.components[i as int] == structure.components@[i as int]@);
        assert(lines.deep_view() =~= ssd_head() + collect(st.components.take(i + 1), f));
        i = i + 1;
    }
    assert(st.components.take(st.components.len() as int) =~= st.components);
    let ghost elems = lines.deep_view();
    lines.push(own("    </ssd:Elements>"));
    lines.push(own("    <ssd:Connections>"));
    let ghost mid = lines.deep_view();
    assert(mid =~= elems + seq!["    </ssd:Elements>"@, "    <ssd:Connections>"@]);
    let mut j: usize = 0;
    while j < structure.connections.len()
        invariant
            j <= structure.connections@.len(),
            st == structure@,
            lines.deep_view() == mid + st.connections.take(j as int).map_values(
                |c: SspConnView| connection_line(c),
            ),
        decreases structure.connections@.len() - j,
    {
        let c = &structure.connections[j];
        let mut l = own("      <ssd:Connection startElement=\"");
        push_str(&mut l, c.start_element.as_str());
        push_str(&mut l, "\" startConnector=\"");
        push_str(&mut l, c.start_connector.as_str());
        push_str(&mut l, "\" endElement=\"");
        push_str(&mut l, c.end_element.as_str());
        push_str(&mut l, "\" endConnector=\"");
        push_str(&mut l, c.end_connector.as_str());
        push_str(&mut l, "\"/>");
        let ghost before = lines.deep_view();
        lines.push(l);
        assert(st.connections[j as int] == c@);
        assert(st.connections.take(j + 1).map_values(|c: SspConnView| connection_line(c))
            =~= st.connections.take(j as int).map_values(|c: SspConnView| connection_line(c)).push(
            connection_line(c@),
        ));
        assert(lines.deep_view() =~= before.push(l@));
        j = j + 1;
    }
    assert(st.connections.take(st.connections.len() as int) =~= st.connections);
    let ghost conns_done = lines.deep_view();
    lines.push(own("    </ssd:Connections>"));
    lines.push(own("  </ssd:System>"));
    lines.push(own("</ssd:SystemStructureDescription>"));
    assert(lines.deep_view() =~= conns_done + seq![
        "    </ssd:Connections>"@,
        "  </ssd:System>"@,
        "</ssd:SystemStructureDescription>"@,
    ]);
    assert(lines.deep_view() =~= ssd_lines(st));
    join_strings(&lines, "\n")
}

} // verus!
