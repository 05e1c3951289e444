//! Modelica partial-model stubs generated from FMI interface contracts.
use vstd::prelude::*;
use crate::export::fmi::{attr_views, item_views, FmiAttrView, FmiInterface, FmiItemView, FmiInterfaceView};
use crate::qualified_name::{join_strings, join_with};
use crate::text::{own, push_str, str_eq};

verus! {

/// The Modelica input connector for an FMI type.
pub open spec fn input_connector(fmi_type: Seq<char>) -> Seq<char> {
    if fmi_type == "Int32"@ {
        "Modelica.Blocks.Interfaces.IntegerInput"@
    } else if fmi_type == "Boolean"@ {
        "Modelica.Blocks.Interfaces.BooleanInput"@
    } else {
        "Modelica.Blocks.Interfaces.RealInput"@
    }
}

/// The Modelica output connector for an FMI type.
pub open spec fn output_connector(fmi_type: Seq<char>) -> Seq<char> {
    if fmi_type == "Int32"@ {
        "Modelica.Blocks.Interfaces.IntegerOutput"@
    } else if fmi_type == "Boolean"@ {
        "Modelica.Blocks.Interfaces.BooleanOutput"@
    } else {
        "Modelica.Blocks.Interfaces.RealOutput"@
    }
}

/// The Modelica parameter type of a SysML type (`Real` for unknown types).
pub open spec fn param_type(sysml_type: Seq<char>) -> Seq<char> {
    let t = sysml_type;
    if t == "Integer"@ || t == "ScalarValues::Integer"@ || t == "Natural"@ {
        "Integer"@
    } else if t == "Boolean"@ || t == "ScalarValues::Boolean"@ {
        "Boolean"@
    } else if t == "String"@ || t == "ScalarValues::String"@ {
        "String"@
    } else {
        "Real"@
    }
}

/// Map an FMI type to its Modelica input connector type.
pub fn modelica_input_type(fmi_type: &str) -> (r: &'static str)
    ensures
        r@ == input_connector(fmi_type@),
{
    if str_eq(fmi_type, "Int32") {
        "Modelica.Blocks.Interfaces.IntegerInput"
    } else if str_eq(fmi_type, "Boolean") {
        "Modelica.Blocks.Interfaces.BooleanInput"
    } else {
        "Modelica.Blocks.Interfaces.RealInput"
    }
}

/// Map an FMI type to its Modelica output connector type.
pub fn modelica_output_type(fmi_type: &str) -> (r: &'static str)
    ensures
        r@ == output_connector(fmi_type@),
{
    if str_eq(fmi_type, "Int32") {
        "Modelica.Blocks.Interfaces.IntegerOutput"
    } else if str_eq(fmi_type, "Boolean") {
        "Modelica.Blocks.Interfaces.BooleanOutput"
    } else {
        "Modelica.Blocks.Interfaces.RealOutput"
    }
}

/// Map a SysML type to its Modelica parameter type.
pub fn modelica_param_type(sysml_type: &str) -> (r: &'static str)
    ensures
        r@ == param_type(sysml_type@),
{
    let t = sysml_type;
    if str_eq(t, "Integer") || str_eq(t, "ScalarValues::Integer") || str_eq(t, "Natural") {
        "Integer"
    } else if str_eq(t, "Boolean") || str_eq(t, "ScalarValues::Boolean") {
        "Boolean"
    } else if str_eq(t, "String") || str_eq(t, "ScalarValues::String") {
        "String"
    } else {
        "Real"
    }
}

/// The connector line of an interface item: an output connector for items
/// whose direction is `out` or `output`, an input connector otherwise.
pub open spec fn connector_line(it: FmiItemView) -> Seq<char> {
    let ty = if it.direction == "out"@ || it.direction == "output"@ {
        output_connector(it.fmi_type)
    } else {
        input_connector(it.fmi_type)
    };
    "  "@ + ty + " "@ + it.name + " \"From port "@ + it.source_port + "\";"@
}

/// The parameter line of an attribute.
pub open spec fn parameter_line(a: FmiAttrView) -> Seq<char> {
    "  parameter "@ + param_type(a.sysml_type) + " "@ + a.name + " \"From SysML attribute\";"@
}

/// The lines of the Modelica stub of an interface.
pub open spec fn modelica_lines(fi: FmiInterfaceView) -> Seq<Seq<char>> {
    seq!["partial model "@ + fi.part_name, "  \"Generated from SysML v2 part def "@ + fi.part_name + "\""@]
        + fi.items.map_values(|it: FmiItemView| connector_line(it))
        + fi.attributes.map_values(|a: FmiAttrView| parameter_line(a))
        + seq![
        "equation"@,
        "  // Equations to be filled by model developer"@,
        "end "@ + fi.part_name + ";"@,
    ]
}

/// Generate a Modelica partial model stub from an FMI interface contract:
/// its lines joined by newlines.
pub fn generate_modelica(interface: &FmiInterface) -> (r: String)
    ensures
        r@ == join_with(modelica_lines(interface@), "\n"@),
{
    let ghost fi = interface@;
    let ghost target = modelica_lines(fi);
    let mut lines: Vec<String> = Vec::new();
    let mut l0 = own("partial model ");
    push_str(&mut l0, interface.part_name.as_str());
    lines.push(l0);
    let mut l1 = own("  \"Generated from SysML v2 part def ");
    push_str(&mut l1, interface.part_name.as_str());
    push_str(&mut l1, "\"");
    lines.push(l1);
    let ghost head = seq!["partial model "@ + fi.part_name, "  \"Generated from SysML v2 part def "@ + fi.part_name + "\""@];
    assert(lines.deep_view() =~= head);
    let mut i: usize = 0;
    while i < interface.items.len()
        invariant
            i <= interface.items@.len(),
            fi == interface@,
            head == seq!["partial model "@ + fi.part_name, "  \"Generated from SysML v2 part def "@ + fi.part_name + "\""@],
            lines.deep_view() == head + fi.items.take(i as int).map_values(|it: FmiItemView| connector_line(it)),
        decreases interface.items@.len() - i,
    {
        let item = &interface.items[i];
        let d = item.direction.as_str();
        let ty = if str_eq(d, "out") || str_eq(d, "output") {
            modelica_output_type(item.fmi_type.as_str())
        } else {
            modelica_input_type(item.fmi_type.as_str())
        };
        let mut l = own("  ");
        push_str(&mut l, ty);
        push_str(&mut l, " ");
        push_str(&mut l, item.name.as_str());
        push_str(&mut l, " \"From port ");
        push_str(&mut l, item.source_port.as_str());
        push_str(&mut l, "\";");
        let ghost before = lines.deep_view();
        lines.push(l);
        assert(fi.items[i as int] == item@);
        assert(l@ == connector_line(item@));
        assert(fi.items.take(i + 1).map_values(|it: FmiItemView| connector_line(it)) =~= fi.items.take(
            i as int,
        ).map_values(|it: FmiItemView| connector_line(it)).push(connector_line(item@)));
        assert(lines.deep_view() =~= before.push(l@));
        i = i + 1;
    }
    assert(fi.items.take(fi.items.len() as int) =~= fi.items);
    let ghost mid = head + fi.items.map_values(|it: FmiItemView| connector_line(it));
    let mut j: usize = 0;
    while j < interface.attributes.len()
        invariant
            j <= interface.attributes@.len(),
            fi == interface@,
            lines.deep_view() == mid + fi.attributes.take(j as int).map_values(|a: FmiAttrView| parameter_line(a)),
        decreases interface.attributes@.len() - j,
    {
        let a = &interface.attributes[j];
        let mut l = own("  parameter ");
        push_str(&mut l, modelica_param_type(a.sysml_type.as_str()));
        push_str(&mut l, " ");
        push_str(&mut l, a.name.as_str());
        push_str(&mut l, " \"From SysML attribute\";");
        let ghost before = lines.deep_view();
        lines.push(l);
        assert(fi.attributes[j as int] == a@);
        assert(fi.attributes.take(j + 1).map_values(|a: FmiAttrView| parameter_line(a)) =~= fi.attributes.take(
            j as int,
        ).map_values(|a: FmiAttrView| parameter_line(a)).push(parameter_line(a@)));
        assert(lines.deep_view() =~= before.push(l@));
        j = j + 1;
    }
    assert(fi.attributes.take(fi.attributes.len() as int) =~= fi.attributes);
    let ghost before = lines.deep_view();
    lines.push(own("equation"));
    lines.push(own("  // Equations to be filled by model developer"));
    let mut last = own("end ");
    push_str(&mut last, interface.part_name.as_str());
    push_str(&mut last, ";");
    lines.push(last);
    assert(lines.deep_view() =~= target);
    join_strings(&lines, "\n")
}

} // verus!
