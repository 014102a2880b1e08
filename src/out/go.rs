use vstd::prelude::*;
use vstd::string::*;

use crate::grammar::{nodes_view, AttributeType, FieldView, Node, NodeView};

verus! {

/// The Go type written for a field type; references to other models become
/// `any`, since models are not linked to each other.
pub open spec fn go_type(a: AttributeType) -> Seq<char> {
    match a {
        AttributeType::Byte => "byte"@,
        AttributeType::ByteArray => "[]byte"@,
        AttributeType::Int => "int"@,
        AttributeType::IntArray => "[]int"@,
        AttributeType::Float => "float64"@,
        AttributeType::FloatArray => "[]float64"@,
        AttributeType::Boolean => "bool"@,
        AttributeType::BooleanArray => "[]bool"@,
        AttributeType::String => "string"@,
        AttributeType::StringArray => "[]string"@,
        AttributeType::Custom => "any"@,
        AttributeType::CustomArray => "[]any"@,
    }
}

/// One struct member: name, type and a JSON tag with the same name.
pub open spec fn go_member(f: FieldView) -> Seq<char> {
    "\t"@ + f.name + " "@ + go_type(f.attribute_type) + " `json:\""@ + f.name + "\"`\n"@
}

pub open spec fn go_members(fs: Seq<FieldView>) -> Seq<char>
    decreases fs.len(),
{
    if fs.len() == 0 {
        seq![]
    } else {
        go_members(fs.drop_last()) + go_member(fs.last())
    }
}

/// One struct declaration per model, members in declaration order.
pub open spec fn go_struct(n: NodeView) -> Seq<char> {
    "type "@ + n.name + " struct {\n"@ + go_members(n.fields) + "}"@
}

pub open spec fn go_structs(ns: Seq<NodeView>) -> Seq<char>
    decreases ns.len(),
{
    if ns.len() == 0 {
        seq![]
    } else if ns.len() == 1 {
        go_struct(ns[0])
    } else {
        go_structs(ns.drop_last()) + "\n"@ + go_struct(ns.last())
    }
}

/// A Go source file holding the package clause and every struct.
pub open spec fn go_file(ns: Seq<NodeView>) -> Seq<char> {
    "package models\n\n"@ + go_structs(ns)
}

fn attribute_to_type(attribute_type: AttributeType) -> (r: &'static str)
    ensures
        r@ == go_type(attribute_type),
{
    match attribute_type {
        AttributeType::Byte => "byte",
        AttributeType::ByteArray => "[]byte",
        AttributeType::Int => "int",
        AttributeType::IntArray => "[]int",
        AttributeType::Float => "float64",
        AttributeType::FloatArray => "[]float64",
        AttributeType::Boolean => "bool",
        AttributeType::BooleanArray => "[]bool",
        AttributeType::String => "string",
        AttributeType::StringArray => "[]string",
        AttributeType::Custom => "any",
        AttributeType::CustomArray => "[]any",
    }
}

fn write_struct(out: &mut String, node: &Node)
    ensures
        final(out)@ == old(out)@ + go_struct(node@),
{
    let ghost fs = node@.fields;
    let ghost start = out@ + "type "@ + node.name@ + " struct {\n"@;
    out.append("type ");
    out.append(node.name.as_str());
    out.append(" struct {\n");
    let mut i: usize = 0;
    assert(fs.subrange(0, 0) =~= seq![]);
    assert(out@ =~= start + go_members(fs.subrange(0, 0)));
    while i < node.fields.len()
        invariant
            i <= node.fields@.len(),
            fs == node@.fields,
            fs.len() == node.fields@.len(),
            out@ == start + go_members(fs.subrange(0, i as int)),
        decreases node.fields@.len() - i,
    {
        let f = &node.fields[i];
        let ghost before = out@;
        out.append("\t");
        out.append(f.name.as_str());
        out.append(" ");
        out.append(attribute_to_type(f.attribute_type));
        out.append(" `json:\"");
        out.append(f.name.as_str());
        out.append("\"`\n");
        assert(fs.subrange(0, i + 1).drop_last() =~= fs.subrange(0, i as int));
        assert(fs[i as int] == f@);
        assert(out@ =~= before + go_member(f@));
        i = i + 1;
    }
    assert(fs.subrange(0, i as int) =~= fs);
    out.append("}");
    assert(out@ =~= old(out)@ + go_struct(node@));
}

/// Renders the models as Go struct declarations.
pub fn render_go(nodes: &Vec<Node>) -> (r: String)
    ensures
        r@ == go_file(nodes_view(nodes@)),
{
    let ghost ns = nodes_view(nodes@);
    let mut out = String::from_str("package models\n\n");
    let mut i: usize = 0;
    assert(ns.subrange(0, 0) =~= seq![]);
    assert(out@ =~= "package models\n\n"@ + go_structs(ns.subrange(0, 0)));
    while i < nodes.len()
        invariant
            i <= nodes@.len(),
            ns == nodes_view(nodes@),
            out@ == "package models\n\n"@ + go_structs(ns.subrange(0, i as int)),
        decreases nodes@.len() - i,
    {
        if i > 0 {
            out.append("\n");
        }
        let ghost before = out@;
        write_struct(&mut out, &nodes[i]);
        assert(ns.subrange(0, i + 1).drop_last() =~= ns.subrange(0, i as int));
        assert(out@ =~= before + go_struct(ns[i as int]));
        assert(ns.subrange(0, i + 1)[0] == ns[0]);
        i = i + 1;
    }
    assert(ns.subrange(0, i as int) =~= ns);
    out
}

} // verus!
