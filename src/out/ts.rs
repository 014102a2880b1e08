use vstd::prelude::*;
use vstd::string::*;

use crate::grammar::{nodes_view, AttributeType, FieldView, Node, NodeView};

verus! {

/// The TypeScript type written for a field type: every numeric kind is a
/// `number`; references to other models become `value`, since models are not
/// linked to each other.
pub open spec fn ts_type(a: AttributeType) -> Seq<char> {
    match a {
        AttributeType::Byte | AttributeType::ByteArray => "number"@,
        AttributeType::Int | AttributeType::IntArray => "number"@,
        AttributeType::Float | AttributeType::FloatArray => "number"@,
        AttributeType::Boolean | AttributeType::BooleanArray => "boolean"@,
        AttributeType::String | AttributeType::StringArray => "string"@,
        AttributeType::Custom | AttributeType::CustomArray => "value"@,
    }
}

/// One member of the type alias: name and type.
pub open spec fn ts_member(f: FieldView) -> Seq<char> {
    "\t"@ + f.name + ": "@ + ts_type(f.attribute_type) + "\n"@
}

pub open spec fn ts_members(fs: Seq<FieldView>) -> Seq<char>
    decreases fs.len(),
{
    if fs.len() == 0 {
        seq![]
    } else {
        ts_members(fs.drop_last()) + ts_member(fs.last())
    }
}

/// One type alias per model, members in declaration order.
pub open spec fn ts_alias(n: NodeView) -> Seq<char> {
    "type "@ + n.name + " = {\n"@ + ts_members(n.fields) + "}"@
}

pub open spec fn ts_file(ns: Seq<NodeView>) -> Seq<char>
    decreases ns.len(),
{
    if ns.len() == 0 {
        seq![]
    } else if ns.len() == 1 {
        ts_alias(ns[0])
    } else {
        ts_file(ns.drop_last()) + "\n"@ + ts_alias(ns.last())
    }
}

fn attribute_to_type(attribute_type: AttributeType) -> (r: &'static str)
    ensures
        r@ == ts_type(attribute_type),
{
    match attribute_type {
        AttributeType::Byte | AttributeType::ByteArray => "number",
        AttributeType::Int | AttributeType::IntArray => "number",
        AttributeType::Float | AttributeType::FloatArray => "number",
        AttributeType::Boolean | AttributeType::BooleanArray => "boolean",
        AttributeType::String | AttributeType::StringArray => "string",
        AttributeType::Custom | AttributeType::CustomArray => "value",
    }
}

fn write_alias(out: &mut String, node: &Node)
    ensures
        final(out)@ == old(out)@ + ts_alias(node@),
{
    let ghost fs = node@.fields;
    let ghost start = out@ + "type "@ + node.name@ + " = {\n"@;
    out.append("type ");
    out.append(node.name.as_str());
    out.append(" = {\n");
    let mut i: usize = 0;
    assert(fs.subrange(0, 0) =~= seq![]);
    assert(out@ =~= start + ts_members(fs.subrange(0, 0)));
    while i < node.fields.len()
        invariant
            i <= node.fields@.len(),
            fs == node@.fields,
            fs.len() == node.fields@.len(),
            out@ == start + ts_members(fs.subrange(0, i as int)),
        decreases node.fields@.len() - i,
    {
        let f = &node.fields[i];
        let ghost before = out@;
        out.append("\t");
        out.append(f.name.as_str());
        out.append(": ");
        out.append(attribute_to_type(f.attribute_type));
        out.append("\n");
        assert(fs.subrange(0, i + 1).drop_last() =~= fs.subrange(0, i as int));
        assert(fs[i as int] == f@);
        assert(out@ =~= before + ts_member(f@));
        i = i + 1;
    }
    assert(fs.subrange(0, i as int) =~= fs);
    out.append("}");
    assert(out@ =~= old(out)@ + ts_alias(node@));
}

/// Renders the models as TypeScript type aliases.
pub fn render_ts(nodes: &Vec<Node>) -> (r: String)
    ensures
        r@ == ts_file(nodes_view(nodes@)),
{
    let ghost ns = nodes_view(nodes@);
    let mut out = String::new();
    let mut i: usize = 0;
    assert(ns.subrange(0, 0) =~= seq![]);
    assert(out@ =~= ts_file(ns.subrange(0, 0)));
    while i < nodes.len()
        invariant
            i <= nodes@.len(),
            ns == nodes_view(nodes@),
            out@ == ts_file(ns.subrange(0, i as int)),
        decreases nodes@.len() - i,
    {
        if i > 0 {
            out.append("\n");
        }
        let ghost before = out@;
        write_alias(&mut out, &nodes[i]);
        assert(ns.subrange(0, i + 1).drop_last() =~= ns.subrange(0, i as int));
        assert(out@ =~= before + ts_alias(ns[i as int]));
        assert(ns.subrange(0, i + 1)[0] == ns[0]);
        i = i + 1;
    }
    assert(ns.subrange(0, i as int) =~= ns);
    out
}

} // verus!
