use vstd::prelude::*;

pub mod go;
pub mod ts;

use crate::grammar::{nodes_view, FieldView, Node, NodeView};
use crate::out::go::{go_member, go_members};
use crate::out::ts::{ts_member, ts_members};

verus! {

/// A target language for generated type declarations.
#[derive(Clone, Copy, Debug, PartialEq, Eq, Structural)]
pub enum Backend {
    Go,
    TypeScript,
}

/// The text that a backend renders for a list of models.
pub open spec fn rendered(backend: Backend, ns: Seq<NodeView>) -> Seq<char> {
    match backend {
        Backend::Go => go::go_file(ns),
        Backend::TypeScript => ts::ts_file(ns),
    }
}

/// Renders the models with the chosen backend.
pub fn render(backend: Backend, nodes: &Vec<Node>) -> (r: String)
    ensures
        r@ == rendered(backend, nodes_view(nodes@)),
{
    match backend {
        Backend::Go => go::render_go(nodes),
        Backend::TypeScript => ts::render_ts(nodes),
    }
}

/// The file extension of a backend's output.
pub fn extension(backend: Backend) -> (r: &'static str)
    ensures
        r@ == match backend {
            Backend::Go => "go"@,
            Backend::TypeScript => "ts"@,
        },
{
    match backend {
        Backend::Go => "go",
        Backend::TypeScript => "ts",
    }
}

/// Rendering keeps declaration order: in each backend the members written
/// for the fields `fs1 + fs2` are those of `fs1` followed by those of `fs2`.
pub proof fn lemma_members_in_order(fs1: Seq<FieldView>, fs2: Seq<FieldView>)
    ensures
        go_members(fs1 + fs2) == go_members(fs1) + go_members(fs2),
        ts_members(fs1 + fs2) == ts_members(fs1) + ts_members(fs2),
    decreases fs2.len(),
{
    let all = fs1 + fs2;
    if fs2.len() == 0 {
        assert(all =~= fs1);
        assert(go_members(fs1) + go_members(fs2) =~= go_members(fs1));
        assert(ts_members(fs1) + ts_members(fs2) =~= ts_members(fs1));
    } else {
        let rest = fs2.drop_last();
        assert(all.drop_last() =~= fs1 + rest);
        assert(all.last() == fs2.last());
        lemma_members_in_order(fs1, rest);
        assert(go_members(all) =~= go_members(fs1) + (go_members(rest) + go_member(fs2.last())));
        assert(ts_members(all) =~= ts_members(fs1) + (ts_members(rest) + ts_member(fs2.last())));
    }
}

} // verus!
