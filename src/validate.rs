use vstd::prelude::*;

use crate::grammar::{nodes_view, FieldView, Node, NodeView};

verus! {

/// A field name declared more than once in one model.
#[derive(Clone, Debug, PartialEq)]
pub struct DuplicateField {
    pub node: String,
    pub field: String,
}

/// Every repeated field declaration found, in model and field order.
#[derive(Clone, Debug, PartialEq)]
pub struct ValidationError {
    pub duplicates: Vec<DuplicateField>,
}

impl View for DuplicateField {
    type V = (Seq<char>, Seq<char>);

    open spec fn view(&self) -> (Seq<char>, Seq<char>) {
        (self.node@, self.field@)
    }
}

pub open spec fn duplicates_view(ds: Seq<DuplicateField>) -> Seq<(Seq<char>, Seq<char>)> {
    ds.map_values(|d: DuplicateField| d@)
}

pub open spec fn field_names(fs: Seq<FieldView>) -> Seq<Seq<char>> {
    fs.map_values(|f: FieldView| f.name)
}

/// The names that repeat an earlier name of the sequence, once per repetition.
pub open spec fn repeated_names(names: Seq<Seq<char>>) -> Seq<Seq<char>>
    decreases names.len(),
{
    if names.len() == 0 {
        seq![]
    } else {
        let p = names.drop_last();
        repeated_names(p) + if p.contains(names.last()) {
            seq![names.last()]
        } else {
            seq![]
        }
    }
}

/// The repeated field names of one model, each paired with the model's name.
pub open spec fn node_duplicates(n: NodeView) -> Seq<(Seq<char>, Seq<char>)> {
    repeated_names(field_names(n.fields)).map_values(|f: Seq<char>| (n.name, f))
}

/// The repeated field names of all models, in order.
pub open spec fn duplicates_of(ns: Seq<NodeView>) -> Seq<(Seq<char>, Seq<char>)>
    decreases ns.len(),
{
    if ns.len() == 0 {
        seq![]
    } else {
        duplicates_of(ns.drop_last()) + node_duplicates(ns.last())
    }
}

/// Whether `names[k]` repeats one of the names before it.
fn repeats_earlier(node: &Node, k: usize) -> (r: bool)
    requires
        k < node.fields@.len(),
    ensures
        r == field_names(node@.fields).subrange(0, k as int).contains(field_names(node@.fields)[k as int]),
{
    let ghost names = field_names(node@.fields);
    let mut j: usize = 0;
    while j < k
        invariant
            j <= k < node.fields@.len(),
            names == field_names(node@.fields),
            forall|m: int| 0 <= m < j ==> names[m] != names[k as int],
        decreases k - j,
    {
        if node.fields[j].name == node.fields[k].name {
            assert(names.subrange(0, k as int)[j as int] == names[k as int]);
            return true;
        }
        j = j + 1;
    }
    assert forall|m: int| 0 <= m < k implies names.subrange(0, k as int)[m] != names[k as int] by {}
    false
}

proof fn lemma_repeated_prefix(names: Seq<Seq<char>>, k: int)
    requires
        0 <= k < names.len(),
    ensures
        repeated_names(names.subrange(0, k + 1)) == repeated_names(names.subrange(0, k)) + if names.subrange(
            0,
            k,
        ).contains(names[k]) {
            seq![names[k]]
        } else {
            seq![]
        },
{
    let q = names.subrange(0, k + 1);
    assert(q.drop_last() =~= names.subrange(0, k));
    assert(q.last() == names[k]);
}

/// Checks that no model declares a field name twice; on failure reports
/// every repeated declaration, not just the first.
pub fn validate(nodes: Vec<Node>) -> (r: Result<Vec<Node>, ValidationError>)
    ensures
        match r {
            Ok(ns) => duplicates_of(nodes_view(nodes@)).len() == 0 && ns@ == nodes@,
            Err(e) => duplicates_of(nodes_view(nodes@)).len() > 0 && duplicates_view(e.duplicates@)
                == duplicates_of(nodes_view(nodes@)),
        },
{
    let ghost all = nodes_view(nodes@);
    let mut found: Vec<DuplicateField> = Vec::new();
    let mut i: usize = 0;
    assert(all.subrange(0, 0) =~= seq![]);
    while i < nodes.len()
        invariant
            i <= nodes@.len(),
            all == nodes_view(nodes@),
            duplicates_view(found@) == duplicates_of(all.subrange(0, i as int)),
        decreases nodes@.len() - i,
    {
        let node = &nodes[i];
        let ghost names = field_names(node@.fields);
        let ghost base = duplicates_view(found@);
        let mut k: usize = 0;
        assert(names.subrange(0, 0) =~= seq![]);
        assert(repeated_names(names.subrange(0, 0)).map_values(|f: Seq<char>| (node@.name, f)) =~= seq![]);
        assert(base + seq![] =~= base);
        while k < node.fields.len()
            invariant
                k <= node.fields@.len(),
                names == field_names(node@.fields),
                names.len() == node.fields@.len(),
                duplicates_view(found@) == base + repeated_names(names.subrange(0, k as int)).map_values(
                    |f: Seq<char>| (node@.name, f),
                ),
            decreases node.fields@.len() - k,
        {
            proof {
                lemma_repeated_prefix(names, k as int);
            }
            let ghost prev = repeated_names(names.subrange(0, k as int));
            if repeats_earlier(node, k) {
                let d = DuplicateField { node: node.name.clone(), field: node.fields[k].name.clone() };
                let ghost old_found = duplicates_view(found@);
                found.push(d);
                assert(duplicates_view(found@) =~= old_found.push(d@));
                assert((prev + seq![names[k as int]]).map_values(|f: Seq<char>| (node@.name, f))
                    =~= prev.map_values(|f: Seq<char>| (node@.name, f)).push((node@.name, names[k as int])));
            } else {
                assert(prev + seq![] =~= prev);
            }
            k = k + 1;
        }
        assert(names.subrange(0, k as int) =~= names);
        assert(all.subrange(0, i + 1).drop_last() =~= all.subrange(0, i as int));
        assert(all.subrange(0, i + 1).last() == node@);
        i = i + 1;
    }
    assert(all.subrange(0, i as int) =~= all);
    if found.len() == 0 {
        Ok(nodes)
    } else {
        Err(ValidationError { duplicates: found })
    }
}

proof fn lemma_repeated_contains(names: Seq<Seq<char>>, i: int, j: int)
    requires
        0 <= i < j < names.len(),
        names[i] == names[j],
    ensures
        repeated_names(names).contains(names[j]),
    decreases names.len(),
{
    let p = names.drop_last();
    if j == names.len() - 1 {
        assert(p[i] == names[j]);
        let r = repeated_names(names);
        assert(r[r.len() - 1] == names[j]);
    } else {
        lemma_repeated_contains(p, i, j);
        let q = repeated_names(p);
        let m = choose|m: int| 0 <= m < q.len() && q[m] == names[j];
        assert(repeated_names(names)[m] == names[j]);
    }
}

proof fn lemma_duplicates_contains(ns: Seq<NodeView>, k: int, x: (Seq<char>, Seq<char>))
    requires
        0 <= k < ns.len(),
        node_duplicates(ns[k]).contains(x),
    ensures
        duplicates_of(ns).contains(x),
    decreases ns.len(),
{
    let d = duplicates_of(ns);
    if k == ns.len() - 1 {
        let nd = node_duplicates(ns[k]);
        let m = choose|m: int| 0 <= m < nd.len() && nd[m] == x;
        let pre = duplicates_of(ns.drop_last());
        assert(d[pre.len() + m] == x);
    } else {
        assert(ns.drop_last()[k] == ns[k]);
        lemma_duplicates_contains(ns.drop_last(), k, x);
        let pre = duplicates_of(ns.drop_last());
        let m = choose|m: int| 0 <= m < pre.len() && pre[m] == x;
        assert(d[m] == x);
    }
}

/// A model that declares one field name twice makes validation fail, and
/// the failure lists that name for that model.
pub proof fn lemma_duplicate_field_reported(ns: Seq<NodeView>, k: int, i: int, j: int)
    requires
        0 <= k < ns.len(),
        0 <= i < j < ns[k].fields.len(),
        ns[k].fields[i].name == ns[k].fields[j].name,
    ensures
        duplicates_of(ns).len() > 0,
        duplicates_of(ns).contains((ns[k].name, ns[k].fields[j].name)),
{
    let names = field_names(ns[k].fields);
    lemma_repeated_contains(names, i, j);
    let r = repeated_names(names);
    let m = choose|m: int| 0 <= m < r.len() && r[m] == names[j];
    assert(node_duplicates(ns[k])[m] == (ns[k].name, ns[k].fields[j].name));
    lemma_duplicates_contains(ns, k, (ns[k].name, ns[k].fields[j].name));
}

} // verus!
