//! The namespace tree and its flattening into a flat path-to-record map.
use vstd::prelude::*;

use crate::config_map::ConfigMap;
use crate::error::ConfigError;
use crate::record::{ConfigView, MachineConfig};
use crate::strings::{contains_delimiter, delimiter, join_path, spec_join};

verus! {

/// A node of the namespace tree: an optional record of its own, and child
/// nodes under labels. A label must never hold the path delimiter.
#[derive(Debug)]
pub struct NamespaceTree {
    /// Record attached to this node, if any.
    pub own_record: Option<MachineConfig>,
    /// Child nodes in order, as label / subtree pairs.
    pub children: Vec<(String, NamespaceTree)>,
}

/// Mathematical model of a namespace tree node.
pub ghost struct TreeView {
    /// Record attached to this node, if any.
    pub own: Option<ConfigView>,
    /// Child nodes in order, as label / subtree pairs.
    pub kids: Seq<(Seq<char>, TreeView)>,
}

/// Model of a tree node.
pub open spec fn tree_view(t: NamespaceTree) -> TreeView
    decreases t,
{
    TreeView {
        own: match t.own_record {
            Some(r) => Some(r@),
            None => None,
        },
        kids: kids_view(t.children@),
    }
}

/// Model of a list of children.
pub open spec fn kids_view(kids: Seq<(String, NamespaceTree)>) -> Seq<(Seq<char>, TreeView)>
    decreases kids,
{
    if kids.len() == 0 {
        Seq::empty()
    } else {
        kids_view(kids.drop_last()).push((kids.last().0@, tree_view(kids.last().1)))
    }
}

impl View for NamespaceTree {
    type V = TreeView;

    open spec fn view(&self) -> TreeView {
        tree_view(*self)
    }
}

proof fn lemma_kids_view_len(kids: Seq<(String, NamespaceTree)>)
    ensures
        kids_view(kids).len() == kids.len(),
    decreases kids,
{
    if kids.len() > 0 {
        lemma_kids_view_len(kids.drop_last());
    }
}

proof fn lemma_kids_view_index(kids: Seq<(String, NamespaceTree)>, i: int)
    requires
        0 <= i < kids.len(),
    ensures
        kids_view(kids).len() == kids.len(),
        kids_view(kids)[i].0 == kids[i].0@,
        kids_view(kids)[i].1 == tree_view(kids[i].1),
    decreases kids,
{
    lemma_kids_view_len(kids);
    if i == kids.len() - 1 {
        assert(kids.last() == kids[i]);
    } else {
        lemma_kids_view_index(kids.drop_last(), i);
        assert(kids.drop_last()[i] == kids[i]);
    }
}

/// The model of a child list mirrors it position by position: same length,
/// and at each place the label's characters and the child's own model.
pub proof fn lemma_kids_view_elems(kids: Seq<(String, NamespaceTree)>)
    ensures
        kids_view(kids).len() == kids.len(),
        forall|i: int| 0 <= i < kids.len() ==> (#[trigger] kids_view(kids)[i]).0 == kids[i].0@
            && kids_view(kids)[i].1 == tree_view(kids[i].1),
{
    lemma_kids_view_len(kids);
    assert forall|i: int| 0 <= i < kids.len() implies (#[trigger] kids_view(kids)[i]).0
        == kids[i].0@ && kids_view(kids)[i].1 == tree_view(kids[i].1) by {
        lemma_kids_view_index(kids, i);
    }
}

/// The one entry a node contributes on its own: its record, under the base
/// path, if it carries one.
pub open spec fn own_map(own: Option<ConfigView>, base: Seq<char>) -> Map<Seq<char>, ConfigView> {
    match own {
        Some(r) => Map::empty().insert(base, r),
        None => Map::<Seq<char>, ConfigView>::empty(),
    }
}

/// The flat map of a tree placed at `base`: the node's own entry, together
/// with every descendant's entry under its extended path.
pub open spec fn flat_of(t: TreeView, base: Seq<char>) -> Map<Seq<char>, ConfigView>
    decreases t,
{
    own_map(t.own, base).union_prefer_right(flat_of_kids(t.kids, base))
}

/// The flat map contributed by a list of children.
pub open spec fn flat_of_kids(kids: Seq<(Seq<char>, TreeView)>, base: Seq<char>) -> Map<
    Seq<char>,
    ConfigView,
>
    decreases kids,
{
    if kids.len() == 0 {
        Map::empty()
    } else {
        flat_of_kids(kids.drop_last(), base).union_prefer_right(
            flat_of(kids.last().1, spec_join(base, kids.last().0)),
        )
    }
}

/// Every label anywhere in the tree is free of the path delimiter.
pub open spec fn labels_ok(t: TreeView) -> bool
    decreases t,
{
    kids_labels_ok(t.kids)
}

/// Every label anywhere under a list of children is free of the delimiter.
pub open spec fn kids_labels_ok(kids: Seq<(Seq<char>, TreeView)>) -> bool
    decreases kids,
{
    if kids.len() == 0 {
        true
    } else {
        &&& !kids[0].0.contains(delimiter())
        &&& labels_ok(kids[0].1)
        &&& kids_labels_ok(kids.drop_first())
    }
}

/// The first offending label met on a depth-first, left-to-right walk:
/// a node's children are visited in order, each child's label checked
/// before its subtree is entered.
pub open spec fn first_bad_label(t: TreeView) -> Option<Seq<char>>
    decreases t,
{
    first_bad_in_kids(t.kids)
}

/// The first offending label under a list of children.
pub open spec fn first_bad_in_kids(kids: Seq<(Seq<char>, TreeView)>) -> Option<Seq<char>>
    decreases kids,
{
    if kids.len() == 0 {
        None
    } else if kids[0].0.contains(delimiter()) {
        Some(kids[0].0)
    } else {
        match first_bad_label(kids[0].1) {
            Some(l) => Some(l),
            None => first_bad_in_kids(kids.drop_first()),
        }
    }
}

/// There is no offending label exactly when every label is clean; and an
/// offending label, when one is reported, does hold the delimiter.
pub proof fn lemma_first_bad_label(t: TreeView)
    ensures
        first_bad_label(t) is None <==> labels_ok(t),
        first_bad_label(t) is Some ==> first_bad_label(t)->0.contains(delimiter()),
    decreases t,
{
    lemma_first_bad_in_kids(t.kids);
}

proof fn lemma_first_bad_in_kids(kids: Seq<(Seq<char>, TreeView)>)
    ensures
        first_bad_in_kids(kids) is None <==> kids_labels_ok(kids),
        first_bad_in_kids(kids) is Some ==> first_bad_in_kids(kids)->0.contains(delimiter()),
    decreases kids,
{
    if kids.len() > 0 {
        if !kids[0].0.contains(delimiter()) {
            lemma_first_bad_label(kids[0].1);
            lemma_first_bad_in_kids(kids.drop_first());
        }
    }
}

/// A clean prefix of the children does not change which label is reported
/// first: the walk simply moves past it.
proof fn lemma_first_bad_skip(kids: Seq<(Seq<char>, TreeView)>, i: int)
    requires
        0 <= i <= kids.len(),
        forall|j: int| 0 <= j < i ==> !(#[trigger] kids[j]).0.contains(delimiter()) && labels_ok(
            kids[j].1,
        ),
    ensures
        first_bad_in_kids(kids) == first_bad_in_kids(kids.skip(i)),
    decreases i,
{
    if i > 0 {
        assert(kids.len() > 0);
        lemma_first_bad_label(kids[0].1);
        let rest = kids.drop_first();
        assert(forall|j: int| 0 <= j < i - 1 ==> !(#[trigger] rest[j]).0.contains(delimiter())
            && labels_ok(rest[j].1)) by {
            assert(forall|j: int| 0 <= j < i - 1 ==> rest[j] == kids[j + 1]);
        }
        lemma_first_bad_skip(rest, i - 1);
        assert(rest.skip(i - 1) =~= kids.skip(i));
    } else {
        assert(kids.skip(0) =~= kids);
    }
}

/// A wholly clean list of children passes the label check.
proof fn lemma_kids_labels_ok_from_all(kids: Seq<(Seq<char>, TreeView)>)
    requires
        forall|j: int| 0 <= j < kids.len() ==> !(#[trigger] kids[j]).0.contains(delimiter())
            && labels_ok(kids[j].1),
    ensures
        kids_labels_ok(kids),
    decreases kids,
{
    if kids.len() > 0 {
        let rest = kids.drop_first();
        assert(forall|j: int| 0 <= j < rest.len() ==> rest[j] == kids[j + 1]);
        lemma_kids_labels_ok_from_all(rest);
    }
}

/// Flattening is deterministic: the flat map depends on the tree and the
/// base path alone, never on how the tree was walked, so flattening the
/// same tree twice yields identical maps.
pub proof fn lemma_flatten_deterministic(
    t: TreeView,
    base: Seq<char>,
    m1: Map<Seq<char>, ConfigView>,
    m2: Map<Seq<char>, ConfigView>,
)
    requires
        m1 == flat_of(t, base),
        m2 == flat_of(t, base),
    ensures
        m1 == m2,
{
}

/// Convert a namespace tree into a flat mapping from colon-joined path to
/// record: the node's own record is filed under `base`, and each child's
/// subtree under the base extended by the child's label.
///
/// The load fails, with the offending label named, as soon as any label
/// holding the path delimiter is met; a node with neither record nor
/// children yields an empty map.
pub fn flatten(tree: &NamespaceTree, base: &str) -> (r: Result<ConfigMap, ConfigError>)
    ensures
        match r {
            Ok(m) => labels_ok(tree@) && m.wf() && m@ == flat_of(tree@, base@),
            Err(e) => {
                &&& !labels_ok(tree@)
                &&& e matches ConfigError::InvalidNamespace(l) && first_bad_label(tree@) == Some(
                    l@,
                )
            },
        },
    decreases *tree,
{
    let ghost kids = tree@.kids;
    let mut acc = ConfigMap::new();
    match &tree.own_record {
        Some(rec) => {
            acc.insert(base.to_owned(), rec.clone());
        },
        None => {},
    }
    proof {
        assert(acc@ =~= own_map(tree@.own, base@));
        lemma_kids_view_len(tree.children@);
    }
    let n = tree.children.len();
    let mut i: usize = 0;
    while i < n
        invariant
            n == tree.children@.len(),
            kids == tree@.kids,
            kids.len() == n,
            i <= n,
            acc.wf(),
            acc@ == own_map(tree@.own, base@).union_prefer_right(
                flat_of_kids(kids.take(i as int), base@),
            ),
            forall|j: int| 0 <= j < i ==> !(#[trigger] kids[j]).0.contains(delimiter())
                && labels_ok(kids[j].1),
        decreases n - i,
    {
        proof {
            lemma_kids_view_index(tree.children@, i as int);
        }
        let label = &tree.children[i].0;
        if contains_delimiter(label.as_str()) {
            proof {
                lemma_first_bad_skip(kids, i as int);
                assert(kids.skip(i as int)[0] == kids[i as int]);
                assert(first_bad_in_kids(kids.skip(i as int)) == Some(kids[i as int].0));
                lemma_first_bad_label(tree@);
            }
            return Err(ConfigError::InvalidNamespace(label.clone()));
        }
        let child_base = join_path(base, label.as_str());
        proof {
            assert(decreases_to!(*tree => tree.children@[i as int].1));
        }
        match flatten(&tree.children[i].1, child_base.as_str()) {
            Ok(sub) => {
                let ghost acc_before = acc@;
                acc.absorb(sub);
                proof {
                    let t = kids.take(i + 1 as int);
                    assert(t.drop_last() =~= kids.take(i as int));
                    assert(t.last() == kids[i as int]);
                    assert(acc@ =~= own_map(tree@.own, base@).union_prefer_right(
                        flat_of_kids(kids.take(i + 1 as int), base@),
                    ));
                }
            },
            Err(e) => {
                proof {
                    lemma_first_bad_skip(kids, i as int);
                    let rest = kids.skip(i as int);
                    assert(rest[0] == kids[i as int]);
                    assert(first_bad_in_kids(rest) == first_bad_label(kids[i as int].1));
                    lemma_first_bad_label(tree@);
                }
                return Err(e);
            },
        }
        i += 1;
    }
    proof {
        assert(kids.take(n as int) =~= kids);
        lemma_kids_labels_ok_from_all(kids);
        lemma_first_bad_label(tree@);
    }
    Ok(acc)
}

} // verus!
