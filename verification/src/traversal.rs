//! What iterating over a document visits
//!
//! The iterator of a document visits every element of the document exactly
//! once. The proof goes through the ancestry of elements: every element
//! but the root has exactly one parent, which comes before it.

use vstd::prelude::*;
use crate::parser::{ElementView, XmlNode, tree_wf, has_parent, dfs_from, dfs_list, dfs_order};

verus! {

/// Element `i` has element `j` among its children
pub open spec fn is_parent(nodes: Seq<ElementView>, i: int, j: int) -> bool {
    0 <= i < nodes.len() && exists|k: int| 0 <= k < nodes[i].children.len() && #[trigger] nodes[i].children[k] == j
}

/// The parent of element `j`
pub open spec fn parent_of(nodes: Seq<ElementView>, j: int) -> int {
    choose|i: int| #[trigger] is_parent(nodes, i, j)
}

/// Whether `x` is `i` or lies in the subtree of `i`
pub open spec fn descends(nodes: Seq<ElementView>, i: int, x: int) -> bool
    decreases x,
{
    if x == i {
        true
    } else if i < x < nodes.len() && 0 <= parent_of(nodes, x) < x {
        descends(nodes, i, parent_of(nodes, x))
    } else {
        false
    }
}

/// The parent of an element that is a child comes before it, and is the element it is a child of
proof fn lemma_parent_of(nodes: Seq<ElementView>, i: int, k: int)
    requires
        tree_wf(nodes),
        0 <= i < nodes.len(),
        0 <= k < nodes[i].children.len(),
    ensures
        parent_of(nodes, nodes[i].children[k] as int) == i,
{
    let j = nodes[i].children[k] as int;
    assert(is_parent(nodes, i, j));
    let p = parent_of(nodes, j);
    assert(is_parent(nodes, p, j));
    let k2 = choose|k2: int| 0 <= k2 < nodes[p].children.len() && #[trigger] nodes[p].children[k2] == j;
    assert(nodes[p].children[k2] == nodes[i].children[k]);
}

/// Every element but the root has a parent before it
proof fn lemma_parent_before(nodes: Seq<ElementView>, j: int)
    requires
        tree_wf(nodes),
        0 < j < nodes.len(),
    ensures
        0 <= parent_of(nodes, j) < j,
{
    assert(has_parent(nodes, j));
    let (i, k) = choose|i: int, k: int| 0 <= i < nodes.len() && 0 <= k < nodes[i].children.len() && nodes[i].children[k] == j;
    lemma_parent_of(nodes, i, k);
    assert(i < nodes[i].children[k]);
}

/// An element in the subtree of `i` is `i` or comes after it
proof fn lemma_descends_after(nodes: Seq<ElementView>, i: int, x: int)
    requires
        descends(nodes, i, x),
    ensures
        x >= i,
    decreases x,
{
}

/// Every element lies in the subtree of the root
proof fn lemma_descends_from_root(nodes: Seq<ElementView>, j: int)
    requires
        tree_wf(nodes),
        0 <= j < nodes.len(),
    ensures
        descends(nodes, 0, j),
    decreases j,
{
    if j > 0 {
        lemma_parent_before(nodes, j);
        lemma_descends_from_root(nodes, parent_of(nodes, j));
    }
}

/// The subtree of a child lies in the subtree of its parent
proof fn lemma_descends_child(nodes: Seq<ElementView>, i: int, k: int, x: int)
    requires
        tree_wf(nodes),
        0 <= i < nodes.len(),
        0 <= k < nodes[i].children.len(),
        descends(nodes, nodes[i].children[k] as int, x),
    ensures
        descends(nodes, i, x),
    decreases x,
{
    let c = nodes[i].children[k] as int;
    assert(i < c < nodes.len());
    lemma_parent_of(nodes, i, k);
    if x != c {
        let p = parent_of(nodes, x);
        assert(c < x < nodes.len() && 0 <= p < x && descends(nodes, c, p));
        lemma_descends_child(nodes, i, k, p);
        assert(descends(nodes, i, p));
        assert(descends(nodes, i, x));
    } else {
        assert(descends(nodes, i, i));
        assert(descends(nodes, i, c));
    }
}

/// An element strictly in the subtree of `i` lies in the subtree of a child of `i`
proof fn lemma_descends_through_child(nodes: Seq<ElementView>, i: int, x: int) -> (k: int)
    requires
        tree_wf(nodes),
        0 <= i < nodes.len(),
        descends(nodes, i, x),
        x != i,
    ensures
        0 <= k < nodes[i].children.len(),
        descends(nodes, nodes[i].children[k] as int, x),
    decreases x,
{
    let p = parent_of(nodes, x);
    assert(0 < x < nodes.len());
    lemma_parent_before(nodes, x);
    assert(has_parent(nodes, x));
    let (pi, pk) = choose|i2: int, k2: int| 0 <= i2 < nodes.len() && 0 <= k2 < nodes[i2].children.len() && nodes[i2].children[k2] == x;
    lemma_parent_of(nodes, pi, pk);
    if p == i {
        pk
    } else {
        let k = lemma_descends_through_child(nodes, i, p);
        let c = nodes[i].children[k] as int;
        lemma_descends_after(nodes, c, p);
        assert(descends(nodes, c, x));
        k
    }
}

/// Two elements whose subtrees share an element lie one in the subtree of the other
proof fn lemma_descends_shared(nodes: Seq<ElementView>, a: int, b: int, x: int)
    requires
        tree_wf(nodes),
        descends(nodes, a, x),
        descends(nodes, b, x),
    ensures
        descends(nodes, a, b) || descends(nodes, b, a),
    decreases x,
{
    if x != a && x != b {
        lemma_descends_shared(nodes, a, b, parent_of(nodes, x));
    }
}

/// The subtrees of two different children of an element share no element
proof fn lemma_sibling_subtrees_disjoint(nodes: Seq<ElementView>, i: int, k1: int, k2: int, x: int)
    requires
        tree_wf(nodes),
        0 <= i < nodes.len(),
        0 <= k1 < nodes[i].children.len(),
        0 <= k2 < nodes[i].children.len(),
        k1 != k2,
    ensures
        !(descends(nodes, nodes[i].children[k1] as int, x) && descends(nodes, nodes[i].children[k2] as int, x)),
{
    let c1 = nodes[i].children[k1] as int;
    let c2 = nodes[i].children[k2] as int;
    if descends(nodes, c1, x) && descends(nodes, c2, x) {
        assert(c1 != c2);
        lemma_parent_of(nodes, i, k1);
        lemma_parent_of(nodes, i, k2);
        lemma_descends_shared(nodes, c1, c2, x);
        if descends(nodes, c1, c2) {
            assert(descends(nodes, c1, i));
            lemma_descends_after(nodes, c1, i);
        } else {
            assert(descends(nodes, c2, i));
            lemma_descends_after(nodes, c2, i);
        }
    }
}

/// The elements visited from a list of children are those in the subtrees of those children
proof fn lemma_dfs_list_contains(nodes: Seq<ElementView>, i: int, n: int, x: XmlNode)
    requires
        tree_wf(nodes),
        nodes.len() <= usize::MAX,
        0 <= i < nodes.len(),
        0 <= n <= nodes[i].children.len(),
        forall|k: int| 0 <= k < n ==> #[trigger] dfs_from(nodes, nodes[i].children[k] as int).contains(x)
            == (x < nodes.len() && descends(nodes, nodes[i].children[k] as int, x as int)),
    ensures
        dfs_list(nodes, nodes[i].children.take(n), i).contains(x)
            == exists|k: int| 0 <= k < n && x < nodes.len() && descends(nodes, #[trigger] nodes[i].children[k] as int, x as int),
    decreases n,
{
    let cs = nodes[i].children.take(n);
    if n > 0 {
        let c = cs.last() as int;
        assert(cs.last() == nodes[i].children[n - 1]);
        assert(cs.drop_last() =~= nodes[i].children.take(n - 1));
        lemma_dfs_list_contains(nodes, i, n - 1, x);
        assert(i < c < nodes.len());
        if dfs_list(nodes, cs, i).contains(x) {
            if dfs_from(nodes, c).contains(x) {
                assert(descends(nodes, nodes[i].children[n - 1] as int, x as int));
            } else {
                assert(dfs_list(nodes, cs.drop_last(), i).contains(x));
            }
        }
        if exists|k: int| 0 <= k < n && x < nodes.len() && descends(nodes, #[trigger] nodes[i].children[k] as int, x as int) {
            let k = choose|k: int| 0 <= k < n && x < nodes.len() && descends(nodes, #[trigger] nodes[i].children[k] as int, x as int);
            if k == n - 1 {
                let a = dfs_from(nodes, c);
                assert(a.contains(x));
                let j = choose|j: int| 0 <= j < a.len() && a[j] == x;
                assert(dfs_list(nodes, cs, i)[j] == x);
            } else {
                let b = dfs_list(nodes, cs.drop_last(), i);
                assert(b.contains(x));
                let j = choose|j: int| 0 <= j < b.len() && b[j] == x;
                assert(dfs_list(nodes, cs, i)[dfs_from(nodes, c).len() + j] == x);
            }
        }
    }
}

/// The elements visited from `i` are those of its subtree
proof fn lemma_dfs_from_contains(nodes: Seq<ElementView>, i: int, x: XmlNode)
    requires
        tree_wf(nodes),
        nodes.len() <= usize::MAX,
        0 <= i < nodes.len(),
    ensures
        dfs_from(nodes, i).contains(x) == (x < nodes.len() && descends(nodes, i, x as int)),
    decreases nodes.len() - i,
{
    let cs = nodes[i].children;
    assert forall|k: int| 0 <= k < cs.len() implies #[trigger] dfs_from(nodes, nodes[i].children[k] as int).contains(x)
        == (x < nodes.len() && descends(nodes, nodes[i].children[k] as int, x as int)) by {
        assert(i < nodes[i].children[k] < nodes.len());
        lemma_dfs_from_contains(nodes, nodes[i].children[k] as int, x);
    }
    lemma_dfs_list_contains(nodes, i, cs.len() as int, x);
    assert(cs.take(cs.len() as int) =~= cs);
    let d = dfs_from(nodes, i);
    assert(d == seq![i as XmlNode] + dfs_list(nodes, cs, i));
    let l = dfs_list(nodes, cs, i);
    if d.contains(x) {
        let j = choose|j: int| 0 <= j < d.len() && d[j] == x;
        if j == 0 {
            assert(x as int == i);
            assert(descends(nodes, i, i));
        } else {
            assert(l[j - 1] == x);
            assert(l.contains(x));
            let k = choose|k: int| 0 <= k < cs.len() && x < nodes.len() && descends(nodes, #[trigger] nodes[i].children[k] as int, x as int);
            lemma_descends_child(nodes, i, k, x as int);
        }
    }
    if x < nodes.len() && descends(nodes, i, x as int) {
        if x as int == i {
            assert(d[0] == i as XmlNode);
        } else {
            let k = lemma_descends_through_child(nodes, i, x as int);
            assert(0 <= k < cs.len() && x < nodes.len() && descends(nodes, nodes[i].children[k] as int, x as int));
            assert(l.contains(x));
            let j = choose|j: int| 0 <= j < l.len() && l[j] == x;
            assert(d[j + 1] == x);
        }
    }
}

/// Two sequences without repeats and without common elements join into one without repeats
proof fn lemma_concat_no_duplicates(a: Seq<XmlNode>, b: Seq<XmlNode>)
    requires
        a.no_duplicates(),
        b.no_duplicates(),
        forall|x: XmlNode| a.contains(x) ==> !b.contains(x),
    ensures
        (a + b).no_duplicates(),
{
    let c = a + b;
    assert forall|p: int, q: int| 0 <= p < c.len() && 0 <= q < c.len() && p != q implies c[p] != c[q] by {
        if p < a.len() && q >= a.len() {
            assert(a.contains(c[p]));
            assert(b[q - a.len()] == c[q]);
        } else if q < a.len() && p >= a.len() {
            assert(a.contains(c[q]));
            assert(b[p - a.len()] == c[p]);
        } else if p >= a.len() && q >= a.len() {
            assert(b[p - a.len()] == c[p] && b[q - a.len()] == c[q]);
        }
    }
}

/// The subtrees of the children of an element are visited without repeats
proof fn lemma_dfs_list_no_duplicates(nodes: Seq<ElementView>, i: int, n: int)
    requires
        tree_wf(nodes),
        nodes.len() <= usize::MAX,
        0 <= i < nodes.len(),
        0 <= n <= nodes[i].children.len(),
    ensures
        dfs_list(nodes, nodes[i].children.take(n), i).no_duplicates(),
    decreases nodes.len() - i, 0int, n,
{
    let cs = nodes[i].children.take(n);
    if n > 0 {
        let c = cs.last() as int;
        assert(cs.last() == nodes[i].children[n - 1]);
        assert(cs.drop_last() =~= nodes[i].children.take(n - 1));
        assert(i < c < nodes.len());
        lemma_dfs_list_no_duplicates(nodes, i, n - 1);
        lemma_dfs_from_no_duplicates(nodes, c);
        let a = dfs_from(nodes, c);
        let b = dfs_list(nodes, cs.drop_last(), i);
        assert forall|x: XmlNode| a.contains(x) implies !b.contains(x) by {
            lemma_dfs_from_contains(nodes, c, x);
            assert forall|k: int| 0 <= k < n - 1 implies #[trigger] dfs_from(nodes, nodes[i].children[k] as int).contains(x)
                == (x < nodes.len() && descends(nodes, nodes[i].children[k] as int, x as int)) by {
                assert(i < nodes[i].children[k] < nodes.len());
                lemma_dfs_from_contains(nodes, nodes[i].children[k] as int, x);
            }
            lemma_dfs_list_contains(nodes, i, n - 1, x);
            if b.contains(x) {
                let k = choose|k: int| 0 <= k < n - 1 && x < nodes.len() && descends(nodes, #[trigger] nodes[i].children[k] as int, x as int);
                lemma_sibling_subtrees_disjoint(nodes, i, k, n - 1, x as int);
            }
        }
        lemma_concat_no_duplicates(a, b);
        assert(i < c);
    }
}

/// The subtree of an element is visited without repeats
proof fn lemma_dfs_from_no_duplicates(nodes: Seq<ElementView>, i: int)
    requires
        tree_wf(nodes),
        nodes.len() <= usize::MAX,
        0 <= i < nodes.len(),
    ensures
        dfs_from(nodes, i).no_duplicates(),
    decreases nodes.len() - i, 1int, 0int,
{
    let cs = nodes[i].children;
    lemma_dfs_list_no_duplicates(nodes, i, cs.len() as int);
    assert(cs.take(cs.len() as int) =~= cs);
    let l = dfs_list(nodes, cs, i);
    let head = seq![i as XmlNode];
    assert forall|x: XmlNode| head.contains(x) implies !l.contains(x) by {
        assert(x == i as XmlNode);
        assert forall|k: int| 0 <= k < cs.len() implies #[trigger] dfs_from(nodes, nodes[i].children[k] as int).contains(x)
            == (x < nodes.len() && descends(nodes, nodes[i].children[k] as int, x as int)) by {
            assert(i < nodes[i].children[k] < nodes.len());
            lemma_dfs_from_contains(nodes, nodes[i].children[k] as int, x);
        }
        lemma_dfs_list_contains(nodes, i, cs.len() as int, x);
        if l.contains(x) {
            let k = choose|k: int| 0 <= k < cs.len() && x < nodes.len() && descends(nodes, #[trigger] nodes[i].children[k] as int, x as int);
            lemma_descends_after(nodes, nodes[i].children[k] as int, x as int);
            assert(i < nodes[i].children[k]);
        }
    }
    lemma_concat_no_duplicates(head, l);
}

/// Iterating over a document visits every element of the document, and
/// each only once: the order of iteration holds no element twice, and holds
/// exactly the positions of the document's elements.
pub proof fn lemma_iteration_visits_each_element_once(nodes: Seq<ElementView>)
    requires
        tree_wf(nodes),
        nodes.len() <= usize::MAX,
    ensures
        dfs_order(nodes).no_duplicates(),
        forall|j: XmlNode| #[trigger] dfs_order(nodes).contains(j) <==> j < nodes.len(),
{
    lemma_dfs_from_no_duplicates(nodes, 0);
    assert forall|j: XmlNode| #[trigger] dfs_order(nodes).contains(j) <==> j < nodes.len() by {
        lemma_dfs_from_contains(nodes, 0, j);
        if j < nodes.len() {
            lemma_descends_from_root(nodes, j as int);
        }
    }
}

} // verus!
