//! When a walk of the BSP index fails, and when it cannot.
//!
//! A walk follows references from node to node. It fails for two reasons
//! only: it comes to a node reference that has no node, or it comes to a node
//! it has passed already and so would go round for ever. Both are told by a
//! set of references from which the walk cannot get away.

use crate::bsp::child_ref;
use crate::bsp::far_child;
use crate::bsp::far_visible;
use crate::bsp::near_child;
use crate::bsp::traversal;
use crate::bsp::walk;
use crate::bsp::ChildRef;
use crate::bsp::NodeSpec;
use vstd::prelude::*;
use vstd::set_lib::lemma_int_range;
use vstd::set_lib::lemma_len_subset;
use vstd::set_lib::set_int_range;

verus! {

/// The reference is a node reference and the index has a node for it.
pub open spec fn is_node(nodes: Seq<NodeSpec>, reference: u16) -> bool {
    child_ref(reference) is Node && reference < nodes.len()
}

/// The reference is a node reference, but the index has no node for it.
pub open spec fn is_dangling(nodes: Seq<NodeSpec>, reference: u16) -> bool {
    child_ref(reference) is Node && reference >= nodes.len()
}

/// The walk goes from `node` on to `child`: it always goes to the near child,
/// and to the far child if that child's box is visible.
pub open spec fn walked_child(x: int, y: int, node: NodeSpec, child: u16) -> bool {
    child == near_child(x, y, node) || (far_visible(x, y, node) && child == far_child(x, y, node))
}

/// `path` is a way the walk takes: every reference on it but the last is a
/// node of the index, and the next is a child the walk goes on to.
pub open spec fn is_walked_path(nodes: Seq<NodeSpec>, x: int, y: int, path: Seq<u16>) -> bool {
    forall|i: int|
        0 <= i < path.len() - 1 ==> is_node(nodes, #[trigger] path[i]) && walked_child(
            x,
            y,
            nodes[path[i] as int],
            path[i + 1],
        )
}

/// The walk cannot get away from `doomed`: every reference in it is dangling,
/// or is a node from which the walk goes on to another reference in it.
pub open spec fn is_doomed(nodes: Seq<NodeSpec>, x: int, y: int, doomed: Set<u16>) -> bool {
    forall|r: u16| #[trigger]
        doomed.contains(r) ==> is_dangling(nodes, r) || (is_node(nodes, r) && exists|c: u16|
            #[trigger] doomed.contains(c) && walked_child(x, y, nodes[r as int], c))
}

/// A walk that starts in a doomed set fails, however deep it may go.
pub proof fn lemma_doomed_walk_fails(
    nodes: Seq<NodeSpec>,
    x: int,
    y: int,
    doomed: Set<u16>,
    reference: u16,
    depth: nat,
)
    requires
        is_doomed(nodes, x, y, doomed),
        doomed.contains(reference),
    ensures
        walk(nodes, x, y, reference, depth) is None,
    decreases depth,
{
    if is_dangling(nodes, reference) || depth == 0 {
    } else {
        let node = nodes[reference as int];
        let c = choose|c: u16| #[trigger] doomed.contains(c) && walked_child(x, y, node, c);
        lemma_doomed_walk_fails(nodes, x, y, doomed, c, (depth - 1) as nat);
        assert(child_ref(reference) == ChildRef::Node(reference));
    }
}

/// A walked path that ends in a dangling reference, or that comes to the same
/// reference twice, dooms the walk from its start.
pub proof fn lemma_bad_path_fails(nodes: Seq<NodeSpec>, x: int, y: int, path: Seq<u16>, depth: nat)
    requires
        path.len() >= 1,
        is_walked_path(nodes, x, y, path),
        is_dangling(nodes, path.last()) || exists|i: int|
            0 <= i < path.len() - 1 && #[trigger] path[i] == path.last(),
    ensures
        walk(nodes, x, y, path[0], depth) is None,
{
    let doomed = Set::new(|r: u16| exists|i: int| 0 <= i < path.len() && #[trigger] path[i] == r);
    assert forall|r: u16| #[trigger] doomed.contains(r) implies is_dangling(nodes, r) || (is_node(
        nodes,
        r,
    ) && exists|c: u16| #[trigger] doomed.contains(c) && walked_child(x, y, nodes[r as int], c)) by {
        let i = choose|i: int| 0 <= i < path.len() && #[trigger] path[i] == r;
        if i < path.len() - 1 {
            assert(is_node(nodes, path[i]));
            assert(doomed.contains(path[i + 1]));
        } else if !is_dangling(nodes, r) {
            let k = choose|k: int| 0 <= k < path.len() - 1 && #[trigger] path[k] == path.last();
            assert(is_node(nodes, path[k]));
            assert(doomed.contains(path[k + 1]));
        }
    }
    assert(doomed.contains(path[0]));
    lemma_doomed_walk_fails(nodes, x, y, doomed, path[0], depth);
}

/// A walk that fails has taken a path to a dangling reference, or a path of
/// as many nodes as its depth and one more. The path is returned.
pub proof fn lemma_failed_walk_has_path(
    nodes: Seq<NodeSpec>,
    x: int,
    y: int,
    reference: u16,
    depth: nat,
) -> (path: Seq<u16>)
    requires
        walk(nodes, x, y, reference, depth) is None,
    ensures
        path.len() >= 1,
        path[0] == reference,
        is_walked_path(nodes, x, y, path),
        is_dangling(nodes, path.last()) || (path.len() == depth + 1 && is_node(
            nodes,
            path.last(),
        )),
    decreases depth,
{
    assert(child_ref(reference) is Node);
    assert(child_ref(reference) == ChildRef::Node(reference));
    if reference >= nodes.len() || depth == 0 {
        seq![reference]
    } else {
        let node = nodes[reference as int];
        let near = near_child(x, y, node);
        let next = if walk(nodes, x, y, near, (depth - 1) as nat) is None {
            near
        } else {
            far_child(x, y, node)
        };
        let rest = lemma_failed_walk_has_path(nodes, x, y, next, (depth - 1) as nat);
        let path = seq![reference] + rest;
        assert forall|i: int| 0 <= i < path.len() - 1 implies is_node(nodes, #[trigger] path[i])
            && walked_child(x, y, nodes[path[i] as int], path[i + 1]) by {
            if i > 0 {
                assert(path[i] == rest[i - 1]);
                assert(path[i + 1] == rest[i]);
            } else {
                assert(path[1] == rest[0]);
            }
        }
        assert(path.last() == rest.last());
        path
    }
}

/// A run of more nodes than the index holds names some node twice. The two
/// places are returned.
pub proof fn lemma_long_path_repeats(nodes: Seq<NodeSpec>, path: Seq<u16>) -> (places: (int, int))
    requires
        path.len() > nodes.len(),
        forall|i: int| 0 <= i < path.len() ==> (#[trigger] path[i]) < nodes.len(),
    ensures
        0 <= places.0 < places.1 < path.len(),
        path[places.0] == path[places.1],
{
    let wide = Seq::new(path.len(), |i: int| path[i] as int);
    if wide.no_duplicates() {
        wide.unique_seq_to_set();
        lemma_int_range(0, nodes.len() as int);
        assert(wide.to_set().subset_of(set_int_range(0, nodes.len() as int))) by {
            assert forall|v: int| wide.to_set().contains(v) implies set_int_range(
                0,
                nodes.len() as int,
            ).contains(v) by {
                let i = choose|i: int| 0 <= i < wide.len() && wide[i] == v;
                assert(path[i] < nodes.len());
            }
        }
        lemma_len_subset(wide.to_set(), set_int_range(0, nodes.len() as int));
        assert(false);
    }
    let (i, j) = choose|i: int, j: int|
        0 <= i < wide.len() && 0 <= j < wide.len() && i != j && wide[i] == wide[j];
    if i < j {
        (i, j)
    } else {
        (j, i)
    }
}

/// The walk of a whole index fails only where it must: it has taken a path
/// to a dangling reference, or a path that comes to the same node twice. The
/// path is returned, with the place where it ends: at its last reference if
/// that is dangling, else at the second coming to a node.
pub proof fn lemma_failed_traversal_is_doomed(
    nodes: Seq<NodeSpec>,
    x: int,
    y: int,
    reference: u16,
) -> (path: Seq<u16>)
    requires
        traversal(nodes, x, y, reference) is None,
    ensures
        path.len() >= 1,
        path[0] == reference,
        is_walked_path(nodes, x, y, path),
        is_dangling(nodes, path.last()) || exists|i: int|
            0 <= i < path.len() - 1 && #[trigger] path[i] == path.last(),
{
    let whole = lemma_failed_walk_has_path(nodes, x, y, reference, nodes.len());
    if is_dangling(nodes, whole.last()) {
        whole
    } else {
        assert forall|i: int| 0 <= i < whole.len() implies (#[trigger] whole[i]) < nodes.len() by {
            if i < whole.len() - 1 {
                assert(is_node(nodes, whole[i]));
            }
        }
        let (i, j) = lemma_long_path_repeats(nodes, whole);
        let path = whole.take(j + 1);
        assert forall|k: int| 0 <= k < path.len() - 1 implies is_node(nodes, #[trigger] path[k])
            && walked_child(x, y, nodes[path[k] as int], path[k + 1]) by {
            assert(path[k] == whole[k]);
            assert(path[k + 1] == whole[k + 1]);
        }
        assert(path[i] == path.last());
        path
    }
}

} // verus!
