//! The BSP index of a map: nodes, subsectors and segs, and the walk that
//! lists subsectors from the nearest to the farthest.
//!
//! Viewer coordinates are 16.16 fixed-point map units: the integer `65536`
//! stands for one map unit. Record coordinates are whole map units.

use crate::bytes::i16_le;
use crate::bytes::read_i16_at;
use crate::bytes::read_u16_at;
use crate::bytes::u16_le;
use crate::format::count_records;
use crate::format::record_count;
use crate::format::whole_records;
use crate::format::FormatError;
use crate::format::LumpKind;
use crate::map::lump_data;
use crate::map::record_lump;
use crate::wad::first_named;
use crate::wad::LumpSpec;
use crate::wad::WadFile;
use vstd::prelude::*;
use vstd::slice::slice_subrange;

verus! {

/// One map unit in viewer coordinates.
pub const FRAC_UNIT: i64 = 65536;

/// How far a box corner may be from the viewer for the box to count as
/// visible: a thousand map units, in viewer coordinates.
pub const VIEW_LIMIT: i128 = 65536000;

/// The bit of a child reference that marks a subsector.
pub const LEAF_FLAG: u16 = 0x8000;

/// An inner node: a partition line, one bounding box per child, and the two
/// children.
#[derive(Debug, Clone, Copy)]
pub struct BspNode {
    pub x: i16,
    pub y: i16,
    pub dx: i16,
    pub dy: i16,
    pub bbox_right: [i16; 4],
    pub bbox_left: [i16; 4],
    pub right_child: u16,
    pub left_child: u16,
}

/// A node as a value.
pub struct NodeSpec {
    pub x: i16,
    pub y: i16,
    pub dx: i16,
    pub dy: i16,
    pub bbox_right: Seq<i16>,
    pub bbox_left: Seq<i16>,
    pub right_child: u16,
    pub left_child: u16,
}

impl View for BspNode {
    type V = NodeSpec;

    open spec fn view(&self) -> NodeSpec {
        NodeSpec {
            x: self.x,
            y: self.y,
            dx: self.dx,
            dy: self.dy,
            bbox_right: self.bbox_right@,
            bbox_left: self.bbox_left@,
            right_child: self.right_child,
            left_child: self.left_child,
        }
    }
}

/// A leaf: a run of consecutive segs.
#[derive(Debug, Clone, Copy, PartialEq, Eq, Structural)]
pub struct Subsector {
    pub seg_count: u16,
    pub first_seg: u16,
}

/// A piece of a linedef, the unit a wall is drawn from.
#[derive(Debug, Clone, Copy, PartialEq, Eq, Structural)]
pub struct Seg {
    pub start_vertex: u16,
    pub end_vertex: u16,
    pub angle: u16,
    pub linedef: u16,
    pub direction: u16,
    pub offset: u16,
}

/// The BSP index of one map.
#[derive(Debug, Clone)]
pub struct BspTree {
    pub nodes: Vec<BspNode>,
    pub subsectors: Vec<Subsector>,
    pub segs: Vec<Seg>,
}

/// A BSP index as a value.
pub struct TreeSpec {
    pub nodes: Seq<NodeSpec>,
    pub subsectors: Seq<Subsector>,
    pub segs: Seq<Seg>,
}

/// The nodes of an index as values.
pub open spec fn nodes_view(nodes: Seq<BspNode>) -> Seq<NodeSpec> {
    Seq::new(nodes.len(), |i: int| nodes[i]@)
}

impl View for BspTree {
    type V = TreeSpec;

    open spec fn view(&self) -> TreeSpec {
        TreeSpec {
            nodes: nodes_view(self.nodes@),
            subsectors: self.subsectors@,
            segs: self.segs@,
        }
    }
}

/// What a child reference points at.
#[derive(Debug, Clone, Copy, PartialEq, Eq, Structural)]
pub enum ChildRef {
    /// A subsector, by its index.
    Subsector(u16),
    /// Another node, by its index.
    Node(u16),
}

/// A reference with its top bit set is a subsector, whose index is the
/// reference with that bit cleared; any other reference is a node index.
pub open spec fn child_ref(reference: u16) -> ChildRef {
    if reference & 0x8000 != 0 {
        ChildRef::Subsector(reference & 0x7FFF)
    } else {
        ChildRef::Node(reference)
    }
}

/// Tells a subsector reference from a node reference. This is asked of every
/// reference before it is used as an index.
pub fn classify_leaf(reference: u16) -> (c: ChildRef)
    ensures
        c == child_ref(reference),
        (c is Subsector) <==> reference & 0x8000 != 0,
        c is Subsector ==> c->Subsector_0 == reference & 0x7FFF,
        c is Node ==> c->Node_0 == reference,
{
    if reference & LEAF_FLAG != 0 {
        ChildRef::Subsector(reference & 0x7FFF)
    } else {
        ChildRef::Node(reference)
    }
}

/// Four consecutive signed fields, the form a bounding box is stored in.
pub open spec fn bbox_at(data: Seq<u8>, at: int) -> Seq<i16> {
    Seq::new(4, |j: int| i16_le(data, at + 2 * j))
}

/// The node stored at `at`: the partition line, the right child's box, the
/// left child's box, the right child, the left child.
pub open spec fn node_at(data: Seq<u8>, at: int) -> NodeSpec {
    NodeSpec {
        x: i16_le(data, at),
        y: i16_le(data, at + 2),
        dx: i16_le(data, at + 4),
        dy: i16_le(data, at + 6),
        bbox_right: bbox_at(data, at + 8),
        bbox_left: bbox_at(data, at + 16),
        right_child: u16_le(data, at + 24),
        left_child: u16_le(data, at + 26),
    }
}

/// The subsector stored at `at`: seg count, then first seg.
pub open spec fn subsector_at(data: Seq<u8>, at: int) -> Subsector {
    Subsector { seg_count: u16_le(data, at), first_seg: u16_le(data, at + 2) }
}

/// The seg stored at `at`: start, end, angle, linedef, direction, offset.
pub open spec fn seg_at(data: Seq<u8>, at: int) -> Seg {
    Seg {
        start_vertex: u16_le(data, at),
        end_vertex: u16_le(data, at + 2),
        angle: u16_le(data, at + 4),
        linedef: u16_le(data, at + 6),
        direction: u16_le(data, at + 8),
        offset: u16_le(data, at + 10),
    }
}

/// The nodes of a lump, or `Truncated` if its length is not a multiple of
/// twenty-eight.
pub open spec fn nodes_of(data: Seq<u8>) -> Result<Seq<NodeSpec>, FormatError> {
    if whole_records(data, LumpKind::Nodes) {
        Ok(Seq::new(record_count(data, LumpKind::Nodes), |i: int| node_at(data, 28 * i)))
    } else {
        Err(FormatError::Truncated(LumpKind::Nodes))
    }
}

/// The subsectors of a lump, or `Truncated` if its length is not a multiple
/// of four.
pub open spec fn subsectors_of(data: Seq<u8>) -> Result<Seq<Subsector>, FormatError> {
    if whole_records(data, LumpKind::Subsectors) {
        Ok(
            Seq::new(
                record_count(data, LumpKind::Subsectors),
                |i: int| subsector_at(data, 4 * i),
            ),
        )
    } else {
        Err(FormatError::Truncated(LumpKind::Subsectors))
    }
}

/// The segs of a lump, or `Truncated` if its length is not a multiple of
/// twelve.
pub open spec fn segs_of(data: Seq<u8>) -> Result<Seq<Seg>, FormatError> {
    if whole_records(data, LumpKind::Segs) {
        Ok(Seq::new(record_count(data, LumpKind::Segs), |i: int| seg_at(data, 12 * i)))
    } else {
        Err(FormatError::Truncated(LumpKind::Segs))
    }
}

/// The BSP index of the map whose marker stands at `marker`. The three lumps
/// are read in the order nodes, subsectors, segs, and the first that is
/// missing or truncated decides the error.
pub open spec fn tree_at(lumps: Seq<LumpSpec>, marker: int) -> Result<TreeSpec, FormatError> {
    match lump_data(lumps, marker, LumpKind::Nodes) {
        Err(e) => Err(e),
        Ok(d) => match nodes_of(d) {
            Err(e) => Err(e),
            Ok(nodes) => match lump_data(lumps, marker, LumpKind::Subsectors) {
                Err(e) => Err(e),
                Ok(d) => match subsectors_of(d) {
                    Err(e) => Err(e),
                    Ok(subsectors) => match lump_data(lumps, marker, LumpKind::Segs) {
                        Err(e) => Err(e),
                        Ok(d) => match segs_of(d) {
                            Err(e) => Err(e),
                            Ok(segs) => Ok(TreeSpec { nodes, subsectors, segs }),
                        },
                    },
                },
            },
        },
    }
}

/// The BSP index of the map called `name`, or `NotFound` if no lump carries
/// that name.
pub open spec fn tree_of(lumps: Seq<LumpSpec>, name: Seq<char>) -> Result<TreeSpec, FormatError> {
    match first_named(lumps, name) {
        None => Err(FormatError::NotFound),
        Some(marker) => tree_at(lumps, marker),
    }
}

/// The run of segs of a subsector lies within an array of `total` segs.
pub open spec fn segs_in_bounds(subsector: Subsector, total: nat) -> bool {
    subsector.first_seg + subsector.seg_count <= total
}

/// The segs of a subsector: `seg_count` consecutive segs from `first_seg` on.
pub open spec fn segs_of_subsector(subsector: Subsector, segs: Seq<Seg>) -> Seq<Seg> {
    segs.subrange(subsector.first_seg as int, subsector.first_seg + subsector.seg_count)
}

/// The cross product of the vector from the partition line's origin to the
/// point `(x, y)` with the line's direction. It is positive on the right of
/// the line, negative on the left and zero on the line.
pub open spec fn cross(x: int, y: int, node: NodeSpec) -> int {
    (x - node.x * 65536) * node.dy - (y - node.y * 65536) * node.dx
}

/// The side of the partition line the point is on: `1` for the right side,
/// `-1` for the left side and for the line itself.
pub open spec fn side_of(x: int, y: int, node: NodeSpec) -> int {
    if cross(x, y, node) > 0 {
        1
    } else {
        -1
    }
}

/// `(qx, qy)` is the mirror image of `(px, py)` across the partition line:
/// the segment between them is perpendicular to the line, and its midpoint
/// lies on the line.
pub open spec fn mirrored(px: int, py: int, qx: int, qy: int, node: NodeSpec) -> bool {
    &&& (qx - px) * node.dx + (qy - py) * node.dy == 0
    &&& cross(px, py, node) + cross(qx, qy, node) == 0
}

/// Mirroring a point across the partition line flips its side, unless the
/// point is on the line, where both it and its image are on the left.
pub proof fn lemma_side_antisymmetric(px: int, py: int, qx: int, qy: int, node: NodeSpec)
    requires
        mirrored(px, py, qx, qy, node),
    ensures
        cross(px, py, node) != 0 ==> side_of(qx, qy, node) == -side_of(px, py, node),
        cross(px, py, node) == 0 ==> side_of(px, py, node) == -1 && side_of(qx, qy, node) == -1,
{
}

/// A point on the partition line is always put on the left.
pub proof fn lemma_on_line_is_left(x: int, y: int, node: NodeSpec)
    requires
        cross(x, y, node) == 0,
    ensures
        side_of(x, y, node) == -1,
{
}

/// Reflecting a point through the origin of the partition line negates its
/// cross product, so it lands on the other side.
pub proof fn lemma_reflection_flips_side(x: int, y: int, node: NodeSpec)
    ensures
        cross(2 * (node.x * 65536) - x, 2 * (node.y * 65536) - y, node) == -cross(x, y, node),
        cross(x, y, node) != 0 ==> side_of(
            2 * (node.x * 65536) - x,
            2 * (node.y * 65536) - y,
            node,
        ) == -side_of(x, y, node),
{
    let ox = node.x * 65536;
    let oy = node.y * 65536;
    let dx = node.dx as int;
    let dy = node.dy as int;
    assert((2 * ox - x - ox) * dy - (2 * oy - y - oy) * dx == -((x - ox) * dy - (y - oy) * dx))
        by (nonlinear_arith);
}

/// The square of the distance, in viewer units, from the viewer to the box
/// corner `(bbox[2], bbox[3])`.
pub open spec fn corner_distance_squared(x: int, y: int, bbox: Seq<i16>) -> int {
    (bbox[2] * 65536 - x) * (bbox[2] * 65536 - x) + (bbox[3] * 65536 - y) * (bbox[3] * 65536
        - y)
}

/// A box counts as visible when its corner `(bbox[2], bbox[3])` is less than
/// a thousand map units from the viewer. This is a distance cut-off, not a
/// test against the view frustum.
pub open spec fn box_visible(x: int, y: int, bbox: Seq<i16>) -> bool {
    corner_distance_squared(x, y, bbox) < 65536000 * 65536000
}

/// The child on the viewer's side of the partition line.
pub open spec fn near_child(x: int, y: int, node: NodeSpec) -> u16 {
    if side_of(x, y, node) <= 0 {
        node.left_child
    } else {
        node.right_child
    }
}

/// The child on the other side of the partition line.
pub open spec fn far_child(x: int, y: int, node: NodeSpec) -> u16 {
    if side_of(x, y, node) <= 0 {
        node.right_child
    } else {
        node.left_child
    }
}

/// Whether the far child is walked at all: its bounding box must be visible.
pub open spec fn far_visible(x: int, y: int, node: NodeSpec) -> bool {
    if side_of(x, y, node) <= 0 {
        box_visible(x, y, node.bbox_right)
    } else {
        box_visible(x, y, node.bbox_left)
    }
}

/// The subsectors reached from `reference`, nearest first, or `None` if the
/// walk meets a node index outside the array or goes deeper than `depth`
/// nodes. At every node the near child is walked first and always; the far
/// child is walked after it, and only if its box is visible.
pub open spec fn walk(nodes: Seq<NodeSpec>, x: int, y: int, reference: u16, depth: nat) -> Option<
    Seq<u16>,
>
    decreases depth,
{
    match child_ref(reference) {
        ChildRef::Subsector(s) => Some(seq![s]),
        ChildRef::Node(i) => if i >= nodes.len() || depth == 0 {
            None
        } else {
            let node = nodes[i as int];
            match walk(nodes, x, y, near_child(x, y, node), (depth - 1) as nat) {
                None => None,
                Some(near) => if far_visible(x, y, node) {
                    match walk(nodes, x, y, far_child(x, y, node), (depth - 1) as nat) {
                        None => None,
                        Some(far) => Some(near + far),
                    }
                } else {
                    Some(near)
                },
            }
        },
    }
}

/// The walk of a whole index from `reference`, with as much depth as the
/// index has nodes. A walk that needs more has come to some node twice and
/// would never end; `bsp_paths` proves that the walk fails for this reason or
/// for a node reference without a node, and for no other.
pub open spec fn traversal(nodes: Seq<NodeSpec>, x: int, y: int, reference: u16) -> Option<
    Seq<u16>,
> {
    walk(nodes, x, y, reference, nodes.len())
}

/// The subsector the point `(x, y)` lies in, below `reference`: the one that
/// is reached by going to the point's side at every node. The result is
/// `None` if the way leads to a node index outside the array or is longer
/// than `depth` nodes.
pub open spec fn descent(nodes: Seq<NodeSpec>, x: int, y: int, reference: u16, depth: nat) -> Option<
    u16,
>
    decreases depth,
{
    match child_ref(reference) {
        ChildRef::Subsector(s) => Some(s),
        ChildRef::Node(i) => if i >= nodes.len() || depth == 0 {
            None
        } else {
            descent(nodes, x, y, near_child(x, y, nodes[i as int]), (depth - 1) as nat)
        },
    }
}

/// A walk lists first the subsector the viewer stands in.
pub proof fn lemma_walk_starts_at_viewer(
    nodes: Seq<NodeSpec>,
    x: int,
    y: int,
    reference: u16,
    depth: nat,
)
    requires
        walk(nodes, x, y, reference, depth) is Some,
    ensures
        walk(nodes, x, y, reference, depth)->Some_0.len() >= 1,
        descent(nodes, x, y, reference, depth) == Some(
            walk(nodes, x, y, reference, depth)->Some_0[0],
        ),
    decreases depth,
{
    match child_ref(reference) {
        ChildRef::Subsector(_) => {},
        ChildRef::Node(i) => {
            let node = nodes[i as int];
            lemma_walk_starts_at_viewer(nodes, x, y, near_child(x, y, node), (depth - 1) as nat);
        },
    }
}

/// `rank` orders the nodes so that every node child has a smaller rank than
/// its parent, and every node child exists. An index with such an order has
/// no cycle.
pub open spec fn ranked(nodes: Seq<NodeSpec>, rank: spec_fn(int) -> nat) -> bool {
    forall|i: int, c: u16|
        #![trigger nodes[i], child_ref(c)]
        0 <= i < nodes.len() && (c == nodes[i].left_child || c == nodes[i].right_child)
            && child_ref(c) is Node ==> c < nodes.len() && rank(c as int) < rank(i)
}

/// In an index without cycles, a walk that is given more depth than the rank
/// of the node it starts from reaches only subsectors and succeeds.
pub proof fn lemma_ranked_walk_succeeds(
    nodes: Seq<NodeSpec>,
    rank: spec_fn(int) -> nat,
    x: int,
    y: int,
    reference: u16,
    depth: nat,
)
    requires
        ranked(nodes, rank),
        child_ref(reference) is Node ==> reference < nodes.len() && rank(reference as int)
            < depth,
    ensures
        walk(nodes, x, y, reference, depth) is Some,
    decreases depth,
{
    match child_ref(reference) {
        ChildRef::Subsector(_) => {},
        ChildRef::Node(i) => {
            assert(i == reference) by (bit_vector)
                requires
                    reference & 0x8000 == 0,
                    i == reference,
            ;
            let node = nodes[i as int];
            let near = near_child(x, y, node);
            let far = far_child(x, y, node);
            assert(child_ref(near) is Node ==> near < nodes.len() && rank(near as int) < rank(
                i as int,
            ));
            assert(child_ref(far) is Node ==> far < nodes.len() && rank(far as int) < rank(
                i as int,
            ));
            lemma_ranked_walk_succeeds(nodes, rank, x, y, near, (depth - 1) as nat);
            lemma_ranked_walk_succeeds(nodes, rank, x, y, far, (depth - 1) as nat);
        },
    }
}

/// An index in which every node child stands before its parent is walked
/// successfully from any subsector reference and from any node it holds.
pub proof fn lemma_ordered_tree_walks(nodes: Seq<NodeSpec>, x: int, y: int, reference: u16)
    requires
        forall|i: int, c: u16|
            #![trigger nodes[i], child_ref(c)]
            0 <= i < nodes.len() && (c == nodes[i].left_child || c == nodes[i].right_child)
                && child_ref(c) is Node ==> c < i,
        child_ref(reference) is Node ==> reference < nodes.len(),
    ensures
        traversal(nodes, x, y, reference) is Some,
{
    let rank = |i: int| i as nat;
    assert(ranked(nodes, rank));
    lemma_ranked_walk_succeeds(nodes, rank, x, y, reference, nodes.len());
}

/// One entry of the work list of a walk: a reference still to be walked, and
/// the depth left for it.
struct Pending {
    reference: u16,
    depth: usize,
}

/// The subsectors that the work list still yields, the last entry first.
spec fn walk_all(nodes: Seq<NodeSpec>, x: int, y: int, pending: Seq<Pending>) -> Option<
    Seq<u16>,
>
    decreases pending.len(),
{
    if pending.len() == 0 {
        Some(Seq::empty())
    } else {
        let top = pending.last();
        match walk(nodes, x, y, top.reference, top.depth as nat) {
            None => None,
            Some(first) => match walk_all(nodes, x, y, pending.drop_last()) {
                None => None,
                Some(rest) => Some(first + rest),
            },
        }
    }
}

/// What has been listed so far, followed by what the work list still yields.
spec fn listed_then(listed: Seq<u16>, rest: Option<Seq<u16>>) -> Option<Seq<u16>> {
    match rest {
        None => None,
        Some(r) => Some(listed + r),
    }
}

/// How many references a walk takes off the work list before it is done.
spec fn steps(nodes: Seq<NodeSpec>, x: int, y: int, reference: u16, depth: nat) -> nat
    decreases depth,
{
    match child_ref(reference) {
        ChildRef::Subsector(_) => 1,
        ChildRef::Node(i) => if i >= nodes.len() || depth == 0 {
            1
        } else {
            let node = nodes[i as int];
            1 + steps(nodes, x, y, near_child(x, y, node), (depth - 1) as nat) + if far_visible(
                x,
                y,
                node,
            ) {
                steps(nodes, x, y, far_child(x, y, node), (depth - 1) as nat)
            } else {
                0
            }
        },
    }
}

/// The steps left in a whole work list.
spec fn steps_all(nodes: Seq<NodeSpec>, x: int, y: int, pending: Seq<Pending>) -> nat
    decreases pending.len(),
{
    if pending.len() == 0 {
        0
    } else {
        steps(nodes, x, y, pending.last().reference, pending.last().depth as nat) + steps_all(
            nodes,
            x,
            y,
            pending.drop_last(),
        )
    }
}

proof fn lemma_push_pending(nodes: Seq<NodeSpec>, x: int, y: int, pending: Seq<Pending>, p: Pending)
    ensures
        walk_all(nodes, x, y, pending.push(p)) == match walk(
            nodes,
            x,
            y,
            p.reference,
            p.depth as nat,
        ) {
            None => None,
            Some(first) => match walk_all(nodes, x, y, pending) {
                None => None,
                Some(rest) => Some(first + rest),
            },
        },
        steps_all(nodes, x, y, pending.push(p)) == steps(nodes, x, y, p.reference, p.depth as nat)
            + steps_all(nodes, x, y, pending),
{
    assert(pending.push(p).drop_last() =~= pending);
    assert(pending.push(p).last() == p);
}

fn read_bbox(data: &[u8], at: usize) -> (b: [i16; 4])
    requires
        at + 8 <= data@.len(),
    ensures
        b@ == bbox_at(data@, at as int),
{
    let len: usize = data.len();
    assert(at + 8 <= len);
    let b: [i16; 4] = [
        read_i16_at(data, at),
        read_i16_at(data, at + 2),
        read_i16_at(data, at + 4),
        read_i16_at(data, at + 6),
    ];
    assert(b@ =~= bbox_at(data@, at as int));
    b
}

fn read_node(data: &[u8], at: usize) -> (n: BspNode)
    requires
        at + 28 <= data@.len(),
    ensures
        n@ == node_at(data@, at as int),
{
    let len: usize = data.len();
    assert(at + 28 <= len);
    BspNode {
        x: read_i16_at(data, at),
        y: read_i16_at(data, at + 2),
        dx: read_i16_at(data, at + 4),
        dy: read_i16_at(data, at + 6),
        bbox_right: read_bbox(data, at + 8),
        bbox_left: read_bbox(data, at + 16),
        right_child: read_u16_at(data, at + 24),
        left_child: read_u16_at(data, at + 26),
    }
}

fn read_subsector(data: &[u8], at: usize) -> (s: Subsector)
    requires
        at + 4 <= data@.len(),
    ensures
        s == subsector_at(data@, at as int),
{
    let len: usize = data.len();
    assert(at + 4 <= len);
    Subsector { seg_count: read_u16_at(data, at), first_seg: read_u16_at(data, at + 2) }
}

fn read_seg(data: &[u8], at: usize) -> (s: Seg)
    requires
        at + 12 <= data@.len(),
    ensures
        s == seg_at(data@, at as int),
{
    let len: usize = data.len();
    assert(at + 12 <= len);
    Seg {
        start_vertex: read_u16_at(data, at),
        end_vertex: read_u16_at(data, at + 2),
        angle: read_u16_at(data, at + 4),
        linedef: read_u16_at(data, at + 6),
        direction: read_u16_at(data, at + 8),
        offset: read_u16_at(data, at + 10),
    }
}

impl BspTree {
    /// Loads the BSP index of the map called `map_name` from the three lumps
    /// at their fixed positions after the map's marker.
    pub fn load_from_wad(wad: &WadFile, map_name: &str) -> (r: Result<BspTree, FormatError>)
        ensures
            match r {
                Ok(tree) => tree_of(wad@, map_name@) == Ok::<TreeSpec, FormatError>(tree@),
                Err(e) => tree_of(wad@, map_name@) == Err::<TreeSpec, FormatError>(e),
            },
    {
        let marker: usize = match wad.find_index(map_name) {
            Some(i) => i,
            None => {
                return Err(FormatError::NotFound);
            },
        };
        let nodes: Vec<BspNode> = match record_lump(wad, marker, LumpKind::Nodes) {
            Err(e) => {
                return Err(e);
            },
            Ok(data) => match Self::parse_nodes(data) {
                Err(e) => {
                    return Err(e);
                },
                Ok(v) => v,
            },
        };
        let subsectors: Vec<Subsector> = match record_lump(wad, marker, LumpKind::Subsectors) {
            Err(e) => {
                return Err(e);
            },
            Ok(data) => match Self::parse_subsectors(data) {
                Err(e) => {
                    return Err(e);
                },
                Ok(v) => v,
            },
        };
        let segs: Vec<Seg> = match record_lump(wad, marker, LumpKind::Segs) {
            Err(e) => {
                return Err(e);
            },
            Ok(data) => match Self::parse_segs(data) {
                Err(e) => {
                    return Err(e);
                },
                Ok(v) => v,
            },
        };
        Ok(BspTree { nodes, subsectors, segs })
    }

    /// Decodes a lump of node records.
    pub fn parse_nodes(data: &[u8]) -> (r: Result<Vec<BspNode>, FormatError>)
        ensures
            match r {
                Ok(v) => nodes_of(data@) == Ok::<Seq<NodeSpec>, FormatError>(nodes_view(v@)),
                Err(e) => nodes_of(data@) == Err::<Seq<NodeSpec>, FormatError>(e),
            },
    {
        let count: usize = match count_records(data, LumpKind::Nodes) {
            Ok(n) => n,
            Err(e) => {
                return Err(e);
            },
        };
        let len: usize = data.len();
        let mut out: Vec<BspNode> = Vec::new();
        let mut i: usize = 0;
        while i < count
            invariant
                len == data@.len(),
                28 * count == len,
                i <= count,
                out@.len() == i,
                forall|k: int| 0 <= k < i ==> (#[trigger] out@[k])@ == node_at(data@, 28 * k),
            decreases count - i,
        {
            out.push(read_node(data, 28 * i));
            i = i + 1;
        }
        assert(nodes_view(out@) =~= nodes_of(data@)->Ok_0);
        Ok(out)
    }

    /// Decodes a lump of subsector records.
    pub fn parse_subsectors(data: &[u8]) -> (r: Result<Vec<Subsector>, FormatError>)
        ensures
            match r {
                Ok(v) => subsectors_of(data@) == Ok::<Seq<Subsector>, FormatError>(v@),
                Err(e) => subsectors_of(data@) == Err::<Seq<Subsector>, FormatError>(e),
            },
    {
        let count: usize = match count_records(data, LumpKind::Subsectors) {
            Ok(n) => n,
            Err(e) => {
                return Err(e);
            },
        };
        let len: usize = data.len();
        let mut out: Vec<Subsector> = Vec::new();
        let mut i: usize = 0;
        while i < count
            invariant
                len == data@.len(),
                4 * count == len,
                i <= count,
                out@.len() == i,
                forall|k: int| 0 <= k < i ==> out@[k] == subsector_at(data@, 4 * k),
            decreases count - i,
        {
            out.push(read_subsector(data, 4 * i));
            i = i + 1;
        }
        assert(out@ =~= subsectors_of(data@)->Ok_0);
        Ok(out)
    }

    /// Decodes a lump of seg records.
    pub fn parse_segs(data: &[u8]) -> (r: Result<Vec<Seg>, FormatError>)
        ensures
            match r {
                Ok(v) => segs_of(data@) == Ok::<Seq<Seg>, FormatError>(v@),
                Err(e) => segs_of(data@) == Err::<Seq<Seg>, FormatError>(e),
            },
    {
        let count: usize = match count_records(data, LumpKind::Segs) {
            Ok(n) => n,
            Err(e) => {
                return Err(e);
            },
        };
        let len: usize = data.len();
        let mut out: Vec<Seg> = Vec::new();
        let mut i: usize = 0;
        while i < count
            invariant
                len == data@.len(),
                12 * count == len,
                i <= count,
                out@.len() == i,
                forall|k: int| 0 <= k < i ==> out@[k] == seg_at(data@, 12 * k),
            decreases count - i,
        {
            out.push(read_seg(data, 12 * i));
            i = i + 1;
        }
        assert(out@ =~= segs_of(data@)->Ok_0);
        Ok(out)
    }

    /// The segs of a subsector: the run of `seg_count` segs from `first_seg`
    /// on. The result is `Corrupt` if the index has no subsector or the run
    /// leaves the array of segs.
    pub fn subsector_segs(&self, subsector: u16) -> (r: Result<&[Seg], FormatError>)
        ensures
            match r {
                Ok(segs) => {
                    &&& subsector < self.subsectors@.len()
                    &&& segs_in_bounds(self.subsectors@[subsector as int], self.segs@.len())
                    &&& segs@ == segs_of_subsector(self.subsectors@[subsector as int], self.segs@)
                },
                Err(e) => {
                    &&& e == FormatError::Corrupt
                    &&& subsector >= self.subsectors@.len() || !segs_in_bounds(
                        self.subsectors@[subsector as int],
                        self.segs@.len(),
                    )
                },
            },
    {
        if subsector as usize >= self.subsectors.len() {
            return Err(FormatError::Corrupt);
        }
        let leaf: &Subsector = &self.subsectors[subsector as usize];
        let first: usize = leaf.first_seg as usize;
        let count: usize = leaf.seg_count as usize;
        let total: usize = self.segs.len();
        if first > total || total - first < count {
            return Err(FormatError::Corrupt);
        }
        Ok(slice_subrange(self.segs.as_slice(), first, first + count))
    }

    /// Which side of the node's partition line the viewer is on: `1` for the
    /// right, `-1` for the left. A viewer exactly on the line is on the left.
    pub fn point_on_side(&self, x: i32, y: i32, node: &BspNode) -> (side: i32)
        ensures
            side == side_of(x as int, y as int, node@),
            side == 1 || side == -1,
    {
        let px: i64 = x as i64 - (node.x as i64) * FRAC_UNIT;
        let py: i64 = y as i64 - (node.y as i64) * FRAC_UNIT;
        let dx: i64 = node.dx as i64;
        let dy: i64 = node.dy as i64;
        assert(-0x8000_0000_0000 <= px * dy <= 0x8000_0000_0000) by (nonlinear_arith)
            requires
                -0x1_0000_0000 <= px <= 0x1_0000_0000,
                -0x8000 <= dy <= 0x8000,
        ;
        assert(-0x8000_0000_0000 <= py * dx <= 0x8000_0000_0000) by (nonlinear_arith)
            requires
                -0x1_0000_0000 <= py <= 0x1_0000_0000,
                -0x8000 <= dx <= 0x8000,
        ;
        let product: i64 = px * dy - py * dx;
        if product > 0 {
            1
        } else {
            -1
        }
    }

    /// Whether a child's bounding box is near enough to the viewer to be
    /// walked.
    pub fn bbox_visible(&self, x: i32, y: i32, bbox: &[i16; 4]) -> (visible: bool)
        ensures
            visible == box_visible(x as int, y as int, bbox@),
    {
        let dx: i128 = (bbox[2] as i128) * 65536 - x as i128;
        let dy: i128 = (bbox[3] as i128) * 65536 - y as i128;
        assert(0 <= dx * dx <= 0x1_0000_0000_0000_0000) by (nonlinear_arith)
            requires
                -0x1_0000_0000 <= dx <= 0x1_0000_0000,
        ;
        assert(0 <= dy * dy <= 0x1_0000_0000_0000_0000) by (nonlinear_arith)
            requires
                -0x1_0000_0000 <= dy <= 0x1_0000_0000,
        ;
        dx * dx + dy * dy < VIEW_LIMIT * VIEW_LIMIT
    }

    /// Finds the subsector that the point `(x, y)` lies in, going down from
    /// `node_index`. The search fails with `Corrupt` if it meets a node index
    /// outside the array or a cycle.
    pub fn locate(&self, x: i32, y: i32, node_index: u16) -> (r: Result<u16, FormatError>)
        ensures
            match r {
                Ok(s) => descent(self@.nodes, x as int, y as int, node_index, self.nodes@.len())
                    == Some(s),
                Err(e) => e == FormatError::Corrupt && descent(
                    self@.nodes,
                    x as int,
                    y as int,
                    node_index,
                    self.nodes@.len(),
                ) is None,
            },
    {
        let mut reference: u16 = node_index;
        let mut depth: usize = self.nodes.len();
        loop
            invariant
                depth <= self.nodes@.len(),
                descent(self@.nodes, x as int, y as int, node_index, self.nodes@.len()) == descent(
                    self@.nodes,
                    x as int,
                    y as int,
                    reference,
                    depth as nat,
                ),
            decreases depth,
        {
            match classify_leaf(reference) {
                ChildRef::Subsector(s) => {
                    return Ok(s);
                },
                ChildRef::Node(i) => {
                    if i as usize >= self.nodes.len() || depth == 0 {
                        return Err(FormatError::Corrupt);
                    }
                    let node: &BspNode = &self.nodes[i as usize];
                    assert(self@.nodes[i as int] == node@);
                    reference = if self.point_on_side(x, y, node) <= 0 {
                        node.left_child
                    } else {
                        node.right_child
                    };
                    depth = depth - 1;
                },
            }
        }
    }

    /// Lists the subsectors that are walked from `node_index` for a viewer at
    /// `(x, y)`, nearest first. The walk fails with `Corrupt` if it meets a
    /// node index outside the array or a cycle.
    pub fn traverse_bsp(&self, x: i32, y: i32, node_index: u16) -> (r: Result<
        Vec<u16>,
        FormatError,
    >)
        ensures
            match r {
                Ok(v) => traversal(self@.nodes, x as int, y as int, node_index) == Some(v@),
                Err(e) => e == FormatError::Corrupt && traversal(
                    self@.nodes,
                    x as int,
                    y as int,
                    node_index,
                ) is None,
            },
    {
        let count: usize = self.nodes.len();
        let ghost nodes = self@.nodes;
        let ghost total = traversal(nodes, x as int, y as int, node_index);
        let mut out: Vec<u16> = Vec::new();
        let mut pending: Vec<Pending> = Vec::new();
        pending.push(Pending { reference: node_index, depth: count });
        proof {
            lemma_push_pending(
                nodes,
                x as int,
                y as int,
                Seq::empty(),
                Pending { reference: node_index, depth: count },
            );
            assert(Seq::<Pending>::empty().push(Pending { reference: node_index, depth: count })
                =~= pending@);
            let w = walk(nodes, x as int, y as int, node_index, count as nat);
            if w is Some {
                assert(w->Some_0 + Seq::<u16>::empty() =~= w->Some_0);
                assert(Seq::<u16>::empty() + w->Some_0 =~= w->Some_0);
            }
        }
        while pending.len() > 0
            invariant
                nodes == self@.nodes,
                count == nodes.len(),
                count == self.nodes@.len(),
                total == traversal(nodes, x as int, y as int, node_index),
                total == listed_then(out@, walk_all(nodes, x as int, y as int, pending@)),
            decreases steps_all(nodes, x as int, y as int, pending@),
        {
            let ghost before = pending@;
            let ghost listed = out@;
            let top: Pending = pending.pop().unwrap();
            let ghost rest = pending@;
            proof {
                assert(before.drop_last() =~= rest);
                assert(before.last() == top);
            }
            match classify_leaf(top.reference) {
                ChildRef::Subsector(s) => {
                    out.push(s);
                    proof {
                        let tail = walk_all(nodes, x as int, y as int, rest);
                        if tail is Some {
                            assert(listed + (seq![s] + tail->Some_0) =~= listed.push(s)
                                + tail->Some_0);
                        }
                    }
                },
                ChildRef::Node(i) => {
                    if i as usize >= count || top.depth == 0 {
                        proof {
                            assert(walk(nodes, x as int, y as int, top.reference, top.depth as nat)
                                is None);
                            assert(walk_all(nodes, x as int, y as int, before) is None);
                        }
                        return Err(FormatError::Corrupt);
                    }
                    let node: &BspNode = &self.nodes[i as usize];
                    assert(nodes[i as int] == node@);
                    let below: usize = top.depth - 1;
                    let side: i32 = self.point_on_side(x, y, node);
                    let near: u16 = if side <= 0 {
                        node.left_child
                    } else {
                        node.right_child
                    };
                    let far: u16 = if side <= 0 {
                        node.right_child
                    } else {
                        node.left_child
                    };
                    let walk_far: bool = if side <= 0 {
                        self.bbox_visible(x, y, &node.bbox_right)
                    } else {
                        self.bbox_visible(x, y, &node.bbox_left)
                    };
                    let ghost p_far = Pending { reference: far, depth: below };
                    let ghost p_near = Pending { reference: near, depth: below };
                    if walk_far {
                        pending.push(Pending { reference: far, depth: below });
                        proof {
                            lemma_push_pending(nodes, x as int, y as int, rest, p_far);
                        }
                    }
                    let ghost middle = pending@;
                    pending.push(Pending { reference: near, depth: below });
                    proof {
                        lemma_push_pending(nodes, x as int, y as int, middle, p_near);
                        let w_near = walk(nodes, x as int, y as int, near, below as nat);
                        let w_far = walk(nodes, x as int, y as int, far, below as nat);
                        let tail = walk_all(nodes, x as int, y as int, rest);
                        if w_near is Some && tail is Some {
                            if walk_far {
                                if w_far is Some {
                                    assert((w_near->Some_0 + w_far->Some_0) + tail->Some_0
                                        =~= w_near->Some_0 + (w_far->Some_0 + tail->Some_0));
                                }
                            }
                        }
                    }
                },
            }
        }
        proof {
            assert(out@ + Seq::<u16>::empty() =~= out@);
        }
        Ok(out)
    }
}

} // verus!
