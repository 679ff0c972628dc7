use crate::day22_parse::Tile;
use crate::vec2::Vec2;
use vstd::prelude::*;

verus! {

/// The face edge length implied by the bounding box of a cube net: the box
/// of a net is either 2 by 5 faces (one side more than twice the other) or
/// 3 by 4 faces.
pub open spec fn spec_face_size(net_width: int, net_height: int) -> int {
    let long = if net_width < net_height {
        net_height
    } else {
        net_width
    };
    let short = if net_width < net_height {
        net_width
    } else {
        net_height
    };
    if long > short * 2 {
        short / 2
    } else {
        long / 4
    }
}

/// Compute the face edge length from the net's bounding box, as in
/// [`spec_face_size`].
pub fn face_size(net_width: usize, net_height: usize) -> (r: usize)
    requires
        net_width <= 0x10000,
        net_height <= 0x10000,
    ensures
        r == spec_face_size(net_width as int, net_height as int),
{
    let long = if net_width < net_height {
        net_height
    } else {
        net_width
    };
    let short = if net_width < net_height {
        net_width
    } else {
        net_height
    };
    if long > short * 2 {
        short / 2
    } else {
        long / 4
    }
}


/// One of the four net directions, in the fixed order left, top, right,
/// bottom, as a unit vector on the block grid.
pub open spec fn spec_delta(d: int) -> Vec2 {
    if d == 0 {
        Vec2(-1 as isize, 0)
    } else if d == 1 {
        Vec2(0, -1 as isize)
    } else if d == 2 {
        Vec2(1, 0)
    } else {
        Vec2(0, 1)
    }
}

/// The `d`-th net direction, as in [`spec_delta`].
fn delta(d: usize) -> (r: Vec2)
    requires
        d < 4,
    ensures
        r == spec_delta(d as int),
{
    if d == 0 {
        Vec2::new(-1, 0)
    } else if d == 1 {
        Vec2::new(0, -1)
    } else if d == 2 {
        Vec2::new(1, 0)
    } else {
        Vec2::new(0, 1)
    }
}

/// A fully resolved face of the assembled cube.
#[derive(Clone, Copy, Debug)]
pub struct Face {
    /// Position on the net in face-sized blocks: `position * face_size` is
    /// the top-left tile of the face.
    pub position: Vec2,
    /// The positions of the four neighbouring faces, in net order: left,
    /// top, right, bottom.
    pub adjacent: [Vec2; 4],
}

impl Face {
    /// The neighbour across the left edge.
    pub fn left(&self) -> (r: Vec2)
        ensures
            r == self.adjacent@[0],
    {
        self.adjacent[0]
    }

    /// The neighbour across the top edge.
    pub fn top(&self) -> (r: Vec2)
        ensures
            r == self.adjacent@[1],
    {
        self.adjacent[1]
    }

    /// The neighbour across the right edge.
    pub fn right(&self) -> (r: Vec2)
        ensures
            r == self.adjacent@[2],
    {
        self.adjacent[2]
    }

    /// The neighbour across the bottom edge.
    pub fn bottom(&self) -> (r: Vec2)
        ensures
            r == self.adjacent@[3],
    {
        self.adjacent[3]
    }
}

/// The assembled cube: exactly six faces and the face edge length.
#[derive(Clone, Copy, Debug)]
pub struct Cube {
    pub face_size: usize,
    pub faces: [Face; 6],
}

/// A face found on the net but not yet placed on the cube: its block
/// position and, for each net direction, the neighbouring occupied block,
/// when there is one.
#[derive(Clone, Copy, Debug)]
pub struct PartialFace {
    pub position: Vec2,
    pub adjacent: [Option<Vec2>; 4],
}

impl PartialFace {
    /// A freshly found face with no neighbours recorded yet.
    pub fn new(position: Vec2) -> (r: Self)
        ensures
            r.position == position,
            r.adjacent@ =~= seq![Option::<Vec2>::None, None, None, None],
    {
        PartialFace { position, adjacent: [None, None, None, None] }
    }
}

/// One of the six canonical positions a face can take on the cube.
#[derive(Clone, Copy, Debug, PartialEq, Eq, Structural)]
pub enum FaceSlot {
    Front,
    Back,
    Left,
    Right,
    Top,
    Bottom,
}

/// The canonical cube topology: the slots around `slot`, in directional
/// order. The order encodes a real cube, including the mirroring of the
/// back face.
pub open spec fn spec_slot_adjacent(slot: FaceSlot, d: int) -> FaceSlot {
    let row = match slot {
        FaceSlot::Front => (FaceSlot::Left, FaceSlot::Top, FaceSlot::Right, FaceSlot::Bottom),
        FaceSlot::Back => (FaceSlot::Right, FaceSlot::Top, FaceSlot::Left, FaceSlot::Bottom),
        FaceSlot::Left => (FaceSlot::Back, FaceSlot::Top, FaceSlot::Front, FaceSlot::Bottom),
        FaceSlot::Right => (FaceSlot::Front, FaceSlot::Top, FaceSlot::Back, FaceSlot::Bottom),
        FaceSlot::Top => (FaceSlot::Left, FaceSlot::Back, FaceSlot::Right, FaceSlot::Front),
        FaceSlot::Bottom => (FaceSlot::Left, FaceSlot::Front, FaceSlot::Right, FaceSlot::Back),
    };
    if d == 0 {
        row.0
    } else if d == 1 {
        row.1
    } else if d == 2 {
        row.2
    } else {
        row.3
    }
}

impl FaceSlot {
    /// The four slots around this one, as in [`spec_slot_adjacent`].
    pub fn adjacent(self) -> (r: [FaceSlot; 4])
        ensures
            forall|d: int| 0 <= d < 4 ==> r@[d] == spec_slot_adjacent(self, d),
    {
        let r = match self {
            FaceSlot::Front => [FaceSlot::Left, FaceSlot::Top, FaceSlot::Right, FaceSlot::Bottom],
            FaceSlot::Back => [FaceSlot::Right, FaceSlot::Top, FaceSlot::Left, FaceSlot::Bottom],
            FaceSlot::Left => [FaceSlot::Back, FaceSlot::Top, FaceSlot::Front, FaceSlot::Bottom],
            FaceSlot::Right => [FaceSlot::Front, FaceSlot::Top, FaceSlot::Back, FaceSlot::Bottom],
            FaceSlot::Top => [FaceSlot::Left, FaceSlot::Back, FaceSlot::Right, FaceSlot::Front],
            FaceSlot::Bottom => [FaceSlot::Left, FaceSlot::Front, FaceSlot::Right, FaceSlot::Back],
        };
        r
    }

    /// A fixed numbering of the slots.
    pub open spec fn spec_index(self) -> int {
        match self {
            FaceSlot::Front => 0,
            FaceSlot::Back => 1,
            FaceSlot::Left => 2,
            FaceSlot::Right => 3,
            FaceSlot::Top => 4,
            FaceSlot::Bottom => 5,
        }
    }

    /// The slot's number, as in [`FaceSlot::spec_index`].
    pub fn index(self) -> (r: usize)
        ensures
            r == self.spec_index(),
    {
        match self {
            FaceSlot::Front => 0,
            FaceSlot::Back => 1,
            FaceSlot::Left => 2,
            FaceSlot::Right => 3,
            FaceSlot::Top => 4,
            FaceSlot::Bottom => 5,
        }
    }
}

/// Is the grid a rectangle of bounded size whose face length fits inside
/// both dimensions?
pub open spec fn grid_wf(net: Seq<Seq<Tile>>, s: int) -> bool {
    &&& 0 < net.len() <= 0x10000
    &&& 0 < net[0].len() <= 0x10000
    &&& forall|y: int| 0 <= y < net.len() ==> (#[trigger] net[y]).len() == net[0].len()
    &&& 1 <= s
    &&& s <= net[0].len()
    &&& s <= net.len()
}

/// Is the face-sized block at block coordinate `b` part of the net: its
/// top-left tile exists and is not void?
pub open spec fn block_occupied(net: Seq<Seq<Tile>>, s: int, b: Vec2) -> bool {
    &&& 0 <= b.1 && b.1 * s < net.len()
    &&& 0 <= b.0 && b.0 * s < net[0].len()
    &&& net[b.1 * s][b.0 * s] != Tile::Void
}

/// The occupied blocks of the net from block `(bx, by)` on, scanning each
/// row of blocks left to right, rows top to bottom.
pub open spec fn spec_blocks_from(net: Seq<Seq<Tile>>, s: int, bx: int, by: int) -> Seq<Vec2>
    decreases net.len() + s - by * s, net[0].len() + s - bx * s,
    when s >= 1 && bx >= 0 && by >= 0
    via spec_blocks_from_dec
{
    if by * s >= net.len() {
        Seq::empty()
    } else if bx * s >= net[0].len() {
        spec_blocks_from(net, s, 0, by + 1)
    } else if net[by * s][bx * s] != Tile::Void {
        seq![Vec2(bx as isize, by as isize)] + spec_blocks_from(net, s, bx + 1, by)
    } else {
        spec_blocks_from(net, s, bx + 1, by)
    }
}

#[via_fn]
proof fn spec_blocks_from_dec(net: Seq<Seq<Tile>>, s: int, bx: int, by: int) {
    assert((by + 1) * s == by * s + s) by (nonlinear_arith);
    assert((bx + 1) * s == bx * s + s) by (nonlinear_arith);
    assert(by * s >= 0 && bx * s >= 0) by (nonlinear_arith)
        requires
            s >= 1,
            bx >= 0,
            by >= 0,
    ;
}

/// The occupied blocks of the net, in scan order.
pub open spec fn spec_blocks(net: Seq<Seq<Tile>>, s: int) -> Seq<Vec2> {
    spec_blocks_from(net, s, 0, 0)
}

/// The occupied block next to `p` in net direction `d`, when there is one.
pub open spec fn spec_nb(net: Seq<Seq<Tile>>, s: int, p: Vec2, d: int) -> Option<Vec2> {
    let q = Vec2((p.0 + spec_delta(d).0) as isize, (p.1 + spec_delta(d).1) as isize);
    if block_occupied(net, s, q) {
        Some(q)
    } else {
        None
    }
}

/// Does the face list describe the net: the positions are the occupied
/// blocks in scan order, each with its net neighbours, pairwise distinct
/// and bounded?
pub open spec fn found_ok(net: Seq<Seq<Tile>>, s: int, found: Seq<PartialFace>) -> bool {
    &&& found.map_values(|f: PartialFace| f.position) == spec_blocks(net, s)
    &&& forall|k: int, d: int|
        0 <= k < found.len() && 0 <= d < 4 ==> (#[trigger] found[k].adjacent@[d]) == spec_nb(
            net,
            s,
            found[k].position,
            d,
        )
    &&& forall|k1: int, k2: int|
        0 <= k1 < k2 < found.len() ==> (#[trigger] found[k1]).position != (
        #[trigger] found[k2]).position
    &&& forall|k: int|
        0 <= k < found.len() ==> 0 <= (#[trigger] found[k]).position.0 <= 0x10000 && 0
            <= found[k].position.1 <= 0x10000
}

/// Find the occupied face-sized blocks of the net and their mutual
/// adjacency. The result lists each occupied block exactly once, in scan
/// order, with its neighbouring occupied blocks in net-direction order.
fn find_faces(net: &Vec<Vec<Tile>>, face_size: usize) -> (r: Vec<PartialFace>)
    requires
        grid_wf(net.deep_view(), face_size as int),
    ensures
        forall|k: int|
            0 <= k < r@.len() ==> block_occupied(
                net.deep_view(),
                face_size as int,
                (#[trigger] r@[k]).position,
            ),
        forall|b: Vec2|
            #[trigger] block_occupied(net.deep_view(), face_size as int, b) ==> exists|k: int|
                0 <= k < r@.len() && r@[k].position == b,
        forall|k1: int, k2: int|
            0 <= k1 < k2 < r@.len() ==> (#[trigger] r@[k1]).position != (#[trigger] r@[k2]).position,
        forall|k: int, d: int|
            0 <= k < r@.len() && 0 <= d < 4 ==> (#[trigger] r@[k].adjacent@[d]) == {
                let nb = Vec2(
                    (r@[k].position.0 + spec_delta(d).0) as isize,
                    (r@[k].position.1 + spec_delta(d).1) as isize,
                );
                if block_occupied(net.deep_view(), face_size as int, nb) {
                    Some(nb)
                } else {
                    None
                }
            },
        forall|k: int|
            0 <= k < r@.len() ==> 0 <= (#[trigger] r@[k]).position.0 <= 0x10000 && 0
                <= r@[k].position.1 <= 0x10000,
        found_ok(net.deep_view(), face_size as int, r@),
{
    let ghost netv = net.deep_view();
    let ghost s = face_size as int;
    let height = net.len();
    let width = net[0].len();
    let mut found: Vec<PartialFace> = Vec::new();
    let mut by: usize = 0;
    proof {
        assert(found@.map_values(|f: PartialFace| f.position) + spec_blocks_from(netv, s, 0, 0)
            =~= spec_blocks(netv, s));
    }
    while by * face_size < height
        invariant
            grid_wf(netv, s),
            netv == net.deep_view(),
            s == face_size as int,
            height == netv.len(),
            width == netv[0].len(),
            0 <= by,
            by * face_size <= height + face_size,
            forall|k: int|
                0 <= k < found@.len() ==> block_occupied(netv, s, (#[trigger] found@[k]).position),
            forall|k: int|
                0 <= k < found@.len() ==> 0 <= (#[trigger] found@[k]).position.0 <= 0x10000 && 0
                    <= found@[k].position.1 < by,
            forall|b: Vec2|
                #[trigger] block_occupied(netv, s, b) && b.1 < by ==> exists|k: int|
                    0 <= k < found@.len() && found@[k].position == b,
            forall|k1: int, k2: int|
                0 <= k1 < k2 < found@.len() ==> (#[trigger] found@[k1]).position != (
                #[trigger] found@[k2]).position,
            spec_blocks(netv, s) == found@.map_values(|f: PartialFace| f.position)
                + spec_blocks_from(netv, s, 0, by as int),
        decreases height + face_size - by * face_size,
    {
        let y = by * face_size;
        let mut bx: usize = 0;
        while bx * face_size < width
            invariant
                grid_wf(netv, s),
                netv == net.deep_view(),
                s == face_size as int,
                height == netv.len(),
                width == netv[0].len(),
                y == by * face_size < height,
                0 <= bx,
                bx * face_size <= width + face_size,
                forall|k: int|
                    0 <= k < found@.len() ==> block_occupied(
                        netv,
                        s,
                        (#[trigger] found@[k]).position,
                    ),
                forall|k: int|
                    0 <= k < found@.len() ==> 0 <= (#[trigger] found@[k]).position.0 <= 0x10000 && 0
                        <= found@[k].position.1 <= by,
                forall|k: int|
                    0 <= k < found@.len() && (#[trigger] found@[k]).position.1 == by
                        ==> found@[k].position.0 < bx,
                forall|b: Vec2|
                    #[trigger] block_occupied(netv, s, b) && (b.1 < by || (b.1 == by && b.0 < bx))
                        ==> exists|k: int| 0 <= k < found@.len() && found@[k].position == b,
                forall|k1: int, k2: int|
                    0 <= k1 < k2 < found@.len() ==> (#[trigger] found@[k1]).position != (
                    #[trigger] found@[k2]).position,
                spec_blocks(netv, s) == found@.map_values(|f: PartialFace| f.position)
                    + spec_blocks_from(netv, s, bx as int, by as int),
            decreases width + face_size - bx * face_size,
        {
            let x = bx * face_size;
            proof {
                assert(netv[y as int] =~= net@[y as int]@);
                assert(bx <= bx * face_size && by <= by * face_size) by (nonlinear_arith)
                    requires
                        face_size >= 1,
                        bx >= 0,
                        by >= 0,
                ;
            }
            let t = net[y][x];
            let ghost pre_found = found@;
            let p = Vec2::new(bx as isize, by as isize);
            if t == Tile::Void {
            } else {
                proof {
                    assert(block_occupied(netv, s, p));
                }
                found.push(PartialFace::new(p));
            }
            proof {
                assert forall|b: Vec2|
                    block_occupied(netv, s, b) && (b.1 < by || (b.1 == by && b.0 <= bx)) implies exists|k: int|
                    0 <= k < found@.len() && found@[k].position == b by {
                    if b == p {
                        assert(t != Tile::Void);
                        assert(found@[found@.len() - 1].position == b);
                    } else {
                        let k = choose|k: int|
                            0 <= k < pre_found.len() && (#[trigger] pre_found[k]).position == b;
                        assert(found@[k].position == b);
                    }
                }
            }
            proof {
                assert(netv[(by * face_size) as int][(bx * face_size) as int] == t);
                if t == Tile::Void {
                    assert(spec_blocks_from(netv, s, bx as int, by as int) == spec_blocks_from(
                        netv,
                        s,
                        bx as int + 1,
                        by as int,
                    ));
                } else {
                    assert(spec_blocks_from(netv, s, bx as int, by as int) == seq![p]
                        + spec_blocks_from(netv, s, bx as int + 1, by as int));
                    assert(found@.map_values(|f: PartialFace| f.position)
                        =~= pre_found.map_values(|f: PartialFace| f.position).push(p));
                    assert(pre_found.map_values(|f: PartialFace| f.position) + (seq![p]
                        + spec_blocks_from(netv, s, bx as int + 1, by as int)) =~= found@.map_values(
                        |f: PartialFace| f.position,
                    ) + spec_blocks_from(netv, s, bx as int + 1, by as int));
                }
                assert((bx + 1) * face_size == bx * face_size + face_size) by (nonlinear_arith);
            }
            bx = bx + 1;
        }
        proof {
            assert forall|b: Vec2| block_occupied(netv, s, b) && b.1 == by implies b.0 < bx by {
                assert(b.0 * s < width);
                assert(bx * face_size >= width);
                assert(b.0 < bx) by (nonlinear_arith)
                    requires
                        b.0 * s < width,
                        bx * s >= width,
                        s >= 1,
                        0 <= b.0,
                ;
            }
            assert((by + 1) * face_size == by * face_size + face_size) by (nonlinear_arith);
            assert(by <= by * face_size) by (nonlinear_arith)
                requires
                    face_size >= 1,
                    by >= 0,
            ;
            assert(spec_blocks_from(netv, s, bx as int, by as int) == spec_blocks_from(
                netv,
                s,
                0,
                by as int + 1,
            ));
        }
        by = by + 1;
    }
    proof {
        assert(spec_blocks_from(netv, s, 0, by as int) =~= Seq::<Vec2>::empty());
        assert(found@.map_values(|f: PartialFace| f.position) + Seq::<Vec2>::empty()
            =~= found@.map_values(|f: PartialFace| f.position));
        assert(spec_blocks(netv, s) == found@.map_values(|f: PartialFace| f.position));
        assert forall|b: Vec2| #[trigger] block_occupied(netv, s, b) implies b.1 < by by {
            assert(b.1 * s < height);
            assert(by * face_size >= height);
            assert(b.1 < by) by (nonlinear_arith)
                requires
                    b.1 * s < height,
                    by * s >= height,
                    s >= 1,
                    0 <= b.1,
            ;
        }
    }
    proof {
        assert forall|j: int| 0 <= j < found@.len() implies 0 <= (#[trigger] found@[j]).position.0
            <= 0x10000 && 0 <= found@[j].position.1 <= 0x10000 by {
            let b = found@[j].position;
            assert(block_occupied(netv, s, b));
            assert(b.0 <= b.0 * s && b.1 <= b.1 * s) by (nonlinear_arith)
                requires
                    s >= 1,
                    b.0 >= 0,
                    b.1 >= 0,
            ;
        }
    }
    let n = found.len();
    let mut r: Vec<PartialFace> = Vec::new();
    let mut k: usize = 0;
    let ghost found0 = found@;
    while k < n
        invariant
            0 <= k <= n,
            n == found@.len(),
            netv == net.deep_view(),
            s == face_size as int,
            grid_wf(netv, s),
            forall|j: int|
                0 <= j < found@.len() ==> block_occupied(netv, s, (#[trigger] found@[j]).position),
            forall|j: int|
                0 <= j < found@.len() ==> 0 <= (#[trigger] found@[j]).position.0 <= 0x10000 && 0
                    <= found@[j].position.1 <= 0x10000,
            forall|b: Vec2|
                #[trigger] block_occupied(netv, s, b) ==> exists|j: int|
                    0 <= j < found@.len() && found@[j].position == b,
            forall|j1: int, j2: int|
                0 <= j1 < j2 < found@.len() ==> (#[trigger] found@[j1]).position != (
                #[trigger] found@[j2]).position,
            r@.len() == k,
            forall|j: int| 0 <= j < k ==> (#[trigger] r@[j]).position == found@[j].position,
            forall|j: int, d: int|
                0 <= j < k && 0 <= d < 4 ==> (#[trigger] r@[j].adjacent@[d]) == {
                    let nb = Vec2(
                        (found@[j].position.0 + spec_delta(d).0) as isize,
                        (found@[j].position.1 + spec_delta(d).1) as isize,
                    );
                    if block_occupied(netv, s, nb) {
                        Some(nb)
                    } else {
                        None
                    }
                },
        decreases n - k,
    {
        let pos = found[k].position;
        let mut adj: [Option<Vec2>; 4] = [None, None, None, None];
        let mut d: usize = 0;
        while d < 4
            invariant
                0 <= d <= 4,
                0 <= k < n,
                n == found@.len(),
                netv == net.deep_view(),
                s == face_size as int,
                grid_wf(netv, s),
                pos == found@[k as int].position,
                0 <= pos.0 <= 0x10000,
                0 <= pos.1 <= 0x10000,
                forall|j: int|
                    0 <= j < found@.len() ==> block_occupied(
                        netv,
                        s,
                        (#[trigger] found@[j]).position,
                    ),
                forall|b: Vec2|
                    #[trigger] block_occupied(netv, s, b) ==> exists|j: int|
                        0 <= j < found@.len() && found@[j].position == b,
                forall|e: int|
                    0 <= e < d ==> (#[trigger] adj@[e]) == {
                        let nb = Vec2(
                            (pos.0 + spec_delta(e).0) as isize,
                            (pos.1 + spec_delta(e).1) as isize,
                        );
                        if block_occupied(netv, s, nb) {
                            Some(nb)
                        } else {
                            None
                        }
                    },
            decreases 4 - d,
        {
            let nb = pos.add(delta(d));
            let mut present = false;
            let mut j: usize = 0;
            while j < n
                invariant
                    0 <= j <= n,
                    n == found@.len(),
                    netv == net.deep_view(),
                    s == face_size as int,
                    grid_wf(netv, s),
                    forall|j2: int|
                        0 <= j2 < found@.len() ==> block_occupied(
                            netv,
                            s,
                            (#[trigger] found@[j2]).position,
                        ),
                    forall|b: Vec2|
                        #[trigger] block_occupied(netv, s, b) ==> exists|j2: int|
                            0 <= j2 < found@.len() && found@[j2].position == b,
                    present == exists|j2: int| 0 <= j2 < j && (#[trigger] found@[j2]).position == nb,
                decreases n - j,
            {
                if found[j].position == nb {
                    present = true;
                }
                j = j + 1;
            }
            proof {
                if present {
                    let j2 = choose|j2: int|
                        0 <= j2 < n && (#[trigger] found@[j2]).position == nb;
                    assert(block_occupied(netv, s, nb));
                }
            }
            adj[d] = if present {
                Some(nb)
            } else {
                None
            };
            d = d + 1;
        }
        r.push(PartialFace { position: pos, adjacent: adj });
        k = k + 1;
    }
    proof {
        assert forall|b: Vec2| #[trigger] block_occupied(netv, s, b) implies exists|k2: int|
            0 <= k2 < r@.len() && r@[k2].position == b by {
            let j = choose|j: int| 0 <= j < found@.len() && (#[trigger] found@[j]).position == b;
            assert(r@[j].position == b);
        }
        assert(r@.map_values(|f: PartialFace| f.position) =~= found@.map_values(
            |f: PartialFace| f.position,
        ));
        assert forall|k2: int, d: int|
            0 <= k2 < r@.len() && 0 <= d < 4 implies (#[trigger] r@[k2].adjacent@[d]) == spec_nb(
            netv,
            s,
            r@[k2].position,
            d,
        ) by {
            assert(r@[k2].adjacent@[d] == r@[k2].adjacent@[d]);
            assert(r@[k2].position == found@[k2].position);
        }
        assert(found_ok(netv, s, r@));
    }
    r
}


/// A face already assigned to a slot, together with the rotation between
/// the slot's canonical neighbour order and the face's own net order.
#[derive(Clone, Copy, Debug)]
struct PlacedFace {
    face: PartialFace,
    rotation: usize,
}

/// The slot with number `i`, inverse of [`FaceSlot::spec_index`].
pub open spec fn spec_slot_of(i: int) -> FaceSlot {
    if i == 0 {
        FaceSlot::Front
    } else if i == 1 {
        FaceSlot::Back
    } else if i == 2 {
        FaceSlot::Left
    } else if i == 3 {
        FaceSlot::Right
    } else if i == 4 {
        FaceSlot::Top
    } else {
        FaceSlot::Bottom
    }
}

/// The slot with a given number, as in [`spec_slot_of`].
fn slot_of(i: usize) -> (r: FaceSlot)
    requires
        i < 6,
    ensures
        r == spec_slot_of(i as int),
        r.spec_index() == i,
{
    if i == 0 {
        FaceSlot::Front
    } else if i == 1 {
        FaceSlot::Back
    } else if i == 2 {
        FaceSlot::Left
    } else if i == 3 {
        FaceSlot::Right
    } else if i == 4 {
        FaceSlot::Top
    } else {
        FaceSlot::Bottom
    }
}

/// The first position in `blocks` at or after `i` holding `p`; -1 when
/// there is none.
pub open spec fn spec_idx_of(blocks: Seq<Vec2>, p: Vec2, i: int) -> int
    decreases blocks.len() - i,
{
    if i < 0 || i >= blocks.len() {
        -1
    } else if blocks[i] == p {
        i
    } else {
        spec_idx_of(blocks, p, i + 1)
    }
}

/// A first match pins [`spec_idx_of`].
proof fn lemma_idx_of_first(blocks: Seq<Vec2>, p: Vec2, m: int, i: int)
    requires
        0 <= i <= m < blocks.len(),
        blocks[m] == p,
        forall|j: int| 0 <= j < m ==> blocks[j] != p,
    ensures
        spec_idx_of(blocks, p, i) == m,
    decreases m - i,
{
    if i < m {
        lemma_idx_of_first(blocks, p, m, i + 1);
    }
}

/// No match pins [`spec_idx_of`] to -1.
proof fn lemma_idx_of_none(blocks: Seq<Vec2>, p: Vec2, i: int)
    requires
        0 <= i,
        forall|j: int| 0 <= j < blocks.len() ==> blocks[j] != p,
    ensures
        spec_idx_of(blocks, p, i) == -1,
    decreases blocks.len() - i,
{
    if i < blocks.len() {
        lemma_idx_of_none(blocks, p, i + 1);
    }
}

/// The index of the face with the given block position, when the list has
/// one.
fn find_in(faces: &Vec<PartialFace>, pos: Vec2) -> (r: Option<usize>)
    ensures
        r is Some ==> r->0 < faces@.len() && faces@[r->0 as int].position == pos,
        r is Some ==> r->0 as int == spec_idx_of(
            faces@.map_values(|f: PartialFace| f.position),
            pos,
            0,
        ),
        r is None ==> forall|k: int| 0 <= k < faces@.len() ==> (#[trigger] faces@[k]).position != pos,
        r is None ==> spec_idx_of(faces@.map_values(|f: PartialFace| f.position), pos, 0) == -1,
{
    let ghost blocks = faces@.map_values(|f: PartialFace| f.position);
    let n = faces.len();
    let mut k: usize = 0;
    while k < n
        invariant
            0 <= k <= n,
            n == faces@.len(),
            blocks == faces@.map_values(|f: PartialFace| f.position),
            forall|j: int| 0 <= j < k ==> (#[trigger] faces@[j]).position != pos,
        decreases n - k,
    {
        if faces[k].position == pos {
            proof {
                assert(forall|j: int| 0 <= j < k ==> blocks[j] != pos);
                lemma_idx_of_first(blocks, pos, k as int, 0);
            }
            return Some(k);
        }
        k = k + 1;
    }
    proof {
        assert(forall|j: int| 0 <= j < blocks.len() ==> blocks[j] != pos);
        lemma_idx_of_none(blocks, pos, 0);
    }
    None
}

/// The first net direction at or after `o` across which block `p` borders
/// `q`; -1 when there is none.
pub open spec fn spec_offset_of(net: Seq<Seq<Tile>>, s: int, p: Vec2, q: Vec2, o: int) -> int
    decreases 4 - o,
{
    if o < 0 || o >= 4 {
        -1
    } else if spec_nb(net, s, p, o) == Some(q) {
        o
    } else {
        spec_offset_of(net, s, p, q, o + 1)
    }
}

/// A slot assignment during placement: for each of the six slots, the
/// index of the block placed there and the inferred rotation, when the
/// slot is filled.
pub open spec fn spec_rot(
    net: Seq<Seq<Tile>>,
    s: int,
    blocks: Seq<Vec2>,
    st: Seq<Option<(int, int)>>,
    si: int,
    fp: Vec2,
    side: int,
) -> int
    decreases 4 - side,
{
    if side < 0 || side >= 4 {
        0
    } else {
        let t = spec_slot_adjacent(spec_slot_of(si), side).spec_index();
        if st[t] is Some {
            let ft = (st[t]->0).0;
            let off = if 0 <= ft < blocks.len() {
                spec_offset_of(net, s, fp, blocks[ft], 0)
            } else {
                -1
            };
            if off >= 0 {
                (side + 4 - off) % 4
            } else {
                spec_rot(net, s, blocks, st, si, fp, side + 1)
            }
        } else {
            spec_rot(net, s, blocks, st, si, fp, side + 1)
        }
    }
}

/// The block that an already placed donor pushes into slot `si`, scanning
/// donors in slot order and their sides in net order from pair number `k`
/// on: the first donor whose canonical neighbour at that side is `si` and
/// whose block has a net neighbour across the rotation-adjusted direction
/// names it; -1 when no donor does.
pub open spec fn spec_seed(
    net: Seq<Seq<Tile>>,
    s: int,
    blocks: Seq<Vec2>,
    st: Seq<Option<(int, int)>>,
    si: int,
    k: int,
) -> int
    decreases 24 - k,
{
    if k < 0 || k >= 24 {
        -1
    } else {
        let t = k / 4;
        let side = k % 4;
        if st[t] is Some && spec_slot_adjacent(spec_slot_of(t), side).spec_index() == si {
            let ft = (st[t]->0).0;
            let rt = (st[t]->0).1;
            let nbo = if 0 <= ft < blocks.len() {
                spec_nb(net, s, blocks[ft], (side + 4 - rt) % 4)
            } else {
                Option::<Vec2>::None
            };
            match nbo {
                Option::Some(p) => {
                    let fi = spec_idx_of(blocks, p, 0);
                    if fi >= 0 {
                        fi
                    } else {
                        spec_seed(net, s, blocks, st, si, k + 1)
                    }
                },
                Option::None => spec_seed(net, s, blocks, st, si, k + 1),
            }
        } else {
            spec_seed(net, s, blocks, st, si, k + 1)
        }
    }
}

/// One pass of the placement fixpoint from slot `si` on: every still
/// empty slot that a placed donor pushes a block into is filled with that
/// block and its inferred rotation.
pub open spec fn spec_pass_from(
    net: Seq<Seq<Tile>>,
    s: int,
    blocks: Seq<Vec2>,
    st: Seq<Option<(int, int)>>,
    si: int,
) -> Seq<Option<(int, int)>>
    decreases 6 - si,
{
    if si < 0 || si >= 6 {
        st
    } else {
        let st2 = if st[si] is None {
            let fi = spec_seed(net, s, blocks, st, si, 0);
            if 0 <= fi < blocks.len() {
                st.update(si, Some((fi, spec_rot(net, s, blocks, st, si, blocks[fi], 0))))
            } else {
                st
            }
        } else {
            st
        };
        spec_pass_from(net, s, blocks, st2, si + 1)
    }
}

/// `n` passes of the placement fixpoint.
pub open spec fn spec_rounds(
    net: Seq<Seq<Tile>>,
    s: int,
    blocks: Seq<Vec2>,
    st: Seq<Option<(int, int)>>,
    n: int,
) -> Seq<Option<(int, int)>>
    decreases n,
{
    if n <= 0 {
        st
    } else {
        spec_rounds(net, s, blocks, spec_pass_from(net, s, blocks, st, 0), n - 1)
    }
}

/// Appending one more pass commutes with the recursion of
/// [`spec_rounds`].
proof fn lemma_rounds_snoc(
    net: Seq<Seq<Tile>>,
    s: int,
    blocks: Seq<Vec2>,
    st: Seq<Option<(int, int)>>,
    n: int,
)
    requires
        n >= 0,
    ensures
        spec_rounds(net, s, blocks, st, n + 1) == spec_pass_from(
            net,
            s,
            blocks,
            spec_rounds(net, s, blocks, st, n),
            0,
        ),
    decreases n,
{
    let stp = spec_pass_from(net, s, blocks, st, 0);
    if n == 0 {
        assert(spec_rounds(net, s, blocks, st, 1) == spec_rounds(net, s, blocks, stp, 0));
        assert(spec_rounds(net, s, blocks, stp, 0) == stp);
        assert(spec_rounds(net, s, blocks, st, 0) == st);
    } else {
        lemma_rounds_snoc(net, s, blocks, stp, n - 1);
        assert(spec_rounds(net, s, blocks, st, n) == spec_rounds(net, s, blocks, stp, n - 1));
        assert(spec_rounds(net, s, blocks, st, n + 1) == spec_rounds(net, s, blocks, stp, n));
    }
}

/// The starting assignment: the first scanned block in the front slot
/// with rotation zero.
pub open spec fn spec_initial_state() -> Seq<Option<(int, int)>> {
    seq![Some((0int, 0int)), None, None, None, None, None]
}

/// The slot assignment of the net: six placement passes from the
/// starting assignment. Every slot a valid net can reach is filled.
pub open spec fn spec_placement(net: Seq<Seq<Tile>>, s: int) -> Seq<Option<(int, int)>> {
    spec_rounds(net, s, spec_blocks(net, s), spec_initial_state(), 6)
}

/// Does the executable slot table realise the assignment `sp` over the
/// face list `found`?
spec fn st_matches(
    found: Seq<PartialFace>,
    slots: Seq<Option<PlacedFace>>,
    sp: Seq<Option<(int, int)>>,
) -> bool {
    &&& slots.len() == 6
    &&& sp.len() == 6
    &&& forall|si: int| 0 <= si < 6 ==> (((#[trigger] slots[si]) is Some) == (sp[si] is Some))
    &&& forall|si: int|
        0 <= si < 6 && (#[trigger] slots[si]) is Some ==> {
            let fi = (sp[si]->0).0;
            let rot = (sp[si]->0).1;
            &&& 0 <= fi < found.len()
            &&& (slots[si]->0).face == found[fi]
            &&& (slots[si]->0).rotation == rot
            &&& 0 <= rot < 4
        }
}

/// Place every face a donor reaches, by six passes of the fixpoint, as
/// in [`spec_placement`].
fn place_all(net: &Vec<Vec<Tile>>, face_size: usize, found: &Vec<PartialFace>) -> (slots: Vec<
    Option<PlacedFace>,
>)
    requires
        grid_wf(net.deep_view(), face_size as int),
        found_ok(net.deep_view(), face_size as int, found@),
        found@.len() >= 1,
    ensures
        st_matches(found@, slots@, spec_placement(net.deep_view(), face_size as int)),
{
    let ghost netv = net.deep_view();
    let ghost s = face_size as int;
    let ghost blocks = spec_blocks(netv, s);
    proof {
        assert(blocks == found@.map_values(|f: PartialFace| f.position));
        assert(blocks.len() == found@.len());
        assert(blocks[0] == found@[0].position);
    }
    let mut slots: Vec<Option<PlacedFace>> = Vec::new();
    let mut i: usize = 0;
    while i < 6
        invariant
            slots@.len() == i <= 6,
            forall|j: int| 0 <= j < i ==> (#[trigger] slots@[j]) is None,
        decreases 6 - i,
    {
        slots.push(None);
        i = i + 1;
    }
    slots[0] = Some(PlacedFace { face: found[0], rotation: 0 });
    let ghost mut st: Seq<Option<(int, int)>> = spec_initial_state();
    proof {
        assert(st_matches(found@, slots@, st));
    }
    let mut round: usize = 0;
    while round < 6
        invariant
            grid_wf(netv, s),
            netv == net.deep_view(),
            s == face_size as int,
            found_ok(netv, s, found@),
            found@.len() >= 1,
            blocks == spec_blocks(netv, s),
            0 <= round <= 6,
            st == spec_rounds(netv, s, blocks, spec_initial_state(), round as int),
            st_matches(found@, slots@, st),
        decreases 6 - round,
    {
        let ghost st_round = st;
        let mut si: usize = 0;
        while si < 6
            invariant
                grid_wf(netv, s),
                netv == net.deep_view(),
                s == face_size as int,
                found_ok(netv, s, found@),
                found@.len() >= 1,
                blocks == spec_blocks(netv, s),
                0 <= si <= 6,
                st_matches(found@, slots@, st),
                spec_pass_from(netv, s, blocks, st_round, 0) == spec_pass_from(
                    netv,
                    s,
                    blocks,
                    st,
                    si as int,
                ),
            decreases 6 - si,
        {
            if slots[si].is_none() {
                let seeded = seed_for(net, face_size, found, &slots, Ghost(st), si);
                proof {
                    assert(blocks == found@.map_values(|f: PartialFace| f.position));
                }
                match seeded {
                    Some(fi) => {
                        let fpos = found[fi].position;
                        proof {
                            assert(blocks[fi as int] == fpos);
                        }
                        let rot = rot_for(net, face_size, found, &slots, Ghost(st), si, fi);
                        let ghost pre = st;
                        slots[si] = Some(PlacedFace { face: found[fi], rotation: rot });
                        proof {
                            st = pre.update(
                                si as int,
                                Some((fi as int, rot as int)),
                            );
                            assert(st_matches(found@, slots@, st));
                        }
                    },
                    None => {
                    },
                }
            }
            si = si + 1;
        }
        proof {
            st = spec_pass_from(netv, s, blocks, st_round, 0);
            lemma_rounds_snoc(netv, s, blocks, spec_initial_state(), round as int);
        }
        round = round + 1;
    }
    slots
}

/// The donor-scan step of one placement: the block index a placed
/// neighbour pushes into slot `si`, as in [`spec_seed`].
fn seed_for(
    net: &Vec<Vec<Tile>>,
    face_size: usize,
    found: &Vec<PartialFace>,
    slots: &Vec<Option<PlacedFace>>,
    Ghost(st): Ghost<Seq<Option<(int, int)>>>,
    si: usize,
) -> (r: Option<usize>)
    requires
        grid_wf(net.deep_view(), face_size as int),
        found_ok(net.deep_view(), face_size as int, found@),
        st_matches(found@, slots@, st),
        si < 6,
    ensures
        r is Some ==> r->0 < found@.len() && r->0 as int == spec_seed(
            net.deep_view(),
            face_size as int,
            spec_blocks(net.deep_view(), face_size as int),
            st,
            si as int,
            0,
        ),
        r is None ==> spec_seed(
            net.deep_view(),
            face_size as int,
            spec_blocks(net.deep_view(), face_size as int),
            st,
            si as int,
            0,
        ) == -1,
{
    let ghost netv = net.deep_view();
    let ghost s = face_size as int;
    let ghost blocks = spec_blocks(netv, s);
    proof {
        assert(blocks == found@.map_values(|f: PartialFace| f.position));
    }
    let mut k: usize = 0;
    while k < 24
        invariant
            grid_wf(netv, s),
            netv == net.deep_view(),
            s == face_size as int,
            found_ok(netv, s, found@),
            st_matches(found@, slots@, st),
            si < 6,
            blocks == spec_blocks(netv, s),
            0 <= k <= 24,
            spec_seed(netv, s, blocks, st, si as int, 0) == spec_seed(
                netv,
                s,
                blocks,
                st,
                si as int,
                k as int,
            ),
        decreases 24 - k,
    {
        let t = k / 4;
        let side = k % 4;
        let tslot = slot_of(t);
        let donor = &slots[t];
        match donor {
            Some(pf) => {
                if tslot.adjacent()[side].index() == si {
                    let ghost ft = (st[t as int]->0).0;
                    let ghost rt = (st[t as int]->0).1;
                    proof {
                        assert(pf.face == found@[ft]);
                        assert(pf.face.position == blocks[ft]);
                        assert(pf.rotation == rt && 0 <= rt < 4);
                        assert(pf.face.adjacent@[((side + 4 - pf.rotation) % 4) as int] == spec_nb(
                            netv,
                            s,
                            blocks[ft],
                            (side as int + 4 - rt) % 4,
                        ));
                    }
                    match pf.face.adjacent[(side + 4 - pf.rotation % 4) % 4] {
                        Some(p) => {
                            match find_in(found, p) {
                                Some(fi) => {
                                    return Some(fi);
                                },
                                None => {
                                },
                            }
                        },
                        None => {
                        },
                    }
                }
            },
            None => {
            },
        }
        k = k + 1;
    }
    None
}

/// The rotation-scan step of one placement: the rotation inferred for
/// the face at block `fpos` landing in slot `si`, as in [`spec_rot`].
fn rot_for(
    net: &Vec<Vec<Tile>>,
    face_size: usize,
    found: &Vec<PartialFace>,
    slots: &Vec<Option<PlacedFace>>,
    Ghost(st): Ghost<Seq<Option<(int, int)>>>,
    si: usize,
    fi: usize,
) -> (r: usize)
    requires
        grid_wf(net.deep_view(), face_size as int),
        found_ok(net.deep_view(), face_size as int, found@),
        st_matches(found@, slots@, st),
        si < 6,
        fi < found@.len(),
    ensures
        r < 4,
        r as int == spec_rot(
            net.deep_view(),
            face_size as int,
            spec_blocks(net.deep_view(), face_size as int),
            st,
            si as int,
            found@[fi as int].position,
            0,
        ),
{
    let ghost netv = net.deep_view();
    let ghost s = face_size as int;
    let ghost blocks = spec_blocks(netv, s);
    let ghost fpos = found@[fi as int].position;
    proof {
        assert(blocks == found@.map_values(|f: PartialFace| f.position));
    }
    let adj_slots = slot_of(si).adjacent();
    let mut side: usize = 0;
    while side < 4
        invariant
            grid_wf(netv, s),
            netv == net.deep_view(),
            s == face_size as int,
            found_ok(netv, s, found@),
            st_matches(found@, slots@, st),
            si < 6,
            fi < found@.len(),
            blocks == spec_blocks(netv, s),
            fpos == found@[fi as int].position,
            forall|d: int| 0 <= d < 4 ==> (#[trigger] adj_slots@[d]) == spec_slot_adjacent(
                spec_slot_of(si as int),
                d,
            ),
            0 <= side <= 4,
            spec_rot(netv, s, blocks, st, si as int, fpos, 0) == spec_rot(
                netv,
                s,
                blocks,
                st,
                si as int,
                fpos,
                side as int,
            ),
        decreases 4 - side,
    {
        let t = adj_slots[side].index();
        proof {
            assert(t < 6);
        }
        match &slots[t] {
            Some(pf) => {
                let ghost ft = (st[t as int]->0).0;
                proof {
                    assert(pf.face == found@[ft]);
                    assert(pf.face.position == blocks[ft]);
                }
                let refpos = pf.face.position;
                let mut o: usize = 0;
                let mut hit = false;
                let mut off: usize = 0;
                while o < 4
                    invariant
                        found_ok(netv, s, found@),
                        fi < found@.len(),
                        fpos == found@[fi as int].position,
                        netv == net.deep_view(),
                        s == face_size as int,
                        0 <= o <= 4,
                        !hit ==> spec_offset_of(netv, s, fpos, refpos, 0) == spec_offset_of(
                            netv,
                            s,
                            fpos,
                            refpos,
                            o as int,
                        ),
                        hit ==> off < 4 && spec_offset_of(netv, s, fpos, refpos, 0) == off,
                        hit ==> o == 4,
                    decreases 4 - o, !hit as int,
                {
                    proof {
                        assert(found@[fi as int].adjacent@[o as int] == spec_nb(
                            netv,
                            s,
                            fpos,
                            o as int,
                        ));
                    }
                    if !hit {
                        match found[fi].adjacent[o] {
                            Some(ap) => {
                                if ap == refpos {
                                    hit = true;
                                    off = o;
                                    o = 4;
                                } else {
                                    o = o + 1;
                                }
                            },
                            None => {
                                o = o + 1;
                            },
                        }
                    } else {
                        o = o + 1;
                    }
                }
                if hit {
                    return (side + 4 - off) % 4;
                }
            },
            None => {
            },
        }
        side = side + 1;
    }
    0
}

/// The neighbour of face `i` across edge `d` is itself a face of the cube.
pub open spec fn edge_closed(c: Cube, i: int, d: int) -> bool {
    exists|j: int| 0 <= j < 6 && (#[trigger] c.faces@[j]).position == c.faces@[i].adjacent@[d]
}

/// Some face of the cube sits where face `i`'s neighbour across edge `d`
/// should be, and it names face `i` among its own neighbours.
pub open spec fn edge_symmetric(c: Cube, i: int, d: int) -> bool {
    exists|j: int, d2: int|
        0 <= j < 6 && 0 <= d2 < 4 && c.faces@[j].position == c.faces@[i].adjacent@[d] && (
        #[trigger] c.faces@[j].adjacent@[d2]) == c.faces@[i].position
}

/// Does every face of the cube keep its four neighbours among the cube's
/// own faces?
pub open spec fn cube_closed(c: Cube) -> bool {
    forall|i: int, d: int| 0 <= i < 6 && 0 <= d < 4 ==> #[trigger] edge_closed(c, i, d)
}

/// Does every edge crossing have a way back: the face on the far side of
/// any edge names this face among its own neighbours?
pub open spec fn cube_symmetric(c: Cube) -> bool {
    forall|i: int, d: int| 0 <= i < 6 && 0 <= d < 4 ==> #[trigger] edge_symmetric(c, i, d)
}

/// No two faces of the cube share a block position.
pub open spec fn cube_faces_distinct(c: Cube) -> bool {
    forall|i: int, j: int|
        0 <= i < j < 6 ==> (#[trigger] c.faces@[i]).position != (#[trigger] c.faces@[j]).position
}

/// The four neighbours of a face are four different faces, none of them
/// the face itself.
pub open spec fn cube_adjacent_distinct(c: Cube) -> bool {
    &&& forall|i: int, d1: int, d2: int|
        0 <= i < 6 && 0 <= d1 < d2 < 4 ==> (#[trigger] c.faces@[i].adjacent@[d1]) != (
        #[trigger] c.faces@[i].adjacent@[d2])
    &&& forall|i: int, d: int|
        0 <= i < 6 && 0 <= d < 4 ==> (#[trigger] c.faces@[i].adjacent@[d]) != c.faces@[i].position
}

/// Block positions of the cube's faces are within the coordinate bound.
pub open spec fn cube_positions_bounded(c: Cube) -> bool {
    forall|i: int|
        0 <= i < 6 ==> 0 <= (#[trigger] c.faces@[i]).position.0 <= 0x10000 && 0
            <= c.faces@[i].position.1 <= 0x10000
}

/// A well-formed cube: six faces with distinct positions, a closed and
/// symmetric adjacency, four distinct proper neighbours per face, and
/// bounded coordinates.
pub open spec fn cube_wf(c: Cube) -> bool {
    &&& 1 <= c.face_size <= 0x10000
    &&& cube_positions_bounded(c)
    &&& cube_closed(c)
    &&& cube_symmetric(c)
    &&& cube_faces_distinct(c)
    &&& cube_adjacent_distinct(c)
}

/// The cube's six face positions are exactly the occupied blocks of the
/// net.
pub open spec fn cube_covers(c: Cube, net: Seq<Seq<Tile>>, s: int) -> bool {
    &&& forall|i: int|
        0 <= i < 6 ==> block_occupied(net, s, (#[trigger] c.faces@[i]).position)
    &&& forall|b: Vec2|
        #[trigger] block_occupied(net, s, b) ==> exists|i: int|
            0 <= i < 6 && c.faces@[i].position == b
}

/// Does some net direction of `f` point at `pos`?
fn points_back(f: &Face, pos: Vec2) -> (r: bool)
    ensures
        r == exists|e: int| 0 <= e < 4 && (#[trigger] f.adjacent@[e]) == pos,
{
    let mut e: usize = 0;
    let mut found = false;
    while e < 4
        invariant
            e <= 4,
            found == exists|e2: int| 0 <= e2 < e && (#[trigger] f.adjacent@[e2]) == pos,
        decreases 4 - e,
    {
        if f.adjacent[e] == pos {
            found = true;
        }
        e = e + 1;
    }
    found
}

/// Check closure and symmetry for one face and one direction.
fn check_one_edge(c: &Cube, i: usize, d: usize) -> (r: bool)
    requires
        i < 6,
        d < 4,
    ensures
        r == (edge_closed(*c, i as int, d as int) && edge_symmetric(*c, i as int, d as int)),
{
    let target = c.faces[i].adjacent[d];
    let own = c.faces[i].position;
    let mut pos_ok = false;
    let mut sym_ok = false;
    let mut j: usize = 0;
    while j < 6
        invariant
            i < 6,
            d < 4,
            j <= 6,
            target == c.faces@[i as int].adjacent@[d as int],
            own == c.faces@[i as int].position,
            pos_ok == exists|j2: int| 0 <= j2 < j && (#[trigger] c.faces@[j2]).position == target,
            sym_ok == exists|j2: int, d2: int|
                0 <= j2 < j && 0 <= d2 < 4 && c.faces@[j2].position == target && (
                #[trigger] c.faces@[j2].adjacent@[d2]) == own,
        decreases 6 - j,
    {
        if c.faces[j].position == target {
            pos_ok = true;
            if points_back(&c.faces[j], own) {
                sym_ok = true;
            }
        }
        j = j + 1;
    }
    pos_ok && sym_ok
}

/// Wherever the net itself has a neighbouring occupied block, the cube's
/// adjacency agrees with it.
pub open spec fn cube_net_adjacent(c: Cube, net: Seq<Seq<Tile>>, s: int) -> bool {
    forall|i: int, d: int|
        0 <= i < 6 && 0 <= d < 4 && spec_nb(net, s, c.faces@[i].position, d) is Some ==> (
        #[trigger] c.faces@[i].adjacent@[d]) == spec_nb(net, s, c.faces@[i].position, d)->0
}

/// Does the cube realise the slot assignment of the net: every face's
/// position and neighbour list given by [`spec_placement`]?
pub open spec fn cube_matches_net(c: Cube, net: Seq<Seq<Tile>>, s: int) -> bool {
    let blocks = spec_blocks(net, s);
    let sp = spec_placement(net, s);
    &&& forall|si: int|
        0 <= si < 6 ==> (#[trigger] c.faces@[si]).position == blocks[(sp[si]->0).0]
    &&& forall|si: int, d: int|
        0 <= si < 6 && 0 <= d < 4 ==> (#[trigger] c.faces@[si].adjacent@[d]) == blocks[(sp[
            spec_slot_adjacent(spec_slot_of(si), (d + (sp[si]->0).1) % 4).spec_index()
        ]->0).0]
}

/// Does the net assemble into a cube: six occupied blocks, a slot
/// assignment that fills every slot, and a resulting cube that passes
/// every structural check?
pub open spec fn spec_assembles(net: Seq<Seq<Tile>>, s: int) -> bool {
    &&& spec_blocks(net, s).len() == 6
    &&& forall|si: int| 0 <= si < 6 ==> (#[trigger] spec_placement(net, s)[si]) is Some
    &&& exists|c: Cube|
        #[trigger] cube_matches_net(c, net, s) && c.face_size as int == s && cube_wf(c)
            && cube_covers(c, net, s) && cube_net_adjacent(c, net, s)
}

/// Check that the cube's adjacency agrees with the net wherever the net
/// has a neighbouring occupied block.
fn check_net_adjacency(c: &Cube, net: &Vec<Vec<Tile>>, face_size: usize) -> (r: bool)
    requires
        grid_wf(net.deep_view(), face_size as int),
        cube_positions_bounded(*c),
    ensures
        r == cube_net_adjacent(*c, net.deep_view(), face_size as int),
{
    let ghost netv = net.deep_view();
    let ghost s = face_size as int;
    let height = net.len();
    let width = net[0].len();
    let mut i: usize = 0;
    while i < 6
        invariant
            grid_wf(netv, s),
            netv == net.deep_view(),
            s == face_size as int,
            height == netv.len(),
            width == netv[0].len(),
            cube_positions_bounded(*c),
            i <= 6,
            forall|i2: int, d: int|
                0 <= i2 < i && 0 <= d < 4 && spec_nb(netv, s, c.faces@[i2].position, d) is Some
                    ==> (#[trigger] c.faces@[i2].adjacent@[d]) == spec_nb(
                    netv,
                    s,
                    c.faces@[i2].position,
                    d,
                )->0,
        decreases 6 - i,
    {
        let p = c.faces[i].position;
        let mut d: usize = 0;
        while d < 4
            invariant
                grid_wf(netv, s),
                netv == net.deep_view(),
                s == face_size as int,
                height == netv.len(),
                width == netv[0].len(),
                cube_positions_bounded(*c),
                i < 6,
                d <= 4,
                p == c.faces@[i as int].position,
                forall|i2: int, e: int|
                    0 <= i2 < i && 0 <= e < 4 && spec_nb(netv, s, c.faces@[i2].position, e) is Some
                        ==> (#[trigger] c.faces@[i2].adjacent@[e]) == spec_nb(
                        netv,
                        s,
                        c.faces@[i2].position,
                        e,
                    )->0,
                forall|e: int|
                    0 <= e < d && spec_nb(netv, s, c.faces@[i as int].position, e) is Some ==> (
                    #[trigger] c.faces@[i as int].adjacent@[e]) == spec_nb(
                        netv,
                        s,
                        c.faces@[i as int].position,
                        e,
                    )->0,
            decreases 4 - d,
        {
            let q = p.add(delta(d));
            let qy = q.1;
            let qx = q.0;
            let mut occupied = false;
            if 0 <= qy && 0 <= qx {
                let qyu = qy as usize;
                let qxu = qx as usize;
                proof {
                    assert(qyu <= 0x10001 && qxu <= 0x10001);
                    assert((qyu as u64) * (face_size as u64) <= 0x10001 * 0x10000
                        && (qxu as u64) * (face_size as u64) <= 0x10001 * 0x10000)
                        by (nonlinear_arith)
                        requires
                            qyu <= 0x10001,
                            qxu <= 0x10001,
                            face_size <= 0x10000,
                    ;
                }
                if (qyu as u64) * (face_size as u64) < (height as u64) && (qxu as u64) * (face_size
                    as u64) < (width as u64) {
                    proof {
                        assert(netv[(qyu * face_size) as int] =~= net@[(qyu * face_size) as int]@);
                    }
                    occupied = net[qyu * face_size][qxu * face_size] != Tile::Void;
                }
            }
            proof {
                assert(occupied == block_occupied(netv, s, q));
            }
            if occupied {
                if !(c.faces[i].adjacent[d] == q) {
                    return false;
                }
            }
            d = d + 1;
        }
        i = i + 1;
    }
    true
}

/// Check closure and symmetry of the assembled adjacency.
#[verifier::loop_isolation(false)]
fn check_adjacency(c: &Cube) -> (r: bool)
    ensures
        r == (cube_closed(*c) && cube_symmetric(*c)),
{
    let mut i: usize = 0;
    while i < 6
        invariant
            i <= 6,
            forall|i2: int, d: int|
                #![trigger edge_closed(*c, i2, d)]
                #![trigger edge_symmetric(*c, i2, d)]
                0 <= i2 < i && 0 <= d < 4 ==> edge_closed(*c, i2, d) && edge_symmetric(*c, i2, d),
        decreases 6 - i,
    {
        let mut d: usize = 0;
        while d < 4
            invariant
                d <= 4,
                forall|e: int|
                    #![trigger edge_closed(*c, i as int, e)]
                    #![trigger edge_symmetric(*c, i as int, e)]
                    0 <= e < d ==> edge_closed(*c, i as int, e) && edge_symmetric(*c, i as int, e),
            decreases 4 - d,
        {
            if !check_one_edge(c, i, d) {
                return false;
            }
            d = d + 1;
        }
        i = i + 1;
    }
    proof {
        assert(cube_closed(*c));
        assert(cube_symmetric(*c));
    }
    true
}


/// Check that face positions are pairwise distinct and that each face's
/// four neighbours are distinct and proper.
#[verifier::loop_isolation(false)]
fn check_distinct(c: &Cube) -> (r: bool)
    ensures
        r == (cube_faces_distinct(*c) && cube_adjacent_distinct(*c)),
{
    let mut i: usize = 0;
    while i < 6
        invariant
            i <= 6,
            forall|i2: int, j2: int|
                0 <= i2 < j2 < 6 && i2 < i ==> (#[trigger] c.faces@[i2]).position != (
                #[trigger] c.faces@[j2]).position,
            forall|i2: int, d1: int, d2: int|
                0 <= i2 < i && 0 <= d1 < d2 < 4 ==> (#[trigger] c.faces@[i2].adjacent@[d1]) != (
                #[trigger] c.faces@[i2].adjacent@[d2]),
            forall|i2: int, d: int|
                0 <= i2 < i && 0 <= d < 4 ==> (#[trigger] c.faces@[i2].adjacent@[d]) != c.faces@[
                    i2
                ].position,
        decreases 6 - i,
    {
        let mut j: usize = i + 1;
        while j < 6
            invariant
                i < 6,
                i < j <= 6,
                forall|j2: int|
                    i < j2 < j ==> (#[trigger] c.faces@[j2]).position != c.faces@[i as int].position,
            decreases 6 - j,
        {
            if c.faces[j].position == c.faces[i].position {
                return false;
            }
            j = j + 1;
        }
        let mut d1: usize = 0;
        while d1 < 4
            invariant
                i < 6,
                d1 <= 4,
                forall|e1: int, e2: int|
                    0 <= e1 < e2 < 4 && e1 < d1 ==> (#[trigger] c.faces@[i as int].adjacent@[e1])
                        != (#[trigger] c.faces@[i as int].adjacent@[e2]),
                forall|e: int|
                    0 <= e < d1 ==> (#[trigger] c.faces@[i as int].adjacent@[e]) != c.faces@[
                        i as int
                    ].position,
            decreases 4 - d1,
        {
            if c.faces[i].adjacent[d1] == c.faces[i].position {
                return false;
            }
            let mut d2: usize = d1 + 1;
            while d2 < 4
                invariant
                    i < 6,
                    d1 < 4,
                    d1 < d2 <= 4,
                    forall|e2: int|
                        d1 < e2 < d2 ==> (#[trigger] c.faces@[i as int].adjacent@[e2]) != c.faces@[
                            i as int
                        ].adjacent@[d1 as int],
                decreases 4 - d2,
            {
                if c.faces[i].adjacent[d2] == c.faces[i].adjacent[d1] {
                    return false;
                }
                d2 = d2 + 1;
            }
            d1 = d1 + 1;
        }
        i = i + 1;
    }
    true
}

/// Some face of the cube sits at the position of the `k`-th found face.
pub open spec fn face_for_found(found: Seq<PartialFace>, c: Cube, k: int) -> bool {
    exists|i: int| 0 <= i < 6 && (#[trigger] c.faces@[i]).position == found[k].position
}

/// Check that every found net face appears among the cube's faces.
fn check_coverage(found: &Vec<PartialFace>, c: &Cube) -> (r: bool)
    ensures
        r == forall|k: int| 0 <= k < found@.len() ==> #[trigger] face_for_found(found@, *c, k),
{
    let n = found.len();
    let mut k: usize = 0;
    while k < n
        invariant
            k <= n,
            n == found@.len(),
            forall|k2: int| 0 <= k2 < k ==> #[trigger] face_for_found(found@, *c, k2),
        decreases n - k,
    {
        let target = found[k].position;
        let mut ok = false;
        let mut i: usize = 0;
        while i < 6
            invariant
                i <= 6,
                k < n == found@.len(),
                target == found@[k as int].position,
                ok == exists|i2: int|
                    0 <= i2 < i && (#[trigger] c.faces@[i2]).position == target,
            decreases 6 - i,
        {
            if c.faces[i].position == target {
                ok = true;
            }
            i = i + 1;
        }
        if !ok {
            proof {
                assert(!face_for_found(found@, *c, k as int));
            }
            return false;
        }
        proof {
            assert(face_for_found(found@, *c, k as int));
        }
        k = k + 1;
    }
    true
}

/// Resolve the slots into final faces: each face's neighbour list is the
/// canonical neighbour order of its slot, rotated back into the face's own
/// net order by the rotation inferred at placement.
fn fill_faces(slots: &Vec<Option<PlacedFace>>) -> (r: [Face; 6])
    requires
        slots@.len() == 6,
        forall|i: int|
            0 <= i < 6 ==> (#[trigger] slots@[i]) is Some && (slots@[i]->0).rotation < 4,
    ensures
        forall|i: int|
            0 <= i < 6 ==> (#[trigger] r@[i]).position == (slots@[i]->0).face.position,
        forall|i: int, d: int|
            0 <= i < 6 && 0 <= d < 4 ==> (#[trigger] r@[i].adjacent@[d]) == (slots@[
                spec_slot_adjacent(
                    spec_slot_of(i),
                    (d + (slots@[i]->0).rotation as int) % 4,
                ).spec_index()
            ]->0).face.position,
{
    let dummy = Face {
        position: Vec2::new(0, 0),
        adjacent: [Vec2::new(0, 0), Vec2::new(0, 0), Vec2::new(0, 0), Vec2::new(0, 0)],
    };
    let mut arr = [dummy, dummy, dummy, dummy, dummy, dummy];
    let mut si: usize = 0;
    while si < 6
        invariant
            si <= 6,
            slots@.len() == 6,
            forall|i: int|
                0 <= i < 6 ==> (#[trigger] slots@[i]) is Some && (slots@[i]->0).rotation < 4,
            forall|i: int|
                0 <= i < si ==> (#[trigger] arr@[i]).position == (slots@[i]->0).face.position,
            forall|i: int, d: int|
                0 <= i < si && 0 <= d < 4 ==> (#[trigger] arr@[i].adjacent@[d]) == (slots@[
                    spec_slot_adjacent(
                        spec_slot_of(i),
                        (d + (slots@[i]->0).rotation as int) % 4,
                    ).spec_index()
                ]->0).face.position,
        decreases 6 - si,
    {
        let slot = slot_of(si);
        let placed = match &slots[si] {
            Some(p) => *p,
            None => {
                proof {
                    assert(false);
                }
                PlacedFace { face: PartialFace::new(Vec2::new(0, 0)), rotation: 0 }
            },
        };
        let adj_slots = slot.adjacent();
        let mut positions = [Vec2::new(0, 0), Vec2::new(0, 0), Vec2::new(0, 0), Vec2::new(0, 0)];
        let mut d: usize = 0;
        while d < 4
            invariant
                d <= 4,
                si < 6,
                slots@.len() == 6,
                forall|i: int|
                    0 <= i < 6 ==> (#[trigger] slots@[i]) is Some && (slots@[i]->0).rotation < 4,
                forall|i: int| 0 <= i < 4 ==> (#[trigger] adj_slots@[i]).spec_index() < 6,
                forall|i: int| 0 <= i < 4 ==> (#[trigger] adj_slots@[i]) == spec_slot_adjacent(
                    spec_slot_of(si as int),
                    i,
                ),
                forall|e: int|
                    0 <= e < d ==> (#[trigger] positions@[e]) == (slots@[
                        spec_slot_adjacent(spec_slot_of(si as int), e).spec_index()
                    ]->0).face.position,
            decreases 4 - d,
        {
            let nb_idx = adj_slots[d].index();
            let nb_pos = match &slots[nb_idx] {
                Some(p) => p.face.position,
                None => {
                    proof {
                        assert(false);
                    }
                    Vec2::new(0, 0)
                },
            };
            positions[d] = nb_pos;
            d = d + 1;
        }
        let rot = placed.rotation;
        let adjacent = [
            positions[rot % 4],
            positions[(1 + rot) % 4],
            positions[(2 + rot) % 4],
            positions[(3 + rot) % 4],
        ];
        arr[si] = Face { position: placed.face.position, adjacent };
        proof {
            assert forall|d2: int| 0 <= d2 < 4 implies (#[trigger] arr@[si as int].adjacent@[d2])
                == (slots@[
                spec_slot_adjacent(
                    spec_slot_of(si as int),
                    (d2 + (slots@[si as int]->0).rotation as int) % 4,
                ).spec_index()
            ]->0).face.position by {
                assert((d2 + rot as int) % 4 == (if d2 == 0 {
                    (rot % 4) as int
                } else if d2 == 1 {
                    ((1 + rot) % 4) as int
                } else if d2 == 2 {
                    ((2 + rot) % 4) as int
                } else {
                    ((3 + rot) % 4) as int
                }));
            }
        }
        si = si + 1;
    }
    arr
}

impl Cube {
    /// Is `position` the block position of one of the cube's faces?
    pub open spec fn spec_has_face(self, position: Vec2) -> bool {
        exists|i: int| 0 <= i < 6 && (#[trigger] self.faces@[i]).position == position
    }

    /// The index of the face at `position`.
    pub open spec fn spec_face_idx(self, position: Vec2) -> int {
        choose|i: int| 0 <= i < 6 && (#[trigger] self.faces@[i]).position == position
    }

    /// The face at `position`.
    pub open spec fn spec_face_at(self, position: Vec2) -> Face {
        self.faces@[self.spec_face_idx(position)]
    }

    /// Look a face up by its block position. With distinct face positions
    /// there is exactly one.
    #[verifier::loop_isolation(false)]
    pub fn get_face(&self, position: Vec2) -> (r: &Face)
        requires
            cube_faces_distinct(*self),
            self.spec_has_face(position),
        ensures
            *r == self.spec_face_at(position),
            r.position == position,
    {
        let mut i: usize = 0;
        while i < 6
            invariant
                i <= 6,
                forall|j: int| 0 <= j < i ==> (#[trigger] self.faces@[j]).position != position,
        decreases 6 - i,
        {
            if self.faces[i].position == position {
                proof {
                    let i2 = self.spec_face_idx(position);
                    assert(0 <= i2 < 6 && self.faces@[i2].position == position);
                    assert(i2 == i as int) by {
                        if i2 < i as int {
                            assert(self.faces@[i2].position != self.faces@[i as int].position);
                        } else if i2 > i as int {
                            assert(self.faces@[i as int].position != self.faces@[i2].position);
                        }
                    }
                }
                return &self.faces[i];
            }
            i = i + 1;
        }
        proof {
            assert(false);
        }
        &self.faces[0]
    }

    /// Assemble the cube from the net: locate its six faces in scan
    /// order, fill the canonical slots by propagating rotations from the
    /// first face, and resolve every face's neighbour list back into net
    /// order. `Some` exactly when the net assembles: six occupied blocks
    /// whose placement fills every slot and passes every structural
    /// check; the returned cube is the one the placement names.
    pub fn from_lines(net: &Vec<Vec<Tile>>, face_size: usize) -> (r: Option<Cube>)
        requires
            grid_wf(net.deep_view(), face_size as int),
        ensures
            r is Some <==> spec_assembles(net.deep_view(), face_size as int),
            r is Some ==> {
                let c = r->0;
                &&& c.face_size == face_size
                &&& cube_matches_net(c, net.deep_view(), face_size as int)
                &&& cube_wf(c)
                &&& cube_covers(c, net.deep_view(), face_size as int)
                &&& cube_net_adjacent(c, net.deep_view(), face_size as int)
            },
    {
        let ghost netv = net.deep_view();
        let ghost s = face_size as int;
        let ghost sp = spec_placement(netv, s);
        let ghost blocks = spec_blocks(netv, s);
        let found = find_faces(net, face_size);
        proof {
            assert(blocks == found@.map_values(|f: PartialFace| f.position));
        }
        if found.len() != 6 {
            proof {
                assert(blocks.len() != 6);
                assert(!spec_assembles(netv, s));
            }
            return None;
        }
        let slots = place_all(net, face_size, &found);
        let mut i: usize = 0;
        while i < 6
            invariant
                i <= 6,
                netv == net.deep_view(),
                s == face_size as int,
                slots@.len() == 6,
                st_matches(found@, slots@, sp),
                sp == spec_placement(netv, s),
                forall|j: int| 0 <= j < i ==> (#[trigger] slots@[j]) is Some,
            decreases 6 - i,
        {
            if slots[i].is_none() {
                proof {
                    assert(!(sp[i as int] is Some));
                    assert(!spec_assembles(netv, s)) by {
                        if spec_assembles(netv, s) {
                            assert(spec_placement(netv, s)[i as int] is Some);
                        }
                    }
                }
                return None;
            }
            i = i + 1;
        }
        let faces = fill_faces(&slots);
        let cube = Cube { face_size, faces };
        proof {
            assert forall|si: int| 0 <= si < 6 implies (#[trigger] cube.faces@[si]).position
                == blocks[(sp[si]->0).0] by {
                let fi = (sp[si]->0).0;
                assert((slots@[si]->0).face == found@[fi]);
                assert(blocks[fi] == found@[fi].position);
            }
            assert forall|si: int, d: int|
                0 <= si < 6 && 0 <= d < 4 implies (#[trigger] cube.faces@[si].adjacent@[d])
                == blocks[(sp[spec_slot_adjacent(
                spec_slot_of(si),
                (d + (sp[si]->0).1) % 4,
            ).spec_index()]->0).0] by {
                let rot = (sp[si]->0).1;
                assert((slots@[si]->0).rotation == rot);
                let t = spec_slot_adjacent(spec_slot_of(si), (d + rot) % 4).spec_index();
                assert(0 <= t < 6);
                let ft = (sp[t]->0).0;
                assert((slots@[t]->0).face == found@[ft]);
                assert(blocks[ft] == found@[ft].position);
            }
            assert(cube_matches_net(cube, netv, s));
            assert forall|i2: int| 0 <= i2 < 6 implies 0 <= (
            #[trigger] cube.faces@[i2]).position.0 <= 0x10000 && 0 <= cube.faces@[i2].position.1
                <= 0x10000 by {
                let fi = (sp[i2]->0).0;
                assert((slots@[i2]->0).face == found@[fi]);
                assert(found@[fi].position.0 <= 0x10000 && found@[fi].position.1 <= 0x10000);
            }
            assert(cube_positions_bounded(cube));
        }
        if !check_adjacency(&cube) {
            proof {
                lemma_no_other_assembly(cube, netv, s);
            }
            return None;
        }
        if !check_distinct(&cube) {
            proof {
                lemma_no_other_assembly(cube, netv, s);
            }
            return None;
        }
        if !check_coverage(&found, &cube) {
            proof {
                lemma_no_other_assembly(cube, netv, s);
                if spec_assembles(netv, s) {
                    assert(cube_covers(cube, netv, s));
                    assert forall|k: int| 0 <= k < found@.len() implies #[trigger] face_for_found(
                        found@,
                        cube,
                        k,
                    ) by {
                        assert(block_occupied(netv, s, found@[k].position));
                        let i2 = choose|i2: int|
                            0 <= i2 < 6 && (#[trigger] cube.faces@[i2]).position == found@[
                                k
                            ].position;
                        assert(cube.faces@[i2].position == found@[k].position);
                    }
                }
            }
            return None;
        }
        if !check_net_adjacency(&cube, net, face_size) {
            proof {
                lemma_no_other_assembly(cube, netv, s);
            }
            return None;
        }
        proof {
            assert forall|b: Vec2| #[trigger] block_occupied(netv, s, b) implies exists|i2: int|
                0 <= i2 < 6 && cube.faces@[i2].position == b by {
                let k = choose|k: int| 0 <= k < found@.len() && (#[trigger] found@[k]).position == b;
                assert(face_for_found(found@, cube, k));
                let i2 = choose|i2: int|
                    0 <= i2 < 6 && (#[trigger] cube.faces@[i2]).position == found@[k].position;
                assert(cube.faces@[i2].position == b);
            }
            assert forall|i2: int| 0 <= i2 < 6 implies block_occupied(
                netv,
                s,
                (#[trigger] cube.faces@[i2]).position,
            ) by {
                let fi = (sp[i2]->0).0;
                assert((slots@[i2]->0).face == found@[fi]);
                assert(block_occupied(netv, s, found@[fi].position));
            }
            assert(cube_wf(cube));
            assert(cube_covers(cube, netv, s));
            assert(blocks.len() == 6);
            assert forall|si: int| 0 <= si < 6 implies (#[trigger] spec_placement(netv, s)[si])
                is Some by {
                assert(slots@[si] is Some);
            }
            assert(cube_net_adjacent(cube, netv, s));
            assert(spec_assembles(netv, s));
        }
        Some(cube)
    }
}

/// Two cubes that both realise the net's slot assignment are equal.
pub proof fn lemma_match_unique(c1: Cube, c2: Cube, net: Seq<Seq<Tile>>, s: int)
    requires
        cube_matches_net(c1, net, s),
        cube_matches_net(c2, net, s),
        c1.face_size == c2.face_size,
    ensures
        c1 == c2,
{
    broadcast use vstd::array::axiom_array_ext_equal;

    assert forall|si: int| 0 <= si < 6 implies (#[trigger] c1.faces@[si]) == c2.faces@[si] by {
        assert(c1.faces@[si].position == c2.faces@[si].position);
        assert forall|d: int| 0 <= d < 4 implies (#[trigger] c1.faces@[si].adjacent@[d])
            == c2.faces@[si].adjacent@[d] by {}
        assert(c1.faces@[si].adjacent =~= c2.faces@[si].adjacent);
    }
    assert(c1.faces =~= c2.faces);
}

/// When the net assembles, any cube that realises its slot assignment
/// carries every structural property the assembly promises.
proof fn lemma_no_other_assembly(c: Cube, net: Seq<Seq<Tile>>, s: int)
    requires
        cube_matches_net(c, net, s),
        c.face_size as int == s,
    ensures
        spec_assembles(net, s) ==> cube_wf(c) && cube_covers(c, net, s) && cube_net_adjacent(
            c,
            net,
            s,
        ),
{
    if spec_assembles(net, s) {
        let c2 = choose|c2: Cube|
            #[trigger] cube_matches_net(c2, net, s) && c2.face_size as int == s && cube_wf(c2)
                && cube_covers(c2, net, s) && cube_net_adjacent(c2, net, s);
        lemma_match_unique(c2, c, net, s);
    }
}

/// Law: closure. Every neighbour a face of a well-formed cube names is
/// itself one of the cube's six faces, and that face names the first one
/// back across one of its own edges.
pub proof fn lemma_cube_closure(c: Cube)
    requires
        cube_wf(c),
    ensures
        forall|i: int, d: int| 0 <= i < 6 && 0 <= d < 4 ==> #[trigger] edge_closed(c, i, d),
        forall|i: int, d: int| 0 <= i < 6 && 0 <= d < 4 ==> #[trigger] edge_symmetric(c, i, d),
{
}

/// Law: coverage. The face positions of a cube assembled from a net are
/// exactly the net's occupied blocks, and there are exactly six of them,
/// pairwise distinct.
pub proof fn lemma_cube_coverage(c: Cube, net: Seq<Seq<Tile>>, s: int)
    requires
        cube_wf(c),
        cube_covers(c, net, s),
    ensures
        forall|i: int| 0 <= i < 6 ==> block_occupied(net, s, (#[trigger] c.faces@[i]).position),
        forall|b: Vec2|
            #[trigger] block_occupied(net, s, b) ==> exists|i: int|
                0 <= i < 6 && c.faces@[i].position == b,
        cube_faces_distinct(c),
{
}

} // verus!
