use crate::day22_cube::{cube_faces_distinct, cube_wf, edge_closed, edge_symmetric, Cube, Face};
use crate::day22_flat::{dir_unit, same_net, BasicMap, BasicPosition};
use crate::day22_parse::{Instruction, Tile, Turn};
use crate::vec2::Vec2;
use vstd::prelude::*;

verus! {

/// A position in face-local coordinates: the face the agent is on, and a
/// position relative to that face's top-left corner.
#[derive(Copy, Clone, Debug)]
pub struct FacePosition {
    pub face: Face,
    pub position: BasicPosition,
}

/// Is `f` one of the cube's six faces?
pub open spec fn face_member(c: Cube, f: Face) -> bool {
    exists|i: int| 0 <= i < 6 && (#[trigger] c.faces@[i]) == f
}

/// A face position the walk can hold: its face belongs to the cube, the
/// local coordinates lie inside the face, and it faces a cardinal
/// direction.
pub open spec fn fp_wf(c: Cube, fp: FacePosition) -> bool {
    &&& face_member(c, fp.face)
    &&& 0 <= fp.position.pos.0 < c.face_size
    &&& 0 <= fp.position.pos.1 < c.face_size
    &&& dir_unit(fp.position.dir)
}

/// A face position one unit step after a well-formed one: at most one
/// local coordinate has left the face, by one tile.
pub open spec fn fp_stepped(c: Cube, fp: FacePosition) -> bool {
    &&& face_member(c, fp.face)
    &&& dir_unit(fp.position.dir)
    &&& {
        let s = c.face_size as int;
        let x = fp.position.pos.0 as int;
        let y = fp.position.pos.1 as int;
        (-1 <= x <= s && 0 <= y < s) || (0 <= x < s && -1 <= y <= s)
    }
}

/// The face at `p`, as [`Cube::spec_face_at`], with its position known.
pub proof fn lemma_face_at_position(c: Cube, p: Vec2)
    requires
        c.spec_has_face(p),
    ensures
        c.spec_face_at(p).position == p,
        face_member(c, c.spec_face_at(p)),
{
    let i = c.spec_face_idx(p);
    assert(0 <= i < 6 && c.faces@[i].position == p);
}

/// Looking a member face up by its own position gives that face back.
pub proof fn lemma_face_at_of_member(c: Cube, f: Face)
    requires
        cube_faces_distinct(c),
        face_member(c, f),
    ensures
        c.spec_has_face(f.position),
        c.spec_face_at(f.position) == f,
{
    let i = choose|i: int| 0 <= i < 6 && (#[trigger] c.faces@[i]) == f;
    assert(c.faces@[i].position == f.position);
    let j = c.spec_face_idx(f.position);
    assert(0 <= j < 6 && c.faces@[j].position == f.position);
    if i < j {
        assert(c.faces@[i].position != c.faces@[j].position);
    } else if (j < i) {
        assert(c.faces@[j].position != c.faces@[i].position);
    }
}

/// The face-wrap transition. A local position that has left its face's
/// square re-enters the cube on the neighbouring face across the exited
/// edge: the coordinate along the edge, measured clockwise, is preserved,
/// and the new facing points inward from the entered edge. A position
/// still inside its face is returned unchanged.
pub open spec fn spec_face_wrap(c: Cube, fp: FacePosition) -> FacePosition {
    let max = c.face_size as int - 1;
    let x = fp.position.pos.0 as int;
    let y = fp.position.pos.1 as int;
    if !(x < 0 || y < 0 || x > max || y > max) {
        fp
    } else {
        let target = if x < 0 {
            fp.face.adjacent@[0]
        } else if y < 0 {
            fp.face.adjacent@[1]
        } else if x > max {
            fp.face.adjacent@[2]
        } else {
            fp.face.adjacent@[3]
        };
        let distance = if x < 0 {
            max - y
        } else if y < 0 {
            x
        } else if x > max {
            y
        } else {
            max - x
        };
        let face = c.spec_face_at(target);
        let position = if face.adjacent@[0] == fp.face.position {
            BasicPosition { pos: Vec2(0, distance as isize), dir: Vec2(1, 0) }
        } else if face.adjacent@[1] == fp.face.position {
            BasicPosition { pos: Vec2((max - distance) as isize, 0), dir: Vec2(0, 1) }
        } else if face.adjacent@[2] == fp.face.position {
            BasicPosition { pos: Vec2(max as isize, (max - distance) as isize), dir: Vec2(-1 as isize, 0) }
        } else {
            BasicPosition { pos: Vec2(distance as isize, max as isize), dir: Vec2(0, -1 as isize) }
        };
        FacePosition { face, position }
    }
}

/// After a wrap from a stepped position, the result is well formed again,
/// and when the position had left its face, the entered face is the
/// neighbour across the exited edge and its entry edge points back.
pub proof fn lemma_face_wrap_wf(c: Cube, fp: FacePosition)
    requires
        cube_wf(c),
        fp_stepped(c, fp),
    ensures
        fp_wf(c, spec_face_wrap(c, fp)),
        forall|d: int| 0 <= d < 4 ==> c.spec_has_face(#[trigger] fp.face.adjacent@[d]),
{
    let fi0 = choose|i: int| 0 <= i < 6 && (#[trigger] c.faces@[i]) == fp.face;
    assert forall|d: int| 0 <= d < 4 implies c.spec_has_face(#[trigger] fp.face.adjacent@[d]) by {
        assert(edge_closed(c, fi0, d));
        let j = choose|j: int|
            0 <= j < 6 && (#[trigger] c.faces@[j]).position == c.faces@[fi0].adjacent@[d];
        assert(c.faces@[j].position == fp.face.adjacent@[d]);
    }
    let max = c.face_size as int - 1;
    let x = fp.position.pos.0 as int;
    let y = fp.position.pos.1 as int;
    if !(x < 0 || y < 0 || x > max || y > max) {
    } else {
        let fi = choose|i: int| 0 <= i < 6 && (#[trigger] c.faces@[i]) == fp.face;
        let d: int = if x < 0 {
            0
        } else if y < 0 {
            1
        } else if x > max {
            2
        } else {
            3
        };
        let target = fp.face.adjacent@[d];
        assert(edge_closed(c, fi, d));
        assert(edge_symmetric(c, fi, d));
        assert(c.spec_has_face(target)) by {
            let j = choose|j: int|
                0 <= j < 6 && (#[trigger] c.faces@[j]).position == c.faces@[fi].adjacent@[d];
            assert(c.faces@[j].position == target);
        }
        lemma_face_at_position(c, target);
        let face = c.spec_face_at(target);
        assert(exists|d2: int| 0 <= d2 < 4 && (#[trigger] face.adjacent@[d2]) == fp.face.position)
            by {
            let (j, d2) = choose|j: int, d2: int|
                0 <= j < 6 && 0 <= d2 < 4 && c.faces@[j].position == c.faces@[fi].adjacent@[d] && (
                #[trigger] c.faces@[j].adjacent@[d2]) == c.faces@[fi].position;
            let gi = c.spec_face_idx(target);
            if j < gi {
                assert(c.faces@[j].position != c.faces@[gi].position);
            } else if (gi < j) {
                assert(c.faces@[gi].position != c.faces@[j].position);
            }
            assert(c.faces@[j] == face);
            assert(face.adjacent@[d2] == fp.face.position);
        }
    }
}

/// The map for cube-topological walking: the flat net and the assembled
/// cube.
#[derive(Clone, Debug)]
pub struct CubeMap {
    pub net: BasicMap,
    pub cube: Cube,
}

impl FacePosition {
    /// The same position in net-absolute coordinates.
    pub fn as_net_position(&self, face_size: isize) -> (r: BasicPosition)
        requires
            1 <= face_size <= 0x10000,
            0 <= self.face.position.0 <= 0x10000,
            0 <= self.face.position.1 <= 0x10000,
            0 <= self.position.pos.0 < face_size,
            0 <= self.position.pos.1 < face_size,
            self.face.position.0 * face_size + face_size <= 0x7fffffff,
            self.face.position.1 * face_size + face_size <= 0x7fffffff,
        ensures
            r.pos.0 == self.face.position.0 * face_size + self.position.pos.0,
            r.pos.1 == self.face.position.1 * face_size + self.position.pos.1,
            r.dir == self.position.dir,
    {
        let pos = self.face.position.mul(face_size).add(self.position.pos);
        BasicPosition { pos, dir: self.position.dir }
    }

    /// The same net-absolute position in face-local coordinates, on the
    /// face whose block the position falls into.
    pub fn from_net_position(position: BasicPosition, cube: &Cube) -> (r: Self)
        requires
            cube_faces_distinct(*cube),
            1 <= cube.face_size <= 0x10000,
            0 <= position.pos.0 <= 0x7fffffff,
            0 <= position.pos.1 <= 0x7fffffff,
            cube.spec_has_face(
                Vec2(
                    (position.pos.0 as int / cube.face_size as int) as isize,
                    (position.pos.1 as int / cube.face_size as int) as isize,
                ),
            ),
        ensures
            r.face == cube.spec_face_at(
                Vec2(
                    (position.pos.0 as int / cube.face_size as int) as isize,
                    (position.pos.1 as int / cube.face_size as int) as isize,
                ),
            ),
            r.position.pos.0 == position.pos.0 as int % cube.face_size as int,
            r.position.pos.1 == position.pos.1 as int % cube.face_size as int,
            r.position.dir == position.dir,
    {
        let s = cube.face_size as isize;
        let block = position.pos.div(s);
        let face = *cube.get_face(block);
        let pos = position.pos.rem(s);
        FacePosition { face, position: BasicPosition { pos, dir: position.dir } }
    }

    /// Apply the face-wrap transition, as in [`spec_face_wrap`].
    pub fn face_wrap(&self, cube: &Cube) -> (r: Self)
        requires
            cube_wf(*cube),
            fp_stepped(*cube, *self),
        ensures
            r == spec_face_wrap(*cube, *self),
            fp_wf(*cube, r),
    {
        proof {
            lemma_face_wrap_wf(*cube, *self);
        }
        let max = (cube.face_size - 1) as isize;
        let x = self.position.pos.0;
        let y = self.position.pos.1;
        if !(x < 0 || y < 0 || x > max || y > max) {
            return *self;
        }
        let (target, distance) = if x < 0 {
            (self.face.left(), max - y)
        } else if y < 0 {
            (self.face.top(), x)
        } else if x > max {
            (self.face.right(), y)
        } else {
            (self.face.bottom(), max - x)
        };
        let face = *cube.get_face(target);
        let position = if face.left() == self.face.position {
            BasicPosition { pos: Vec2::new(0, distance), dir: Vec2::new(1, 0) }
        } else if face.top() == self.face.position {
            BasicPosition { pos: Vec2::new(max - distance, 0), dir: Vec2::new(0, 1) }
        } else if face.right() == self.face.position {
            BasicPosition { pos: Vec2::new(max, max - distance), dir: Vec2::new(-1, 0) }
        } else {
            proof {
                let fw = spec_face_wrap(*cube, *self);
                assert(fw.face == face);
            }
            BasicPosition { pos: Vec2::new(distance, max), dir: Vec2::new(0, -1) }
        };
        FacePosition { face, position }
    }
}


/// The rows of the tile grid, as sequences.
pub proof fn lemma_grid_views(m: &Vec<Vec<Tile>>)
    ensures
        m.deep_view().len() == m@.len(),
        forall|y: int| 0 <= y < m@.len() ==> m.deep_view()[y] == (#[trigger] m@[y])@,
{
    assert forall|y: int| 0 <= y < m@.len() implies m.deep_view()[y] == (#[trigger] m@[y])@ by {
        assert(m.deep_view()[y] =~= m@[y]@);
    }
}

/// A well-formed cube map: a well-formed net, a well-formed cube over the
/// same face size whose faces are exactly the net's occupied blocks, and a
/// net whose dimensions are whole numbers of faces.
pub open spec fn cm_wf(m: CubeMap) -> bool {
    &&& m.net.wf()
    &&& cube_wf(m.cube)
    &&& m.cube.face_size == m.net.face_size
    &&& m.net.width as int % (m.net.face_size as int) == 0
    &&& m.net.height as int % (m.net.face_size as int) == 0
    &&& crate::day22_cube::cube_covers(
        m.cube,
        m.net.map.deep_view(),
        m.net.face_size as int,
    )
}

/// The net coordinates of a face-local position.
pub open spec fn spec_net_pos(m: CubeMap, fp: FacePosition) -> BasicPosition {
    let s = m.net.face_size as int;
    BasicPosition {
        pos: Vec2(
            (fp.face.position.0 * s + fp.position.pos.0) as isize,
            (fp.face.position.1 * s + fp.position.pos.1) as isize,
        ),
        dir: fp.position.dir,
    }
}

/// A well-formed face position denotes a tile inside the net.
pub proof fn lemma_net_pos_wf(m: CubeMap, fp: FacePosition)
    requires
        cm_wf(m),
        fp_wf(m.cube, fp),
    ensures
        m.net.pos_wf(spec_net_pos(m, fp)),
        0 <= fp.face.position.0 * (m.net.face_size as int) + fp.position.pos.0 < m.net.width,
        0 <= fp.face.position.1 * (m.net.face_size as int) + fp.position.pos.1 < m.net.height,
{
    let s = m.net.face_size as int;
    let b = fp.face.position;
    let i = choose|i: int| 0 <= i < 6 && (#[trigger] m.cube.faces@[i]) == fp.face;
    lemma_grid_views(&m.net.map);
    assert(crate::day22_cube::block_occupied(m.net.map.deep_view(), s, b));
    assert(b.0 * s < m.net.width && b.1 * s < m.net.height);
    assert(b.0 * s + s <= m.net.width) by (nonlinear_arith)
        requires
            b.0 * s < m.net.width,
            (m.net.width as int) % s == 0,
            s >= 1,
            b.0 >= 0,
    ;
    assert(b.1 * s + s <= m.net.height) by (nonlinear_arith)
        requires
            b.1 * s < m.net.height,
            (m.net.height as int) % s == 0,
            s >= 1,
            b.1 >= 0,
    ;
    assert(b.0 * s >= 0 && b.1 * s >= 0) by (nonlinear_arith)
        requires
            b.0 >= 0 && b.1 >= 0 && s >= 1,
    ;
}

/// The tile of the net under a face-local position.
pub open spec fn spec_tile_fp(m: CubeMap, fp: FacePosition) -> Tile {
    let p = spec_net_pos(m, fp);
    m.net.spec_tile(p.pos.0 as int, p.pos.1 as int)
}

/// One local unit step in the facing direction, before any wrap.
pub open spec fn spec_step_local(fp: FacePosition) -> FacePosition {
    FacePosition {
        face: fp.face,
        position: BasicPosition {
            pos: Vec2(
                (fp.position.pos.0 + fp.position.dir.0) as isize,
                (fp.position.pos.1 + fp.position.dir.1) as isize,
            ),
            dir: fp.position.dir,
        },
    }
}

/// The successor of a face position under cube wrapping: one local step,
/// then the face-wrap transition.
pub open spec fn spec_cube_next(m: CubeMap, fp: FacePosition) -> FacePosition {
    spec_face_wrap(m.cube, spec_step_local(fp))
}

/// A unit step from a well-formed position is a stepped position.
pub proof fn lemma_step_local_stepped(c: Cube, fp: FacePosition)
    requires
        fp_wf(c, fp),
        c.face_size <= 0x10000,
    ensures
        fp_stepped(c, spec_step_local(fp)),
{
}

/// The successor of a well-formed position is well formed.
pub proof fn lemma_cube_next_wf(m: CubeMap, fp: FacePosition)
    requires
        cm_wf(m),
        fp_wf(m.cube, fp),
    ensures
        fp_wf(m.cube, spec_cube_next(m, fp)),
{
    lemma_step_local_stepped(m.cube, fp);
    lemma_face_wrap_wf(m.cube, spec_step_local(fp));
}

impl CubeMap {
    /// Assemble the cube for a parsed net, as in
    /// [`crate::day22_cube::spec_assembles`]: `Some` exactly when the
    /// net's sides are whole numbers of faces and its blocks fold into a
    /// cube, and then the cube is the one the placement names.
    pub fn from_map(net: BasicMap) -> (r: Option<CubeMap>)
        requires
            net.wf(),
        ensures
            r is Some <==> ((net.width as int) % (net.face_size as int) == 0 && (net.height as int)
                % (net.face_size as int) == 0 && crate::day22_cube::spec_assembles(
                net.map.deep_view(),
                net.face_size as int,
            )),
            r is Some ==> cm_wf(r->0) && (r->0).net == net
                && crate::day22_cube::cube_matches_net(
                (r->0).cube,
                net.map.deep_view(),
                net.face_size as int,
            ),
    {
        proof {
            lemma_grid_views(&net.map);
        }
        let s = net.face_size;
        if !((net.width as usize) % s == 0 && (net.height as usize) % s == 0) {
            return None;
        }
        let cube = match Cube::from_lines(&net.map, s) {
            Some(c) => c,
            None => {
                return None;
            },
        };
        Some(CubeMap { net, cube })
    }

    /// The tile under a face-local position.
    pub fn tile_at(&self, pos: FacePosition) -> (r: Tile)
        requires
            cm_wf(*self),
            fp_wf(self.cube, pos),
        ensures
            r == spec_tile_fp(*self, pos),
    {
        proof {
            lemma_net_pos_wf(*self, pos);
        }
        let p = pos.as_net_position(self.net.face_size as isize);
        self.net.tile_at(p)
    }

    /// The successor position under cube wrapping.
    pub fn next_position(&self, pos: FacePosition) -> (r: FacePosition)
        requires
            cm_wf(*self),
            fp_wf(self.cube, pos),
        ensures
            r == spec_cube_next(*self, pos),
            fp_wf(self.cube, r),
    {
        proof {
            lemma_cube_next_wf(*self, pos);
            lemma_step_local_stepped(self.cube, pos);
        }
        let mut p = pos;
        p.position.pos = p.position.pos.add(p.position.dir);
        p.face_wrap(&self.cube)
    }

    /// The position turned a quarter left or right in place.
    pub fn turn_position(pos: FacePosition, turn: Turn) -> (r: FacePosition)
        requires
            dir_unit(pos.position.dir),
        ensures
            r == spec_cube_turn(pos, turn),
            r.face == pos.face,
            r.position.pos == pos.position.pos,
            dir_unit(r.position.dir),
    {
        let position = BasicMap::turn_position(pos.position, turn);
        FacePosition { face: pos.face, position }
    }

    /// Does the cube hold a face at this block position?
    fn has_face(&self, position: Vec2) -> (r: bool)
        ensures
            r == self.cube.spec_has_face(position),
    {
        let mut i: usize = 0;
        let mut found = false;
        while i < 6
            invariant
                i <= 6,
                found == exists|j: int|
                    0 <= j < i && (#[trigger] self.cube.faces@[j]).position == position,
            decreases 6 - i,
        {
            if self.cube.faces[i].position == position {
                found = true;
            }
            i = i + 1;
        }
        found
    }

    /// The start of every walk: the net's start position, in face-local
    /// coordinates. `None` when the net's top row has no open tile or the
    /// start tile's block carries no face.
    pub fn start_point(&self) -> (r: Option<FacePosition>)
        requires
            cm_wf(*self),
        ensures
            r == spec_cube_start(*self),
            r is Some ==> fp_wf(self.cube, r->0),
    {
        let p0 = match self.net.start_point() {
            Some(p) => p,
            None => {
                return None;
            },
        };
        let s = self.net.face_size as isize;
        let block = p0.pos.div(s);
        if !self.has_face(block) {
            return None;
        }
        let fp = FacePosition::from_net_position(p0, &self.cube);
        proof {
            lemma_face_at_position(self.cube, block);
            let q = p0.pos;
            assert(0 <= q.0 as int % (s as int) < s && 0 <= q.1 as int % (s as int) < s);
        }
        Some(fp)
    }

    /// Score a final face position by its net coordinates.
    pub fn score_position(&self, pos: FacePosition) -> (r: usize)
        requires
            cm_wf(*self),
            fp_wf(self.cube, pos),
        ensures
            r == self.net.spec_score(spec_net_pos(*self, pos)),
    {
        proof {
            lemma_net_pos_wf(*self, pos);
        }
        let p = pos.as_net_position(self.net.face_size as isize);
        self.net.score_position(p)
    }

    /// Apply one instruction, as in [`spec_cube_follow`].
    pub fn follow_instruction(&self, pos: FacePosition, instruction: Instruction) -> (r:
        FacePosition)
        requires
            cm_wf(*self),
            fp_wf(self.cube, pos),
        ensures
            r == spec_cube_follow(*self, pos, instruction),
            fp_wf(self.cube, r),
    {
        match instruction {
            Instruction::Move(n) => {
                let mut p = pos;
                let mut k: usize = 0;
                while k < n
                    invariant
                        cm_wf(*self),
                        fp_wf(self.cube, p),
                        0 <= k <= n,
                        instruction == (Instruction::Move(n)),
                        spec_cube_move(*self, pos, n as nat) == spec_cube_move(
                            *self,
                            p,
                            (n - k) as nat,
                        ),
                    decreases n - k,
                {
                    let new_pos = self.next_position(p);
                    if self.tile_at(new_pos) == Tile::Closed {
                        return p;
                    }
                    p = new_pos;
                    k = k + 1;
                }
                p
            },
            Instruction::Turn(t) => Self::turn_position(pos, t),
        }
    }

    /// Walk the whole instruction stream from the start position and score
    /// where the agent ends, as in [`spec_cube_score_instructions`].
    pub fn score_instructions(&self, instructions: &Vec<Instruction>) -> (r: Option<usize>)
        requires
            cm_wf(*self),
        ensures
            match r {
                None => spec_cube_score_instructions(*self, instructions@) is None,
                Some(sc) => spec_cube_score_instructions(*self, instructions@) == Some(sc as int),
            },
    {
        let p0 = match self.start_point() {
            Some(p) => p,
            None => {
                return None;
            },
        };
        let mut p = p0;
        let mut i: usize = 0;
        let n = instructions.len();
        proof {
            assert(instructions@.skip(0) =~= instructions@);
        }
        while i < n
            invariant
                cm_wf(*self),
                fp_wf(self.cube, p),
                0 <= i <= n,
                n == instructions@.len(),
                spec_cube_walk(*self, p0, instructions@) == spec_cube_walk(
                    *self,
                    p,
                    instructions@.skip(i as int),
                ),
            decreases n - i,
        {
            proof {
                assert(instructions@.skip(i as int).drop_first() =~= instructions@.skip(
                    i as int + 1,
                ));
            }
            p = self.follow_instruction(p, instructions[i]);
            i = i + 1;
        }
        proof {
            assert(instructions@.skip(n as int) =~= Seq::<Instruction>::empty());
        }
        Some(self.score_position(p))
    }
}

/// The direction after a quarter turn, with the face kept.
pub open spec fn spec_cube_turn(fp: FacePosition, turn: Turn) -> FacePosition {
    FacePosition { face: fp.face, position: BasicMap::spec_turn(fp.position, turn) }
}

/// The face-local start position: the net's start tile on its face, or
/// `None` when there is no start tile or no face under it.
pub open spec fn spec_cube_start(m: CubeMap) -> Option<FacePosition> {
    let s = m.net.face_size as int;
    match m.net.spec_start() {
        None => None,
        Some(p) => {
            let block = Vec2((p.pos.0 as int / s) as isize, (p.pos.1 as int / s) as isize);
            if m.cube.spec_has_face(block) {
                Some(
                    FacePosition {
                        face: m.cube.spec_face_at(block),
                        position: BasicPosition {
                            pos: Vec2((p.pos.0 as int % s) as isize, (p.pos.1 as int % s) as isize),
                            dir: p.dir,
                        },
                    },
                )
            } else {
                None
            }
        },
    }
}

/// `Move(n)` under cube wrapping: up to `n` steps, stopping early just
/// before the first closed tile.
pub open spec fn spec_cube_move(m: CubeMap, fp: FacePosition, n: nat) -> FacePosition
    decreases n,
{
    if n == 0 {
        fp
    } else {
        let q = spec_cube_next(m, fp);
        if spec_tile_fp(m, q) == Tile::Closed {
            fp
        } else {
            spec_cube_move(m, q, (n - 1) as nat)
        }
    }
}

/// The effect of one instruction on a face position.
pub open spec fn spec_cube_follow(m: CubeMap, fp: FacePosition, instruction: Instruction)
    -> FacePosition {
    match instruction {
        Instruction::Move(n) => spec_cube_move(m, fp, n as nat),
        Instruction::Turn(t) => spec_cube_turn(fp, t),
    }
}

/// The final face position after following every instruction in order.
pub open spec fn spec_cube_walk(m: CubeMap, fp: FacePosition, instructions: Seq<Instruction>)
    -> FacePosition
    decreases instructions.len(),
{
    if instructions.len() == 0 {
        fp
    } else {
        spec_cube_walk(m, spec_cube_follow(m, fp, instructions[0]), instructions.drop_first())
    }
}

/// The score of the cube walk over a whole instruction stream; `None`
/// exactly when there is no start position.
pub open spec fn spec_cube_score_instructions(m: CubeMap, instructions: Seq<Instruction>) -> Option<
    int,
> {
    match spec_cube_start(m) {
        None => None,
        Some(p0) => Some(m.net.spec_score(spec_net_pos(m, spec_cube_walk(m, p0, instructions)))),
    }
}



/// View-equal nets hold the same tile at every position of the grid.
proof fn lemma_same_net_tile(m1: BasicMap, m2: BasicMap, x: int, y: int)
    requires
        same_net(m1, m2),
        0 <= y < m1.map@.len(),
        0 <= x < m1.map@[y]@.len(),
    ensures
        m1.spec_tile(x, y) == m2.spec_tile(x, y),
{
    assert(m2.map.deep_view().len() == m1.map.deep_view().len());
    assert(0 <= y < m2.map@.len());
    assert(m1.map@[y]@ =~= m1.map.deep_view()[y]);
    assert(m2.map@[y]@ =~= m2.map.deep_view()[y]);
}

/// View-equal nets agree on the first open column of the top row.
proof fn lemma_same_net_first_open(m1: BasicMap, m2: BasicMap, i: int)
    requires
        same_net(m1, m2),
        m1.wf(),
        0 <= i,
    ensures
        m1.spec_first_open_from(i) == m2.spec_first_open_from(i),
    decreases m1.width - i,
{
    if i < m1.width {
        lemma_same_net_tile(m1, m2, i, 0);
        lemma_same_net_first_open(m1, m2, i + 1);
    }
}

/// The start of the cube walk is well formed.
proof fn lemma_cube_start_wf(m: CubeMap)
    requires
        cm_wf(m),
    ensures
        spec_cube_start(m) is Some ==> fp_wf(m.cube, spec_cube_start(m)->0),
{
    if spec_cube_start(m) is Some {
        let p = m.net.spec_start()->0;
        let s = m.net.face_size as int;
        let block = Vec2((p.pos.0 as int / s) as isize, (p.pos.1 as int / s) as isize);
        lemma_face_at_position(m.cube, block);
    }
}

/// A `Move` under cube wrapping keeps a position well formed.
proof fn lemma_cube_move_wf(m: CubeMap, fp: FacePosition, n: nat)
    requires
        cm_wf(m),
        fp_wf(m.cube, fp),
    ensures
        fp_wf(m.cube, spec_cube_move(m, fp, n)),
    decreases n,
{
    if n > 0 {
        lemma_cube_next_wf(m, fp);
        let q = spec_cube_next(m, fp);
        if spec_tile_fp(m, q) != Tile::Closed {
            lemma_cube_move_wf(m, q, (n - 1) as nat);
        }
    }
}

/// Any instruction under cube wrapping keeps a position well formed.
proof fn lemma_cube_follow_wf(m: CubeMap, fp: FacePosition, instruction: Instruction)
    requires
        cm_wf(m),
        fp_wf(m.cube, fp),
    ensures
        fp_wf(m.cube, spec_cube_follow(m, fp, instruction)),
{
    match instruction {
        Instruction::Move(n) => lemma_cube_move_wf(m, fp, n as nat),
        Instruction::Turn(t) => (),
    }
}

/// Maps with view-equal nets and the same cube read the same tile under
/// any well-formed face position.
proof fn lemma_same_tile_fp(m1: CubeMap, m2: CubeMap, fp: FacePosition)
    requires
        same_net(m1.net, m2.net),
        m1.cube == m2.cube,
        cm_wf(m1),
        fp_wf(m1.cube, fp),
    ensures
        spec_tile_fp(m1, fp) == spec_tile_fp(m2, fp),
{
    lemma_net_pos_wf(m1, fp);
    let p = spec_net_pos(m1, fp);
    assert(spec_net_pos(m2, fp) == p);
    lemma_same_net_tile(m1.net, m2.net, p.pos.0 as int, p.pos.1 as int);
}

/// Maps with view-equal nets and the same cube move alike.
proof fn lemma_same_move(m1: CubeMap, m2: CubeMap, fp: FacePosition, n: nat)
    requires
        same_net(m1.net, m2.net),
        m1.cube == m2.cube,
        cm_wf(m1),
        fp_wf(m1.cube, fp),
    ensures
        spec_cube_move(m1, fp, n) == spec_cube_move(m2, fp, n),
    decreases n,
{
    if n > 0 {
        let q = spec_cube_next(m1, fp);
        assert(spec_cube_next(m2, fp) == q);
        lemma_cube_next_wf(m1, fp);
        lemma_same_tile_fp(m1, m2, q);
        if spec_tile_fp(m1, q) != Tile::Closed {
            lemma_same_move(m1, m2, q, (n - 1) as nat);
        }
    }
}

/// Maps with view-equal nets and the same cube walk alike.
proof fn lemma_same_walk(m1: CubeMap, m2: CubeMap, fp: FacePosition, instrs: Seq<Instruction>)
    requires
        same_net(m1.net, m2.net),
        m1.cube == m2.cube,
        cm_wf(m1),
        fp_wf(m1.cube, fp),
    ensures
        spec_cube_walk(m1, fp, instrs) == spec_cube_walk(m2, fp, instrs),
    decreases instrs.len(),
{
    if instrs.len() > 0 {
        match instrs[0] {
            Instruction::Move(n) => {
                lemma_same_move(m1, m2, fp, n as nat);
            },
            Instruction::Turn(t) => (),
        }
        lemma_cube_follow_wf(m1, fp, instrs[0]);
        lemma_same_walk(m1, m2, spec_cube_follow(m1, fp, instrs[0]), instrs.drop_first());
    }
}

/// Law: the cube walk score depends only on the net's contents and the
/// cube, not on which copy of the net the map holds.
pub proof fn lemma_same_score(m1: CubeMap, m2: CubeMap, instrs: Seq<Instruction>)
    requires
        same_net(m1.net, m2.net),
        m1.cube == m2.cube,
        cm_wf(m1),
    ensures
        spec_cube_score_instructions(m1, instrs) == spec_cube_score_instructions(m2, instrs),
{
    lemma_same_net_first_open(m1.net, m2.net, 0);
    assert(m1.net.spec_start() == m2.net.spec_start());
    if spec_cube_start(m1) is Some {
        assert(spec_cube_start(m2) == spec_cube_start(m1));
        lemma_cube_start_wf(m1);
        lemma_same_walk(m1, m2, spec_cube_start(m1)->0, instrs);
    } else {
        assert(spec_cube_start(m2) is None);
    }
}

/// The direction turned around by two quarter turns.
pub open spec fn spec_opposite(d: Vec2) -> Vec2 {
    Vec2((-d.0) as isize, (-d.1) as isize)
}

/// Does the facing direction of `fp` point off its face?
pub open spec fn exits_face(c: Cube, fp: FacePosition) -> bool {
    let s = c.face_size as int;
    let q = spec_step_local(fp);
    q.position.pos.0 < 0 || q.position.pos.1 < 0 || q.position.pos.0 >= s || q.position.pos.1 >= s
}

/// Law: edge crossing is its own inverse. Walking off any face edge and
/// immediately walking back — turn around by two quarter turns, then step
/// once — returns to the original face and the original local position,
/// with the facing reversed.
pub proof fn lemma_wrap_round_trip(c: Cube, fp: FacePosition)
    requires
        cube_wf(c),
        fp_wf(c, fp),
        exits_face(c, fp),
    ensures
        ({
            let q = spec_face_wrap(c, spec_step_local(fp));
            let back = FacePosition {
                face: q.face,
                position: BasicPosition { pos: q.position.pos, dir: spec_opposite(q.position.dir) },
            };
            let r = spec_face_wrap(c, spec_step_local(back));
            &&& r.face == fp.face
            &&& r.position.pos == fp.position.pos
            &&& r.position.dir == spec_opposite(fp.position.dir)
        }),
{
    let s = c.face_size as int;
    let max = s - 1;
    let stepped = spec_step_local(fp);
    lemma_step_local_stepped(c, fp);
    lemma_face_wrap_wf(c, stepped);
    let fi = choose|i: int| 0 <= i < 6 && (#[trigger] c.faces@[i]) == fp.face;
    let x = stepped.position.pos.0 as int;
    let y = stepped.position.pos.1 as int;
    let d: int = if x < 0 {
        0
    } else if y < 0 {
        1
    } else if x > max {
        2
    } else {
        3
    };
    let target = fp.face.adjacent@[d];
    assert(edge_closed(c, fi, d));
    assert(edge_symmetric(c, fi, d));
    assert(c.spec_has_face(target)) by {
        let j = choose|j: int|
            0 <= j < 6 && (#[trigger] c.faces@[j]).position == c.faces@[fi].adjacent@[d];
        assert(c.faces@[j].position == target);
    }
    lemma_face_at_position(c, target);
    let g = c.spec_face_at(target);
    let q = spec_face_wrap(c, stepped);
    assert(q.face == g);
    // the entry edge of g points back at fp.face
    let d2: int = if g.adjacent@[0] == fp.face.position {
        0
    } else if g.adjacent@[1] == fp.face.position {
        1
    } else if g.adjacent@[2] == fp.face.position {
        2
    } else {
        3
    };
    assert(g.adjacent@[d2] == fp.face.position) by {
        let (j, e2) = choose|j: int, e2: int|
            0 <= j < 6 && 0 <= e2 < 4 && c.faces@[j].position == c.faces@[fi].adjacent@[d] && (
            #[trigger] c.faces@[j].adjacent@[e2]) == c.faces@[fi].position;
        let gi = c.spec_face_idx(target);
        if j < gi {
            assert(c.faces@[j].position != c.faces@[gi].position);
        } else if (gi < j) {
            assert(c.faces@[gi].position != c.faces@[j].position);
        }
        assert(c.faces@[j] == g);
        assert(g.adjacent@[e2] == fp.face.position);
    }
    let back = FacePosition {
        face: q.face,
        position: BasicPosition { pos: q.position.pos, dir: spec_opposite(q.position.dir) },
    };
    let stepped2 = spec_step_local(back);
    // stepping back exits g through the entered edge d2
    let x2 = stepped2.position.pos.0 as int;
    let y2 = stepped2.position.pos.1 as int;
    let dd: int = if x2 < 0 {
        0
    } else if y2 < 0 {
        1
    } else if x2 > max {
        2
    } else {
        3
    };
    assert(dd == d2);
    // and g's neighbour across that edge is fp.face itself
    let gi = c.spec_face_idx(target);
    assert(c.faces@[gi] == g);
    lemma_face_at_of_member(c, fp.face);
    let r = spec_face_wrap(c, stepped2);
    assert(r.face == fp.face);
    // fp.face's edge pointing at g is the exit edge d, and no other
    let fidx = c.spec_face_idx(fp.face.position);
    assert(c.faces@[fidx] == fp.face);
    assert(fp.face.adjacent@[d] == g.position);
    assert forall|e: int| 0 <= e < 4 && e != d implies fp.face.adjacent@[e] != g.position by {
        if e < d {
            assert(c.faces@[fidx].adjacent@[e] != c.faces@[fidx].adjacent@[d]);
        } else {
            assert(c.faces@[fidx].adjacent@[d] != c.faces@[fidx].adjacent@[e]);
        }
    }
    assert(r.position.pos == fp.position.pos && r.position.dir == spec_opposite(fp.position.dir));
}


/// Law: a `Move(0)` instruction never changes the face position.
pub proof fn lemma_cube_move_zero(m: CubeMap, fp: FacePosition)
    ensures
        spec_cube_follow(m, fp, Instruction::Move(0)) == fp,
{
}

/// Law: a `Move(n)` instruction whose first step faces a closed tile
/// leaves the face position unchanged.
pub proof fn lemma_cube_move_blocked(m: CubeMap, fp: FacePosition, n: usize)
    requires
        spec_tile_fp(m, spec_cube_next(m, fp)) == Tile::Closed,
    ensures
        spec_cube_follow(m, fp, Instruction::Move(n)) == fp,
{
    if n > 0 {
        assert(spec_cube_move(m, fp, n as nat) == fp);
    }
}

/// Law: the cube walk score is a pure function of the map and the
/// instruction stream: equal inputs give equal scores.
pub proof fn lemma_cube_score_deterministic(
    m1: CubeMap,
    m2: CubeMap,
    i1: Seq<Instruction>,
    i2: Seq<Instruction>,
)
    requires
        m1 == m2,
        i1 == i2,
    ensures
        spec_cube_score_instructions(m1, i1) == spec_cube_score_instructions(m2, i2),
{
}

} // verus!
