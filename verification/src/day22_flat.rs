use crate::day22_parse::{Instruction, Tile, Turn};
use crate::vec2::Vec2;
use vstd::prelude::*;
use vstd::string::StringSliceAdditionalSpecFns;

verus! {

/// A position on the flat net: a tile coordinate and a facing direction,
/// both as vectors (x = column, y = row).
#[derive(Copy, Clone, Debug, PartialEq, Eq, Structural)]
pub struct BasicPosition {
    pub pos: Vec2,
    pub dir: Vec2,
}

/// The parsed net: a rectangular grid of tiles, its dimensions, and the edge
/// length of one cube face.
#[derive(Clone, Debug)]
pub struct BasicMap {
    pub map: Vec<Vec<Tile>>,
    pub width: isize,
    pub height: isize,
    pub face_size: usize,
}

/// Is `d` one of the four cardinal unit vectors?
pub open spec fn dir_unit(d: Vec2) -> bool {
    d == (Vec2(1, 0)) || d == (Vec2(-1 as isize, 0)) || d == (Vec2(0, 1)) || d == (Vec2(0, -1 as isize))
}

/// Multiplying by a factor that is 1, -1 or 0 selects the factor, its
/// negation, or zero.
proof fn lemma_unit_mul(d: int, f: int)
    requires
        d == 1 || d == -1 || d == 0,
    ensures
        d * f == (if d == 1 {
            f
        } else if d == -1 {
            -f
        } else {
            0
        }),
{
    assert(d * f == (if d == 1 {
        f
    } else if d == -1 {
        -f
    } else {
        0
    })) by (nonlinear_arith)
        requires
            d == 1 || d == -1 || d == 0,
    ;
}

impl BasicMap {
    /// The grid is rectangular, non-empty, of bounded size, and the face
    /// size fits inside both dimensions.
    pub open spec fn wf(self) -> bool {
        &&& self.map@.len() == self.height
        &&& 0 < self.height <= 0x10000
        &&& 0 < self.width <= 0x10000
        &&& forall|y: int| 0 <= y < self.height ==> (#[trigger] self.map@[y])@.len() == self.width
        &&& 1 <= self.face_size
        &&& self.face_size <= self.width
        &&& self.face_size <= self.height
    }

    /// The tile of the grid at column `x`, row `y`.
    pub open spec fn spec_tile(self, x: int, y: int) -> Tile {
        self.map@[y]@[x]
    }

    /// Is `p` a position on this map: in bounds and facing a cardinal
    /// direction?
    pub open spec fn pos_wf(self, p: BasicPosition) -> bool {
        &&& 0 <= p.pos.0 < self.width
        &&& 0 <= p.pos.1 < self.height
        &&& dir_unit(p.dir)
    }

    /// One raw step of length `factor` in the facing direction, wrapped
    /// toroidally: a coordinate that leaves the grid on one side re-enters
    /// on the other.
    pub open spec fn spec_step(self, p: BasicPosition, factor: int) -> BasicPosition {
        let nx = p.pos.0 + p.dir.0 * factor;
        let ny = p.pos.1 + p.dir.1 * factor;
        let wx = if nx < 0 {
            nx + self.width
        } else if nx >= self.width {
            nx - self.width
        } else {
            nx
        };
        let wy = if ny < 0 {
            ny + self.height
        } else if ny >= self.height {
            ny - self.height
        } else {
            ny
        };
        BasicPosition { pos: Vec2(wx as isize, wy as isize), dir: p.dir }
    }

    /// Starting from `p`, skip over `Void` tiles by strides of the face
    /// size, giving up after `fuel` strides.
    pub open spec fn spec_skip_void(self, p: BasicPosition, fuel: nat) -> BasicPosition
        decreases fuel,
    {
        if fuel == 0 {
            p
        } else if self.spec_tile(p.pos.0 as int, p.pos.1 as int) != Tile::Void {
            p
        } else {
            self.spec_skip_void(self.spec_step(p, self.face_size as int), (fuel - 1) as nat)
        }
    }

    /// The stride budget for the void skip: enough to cross the whole grid
    /// on either axis.
    pub open spec fn spec_fuel(self) -> nat {
        (self.width + self.height) as nat
    }

    /// The successor of `p` under flat toroidal wrapping: one unit step,
    /// then void tiles are skipped by face-size strides.
    pub open spec fn spec_next(self, p: BasicPosition) -> BasicPosition {
        self.spec_skip_void(self.spec_step(p, 1), self.spec_fuel())
    }

    /// A raw step keeps a position on the map.
    pub proof fn lemma_step_wf(self, p: BasicPosition, factor: int)
        requires
            self.wf(),
            self.pos_wf(p),
            1 <= factor <= self.face_size,
        ensures
            self.pos_wf(self.spec_step(p, factor)),
            self.spec_step(p, factor).dir == p.dir,
    {
        lemma_unit_mul(p.dir.0 as int, factor);
        lemma_unit_mul(p.dir.1 as int, factor);
    }

    /// The void skip keeps a position on the map and does not turn it.
    pub proof fn lemma_skip_wf(self, p: BasicPosition, fuel: nat)
        requires
            self.wf(),
            self.pos_wf(p),
        ensures
            self.pos_wf(self.spec_skip_void(p, fuel)),
            self.spec_skip_void(p, fuel).dir == p.dir,
        decreases fuel,
    {
        if fuel == 0 {
        } else if self.spec_tile(p.pos.0 as int, p.pos.1 as int) != Tile::Void {
        } else {
            self.lemma_step_wf(p, self.face_size as int);
            self.lemma_skip_wf(self.spec_step(p, self.face_size as int), (fuel - 1) as nat);
        }
    }


    /// Parse the net text into a grid: each line becomes a row, padded on
    /// the right with void tiles to the width of the longest line. `None`
    /// exactly when the text is not a net this crate accepts (see
    /// [`valid_net_text`]).
    pub fn parse(raw: &str) -> (r: Option<BasicMap>)
        ensures
            r is Some <==> valid_net_text(raw.spec_bytes()),
            r is Some ==> parses_to(raw.spec_bytes(), r->0),
    {
        let bytes = raw.as_bytes();
        let n = bytes.len();
        let mut i: usize = 0;
        while i < n
            invariant
                0 <= i <= n,
                n == bytes.len(),
                bytes@ == raw.spec_bytes(),
                forall|j: int| 0 <= j < i ==> is_net_byte(#[trigger] bytes@[j]),
            decreases n - i,
        {
            let b = bytes[i];
            if !(b == BYTE_NL || b == BYTE_SPACE || b == BYTE_HASH || b == BYTE_DOT) {
                return None;
            }
            i = i + 1;
        }
        let lines = split_lines(bytes);
        let height = lines.len();
        if height == 0 || height > 0x10000 {
            return None;
        }
        let width = longest_line(&lines);
        if width == 0 || width > 0x10000 {
            return None;
        }
        let fs = crate::day22_cube::face_size(width, height);
        if fs < 1 || fs > width || fs > height {
            return None;
        }
        let mut map: Vec<Vec<Tile>> = Vec::new();
        let mut y: usize = 0;
        while y < height
            invariant
                0 <= y <= height,
                height == lines@.len(),
                map@.len() == y,
                forall|j: int| 0 <= j < y ==> (#[trigger] map@[j])@ == pad_line(
                    lines.deep_view()[j],
                    width as int,
                ),
            decreases height - y,
        {
            let line = &lines[y];
            let line_len = line.len();
            let mut row: Vec<Tile> = Vec::new();
            let mut x: usize = 0;
            while x < width
                invariant
                    0 <= x <= width,
                    0 <= y < height,
                    height == lines@.len(),
                    line@ == lines@[y as int]@,
                    line_len == line@.len(),
                    row@.len() == x,
                    forall|j: int| 0 <= j < x ==> row@[j] == pad_line(
                        lines.deep_view()[y as int],
                        width as int,
                    )[j],
                decreases width - x,
            {
                let t = if x < line_len {
                    tile_from_byte(line[x])
                } else {
                    Tile::Void
                };
                row.push(t);
                x = x + 1;
            }
            proof {
                assert(row@ =~= pad_line(lines.deep_view()[y as int], width as int));
            }
            map.push(row);
            y = y + 1;
        }
        Some(BasicMap { map, width: width as isize, height: height as isize, face_size: fs })
    }

    /// The tile under a position.
    pub fn tile_at(&self, pos: BasicPosition) -> (r: Tile)
        requires
            self.wf(),
            self.pos_wf(pos),
        ensures
            r == self.spec_tile(pos.pos.0 as int, pos.pos.1 as int),
    {
        *pos.pos.index(&self.map)
    }

    /// One raw wrapped step of length `factor`, as in [`BasicMap::spec_step`].
    fn step(&self, pos: BasicPosition, factor: usize) -> (r: BasicPosition)
        requires
            self.wf(),
            self.pos_wf(pos),
            1 <= factor <= self.face_size,
        ensures
            r == self.spec_step(pos, factor as int),
            self.pos_wf(r),
    {
        proof {
            self.lemma_step_wf(pos, factor as int);
            lemma_unit_mul(pos.dir.0 as int, factor as int);
            lemma_unit_mul(pos.dir.1 as int, factor as int);
        }
        let mut p = pos;
        p.pos = p.pos.add(p.dir.mul(factor as isize));
        if p.pos.0 < 0 {
            p.pos.0 = p.pos.0 + self.width;
        } else if p.pos.0 >= self.width {
            p.pos.0 = p.pos.0 - self.width;
        } else if p.pos.1 < 0 {
            p.pos.1 = p.pos.1 + self.height;
        } else if p.pos.1 >= self.height {
            p.pos.1 = p.pos.1 - self.height;
        }
        p
    }

    /// The successor position under flat toroidal wrapping. On a map whose
    /// void regions come in face-sized blocks the result is the first
    /// non-void tile in the facing direction.
    pub fn next_position(&self, pos: BasicPosition) -> (r: BasicPosition)
        requires
            self.wf(),
            self.pos_wf(pos),
        ensures
            r == self.spec_next(pos),
            self.pos_wf(r),
            r.dir == pos.dir,
            blocks_aligned(*self) ==> self.spec_tile(r.pos.0 as int, r.pos.1 as int)
                != Tile::Void,
    {
        proof {
            if blocks_aligned(*self) {
                lemma_next_non_void(*self, pos);
            }
        }
        let mut p = self.step(pos, 1);
        let ghost p0 = p;
        let mut fuel: usize = (self.width as usize) + (self.height as usize);
        while fuel > 0 && self.tile_at(p) == Tile::Void
            invariant
                self.wf(),
                self.pos_wf(p),
                p.dir == pos.dir,
                fuel <= self.spec_fuel(),
                self.spec_skip_void(p0, self.spec_fuel()) == self.spec_skip_void(p, fuel as nat),
            decreases fuel,
        {
            p = self.step(p, self.face_size);
            fuel = fuel - 1;
        }
        proof {
            self.lemma_skip_wf(p0, self.spec_fuel());
        }
        p
    }

    /// The position turned a quarter left or right in place.
    pub fn turn_position(pos: BasicPosition, turn: Turn) -> (r: BasicPosition)
        requires
            dir_unit(pos.dir),
        ensures
            r == BasicMap::spec_turn(pos, turn),
            r.pos == pos.pos,
            dir_unit(r.dir),
    {
        let dir = match turn {
            Turn::Left => Vec2::new(pos.dir.1, -pos.dir.0),
            Turn::Right => Vec2::new(-pos.dir.1, pos.dir.0),
        };
        BasicPosition { pos: pos.pos, dir }
    }

    /// The direction after a quarter turn: left is (y, -x), right is
    /// (-y, x), in column/row coordinates where y grows downward.
    pub open spec fn spec_turn(p: BasicPosition, turn: Turn) -> BasicPosition {
        match turn {
            Turn::Left => BasicPosition {
                pos: p.pos,
                dir: Vec2((p.dir.1) as isize, (-p.dir.0) as isize),
            },
            Turn::Right => BasicPosition {
                pos: p.pos,
                dir: Vec2((-p.dir.1) as isize, (p.dir.0) as isize),
            },
        }
    }

    /// The first `Open` column of the top row, or -1 when there is none,
    /// scanning from column `i`.
    pub open spec fn spec_first_open_from(self, i: int) -> int
        decreases self.width - i,
    {
        if i < 0 || i >= self.width {
            -1
        } else if self.spec_tile(i, 0) == Tile::Open {
            i
        } else {
            self.spec_first_open_from(i + 1)
        }
    }

    /// The start of every walk: the leftmost open tile of the top row,
    /// facing right; `None` when the top row has no open tile.
    pub open spec fn spec_start(self) -> Option<BasicPosition> {
        let x = self.spec_first_open_from(0);
        if x == -1 {
            None
        } else {
            Some(BasicPosition { pos: Vec2(x as isize, 0), dir: Vec2(1, 0) })
        }
    }

    /// Find the start position, as in [`BasicMap::spec_start`].
    pub fn start_point(&self) -> (r: Option<BasicPosition>)
        requires
            self.wf(),
        ensures
            r == self.spec_start(),
            r is Some ==> self.pos_wf(r->0),
    {
        let mut x: isize = 0;
        while x < self.width
            invariant
                self.wf(),
                0 <= x <= self.width,
                self.spec_first_open_from(0) == self.spec_first_open_from(x as int),
            decreases self.width - x,
        {
            if self.map[0][x as usize] == Tile::Open {
                return Some(BasicPosition { pos: Vec2::new(x, 0), dir: Vec2::new(1, 0) });
            }
            x = x + 1;
        }
        None
    }

    /// The score of a final position:
    /// `1000 * (row + 1) + 4 * (column + 1) + facing`, where facing scores
    /// 0, 1, 2, 3 for right, down, left, up.
    pub open spec fn spec_facing_score(d: Vec2) -> int {
        if d == (Vec2(1, 0)) {
            0
        } else if d == (Vec2(0, 1)) {
            1
        } else if d == (Vec2(-1 as isize, 0)) {
            2
        } else {
            3
        }
    }

    /// The score of a position, see [`BasicMap::spec_facing_score`].
    pub open spec fn spec_score(self, p: BasicPosition) -> int {
        1000 * (p.pos.1 + 1) + 4 * (p.pos.0 + 1) + Self::spec_facing_score(p.dir)
    }

    /// Score a final position.
    pub fn score_position(&self, pos: BasicPosition) -> (r: usize)
        requires
            self.wf(),
            self.pos_wf(pos),
        ensures
            r == self.spec_score(pos),
    {
        let facing_score: usize = if pos.dir.0 == 1 {
            0
        } else if pos.dir.1 == 1 {
            1
        } else if pos.dir.0 == -1 {
            2
        } else {
            3
        };
        ((pos.pos.1 + 1) * 1000 + (pos.pos.0 + 1) * 4) as usize + facing_score
    }

    /// `Move(n)`: up to `n` unit steps, stopping early just before the
    /// first closed tile. `Turn(t)`: a quarter turn in place.
    pub open spec fn spec_move(self, p: BasicPosition, n: nat) -> BasicPosition
        decreases n,
    {
        if n == 0 {
            p
        } else {
            let q = self.spec_next(p);
            if self.spec_tile(q.pos.0 as int, q.pos.1 as int) == Tile::Closed {
                p
            } else {
                self.spec_move(q, (n - 1) as nat)
            }
        }
    }

    /// The effect of one instruction on a position.
    pub open spec fn spec_follow(self, p: BasicPosition, instruction: Instruction) -> BasicPosition {
        match instruction {
            Instruction::Move(n) => self.spec_move(p, n as nat),
            Instruction::Turn(t) => Self::spec_turn(p, t),
        }
    }

    /// A move keeps a position on the map.
    pub proof fn lemma_move_wf(self, p: BasicPosition, n: nat)
        requires
            self.wf(),
            self.pos_wf(p),
        ensures
            self.pos_wf(self.spec_move(p, n)),
        decreases n,
    {
        if n == 0 {
        } else {
            self.lemma_step_wf(p, 1);
            self.lemma_skip_wf(self.spec_step(p, 1), self.spec_fuel());
            let q = self.spec_next(p);
            if self.spec_tile(q.pos.0 as int, q.pos.1 as int) == Tile::Closed {
            } else {
                self.lemma_move_wf(q, (n - 1) as nat);
            }
        }
    }

    /// Any instruction keeps a position on the map.
    pub proof fn lemma_follow_wf(self, p: BasicPosition, instruction: Instruction)
        requires
            self.wf(),
            self.pos_wf(p),
        ensures
            self.pos_wf(self.spec_follow(p, instruction)),
    {
        match instruction {
            Instruction::Move(n) => self.lemma_move_wf(p, n as nat),
            Instruction::Turn(t) => (),
        }
    }

    /// Apply one instruction, as in [`BasicMap::spec_follow`].
    pub fn follow_instruction(&self, pos: BasicPosition, instruction: Instruction) -> (r:
        BasicPosition)
        requires
            self.wf(),
            self.pos_wf(pos),
        ensures
            r == self.spec_follow(pos, instruction),
            self.pos_wf(r),
    {
        match instruction {
            Instruction::Move(n) => {
                let mut p = pos;
                let mut k: usize = 0;
                while k < n
                    invariant
                        self.wf(),
                        self.pos_wf(p),
                        0 <= k <= n,
                        instruction == (Instruction::Move(n)),
                        self.spec_move(pos, n as nat) == self.spec_move(p, (n - k) as nat),
                    decreases n - k,
                {
                    let new_pos = self.next_position(p);
                    if self.tile_at(new_pos) == Tile::Closed {
                        proof {
                            assert(self.spec_move(p, (n - k) as nat) == p);
                        }
                        return p;
                    }
                    p = new_pos;
                    k = k + 1;
                }
                p
            },
            Instruction::Turn(t) => Self::turn_position(pos, t),
        }
    }

    /// The final position after following every instruction in order.
    pub open spec fn spec_walk(self, p: BasicPosition, instructions: Seq<Instruction>)
        -> BasicPosition
        decreases instructions.len(),
    {
        if instructions.len() == 0 {
            p
        } else {
            self.spec_walk(self.spec_follow(p, instructions[0]), instructions.drop_first())
        }
    }

    /// A whole walk keeps a position on the map.
    pub proof fn lemma_walk_wf(self, p: BasicPosition, instructions: Seq<Instruction>)
        requires
            self.wf(),
            self.pos_wf(p),
        ensures
            self.pos_wf(self.spec_walk(p, instructions)),
        decreases instructions.len(),
    {
        if instructions.len() == 0 {
        } else {
            self.lemma_follow_wf(p, instructions[0]);
            self.lemma_walk_wf(self.spec_follow(p, instructions[0]), instructions.drop_first());
        }
    }

    /// The score of the walk that starts at the leftmost open tile of the
    /// top row and follows every instruction; `None` when the top row has
    /// no open tile.
    pub open spec fn spec_score_instructions(self, instructions: Seq<Instruction>) -> Option<int> {
        match self.spec_start() {
            None => None,
            Some(p0) => Some(self.spec_score(self.spec_walk(p0, instructions))),
        }
    }

    /// Walk the whole instruction stream from the start position and score
    /// where the agent ends, as in [`BasicMap::spec_score_instructions`].
    pub fn score_instructions(&self, instructions: &Vec<Instruction>) -> (r: Option<usize>)
        requires
            self.wf(),
        ensures
            match r {
                None => self.spec_score_instructions(instructions@) is None,
                Some(s) => self.spec_score_instructions(instructions@) == Some(s as int),
            },
    {
        let start = self.start_point();
        match start {
            None => None,
            Some(p0) => {
                let mut p = p0;
                let mut i: usize = 0;
                let n = instructions.len();
                proof {
                    assert(instructions@.skip(0) =~= instructions@);
                }
                while i < n
                    invariant
                        self.wf(),
                        self.pos_wf(p),
                        0 <= i <= n,
                        n == instructions@.len(),
                        self.spec_walk(p0, instructions@) == self.spec_walk(
                            p,
                            instructions@.skip(i as int),
                        ),
                    decreases n - i,
                {
                    proof {
                        assert(instructions@.skip(i as int).drop_first() =~= instructions@.skip(
                            i as int + 1,
                        ));
                    }
                    p = self.follow_instruction(p, instructions[i]);
                    i = i + 1;
                }
                proof {
                    assert(instructions@.skip(n as int) =~= Seq::<Instruction>::empty());
                }
                Some(self.score_position(p))
            },
        }
    }
}


/// The byte value of a newline.
pub const BYTE_NL: u8 = 10;

/// The byte value of a space, a void tile.
pub const BYTE_SPACE: u8 = 32;

/// The byte value of '#', a closed tile.
pub const BYTE_HASH: u8 = 35;

/// The byte value of '.', an open tile.
pub const BYTE_DOT: u8 = 46;

/// May this byte appear in the net text?
pub open spec fn is_net_byte(b: u8) -> bool {
    b == BYTE_NL || b == BYTE_SPACE || b == BYTE_HASH || b == BYTE_DOT
}

/// The tile denoted by one byte of the net text; anything but '.' and '#'
/// is void.
pub open spec fn tile_of(b: u8) -> Tile {
    if b == BYTE_DOT {
        Tile::Open
    } else if b == BYTE_HASH {
        Tile::Closed
    } else {
        Tile::Void
    }
}

/// Split `bytes` at newlines, when the lines `done` are already complete
/// and `cur` is the partial line being read. A final line without a
/// trailing newline still counts; a trailing newline adds no empty line.
pub open spec fn spec_split_acc(bytes: Seq<u8>, done: Seq<Seq<u8>>, cur: Seq<u8>) -> Seq<Seq<u8>>
    decreases bytes.len(),
{
    if bytes.len() == 0 {
        if cur.len() == 0 {
            done
        } else {
            done.push(cur)
        }
    } else if bytes[0] == BYTE_NL {
        spec_split_acc(bytes.drop_first(), done.push(cur), Seq::empty())
    } else {
        spec_split_acc(bytes.drop_first(), done, cur.push(bytes[0]))
    }
}

/// The lines of the net text.
pub open spec fn spec_lines(bytes: Seq<u8>) -> Seq<Seq<u8>> {
    spec_split_acc(bytes, Seq::empty(), Seq::empty())
}

/// The length of the longest line.
pub open spec fn max_line_len(lines: Seq<Seq<u8>>) -> int
    decreases lines.len(),
{
    if lines.len() == 0 {
        0
    } else if max_line_len(lines.drop_last()) < lines.last().len() {
        lines.last().len() as int
    } else {
        max_line_len(lines.drop_last())
    }
}

/// One line padded with void tiles to the width of the grid.
pub open spec fn pad_line(line: Seq<u8>, width: int) -> Seq<Tile> {
    Seq::new(
        width as nat,
        |x: int|
            if x < line.len() {
                tile_of(line[x])
            } else {
                Tile::Void
            },
    )
}

/// Does `bytes` describe a net this crate accepts: only net bytes, at
/// least one line, a bounded grid, and a face size of at least one tile
/// that fits inside both dimensions?
pub open spec fn valid_net_text(bytes: Seq<u8>) -> bool {
    let lines = spec_lines(bytes);
    let w = max_line_len(lines);
    let h = lines.len() as int;
    let fs = crate::day22_cube::spec_face_size(w, h);
    &&& forall|i: int| 0 <= i < bytes.len() ==> is_net_byte(#[trigger] bytes[i])
    &&& 0 < h <= 0x10000
    &&& 0 < w <= 0x10000
    &&& 1 <= fs
    &&& fs <= w
    &&& fs <= h
}

/// Is `m` the parse of the net text `bytes`: each line a row, padded on
/// the right with void tiles to the width of the longest line, with the
/// face size the bounding box implies?
pub open spec fn parses_to(bytes: Seq<u8>, m: BasicMap) -> bool {
    let lines = spec_lines(bytes);
    &&& m.wf()
    &&& m.height == lines.len()
    &&& m.width == max_line_len(lines)
    &&& m.face_size == crate::day22_cube::spec_face_size(max_line_len(lines), lines.len() as int)
    &&& forall|y: int|
        0 <= y < m.height ==> (#[trigger] m.map@[y])@ == pad_line(lines[y], m.width as int)
}

/// Do two maps hold the same net?
pub open spec fn same_net(a: BasicMap, b: BasicMap) -> bool {
    &&& a.map.deep_view() == b.map.deep_view()
    &&& a.width == b.width
    &&& a.height == b.height
    &&& a.face_size == b.face_size
}

impl BasicMap {
    /// An element-wise copy of the map.
    pub fn duplicate(&self) -> (r: BasicMap)
        ensures
            same_net(r, *self),
            self.wf() ==> r.wf(),
    {
        let h = self.map.len();
        let mut rows: Vec<Vec<Tile>> = Vec::new();
        let mut y: usize = 0;
        while y < h
            invariant
                0 <= y <= h,
                h == self.map@.len(),
                rows@.len() == y,
                forall|j: int| 0 <= j < y ==> (#[trigger] rows@[j])@ == self.map@[j]@,
            decreases h - y,
        {
            let row = &self.map[y];
            let w = row.len();
            let mut out: Vec<Tile> = Vec::new();
            let mut x: usize = 0;
            while x < w
                invariant
                    0 <= x <= w,
                    0 <= y < h,
                    h == self.map@.len(),
                    w == row@.len(),
                    row@ == self.map@[y as int]@,
                    out@ == row@.take(x as int),
                decreases w - x,
            {
                out.push(row[x]);
                proof {
                    assert(out@ =~= row@.take(x as int + 1));
                }
                x = x + 1;
            }
            proof {
                assert(out@ =~= row@);
            }
            rows.push(out);
            y = y + 1;
        }
        proof {
            assert(rows.deep_view() =~~= self.map.deep_view());
            assert forall|j: int| 0 <= j < h implies (#[trigger] rows@[j])@.len()
                == self.map@[j]@.len() by {}
        }
        BasicMap {
            map: rows,
            width: self.width,
            height: self.height,
            face_size: self.face_size,
        }
    }
}

/// The tile denoted by one byte, as in [`tile_of`].
fn tile_from_byte(b: u8) -> (r: Tile)
    ensures
        r == tile_of(b),
{
    if b == BYTE_DOT {
        Tile::Open
    } else if b == BYTE_HASH {
        Tile::Closed
    } else {
        Tile::Void
    }
}

/// Split text at newlines, as in [`spec_lines`].
pub fn split_lines(bytes: &[u8]) -> (r: Vec<Vec<u8>>)
    ensures
        r.deep_view() == spec_lines(bytes@),
{
    let n = bytes.len();
    let mut done: Vec<Vec<u8>> = Vec::new();
    let mut cur: Vec<u8> = Vec::new();
    let mut i: usize = 0;
    proof {
        assert(bytes@.skip(0) =~= bytes@);
        assert(done.deep_view() =~~= Seq::<Seq<u8>>::empty());
        assert(cur@ =~= Seq::<u8>::empty());
    }
    while i < n
        invariant
            0 <= i <= n,
            n == bytes.len(),
            spec_lines(bytes@) == spec_split_acc(bytes@.skip(i as int), done.deep_view(), cur@),
        decreases n - i,
    {
        let b = bytes[i];
        proof {
            assert(bytes@.skip(i as int).drop_first() =~= bytes@.skip(i as int + 1));
            assert(bytes@.skip(i as int)[0] == b);
        }
        if b == BYTE_NL {
            let ghost old_done = done.deep_view();
            done.push(cur);
            cur = Vec::new();
            proof {
                assert(done.deep_view() =~~= old_done.push(done@.last()@));
                assert(cur@ =~= Seq::<u8>::empty());
            }
        } else {
            cur.push(b);
        }
        i = i + 1;
    }
    proof {
        assert(bytes@.skip(n as int) =~= Seq::<u8>::empty());
    }
    if cur.len() > 0 {
        let ghost old_done = done.deep_view();
        done.push(cur);
        proof {
            assert(done.deep_view() =~~= old_done.push(done@.last()@));
        }
    }
    done
}

/// The length of the longest of `lines`, as in [`max_line_len`].
fn longest_line(lines: &Vec<Vec<u8>>) -> (r: usize)
    ensures
        r == max_line_len(lines.deep_view()),
{
    let n = lines.len();
    let mut best: usize = 0;
    let mut i: usize = 0;
    proof {
        assert(lines.deep_view().take(0) =~= Seq::<Seq<u8>>::empty());
    }
    while i < n
        invariant
            0 <= i <= n,
            n == lines@.len(),
            best == max_line_len(lines.deep_view().take(i as int)),
        decreases n - i,
    {
        proof {
            assert(lines.deep_view().take(i as int + 1).drop_last() =~= lines.deep_view().take(
                i as int,
            ));
            assert(lines.deep_view().take(i as int + 1).last() == lines.deep_view()[i as int]);
        }
        let len = lines[i].len();
        if len > best {
            best = len;
        }
        i = i + 1;
    }
    proof {
        assert(lines.deep_view().take(n as int) =~= lines.deep_view());
    }
    best
}



/// Does row `y` of the net hold a tile?
pub open spec fn row_has_tile(m: BasicMap, y: int) -> bool {
    exists|x: int| 0 <= x < m.width && m.spec_tile(x, y) != Tile::Void
}

/// Does column `x` of the net hold a tile?
pub open spec fn col_has_tile(m: BasicMap, x: int) -> bool {
    exists|y: int| 0 <= y < m.height && m.spec_tile(x, y) != Tile::Void
}

/// The net predicate of a proper cube net: the sides are whole numbers
/// of faces, void tiles come in whole face-sized blocks, and every row
/// and every column crosses the net somewhere.
pub open spec fn blocks_aligned(m: BasicMap) -> bool {
    let s = m.face_size as int;
    &&& (m.width as int) % s == 0
    &&& (m.height as int) % s == 0
    &&& forall|x: int, y: int|
        0 <= x < m.width && 0 <= y < m.height ==> ((#[trigger] m.spec_tile(x, y)) == Tile::Void
            <==> m.spec_tile((x / s) * s, (y / s) * s) == Tile::Void)
    &&& forall|y: int| 0 <= y < m.height ==> #[trigger] row_has_tile(m, y)
    &&& forall|x: int| 0 <= x < m.width ==> #[trigger] col_has_tile(m, x)
}

/// The cyclic distance that a walk in direction `d` has still to cover
/// from `a` to `b` on a ring of size `w`.
pub open spec fn travel_dist(a: int, b: int, w: int, d: int) -> int {
    if d >= 0 {
        dist_to(a, b, w)
    } else {
        dist_to(b, a, w)
    }
}

/// On an aligned net, the void skip finds the tile whose aligned column
/// (or row, for a vertical walk) the witness names, or an earlier one.
proof fn lemma_skip_lands(m: BasicMap, p: BasicPosition, w1: int, fuel: nat)
    requires
        m.wf(),
        blocks_aligned(m),
        m.pos_wf(p),
        ({
            let s = m.face_size as int;
            if p.dir.0 != 0 {
                &&& 0 <= w1 < m.width
                &&& m.spec_tile(w1, p.pos.1 as int) != Tile::Void
                &&& w1 % s == p.pos.0 as int % s
                &&& travel_dist(p.pos.0 as int, w1, m.width as int, p.dir.0 as int) <= fuel * s
            } else {
                &&& 0 <= w1 < m.height
                &&& m.spec_tile(p.pos.0 as int, w1) != Tile::Void
                &&& w1 % s == p.pos.1 as int % s
                &&& travel_dist(p.pos.1 as int, w1, m.height as int, p.dir.1 as int) <= fuel * s
            }
        }),
    ensures
        ({
            let q = m.spec_skip_void(p, fuel);
            m.spec_tile(q.pos.0 as int, q.pos.1 as int) != Tile::Void
        }),
    decreases fuel,
{
    let s = m.face_size as int;
    if m.spec_tile(p.pos.0 as int, p.pos.1 as int) != Tile::Void {
    } else {
        let q = m.spec_step(p, s);
        lemma_unit_mul(p.dir.0 as int, s);
        lemma_unit_mul(p.dir.1 as int, s);
        m.lemma_step_wf(p, s);
        if p.dir.0 != 0 {
            let px = p.pos.0 as int;
            assert(px != w1);
            assert(travel_dist(px, w1, m.width as int, p.dir.0 as int) >= s) by {
                lemma_dist_multiple(px, w1, m.width as int, s);
                lemma_dist_multiple(w1, px, m.width as int, s);
            }
            assert(q.pos.1 == p.pos.1);
            assert(q.pos.0 as int % s == px % s && travel_dist(
                q.pos.0 as int,
                w1,
                m.width as int,
                p.dir.0 as int,
            ) == travel_dist(px, w1, m.width as int, p.dir.0 as int) - s) by {
                lemma_step_dist(px, w1, m.width as int, s, p.dir.0 as int, q.pos.0 as int);
            }
            assert((fuel - 1) * s == fuel * s - s) by (nonlinear_arith);
            lemma_skip_lands(m, q, w1, (fuel - 1) as nat);
        } else {
            let py = p.pos.1 as int;
            assert(py != w1);
            assert(travel_dist(py, w1, m.height as int, p.dir.1 as int) >= s) by {
                lemma_dist_multiple(py, w1, m.height as int, s);
                lemma_dist_multiple(w1, py, m.height as int, s);
            }
            assert(q.pos.0 == p.pos.0);
            assert(q.pos.1 as int % s == py % s && travel_dist(
                q.pos.1 as int,
                w1,
                m.height as int,
                p.dir.1 as int,
            ) == travel_dist(py, w1, m.height as int, p.dir.1 as int) - s) by {
                lemma_step_dist(py, w1, m.height as int, s, p.dir.1 as int, q.pos.1 as int);
            }
            assert((fuel - 1) * s == fuel * s - s) by (nonlinear_arith);
            lemma_skip_lands(m, q, w1, (fuel - 1) as nat);
        }
    }
}

/// The forward cyclic distance from `a` to `b` on a ring of size `w`.
pub open spec fn dist_to(a: int, b: int, w: int) -> int {
    if b >= a {
        b - a
    } else {
        b - a + w
    }
}

/// On a ring whose size the stride divides, the distance between two
/// points of one stride class is at least one stride when they differ.
proof fn lemma_dist_multiple(a: int, b: int, w: int, s: int)
    requires
        1 <= s <= w,
        w % s == 0,
        0 <= a < w,
        0 <= b < w,
        a % s == b % s,
        a != b,
    ensures
        dist_to(a, b, w) >= s,
        dist_to(a, b, w) % s == 0,
{
    vstd::arithmetic::div_mod::lemma_fundamental_div_mod(a, s);
    vstd::arithmetic::div_mod::lemma_fundamental_div_mod(b, s);
    vstd::arithmetic::div_mod::lemma_fundamental_div_mod(w, s);
    let qa = a / s;
    let qb = b / s;
    let qw = w / s;
    assert(a == qa * s + a % s && b == qb * s + b % s && w == qw * s) by (nonlinear_arith)
        requires
            a == s * qa + a % s,
            b == s * qb + b % s,
            w == s * qw + w % s,
            w % s == 0,
    ;
    if b >= a {
        assert(b - a == (qb - qa) * s) by (nonlinear_arith)
            requires
                a == qa * s + a % s,
                b == qb * s + b % s,
                a % s == b % s,
        ;
        assert(qb - qa >= 1) by (nonlinear_arith)
            requires
                b - a == (qb - qa) * s,
                b - a > 0,
                s >= 1,
        ;
        assert((qb - qa) * s >= s) by (nonlinear_arith)
            requires
                qb - qa >= 1,
                s >= 1,
        ;
        vstd::arithmetic::div_mod::lemma_mod_multiples_vanish(qb - qa, 0, s);
        assert(((qb - qa) * s + 0int) % s == 0int % s);
    } else {
        assert(b - a + w == (qb - qa + qw) * s) by (nonlinear_arith)
            requires
                a == qa * s + a % s,
                b == qb * s + b % s,
                w == qw * s,
                a % s == b % s,
        ;
        assert(qb - qa + qw >= 1) by (nonlinear_arith)
            requires
                b - a + w == (qb - qa + qw) * s,
                b - a + w > 0,
                s >= 1,
        ;
        assert((qb - qa + qw) * s >= s) by (nonlinear_arith)
            requires
                qb - qa + qw >= 1,
                s >= 1,
        ;
        vstd::arithmetic::div_mod::lemma_mod_multiples_vanish(qb - qa + qw, 0, s);
        assert(((qb - qa + qw) * s + 0int) % s == 0int % s);
    }
}

/// One wrapped stride toward the witness keeps the stride class and
/// shortens the cyclic distance by one stride.
proof fn lemma_step_dist(a: int, b: int, w: int, s: int, d: int, a2: int)
    requires
        1 <= s <= w,
        w % s == 0,
        0 <= a < w,
        0 <= b < w,
        a % s == b % s,
        a != b,
        d == 1 || d == -1,
        a2 == ({
            let raw = a + d * s;
            if raw < 0 {
                raw + w
            } else if raw >= w {
                raw - w
            } else {
                raw
            }
        }),
        travel_dist(a, b, w, d) >= s,
    ensures
        a2 % s == a % s,
        travel_dist(a2, b, w, d) == travel_dist(a, b, w, d) - s,
    decreases 0int,
{
    lemma_unit_mul(d, s);
    vstd::arithmetic::div_mod::lemma_fundamental_div_mod(w, s);
    let qw = w / s;
    assert(w == qw * s) by (nonlinear_arith)
        requires
            w == s * qw + w % s,
            w % s == 0,
    ;
    if d == 1 {
        if a + s >= w {
            assert(a2 == a + s - w);
            vstd::arithmetic::div_mod::lemma_mod_multiples_vanish(1 - qw, a, s);
            assert(s * (1 - qw) + a == a + s - w) by (nonlinear_arith)
                requires
                    w == qw * s,
            ;
        } else {
            assert(a2 == a + s);
            vstd::arithmetic::div_mod::lemma_mod_multiples_vanish(1, a, s);
        }
    } else {
        if a - s < 0 {
            assert(a2 == a - s + w);
            vstd::arithmetic::div_mod::lemma_mod_multiples_vanish(qw - 1, a, s);
            assert(s * (qw - 1) + a == a - s + w) by (nonlinear_arith)
                requires
                    w == qw * s,
            ;
        } else {
            assert(a2 == a - s);
            vstd::arithmetic::div_mod::lemma_mod_multiples_vanish(-1, a, s);
            assert(s * (-1) + a == a - s) by (nonlinear_arith);
        }
    }
}

/// Law: on an aligned net the flat successor of a position on the net
/// is itself on the net: the void skip always finds a tile.
#[verifier::rlimit(100)]
pub proof fn lemma_next_non_void(m: BasicMap, p: BasicPosition)
    requires
        m.wf(),
        blocks_aligned(m),
        m.pos_wf(p),
    ensures
        ({
            let r = m.spec_next(p);
            m.spec_tile(r.pos.0 as int, r.pos.1 as int) != Tile::Void
        }),
{
    let s = m.face_size as int;
    m.lemma_step_wf(p, 1);
    let p0 = m.spec_step(p, 1);
    vstd::arithmetic::div_mod::lemma_mod_bound(p0.pos.0 as int, s);
    vstd::arithmetic::div_mod::lemma_mod_bound(p0.pos.1 as int, s);
    if p.dir.0 != 0 {
        let y = p0.pos.1 as int;
        assert(row_has_tile(m, y));
        let xs = choose|x: int| 0 <= x < m.width && m.spec_tile(x, y) != Tile::Void;
        let r0 = (p0.pos.0 as int) % s;
        let w1 = (xs / s) * s + r0;
        vstd::arithmetic::div_mod::lemma_fundamental_div_mod(xs, s);
        vstd::arithmetic::div_mod::lemma_fundamental_div_mod(m.width as int, s);
        assert(xs == (xs / s) * s + xs % s && m.width as int == (m.width as int / s) * s)
            by (nonlinear_arith)
            requires
                xs == s * (xs / s) + xs % s,
                m.width as int == s * (m.width as int / s) + (m.width as int) % s,
                (m.width as int) % s == 0,
        ;
        vstd::arithmetic::div_mod::lemma_mod_bound(xs, s);
        assert(0 <= w1 < m.width) by (nonlinear_arith)
            requires
                w1 == (xs / s) * s + r0,
                xs == (xs / s) * s + xs % s,
                0 <= xs % s < s,
                0 <= r0 < s,
                0 <= xs < m.width,
                m.width as int == (m.width as int / s) * s,
                s >= 1,
        ;
        vstd::arithmetic::div_mod::lemma_fundamental_div_mod_converse(w1, s, xs / s, r0);
        vstd::arithmetic::div_mod::lemma_fundamental_div_mod_converse(
            xs,
            s,
            xs / s,
            xs % s,
        );
        assert(m.spec_tile(w1, y) != Tile::Void) by {
            assert(m.spec_tile(xs, y) != Tile::Void);
            assert((m.spec_tile(xs, y) == Tile::Void) == (m.spec_tile(
                (xs / s) * s,
                (y / s) * s,
            ) == Tile::Void));
            assert((m.spec_tile(w1, y) == Tile::Void) == (m.spec_tile(
                (w1 / s) * s,
                (y / s) * s,
            ) == Tile::Void));
            assert(w1 / s == xs / s);
        }
        assert(travel_dist(p0.pos.0 as int, w1, m.width as int, p.dir.0 as int) <= m.spec_fuel()
            * s) by (nonlinear_arith)
            requires
                travel_dist(p0.pos.0 as int, w1, m.width as int, p.dir.0 as int) < m.width as int,
                m.spec_fuel() == m.width + m.height,
                0 < m.width,
                0 < m.height,
                s >= 1,
        ;
        lemma_skip_lands(m, p0, w1, m.spec_fuel());
    } else {
        let x = p0.pos.0 as int;
        assert(col_has_tile(m, x));
        let ys = choose|y: int| 0 <= y < m.height && m.spec_tile(x, y) != Tile::Void;
        let r0 = (p0.pos.1 as int) % s;
        let w1 = (ys / s) * s + r0;
        vstd::arithmetic::div_mod::lemma_fundamental_div_mod(ys, s);
        vstd::arithmetic::div_mod::lemma_fundamental_div_mod(m.height as int, s);
        assert(ys == (ys / s) * s + ys % s && m.height as int == (m.height as int / s) * s)
            by (nonlinear_arith)
            requires
                ys == s * (ys / s) + ys % s,
                m.height as int == s * (m.height as int / s) + (m.height as int) % s,
                (m.height as int) % s == 0,
        ;
        vstd::arithmetic::div_mod::lemma_mod_bound(ys, s);
        assert(0 <= w1 < m.height) by (nonlinear_arith)
            requires
                w1 == (ys / s) * s + r0,
                ys == (ys / s) * s + ys % s,
                0 <= ys % s < s,
                0 <= r0 < s,
                0 <= ys < m.height,
                m.height as int == (m.height as int / s) * s,
                s >= 1,
        ;
        vstd::arithmetic::div_mod::lemma_fundamental_div_mod_converse(w1, s, ys / s, r0);
        vstd::arithmetic::div_mod::lemma_fundamental_div_mod_converse(
            ys,
            s,
            ys / s,
            ys % s,
        );
        assert(m.spec_tile(x, w1) != Tile::Void) by {
            assert(m.spec_tile(x, ys) != Tile::Void);
            assert((m.spec_tile(x, ys) == Tile::Void) == (m.spec_tile(
                (x / s) * s,
                (ys / s) * s,
            ) == Tile::Void));
            assert((m.spec_tile(x, w1) == Tile::Void) == (m.spec_tile(
                (x / s) * s,
                (w1 / s) * s,
            ) == Tile::Void));
            assert(w1 / s == ys / s);
        }
        assert(travel_dist(p0.pos.1 as int, w1, m.height as int, p.dir.1 as int) <= m.spec_fuel()
            * s) by (nonlinear_arith)
            requires
                travel_dist(p0.pos.1 as int, w1, m.height as int, p.dir.1 as int) < m.height
                    as int,
                m.spec_fuel() == m.width + m.height,
                0 < m.width,
                0 < m.height,
                s >= 1,
        ;
        lemma_skip_lands(m, p0, w1, m.spec_fuel());
    }
}

/// Law: a `Move(0)` instruction never changes the position.
pub proof fn lemma_flat_move_zero(m: BasicMap, p: BasicPosition)
    ensures
        m.spec_follow(p, Instruction::Move(0)) == p,
{
}

/// Law: a `Move(n)` instruction whose first step faces a closed tile
/// leaves the position unchanged.
pub proof fn lemma_flat_move_blocked(m: BasicMap, p: BasicPosition, n: usize)
    requires
        m.spec_tile(m.spec_next(p).pos.0 as int, m.spec_next(p).pos.1 as int) == Tile::Closed,
    ensures
        m.spec_follow(p, Instruction::Move(n)) == p,
{
    if n > 0 {
        assert(m.spec_move(p, n as nat) == p);
    }
}

/// Law: the flat walk score is a pure function of the grid and the
/// instruction stream: equal inputs give equal scores.
pub proof fn lemma_flat_score_deterministic(
    m1: BasicMap,
    m2: BasicMap,
    i1: Seq<Instruction>,
    i2: Seq<Instruction>,
)
    requires
        m1 == m2,
        i1 == i2,
    ensures
        m1.spec_score_instructions(i1) == m2.spec_score_instructions(i2),
{
}

} // verus!
