use crate::day22_flat::{spec_lines, split_lines};
use crate::vec2::Vec2;
use vstd::prelude::*;
use vstd::string::StringSliceAdditionalSpecFns;

verus! {

/// The four cardinal directions, by index: up, right, down, left.
pub open spec fn spec_cardinal(d: int) -> Vec2 {
    if d == 0 {
        Vec2(0, -1 as isize)
    } else if d == 1 {
        Vec2(1, 0)
    } else if d == 2 {
        Vec2(0, 1)
    } else {
        Vec2(-1 as isize, 0)
    }
}

/// Is the grid a non-empty bounded rectangle of digits?
pub open spec fn grid_ok(g: Seq<Seq<usize>>) -> bool {
    &&& 0 < g.len() <= 0x1000
    &&& 0 < g[0].len() <= 0x1000
    &&& forall|y: int| 0 <= y < g.len() ==> (#[trigger] g[y]).len() == g[0].len()
    &&& forall|y: int, x: int|
        0 <= y < g.len() && 0 <= x < g[0].len() ==> #[trigger] g[y][x] <= 9
}

/// Scan from `(x, y)` in direction `(dx, dy)`: count the trees passed
/// until one at least as tall as `h` blocks the view (that tree counts
/// and the scan is blocked) or the edge of the grid is reached (the scan
/// is unblocked). `fuel` bounds the walk.
pub open spec fn spec_scan(
    g: Seq<Seq<usize>>,
    h: int,
    x: int,
    y: int,
    dx: int,
    dy: int,
    fuel: nat,
) -> (int, bool)
    decreases fuel,
{
    if fuel == 0 {
        (0, false)
    } else {
        let nx = x + dx;
        let ny = y + dy;
        if !(0 <= ny < g.len() && 0 <= nx < g[0].len()) {
            (0, false)
        } else if g[ny][nx] >= h {
            (1, true)
        } else {
            let (c, b) = spec_scan(g, h, nx, ny, dx, dy, (fuel - 1) as nat);
            (c + 1, b)
        }
    }
}

/// The scan budget: enough to cross the grid on either axis.
pub open spec fn spec_fuel(g: Seq<Seq<usize>>) -> nat {
    (g.len() + g[0].len()) as nat
}

/// The viewing distance and blocked flag of [`spec_scan`] from a tree in
/// the direction with index `d`.
pub open spec fn spec_look(g: Seq<Seq<usize>>, x: int, y: int, d: int) -> (int, bool) {
    spec_scan(g, g[y][x] as int, x, y, spec_cardinal(d).0 as int, spec_cardinal(d).1 as int, spec_fuel(g))
}

/// A scan never counts more trees than it has fuel.
proof fn lemma_scan_bound(g: Seq<Seq<usize>>, h: int, x: int, y: int, dx: int, dy: int, fuel: nat)
    ensures
        0 <= spec_scan(g, h, x, y, dx, dy, fuel).0 <= fuel,
    decreases fuel,
{
    if fuel > 0 {
        lemma_scan_bound(g, h, x + dx, y + dy, dx, dy, (fuel - 1) as nat);
    }
}

/// The parsed grid of tree heights.
#[derive(Clone, Debug)]
pub struct Day8(pub Vec<Vec<usize>>);

/// Count the trees visible from `from` in direction `facing`, as in
/// [`spec_scan`]; the flag says whether a tree blocked the view.
pub fn trees_visible(from: Vec2, facing: Vec2, map: &Vec<Vec<usize>>) -> (r: (usize, bool))
    requires
        grid_ok(map.deep_view()),
        0 <= from.1 < map.deep_view().len(),
        0 <= from.0 < map.deep_view()[0].len(),
        crate::day22_flat::dir_unit(facing),
    ensures
        (r.0 as int, r.1) == spec_scan(
            map.deep_view(),
            map.deep_view()[from.1 as int][from.0 as int] as int,
            from.0 as int,
            from.1 as int,
            facing.0 as int,
            facing.1 as int,
            spec_fuel(map.deep_view()),
        ),
{
    let ghost g = map.deep_view();
    let height = map.len();
    let width = map[0].len();
    proof {
        assert(g[from.1 as int] =~= map@[from.1 as int]@);
    }
    let h = map[from.1 as usize][from.0 as usize];
    let mut x = from.0;
    let mut y = from.1;
    let mut trees: usize = 0;
    let mut fuel: usize = height + width;
    let ghost fuel0 = spec_fuel(g);
    while fuel > 0
        invariant
            g == map.deep_view(),
            grid_ok(g),
            height == g.len(),
            width == g[0].len(),
            h == g[from.1 as int][from.0 as int],
            crate::day22_flat::dir_unit(facing),
            0 <= y < height,
            0 <= x < width,
            0 <= fuel <= fuel0 == spec_fuel(g),
            trees == fuel0 - fuel,
            ({
                let (c, b) = spec_scan(
                    g,
                    h as int,
                    x as int,
                    y as int,
                    facing.0 as int,
                    facing.1 as int,
                    fuel as nat,
                );
                spec_scan(
                    g,
                    h as int,
                    from.0 as int,
                    from.1 as int,
                    facing.0 as int,
                    facing.1 as int,
                    fuel0,
                ) == (c + trees, b)
            }),
        decreases fuel,
    {
        let nx = x + facing.0;
        let ny = y + facing.1;
        if nx < 0 || ny < 0 || nx >= width as isize || ny >= height as isize {
            return (trees, false);
        }
        proof {
            assert(g[ny as int] =~= map@[ny as int]@);
        }
        trees = trees + 1;
        fuel = fuel - 1;
        if map[ny as usize][nx as usize] >= h {
            return (trees, true);
        }
        x = nx;
        y = ny;
    }
    (trees, false)
}

impl Day8 {
    /// Parse the digit grid. `None` when a byte is not a digit or the
    /// grid is empty, ragged or oversized.
    pub fn parse(input: &str) -> (r: Option<Day8>)
        ensures
            r is Some ==> grid_ok((r->0).0.deep_view()),
            r is Some ==> {
                let lines = spec_lines(input.spec_bytes());
                &&& (r->0).0@.len() == lines.len()
                &&& forall|k: int|
                    0 <= k < lines.len() ==> (#[trigger] (r->0).0@[k])@ == lines[k].map_values(
                        |b: u8| ((b - 48) as usize),
                    )
            },
    {
        let lines = split_lines(input.as_bytes());
        let n = lines.len();
        if n == 0 || n > 0x1000 {
            return None;
        }
        let width = lines[0].len();
        if width == 0 || width > 0x1000 {
            return None;
        }
        let mut out: Vec<Vec<usize>> = Vec::new();
        let mut i: usize = 0;
        while i < n
            invariant
                0 <= i <= n,
                n == lines@.len(),
                lines.deep_view() == spec_lines(input.spec_bytes()),
                width == lines.deep_view()[0].len(),
                out@.len() == i,
                forall|k: int|
                    0 <= k < i ==> (#[trigger] out@[k])@ == lines.deep_view()[k].map_values(
                        |b: u8| ((b - 48) as usize),
                    ),
                forall|k: int| 0 <= k < i ==> (#[trigger] out@[k])@.len() == width,
                forall|k: int, x: int|
                    0 <= k < i && 0 <= x < out@[k]@.len() ==> #[trigger] out@[k]@[x] <= 9,
            decreases n - i,
        {
            let line = &lines[i];
            proof {
                assert(lines.deep_view()[i as int] =~= line@);
            }
            if line.len() != width {
                return None;
            }
            let m = line.len();
            let mut row: Vec<usize> = Vec::new();
            let mut j: usize = 0;
            while j < m
                invariant
                    0 <= j <= m,
                    m == line@.len(),
                    row@.len() == j,
                    forall|k: int| 0 <= k < j ==> 48 <= #[trigger] line@[k] <= 57,
                    forall|k: int| 0 <= k < j ==> (#[trigger] row@[k]) == ((line@[k] - 48) as usize),
                decreases m - j,
            {
                let b = line[j];
                if !(48 <= b && b <= 57) {
                    return None;
                }
                row.push((b - 48) as usize);
                j = j + 1;
            }
            proof {
                assert(row@ =~= line@.map_values(|b: u8| ((b - 48) as usize)));
            }
            out.push(row);
            i = i + 1;
        }
        proof {
            assert forall|y: int| 0 <= y < out.deep_view().len() implies (
            #[trigger] out.deep_view()[y]).len() == out.deep_view()[0].len() by {
                assert(out.deep_view()[y] =~= out@[y]@);
                assert(out.deep_view()[0] =~= out@[0]@);
            }
            assert forall|y: int, x: int|
                0 <= y < out.deep_view().len() && 0 <= x < out.deep_view()[0].len() implies
                #[trigger] out.deep_view()[y][x] <= 9 by {
                assert(out.deep_view()[y] =~= out@[y]@);
                assert(out.deep_view()[0] =~= out@[0]@);
            }
        }
        Some(Day8(out))
    }

    /// Is the tree at `(x, y)` visible from outside the grid?
    pub open spec fn spec_visible(g: Seq<Seq<usize>>, x: int, y: int) -> bool {
        exists|d: int| 0 <= d < 4 && !(#[trigger] spec_look(g, x, y, d)).1
    }

    /// How many trees in the row `y`, at columns below `x`, are visible.
    pub open spec fn spec_count_row(g: Seq<Seq<usize>>, y: int, x: int) -> int
        decreases x,
    {
        if x <= 0 {
            0
        } else {
            Self::spec_count_row(g, y, x - 1) + (if Self::spec_visible(g, x - 1, y) {
                1int
            } else {
                0int
            })
        }
    }

    /// How many trees in the rows below `y` are visible.
    pub open spec fn spec_count(g: Seq<Seq<usize>>, y: int) -> int
        decreases y,
    {
        if y <= 0 {
            0
        } else {
            Self::spec_count(g, y - 1) + Self::spec_count_row(g, y - 1, g[0].len() as int)
        }
    }

    /// Counts stay within the scanned rectangle.
    proof fn lemma_count_bound(g: Seq<Seq<usize>>, y: int, x: int)
        requires
            grid_ok(g),
            0 <= y <= g.len(),
            0 <= x <= g[0].len(),
        ensures
            0 <= Self::spec_count_row(g, y, x) <= x,
            0 <= Self::spec_count(g, y) <= y * g[0].len(),
        decreases y, x,
    {
        if x > 0 {
            Self::lemma_count_bound(g, y, x - 1);
        }
        if y > 0 {
            Self::lemma_count_bound(g, y - 1, g[0].len() as int);
            assert((y - 1) * g[0].len() + g[0].len() == y * g[0].len()) by (nonlinear_arith);
        }
        if x == 0 && y == 0 {
        }
    }

    /// How many trees are visible from outside the grid.
    pub fn part1(&self) -> (r: usize)
        requires
            grid_ok(self.0.deep_view()),
        ensures
            r == Day8::spec_count(self.0.deep_view(), self.0.deep_view().len() as int),
    {
        let ghost g = self.0.deep_view();
        let height = self.0.len();
        let width = self.0[0].len();
        proof {
            assert(g[0] =~= self.0@[0]@);
        }
        let mut count: usize = 0;
        let mut y: usize = 0;
        while y < height
            invariant
                g == self.0.deep_view(),
                grid_ok(g),
                height == g.len(),
                width == g[0].len(),
                0 <= y <= height,
                count == Day8::spec_count(g, y as int),
                0 <= count <= y * width,
            decreases height - y,
        {
            let mut x: usize = 0;
            while x < width
                invariant
                    g == self.0.deep_view(),
                    grid_ok(g),
                    height == g.len(),
                    width == g[0].len(),
                    0 <= y < height,
                    0 <= x <= width,
                    count == Day8::spec_count(g, y as int) + Day8::spec_count_row(
                        g,
                        y as int,
                        x as int,
                    ),
                    count <= y * width + x,
                decreases width - x,
            {
                proof {
                    Day8::lemma_count_bound(g, y as int, x as int);
                    Day8::lemma_count_bound(g, y as int, width as int);
                    assert(y * width + x < 0x1000000) by (nonlinear_arith)
                        requires
                            0 <= y < height <= 0x1000,
                            0 <= x < width <= 0x1000,
                    ;
                }
                let pos = Vec2::new(x as isize, y as isize);
                let mut visible = false;
                let mut d: usize = 0;
                while d < 4
                    invariant
                        g == self.0.deep_view(),
                        grid_ok(g),
                        0 <= y < g.len(),
                        0 <= x < g[0].len(),
                        pos == (Vec2(x as isize, y as isize)),
                        d <= 4,
                        visible == exists|e: int|
                            0 <= e < d && !(#[trigger] spec_look(g, x as int, y as int, e)).1,
                    decreases 4 - d,
                {
                    let dir = if d == 0 {
                        Vec2::new(0, -1)
                    } else if d == 1 {
                        Vec2::new(1, 0)
                    } else if d == 2 {
                        Vec2::new(0, 1)
                    } else {
                        Vec2::new(-1, 0)
                    };
                    proof {
                        assert(dir == spec_cardinal(d as int));
                    }
                    let (_, blocked) = trees_visible(pos, dir, &self.0);
                    proof {
                        assert(blocked == (spec_look(g, x as int, y as int, d as int)).1);
                    }
                    if !blocked {
                        visible = true;
                    }
                    d = d + 1;
                }
                if visible {
                    count = count + 1;
                }
                x = x + 1;
            }
            proof {
                assert((y + 1) * width == y * width + width) by (nonlinear_arith);
            }
            y = y + 1;
        }
        count
    }

    /// The scenic score of a tree: the product of its four viewing
    /// distances.
    pub open spec fn spec_score(g: Seq<Seq<usize>>, x: int, y: int) -> int {
        spec_look(g, x, y, 0).0 * spec_look(g, x, y, 1).0 * spec_look(g, x, y, 2).0 * spec_look(
            g,
            x,
            y,
            3,
        ).0
    }

    /// The best scenic score over the whole grid: every tree scores at
    /// most the result, and some tree reaches it.
    pub fn part2(&self) -> (r: u64)
        requires
            grid_ok(self.0.deep_view()),
        ensures
            forall|x: int, y: int|
                0 <= y < self.0.deep_view().len() && 0 <= x < self.0.deep_view()[0].len()
                    ==> #[trigger] Day8::spec_score(self.0.deep_view(), x, y) <= r,
            exists|x: int, y: int|
                0 <= y < self.0.deep_view().len() && 0 <= x < self.0.deep_view()[0].len()
                    && #[trigger] Day8::spec_score(self.0.deep_view(), x, y) == r,
    {
        let ghost g = self.0.deep_view();
        let height = self.0.len();
        let width = self.0[0].len();
        proof {
            assert(g[0] =~= self.0@[0]@);
        }
        let mut best: u64 = 0;
        let ghost mut bx: int = 0;
        let ghost mut by: int = 0;
        let mut first = true;
        let mut y: usize = 0;
        while y < height
            invariant
                g == self.0.deep_view(),
                grid_ok(g),
                height == g.len(),
                width == g[0].len(),
                0 <= y <= height,
                !first ==> 0 <= by < height && 0 <= bx < width && Day8::spec_score(g, bx, by)
                    == best,
                first ==> y == 0 && best == 0,
                forall|x2: int, y2: int|
                    0 <= y2 < y && 0 <= x2 < width ==> #[trigger] Day8::spec_score(g, x2, y2)
                        <= best,
            decreases height - y,
        {
            let mut x: usize = 0;
            while x < width
                invariant
                    g == self.0.deep_view(),
                    grid_ok(g),
                    height == g.len(),
                    width == g[0].len(),
                    0 <= y < height,
                    0 <= x <= width,
                    !first ==> 0 <= by < height && 0 <= bx < width && Day8::spec_score(g, bx, by)
                        == best,
                    first ==> y == 0 && x == 0 && best == 0,
                    forall|x2: int, y2: int|
                        0 <= y2 < y && 0 <= x2 < width ==> #[trigger] Day8::spec_score(g, x2, y2)
                            <= best,
                    forall|x2: int|
                        0 <= x2 < x ==> #[trigger] Day8::spec_score(g, x2, y as int) <= best,
                decreases width - x,
            {
                let pos = Vec2::new(x as isize, y as isize);
                let (c0, _) = trees_visible(pos, Vec2::new(0, -1), &self.0);
                let (c1, _) = trees_visible(pos, Vec2::new(1, 0), &self.0);
                let (c2, _) = trees_visible(pos, Vec2::new(0, 1), &self.0);
                let (c3, _) = trees_visible(pos, Vec2::new(-1, 0), &self.0);
                proof {
                    lemma_scan_bound(g, g[y as int][x as int] as int, x as int, y as int, 0, -1, spec_fuel(g));
                    lemma_scan_bound(g, g[y as int][x as int] as int, x as int, y as int, 1, 0, spec_fuel(g));
                    lemma_scan_bound(g, g[y as int][x as int] as int, x as int, y as int, 0, 1, spec_fuel(g));
                    lemma_scan_bound(g, g[y as int][x as int] as int, x as int, y as int, -1, 0, spec_fuel(g));
                    assert(c0 * c1 <= 0x2000 * 0x2000) by (nonlinear_arith)
                        requires
                            0 <= c0 <= 0x2000,
                            0 <= c1 <= 0x2000,
                    ;
                    assert(c0 * c1 * c2 <= 0x2000 * 0x2000 * 0x2000) by (nonlinear_arith)
                        requires
                            0 <= c0 * c1 <= 0x2000 * 0x2000,
                            0 <= c2 <= 0x2000,
                    ;
                    assert(c0 * c1 * c2 * c3 <= 0x2000 * 0x2000 * 0x2000 * 0x2000)
                        by (nonlinear_arith)
                        requires
                            0 <= c0 * c1 * c2 <= 0x2000 * 0x2000 * 0x2000,
                            0 <= c3 <= 0x2000,
                    ;
                }
                let score = (c0 as u64) * (c1 as u64) * (c2 as u64) * (c3 as u64);
                if first || score > best {
                    best = score;
                    proof {
                        bx = x as int;
                        by = y as int;
                    }
                    first = false;
                }
                x = x + 1;
            }
            y = y + 1;
        }
        best
    }
}

} // verus!
