use crate::day22_flat::split_lines;
use vstd::prelude::*;

verus! {

/// The height of one hill tile: the start reads as the lowest hill, the
/// end as the highest.
pub open spec fn spec_height(b: u8) -> u8 {
    if b == 83 {
        97
    } else if b == 69 {
        122
    } else {
        b
    }
}

/// Is this byte a hill tile: a lower-case letter, the start, or the end?
pub open spec fn is_hill_byte(b: u8) -> bool {
    b == 83 || b == 69 || (97 <= b <= 122)
}

/// Is the hill grid a non-empty bounded rectangle of hill tiles?
pub open spec fn hill_ok(g: Seq<Seq<u8>>) -> bool {
    &&& 0 < g.len() <= 0x1000
    &&& 0 < g[0].len() <= 0x1000
    &&& forall|y: int| 0 <= y < g.len() ==> (#[trigger] g[y]).len() == g[0].len()
    &&& forall|y: int, x: int|
        0 <= y < g.len() && 0 <= x < g[0].len() ==> is_hill_byte(#[trigger] g[y][x])
}

/// The parsed hill map.
#[derive(Clone, Debug)]
pub struct Day12(pub Vec<Vec<u8>>);

/// The height of one tile, as in [`spec_height`].
fn height_of(b: u8) -> (r: u8)
    ensures
        r == spec_height(b),
{
    if b == 83 {
        97
    } else if b == 69 {
        122
    } else {
        b
    }
}

impl Day12 {
    /// Parse the hill grid. `None` when a byte is not a hill tile or the
    /// grid is empty, ragged or oversized.
    pub fn parse(input: &str) -> (r: Option<Day12>)
        ensures
            r is Some ==> hill_ok((r->0).0.deep_view()),
    {
        let lines = split_lines(input.as_bytes());
        let n = lines.len();
        if n == 0 || n > 0x1000 {
            return None;
        }
        let width = lines[0].len();
        if width == 0 || width > 0x1000 {
            return None;
        }
        let mut out: Vec<Vec<u8>> = Vec::new();
        let mut i: usize = 0;
        while i < n
            invariant
                0 <= i <= n,
                n == lines@.len(),
                0 < width <= 0x1000,
                out@.len() == i,
                forall|k: int| 0 <= k < i ==> (#[trigger] out@[k])@.len() == width,
                forall|k: int, x: int|
                    0 <= k < i && 0 <= x < out@[k]@.len() ==> is_hill_byte(#[trigger] out@[k]@[x]),
            decreases n - i,
        {
            let line = &lines[i];
            if line.len() != width {
                return None;
            }
            let m = line.len();
            let mut row: Vec<u8> = Vec::new();
            let mut j: usize = 0;
            while j < m
                invariant
                    0 <= j <= m,
                    m == line@.len(),
                    row@.len() == j,
                    forall|k: int| 0 <= k < j ==> is_hill_byte(#[trigger] row@[k]),
                    forall|k: int| 0 <= k < j ==> (#[trigger] row@[k]) == line@[k],
                decreases m - j,
            {
                let b = line[j];
                if !(b == 83 || b == 69 || (97 <= b && b <= 122)) {
                    return None;
                }
                row.push(b);
                j = j + 1;
            }
            out.push(row);
            i = i + 1;
        }
        proof {
            assert forall|y: int| 0 <= y < out.deep_view().len() implies (
            #[trigger] out.deep_view()[y]).len() == out.deep_view()[0].len() by {
                assert(out.deep_view()[y] =~= out@[y]@);
                assert(out.deep_view()[0] =~= out@[0]@);
            }
            assert forall|y: int, x: int|
                0 <= y < out.deep_view().len() && 0 <= x < out.deep_view()[0].len() implies
                is_hill_byte(#[trigger] out.deep_view()[y][x]) by {
                assert(out.deep_view()[y] =~= out@[y]@);
                assert(out.deep_view()[0] =~= out@[0]@);
            }
        }
        Some(Day12(out))
    }

    /// Breadth-first search backward from the end tile, walking only
    /// descents of at most one, until a tile satisfying the goal is
    /// reached: the start tile when `to_start`, any lowest tile
    /// otherwise. Returns the number of steps; `None` when no such tile
    /// is reachable or there is no end tile.
    fn shortest_path_back(&self, to_start: bool) -> (r: Option<usize>)
        requires
            hill_ok(self.0.deep_view()),
        ensures
            r is Some ==> r->0 <= 0x1000000,
    {
        let ghost g = self.0.deep_view();
        let height = self.0.len();
        let width = self.0[0].len();
        proof {
            assert(g[0] =~= self.0@[0]@);
        }
        // find the end tile
        let mut ex: usize = 0;
        let mut ey: usize = 0;
        let mut found = false;
        let mut y: usize = 0;
        while y < height
            invariant
                0 <= y <= height,
                height == g.len(),
                width == g[0].len(),
                g == self.0.deep_view(),
                hill_ok(g),
                found ==> ex < width && ey < height,
            decreases height - y,
        {
            let mut x: usize = 0;
            while x < width
                invariant
                    0 <= x <= width,
                    0 <= y < height,
                    height == g.len(),
                    width == g[0].len(),
                    g == self.0.deep_view(),
                    hill_ok(g),
                    found ==> ex < width && ey < height,
                decreases width - x,
            {
                proof {
                    assert(g[y as int] =~= self.0@[y as int]@);
                }
                if self.0[y][x] == 69 {
                    ex = x;
                    ey = y;
                    found = true;
                }
                x = x + 1;
            }
            y = y + 1;
        }
        if !found {
            return None;
        }
        let mut visited: Vec<Vec<bool>> = Vec::new();
        let mut vy: usize = 0;
        while vy < height
            invariant
                0 <= vy <= height,
                visited@.len() == vy,
                width == g[0].len(),
                forall|k: int| 0 <= k < vy ==> (#[trigger] visited@[k])@.len() == width,
            decreases height - vy,
        {
            let mut vrow: Vec<bool> = Vec::new();
            let mut vx: usize = 0;
            while vx < width
                invariant
                    0 <= vx <= width,
                    vrow@.len() == vx,
                decreases width - vx,
            {
                vrow.push(false);
                vx = vx + 1;
            }
            visited.push(vrow);
            vy = vy + 1;
        }
        let mut open: Vec<(usize, usize)> = Vec::new();
        open.push((ex, ey));
        let mut dist: usize = 0;
        let mut fuel: usize = 0x1000001;
        while fuel > 0
            invariant
                g == self.0.deep_view(),
                hill_ok(g),
                height == g.len(),
                width == g[0].len(),
                visited@.len() == height,
                forall|k: int| 0 <= k < height ==> (#[trigger] visited@[k])@.len() == width,
                forall|k: int|
                    0 <= k < open@.len() ==> (#[trigger] open@[k]).0 < width && open@[k].1 < height,
                dist + fuel == 0x1000001,
            decreases fuel,
        {
            let mut new_open: Vec<(usize, usize)> = Vec::new();
            let on = open.len();
            let mut oi: usize = 0;
            while oi < on
                invariant
                    0 <= oi <= on,
                    on == open@.len(),
                    dist <= 0x1000000,
                    g == self.0.deep_view(),
                    hill_ok(g),
                    height == g.len(),
                    width == g[0].len(),
                    visited@.len() == height,
                    forall|k: int| 0 <= k < height ==> (#[trigger] visited@[k])@.len() == width,
                    forall|k: int|
                        0 <= k < open@.len() ==> (#[trigger] open@[k]).0 < width && open@[k].1
                            < height,
                    forall|k: int|
                        0 <= k < new_open@.len() ==> (#[trigger] new_open@[k]).0 < width
                            && new_open@[k].1 < height,
                decreases on - oi,
            {
                let (px, py) = open[oi];
                if visited[py][px] {
                    oi = oi + 1;
                    continue ;
                }
                let mut vrow = visited.remove(py);
                vrow[px] = true;
                visited.insert(py, vrow);
                proof {
                    assert(g[py as int] =~= self.0@[py as int]@);
                }
                let tile = self.0[py][px];
                let reached = if to_start {
                    tile == 83
                } else {
                    height_of(tile) == 97
                };
                if reached {
                    return Some(dist);
                }
                let h = height_of(tile);
                let mut d: usize = 0;
                while d < 4
                    invariant
                        0 <= d <= 4,
                        g == self.0.deep_view(),
                        hill_ok(g),
                        height == g.len(),
                        width == g[0].len(),
                        px < width,
                        py < height,
                        forall|k: int|
                            0 <= k < new_open@.len() ==> (#[trigger] new_open@[k]).0 < width
                                && new_open@[k].1 < height,
                    decreases 4 - d,
                {
                    let candidate: Option<(usize, usize)> = if d == 0 {
                        if py > 0 {
                            Some((px, py - 1))
                        } else {
                            None
                        }
                    } else if d == 1 {
                        if px + 1 < width {
                            Some((px + 1, py))
                        } else {
                            None
                        }
                    } else if d == 2 {
                        if py + 1 < height {
                            Some((px, py + 1))
                        } else {
                            None
                        }
                    } else {
                        if px > 0 {
                            Some((px - 1, py))
                        } else {
                            None
                        }
                    };
                    if let Some((nx, ny)) = candidate {
                        proof {
                            assert(g[ny as int] =~= self.0@[ny as int]@);
                        }
                        let nh = height_of(self.0[ny][nx]);
                        if h <= nh + 1 {
                            new_open.push((nx, ny));
                        }
                    }
                    d = d + 1;
                }
                oi = oi + 1;
            }
            if new_open.len() == 0 {
                return None;
            }
            open = new_open;
            dist = dist + 1;
            fuel = fuel - 1;
        }
        None
    }

    /// The fewest steps from the start tile to the end tile.
    pub fn part1(&self) -> (r: Option<usize>)
        requires
            hill_ok(self.0.deep_view()),
        ensures
            r is Some ==> r->0 <= 0x1000000,
    {
        self.shortest_path_back(true)
    }

    /// The fewest steps from any lowest tile to the end tile.
    pub fn part2(&self) -> (r: Option<usize>)
        requires
            hill_ok(self.0.deep_view()),
        ensures
            r is Some ==> r->0 <= 0x1000000,
    {
        self.shortest_path_back(false)
    }
}

} // verus!
