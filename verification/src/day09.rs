use crate::day22_flat::split_lines;
use crate::util::parse_usize_in;
use crate::vec2::{sgn, Vec2};
use vstd::prelude::*;

verus! {

/// One knot follows the knot ahead of it: it stays put while touching
/// (within one tile on both axes) and otherwise moves one step toward it
/// on each axis.
pub open spec fn spec_move_towards(v: Vec2, t: Vec2) -> Vec2 {
    let dx = t.0 - v.0;
    let dy = t.1 - v.1;
    if -1 <= dx <= 1 && -1 <= dy <= 1 {
        v
    } else {
        Vec2((v.0 + sgn(dx)) as isize, (v.1 + sgn(dy)) as isize)
    }
}

/// One motion step of the whole rope: the head moves by `dir`, then each
/// knot follows the one ahead of it.
pub open spec fn spec_step_rope(knots: Seq<Vec2>, k: int, dir: Vec2) -> Seq<Vec2>
    decreases k,
{
    if k <= 0 {
        knots.update(0, Vec2((knots[0].0 + dir.0) as isize, (knots[0].1 + dir.1) as isize))
    } else {
        let prev = spec_step_rope(knots, k - 1, dir);
        prev.update(k, spec_move_towards(prev[k], prev[k - 1]))
    }
}

/// Move one step toward the target, as in [`spec_move_towards`].
pub fn move_towards(v: Vec2, target: Vec2) -> (r: Vec2)
    requires
        -0x100000 <= v.0 <= 0x100000,
        -0x100000 <= v.1 <= 0x100000,
        -0x100000 <= target.0 <= 0x100000,
        -0x100000 <= target.1 <= 0x100000,
    ensures
        r == spec_move_towards(v, target),
{
    let dx = target.0 - v.0;
    let dy = target.1 - v.1;
    if -1 <= dx && dx <= 1 && -1 <= dy && dy <= 1 {
        v
    } else {
        v.add(target.sub(v).signum())
    }
}

/// Are all coordinates of all knots within the simulation bound?
pub open spec fn knots_bounded(knots: Seq<Vec2>, b: int) -> bool {
    forall|k: int|
        0 <= k < knots.len() ==> -b <= (#[trigger] knots[k]).0 <= b && -b <= knots[k].1 <= b
}

/// The head directions of the parsed motions.
#[derive(Clone, Debug)]
pub struct Day9(pub Vec<Vec2>);

/// How many distinct points the vector holds.
fn distinct_count(points: &Vec<Vec2>) -> (r: usize)
    ensures
        r == points@.to_set().len(),
{
    let n = points.len();
    let mut seen: Vec<Vec2> = Vec::new();
    let mut i: usize = 0;
    proof {
        assert(points@.take(0).to_set() =~= seen@.to_set());
        assert(seen@.no_duplicates());
    }
    while i < n
        invariant
            0 <= i <= n,
            n == points@.len(),
            seen@.no_duplicates(),
            seen@.to_set() == points@.take(i as int).to_set(),
        decreases n - i,
    {
        let p = points[i];
        let mut dup = false;
        let mut j: usize = 0;
        while j < seen.len()
            invariant
                0 <= j <= seen@.len(),
                dup == exists|k: int| 0 <= k < j && (#[trigger] seen@[k]) == p,
            decreases seen@.len() - j,
        {
            if seen[j] == p {
                dup = true;
            }
            j = j + 1;
        }
        let ghost pre = seen@;
        if !dup {
            seen.push(p);
        }
        proof {
            assert(points@.take(i as int + 1) =~= points@.take(i as int).push(points@[i as int]));
            assert forall|x: Vec2| points@.take(i as int + 1).to_set().contains(x) <==> points@.take(
                i as int,
            ).to_set().insert(points@[i as int]).contains(x) by {
                vstd::seq_lib::lemma_seq_contains_after_push(
                    points@.take(i as int),
                    points@[i as int],
                    x,
                );
            }
            assert(points@.take(i as int + 1).to_set() =~= points@.take(i as int).to_set().insert(
                points@[i as int],
            ));
            if !dup {
                assert(seen@ =~= pre.push(p));
                assert forall|x: Vec2| seen@.to_set().contains(x) <==> pre.to_set().insert(
                    p,
                ).contains(x) by {
                    vstd::seq_lib::lemma_seq_contains_after_push(pre, p, x);
                }
                assert(seen@.to_set() =~= pre.to_set().insert(p));
            } else {
                assert(pre.to_set().contains(p));
                assert(pre.to_set().insert(p) =~= pre.to_set());
            }
        }
        i = i + 1;
    }
    proof {
        assert(points@.take(n as int) =~= points@);
        seen@.unique_seq_to_set();
    }
    seen.len()
}

/// The positions the last knot of an `N`-knot rope visits, while the head
/// follows the motions in order; the trace starts at the origin.
pub open spec fn spec_tail_trace(movements: Seq<Vec2>, n: int, upto: int) -> Seq<Vec2>
    decreases upto,
{
    if upto <= 0 {
        seq![Vec2(0, 0)]
    } else {
        let prev = spec_rope_at(movements, n, upto - 1);
        let next = spec_step_rope(prev, n - 1, movements[upto - 1]);
        spec_tail_trace(movements, n, upto - 1).push(next[n - 1])
    }
}

/// The whole rope after the first `upto` motions.
pub open spec fn spec_rope_at(movements: Seq<Vec2>, n: int, upto: int) -> Seq<Vec2>
    decreases upto,
{
    if upto <= 0 {
        Seq::new(n as nat, |k: int| Vec2(0, 0))
    } else {
        spec_step_rope(spec_rope_at(movements, n, upto - 1), n - 1, movements[upto - 1])
    }
}

impl Day9 {
    /// Parse lines `D n` with a direction letter and a decimal count into
    /// one unit vector per step. The step total is capped so that every
    /// simulated coordinate stays far from the integer bounds.
    pub fn parse(input: &str) -> (r: Option<Day9>)
        ensures
            r is Some ==> {
                let m = (r->0).0@;
                &&& m.len() <= 0x100000
                &&& forall|k: int| 0 <= k < m.len() ==> crate::day22_flat::dir_unit(#[trigger] m[k])
            },
    {
        let lines = split_lines(input.as_bytes());
        let n = lines.len();
        let mut out: Vec<Vec2> = Vec::new();
        let mut i: usize = 0;
        while i < n
            invariant
                0 <= i <= n,
                n == lines@.len(),
                out@.len() <= 0x100000,
                forall|k: int|
                    0 <= k < out@.len() ==> crate::day22_flat::dir_unit(#[trigger] out@[k]),
            decreases n - i,
        {
            let line = &lines[i];
            if line.len() < 3 {
                return None;
            }
            let d = line[0];
            if line[1] != 32 {
                return None;
            }
            let dir = if d == 85 {
                Vec2::new(0, 1)
            } else if d == 82 {
                Vec2::new(1, 0)
            } else if d == 68 {
                Vec2::new(0, -1)
            } else if d == 76 {
                Vec2::new(-1, 0)
            } else {
                return None;
            };
            let count = match parse_usize_in(line, 2, line.len()) {
                Some(c) => c,
                None => {
                    return None;
                },
            };
            if count > 0x100000 || out.len() + count > 0x100000 {
                return None;
            }
            let mut c: usize = 0;
            while c < count
                invariant
                    0 <= c <= count,
                    out@.len() <= 0x100000,
                    crate::day22_flat::dir_unit(dir),
                    out@.len() + count - c <= 0x100000,
                    forall|k: int|
                        0 <= k < out@.len() ==> crate::day22_flat::dir_unit(#[trigger] out@[k]),
                decreases count - c,
            {
                out.push(dir);
                c = c + 1;
            }
            i = i + 1;
        }
        Some(Day9(out))
    }

    /// How many positions the tail of a rope of `N` knots visits, as the
    /// distinct length of [`spec_tail_trace`].
    pub fn simulate_knot_movements<const N: usize>(&self) -> (r: usize)
        requires
            2 <= N <= 10,
            self.0@.len() <= 0x100000,
            forall|k: int|
                0 <= k < self.0@.len() ==> crate::day22_flat::dir_unit(#[trigger] self.0@[k]),
        ensures
            r == spec_tail_trace(self.0@, N as int, self.0@.len() as int).to_set().len(),
    {
        let m = self.0.len();
        let mut knots: Vec<Vec2> = Vec::new();
        let mut k: usize = 0;
        while k < N
            invariant
                0 <= k <= N,
                knots@.len() == k,
                forall|j: int| 0 <= j < k ==> (#[trigger] knots@[j]) == (Vec2(0, 0)),
            decreases N - k,
        {
            knots.push(Vec2::new(0, 0));
            k = k + 1;
        }
        proof {
            assert(knots@ =~= spec_rope_at(self.0@, N as int, 0));
        }
        let mut trace: Vec<Vec2> = Vec::new();
        trace.push(knots[N - 1]);
        proof {
            assert(trace@ =~= spec_tail_trace(self.0@, N as int, 0));
        }
        let mut i: usize = 0;
        while i < m
            invariant
                0 <= i <= m,
                m == self.0@.len() <= 0x100000,
                2 <= N <= 10,
                forall|k2: int|
                    0 <= k2 < self.0@.len() ==> crate::day22_flat::dir_unit(#[trigger] self.0@[k2]),
                knots@.len() == N,
                knots@ == spec_rope_at(self.0@, N as int, i as int),
                knots_bounded(knots@, i as int),
                trace@ == spec_tail_trace(self.0@, N as int, i as int),
            decreases m - i,
        {
            let dir = self.0[i];
            let ghost pre = knots@;
            let head = knots[0].add(dir);
            knots[0] = head;
            proof {
                assert(knots@ =~= spec_step_rope(pre, 0, dir));
                assert(knots_bounded(knots@, i + 1));
            }
            let mut j: usize = 1;
            while j < N
                invariant
                    1 <= j <= N,
                    knots@.len() == N,
                    2 <= N <= 10,
                    0 <= i < m <= 0x100000,
                    dir == self.0@[i as int],
                    pre == spec_rope_at(self.0@, N as int, i as int),
                    knots@ == spec_step_rope(pre, j - 1, dir),
                    knots_bounded(knots@, i + 1),
                decreases N - j,
            {
                proof {
                    assert(-0x100000 <= knots@[j as int].0 <= 0x100000);
                    assert(-0x100000 <= knots@[j - 1].0 <= 0x100000);
                }
                let moved = move_towards(knots[j], knots[j - 1]);
                knots[j] = moved;
                proof {
                    assert(knots@ =~= spec_step_rope(pre, j as int, dir));
                    assert(knots_bounded(knots@, i + 1));
                }
                j = j + 1;
            }
            trace.push(knots[N - 1]);
            proof {
                assert(knots@ == spec_rope_at(self.0@, N as int, i as int + 1));
                assert(trace@ =~= spec_tail_trace(self.0@, N as int, i as int + 1));
            }
            i = i + 1;
        }
        distinct_count(&trace)
    }

    /// The tail coverage of a two-knot rope.
    pub fn part1(&self) -> (r: usize)
        requires
            self.0@.len() <= 0x100000,
            forall|k: int|
                0 <= k < self.0@.len() ==> crate::day22_flat::dir_unit(#[trigger] self.0@[k]),
        ensures
            r == spec_tail_trace(self.0@, 2, self.0@.len() as int).to_set().len(),
    {
        self.simulate_knot_movements::<2>()
    }

    /// The tail coverage of a ten-knot rope.
    pub fn part2(&self) -> (r: usize)
        requires
            self.0@.len() <= 0x100000,
            forall|k: int|
                0 <= k < self.0@.len() ==> crate::day22_flat::dir_unit(#[trigger] self.0@[k]),
        ensures
            r == spec_tail_trace(self.0@, 10, self.0@.len() as int).to_set().len(),
    {
        self.simulate_knot_movements::<10>()
    }
}

} // verus!
