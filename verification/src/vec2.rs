use vstd::prelude::*;

verus! {

/// A two-dimensional integer vector; the first coordinate is the column (x),
/// the second the row (y).
#[derive(Clone, Copy, PartialEq, Eq, Structural, Debug, Hash)]
pub struct Vec2(pub isize, pub isize);

/// Mathematical sign of an integer: -1, 0 or 1.
pub open spec fn sgn(x: int) -> int {
    if x > 0 {
        1
    } else if x < 0 {
        -1
    } else {
        0
    }
}

/// Absolute value of an integer.
pub open spec fn iabs(x: int) -> int {
    if x < 0 {
        -x
    } else {
        x
    }
}

/// The larger of two integers.
pub open spec fn imax(x: int, y: int) -> int {
    if x < y {
        y
    } else {
        x
    }
}

impl Vec2 {
    pub fn new(x: isize, y: isize) -> (r: Self)
        ensures
            r == (Vec2(x, y)),
    {
        Vec2(x, y)
    }

    /// Coordinate-wise sum.
    pub fn add(self, other: Self) -> (r: Self)
        requires
            isize::MIN <= self.0 + other.0 <= isize::MAX,
            isize::MIN <= self.1 + other.1 <= isize::MAX,
        ensures
            r.0 == self.0 + other.0,
            r.1 == self.1 + other.1,
    {
        Vec2(self.0 + other.0, self.1 + other.1)
    }

    /// Coordinate-wise difference.
    pub fn sub(self, other: Self) -> (r: Self)
        requires
            isize::MIN <= self.0 - other.0 <= isize::MAX,
            isize::MIN <= self.1 - other.1 <= isize::MAX,
        ensures
            r.0 == self.0 - other.0,
            r.1 == self.1 - other.1,
    {
        Vec2(self.0 - other.0, self.1 - other.1)
    }

    /// Scale both coordinates by a factor.
    pub fn mul(self, factor: isize) -> (r: Self)
        requires
            isize::MIN <= self.0 * factor <= isize::MAX,
            isize::MIN <= self.1 * factor <= isize::MAX,
        ensures
            r.0 == self.0 * factor,
            r.1 == self.1 * factor,
    {
        Vec2(self.0 * factor, self.1 * factor)
    }

    /// Coordinate-wise quotient. Restricted to non-negative coordinates and a
    /// positive divisor, where Rust's truncating division agrees with
    /// Euclidean division.
    pub fn div(self, divisor: isize) -> (r: Self)
        requires
            self.0 >= 0,
            self.1 >= 0,
            divisor > 0,
        ensures
            r.0 == self.0 as int / divisor as int,
            r.1 == self.1 as int / divisor as int,
    {
        Vec2(self.0 / divisor, self.1 / divisor)
    }

    /// Coordinate-wise remainder, under the same restriction as [`Vec2::div`].
    pub fn rem(self, divisor: isize) -> (r: Self)
        requires
            self.0 >= 0,
            self.1 >= 0,
            divisor > 0,
        ensures
            r.0 == self.0 as int % divisor as int,
            r.1 == self.1 as int % divisor as int,
    {
        Vec2(self.0 % divisor, self.1 % divisor)
    }

    /// The vector of the signs of the coordinates.
    pub fn signum(&self) -> (r: Self)
        ensures
            r.0 == sgn(self.0 as int),
            r.1 == sgn(self.1 as int),
    {
        let x: isize = if self.0 > 0 {
            1
        } else if self.0 < 0 {
            -1
        } else {
            0
        };
        let y: isize = if self.1 > 0 {
            1
        } else if self.1 < 0 {
            -1
        } else {
            0
        };
        Vec2(x, y)
    }

    /// The taxicab length `|x| + |y|`.
    pub fn manhattan(&self) -> (r: usize)
        requires
            self.0 > isize::MIN,
            self.1 > isize::MIN,
            iabs(self.0 as int) + iabs(self.1 as int) <= usize::MAX,
        ensures
            r == iabs(self.0 as int) + iabs(self.1 as int),
    {
        let ax: isize = if self.0 < 0 {
            -self.0
        } else {
            self.0
        };
        let ay: isize = if self.1 < 0 {
            -self.1
        } else {
            self.1
        };
        (ax as usize) + (ay as usize)
    }

    /// Flatten to a single index in a row-major grid whose rows have length
    /// `base`: `y * base + x`.
    pub fn as_base_n(&self, base: isize) -> (r: isize)
        requires
            isize::MIN <= self.1 * base <= isize::MAX,
            isize::MIN <= self.1 * base + self.0 <= isize::MAX,
        ensures
            r == self.1 * base + self.0,
    {
        self.1 * base + self.0
    }

    /// Look the vector up in a row-major grid: row `y`, column `x`.
    pub fn index<'a, U>(&self, map: &'a Vec<Vec<U>>) -> (r: &'a U)
        requires
            0 <= self.1 < map@.len(),
            0 <= self.0 < map@[self.1 as int]@.len(),
        ensures
            *r == map@[self.1 as int]@[self.0 as int],
    {
        &map[self.1 as usize][self.0 as usize]
    }

    /// Borrow the grid cell at the vector mutably: row `y`, column `x`.
    /// Only that cell changes through the borrow.
    pub fn index_mut<'a, U>(&self, map: &'a mut Vec<Vec<U>>) -> (r: &'a mut U)
        requires
            0 <= self.1 < old(map)@.len(),
            0 <= self.0 < old(map)@[self.1 as int]@.len(),
        ensures
            *r == old(map)@[self.1 as int]@[self.0 as int],
            final(map)@.len() == old(map)@.len(),
            forall|j: int|
                0 <= j < old(map)@.len() && j != self.1 ==> final(map)@[j] == old(map)@[j],
            final(map)@[self.1 as int]@ == old(map)@[self.1 as int]@.update(
                self.0 as int,
                *final(r),
            ),
    {
        &mut map[self.1 as usize][self.0 as usize]
    }

    /// All coordinates of a rectangular row-major grid, row by row.
    pub fn map_coords<U>(map: &Vec<Vec<U>>) -> (r: Vec<Vec2>)
        requires
            0 < map@.len() <= 0x10000,
            0 < map@[0]@.len() <= 0x10000,
        ensures
            r@.len() == map@.len() * map@[0]@.len(),
            forall|k: int|
                0 <= k < r@.len() ==> r@[k] == (Vec2(
                    (k % map@[0]@.len() as int) as isize,
                    (k / map@[0]@.len() as int) as isize,
                )),
    {
        let width: usize = map[0].len();
        let height: usize = map.len();
        let mut r: Vec<Vec2> = Vec::new();
        let mut y: usize = 0;
        while y < height
            invariant
                0 <= y <= height,
                height == map@.len() <= 0x10000,
                width == map@[0]@.len(),
                0 < width <= 0x10000,
                r@.len() == y * width,
                forall|k: int|
                    0 <= k < r@.len() ==> r@[k] == (Vec2(
                        (k % width as int) as isize,
                        (k / width as int) as isize,
                    )),
            decreases height - y,
        {
            let mut x: usize = 0;
            while x < width
                invariant
                    0 <= x <= width,
                    0 <= y < height,
                    height <= 0x10000,
                    0 < width <= 0x10000,
                    r@.len() == y * width + x,
                    forall|k: int|
                        0 <= k < r@.len() ==> r@[k] == (Vec2(
                            (k % width as int) as isize,
                            (k / width as int) as isize,
                        )),
                decreases width - x,
            {
                proof {
                    vstd::arithmetic::div_mod::lemma_fundamental_div_mod_converse(
                        (y * width + x) as int,
                        width as int,
                        y as int,
                        x as int,
                    );
                }
                r.push(Vec2(x as isize, y as isize));
                x = x + 1;
            }
            assert((y + 1) * width == y * width + width) by (nonlinear_arith);
            y = y + 1;
        }
        r
    }

    /// The straight or exactly diagonal run of points from `self` to `other`,
    /// both ends included: each point steps by the sign of the remaining
    /// difference on each axis. The coordinate cap keeps every visited
    /// point within `isize` on every platform, including 32-bit ones,
    /// with room for a caller to step past either end.
    pub fn range_inclusive(&self, other: Self) -> (r: Vec<Vec2>)
        requires
            self.0 == other.0 || self.1 == other.1 || iabs(other.0 - self.0) == iabs(
                other.1 - self.1,
            ),
            -0x10000 <= self.0 <= 0x10000,
            -0x10000 <= self.1 <= 0x10000,
            -0x10000 <= other.0 <= 0x10000,
            -0x10000 <= other.1 <= 0x10000,
        ensures
            r@.len() == imax(iabs(other.0 - self.0), iabs(other.1 - self.1)) + 1,
            r@[0] == *self,
            r@[r@.len() - 1] == other,
            forall|k: int|
                0 < k < r@.len() ==> (#[trigger] r@[k]).0 == r@[k - 1].0 + sgn(other.0 - self.0)
                    && r@[k].1 == r@[k - 1].1 + sgn(other.1 - self.1),
    {
        let dx: isize = other.0 - self.0;
        let dy: isize = other.1 - self.1;
        let ax: isize = if dx < 0 {
            -dx
        } else {
            dx
        };
        let ay: isize = if dy < 0 {
            -dy
        } else {
            dy
        };
        let steps: usize = if ax < ay {
            ay as usize
        } else {
            ax as usize
        };
        let delta = other.sub(*self).signum();
        let mut r: Vec<Vec2> = Vec::new();
        let mut point: Vec2 = *self;
        let mut k: usize = 0;
        while k <= steps
            invariant
                0 <= k <= steps + 1,
                steps == imax(iabs(other.0 - self.0), iabs(other.1 - self.1)),
                delta.0 == sgn(other.0 - self.0),
                delta.1 == sgn(other.1 - self.1),
                k <= steps ==> point.0 == (if delta.0 == 1 {
                    self.0 + k
                } else if delta.0 == -1 {
                    self.0 - k
                } else {
                    self.0 as int
                }),
                k <= steps ==> point.1 == (if delta.1 == 1 {
                    self.1 + k
                } else if delta.1 == -1 {
                    self.1 - k
                } else {
                    self.1 as int
                }),
                -0x10000 <= self.0 <= 0x10000,
                -0x10000 <= self.1 <= 0x10000,
                -0x10000 <= other.0 <= 0x10000,
                -0x10000 <= other.1 <= 0x10000,
                self.0 == other.0 || self.1 == other.1 || iabs(other.0 - self.0) == iabs(
                    other.1 - self.1,
                ),
                r@.len() == k,
                k > 0 ==> r@[0] == *self,
                forall|j: int|
                    0 < j < k ==> (#[trigger] r@[j]).0 == r@[j - 1].0 + sgn(other.0 - self.0)
                        && r@[j].1 == r@[j - 1].1 + sgn(other.1 - self.1),
                k > 0 && k <= steps ==> point.0 == r@[k - 1].0 + sgn(other.0 - self.0) && point.1
                    == r@[k - 1].1 + sgn(other.1 - self.1),
                k == steps + 1 ==> r@[k - 1] == other,
            decreases steps + 1 - k,
        {
            r.push(point);
            if k < steps {
                point = point.add(delta);
            } else {
                assert(point.0 == other.0 && point.1 == other.1);
            }
            k = k + 1;
        }
        r
    }
}

} // verus!
