use crate::day22_flat::split_lines;
use crate::util::parse_usize_in;
use vstd::prelude::*;

verus! {

/// The encrypted coordinate list.
#[derive(Clone, Debug)]
pub struct Day20(pub Vec<i64>);

/// Mix the list `iters` times: each number, in original order, moves by
/// its value modulo one less than the list length, in a circular list.
/// Returns the grove coordinate sum: the values 1000, 2000 and 3000
/// places after the zero. `None` when the list is too short, holds no
/// zero, or the sum overflows.
pub fn mix_score(nums: &Vec<i64>, iters: usize) -> (r: Option<i64>)
    requires
        nums@.len() <= 0x100000,
    ensures
        nums@.len() < 2 ==> r is None,
        r is Some ==> exists|z: int| 0 <= z < nums@.len() && nums@[z] == 0,
{
    let n = nums.len();
    if n < 2 {
        return None;
    }
    let len = (n - 1) as i64;
    // the move distance of each number, reduced to [0, len)
    let mut shifts: Vec<i64> = Vec::new();
    let mut i: usize = 0;
    while i < n
        invariant
            0 <= i <= n,
            n == nums@.len(),
            2 <= n <= 0x100000,
            len == n - 1,
            shifts@.len() == i,
            forall|k: int| 0 <= k < i ==> 0 <= #[trigger] shifts@[k] < len,
        decreases n - i,
    {
        let v = nums[i];
        let m = v % len;
        let m2 = if m < 0 {
            m + len
        } else {
            m
        };
        shifts.push(m2);
        i = i + 1;
    }
    // positions[k] is where the k-th original number currently sits
    let mut positions: Vec<usize> = Vec::new();
    let mut k: usize = 0;
    while k < n
        invariant
            0 <= k <= n,
            positions@.len() == k,
            n == nums@.len(),
            forall|j: int| 0 <= j < k ==> #[trigger] positions@[j] < n,
        decreases n - k,
    {
        positions.push(k);
        k = k + 1;
    }
    let mut it: usize = 0;
    while it < iters
        invariant
            0 <= it <= iters,
            n == nums@.len(),
            2 <= n <= 0x100000,
            len == n - 1,
            shifts@.len() == n,
            positions@.len() == n,
            forall|k2: int| 0 <= k2 < n ==> 0 <= #[trigger] shifts@[k2] < len,
            forall|j: int| 0 <= j < n ==> #[trigger] positions@[j] < n,
        decreases iters - it,
    {
        let mut s: usize = 0;
        while s < n
            invariant
                0 <= s <= n,
                n == nums@.len(),
                2 <= n <= 0x100000,
                len == n - 1,
                shifts@.len() == n,
                positions@.len() == n,
                forall|k2: int| 0 <= k2 < n ==> 0 <= #[trigger] shifts@[k2] < len,
                forall|j: int| 0 <= j < n ==> #[trigger] positions@[j] < n,
            decreases n - s,
        {
            let idx_from = positions[s];
            let mut idx_to = (idx_from as i64) + shifts[s];
            if idx_to >= len {
                idx_to = idx_to - len;
            }
            let idx_to = idx_to as usize;
            if idx_to >= n {
                return None;
            }
            let mut j: usize = 0;
            while j < n
                invariant
                    0 <= j <= n,
                    n == positions@.len(),
                    idx_from < n,
                    idx_to < n,
                    forall|j2: int| 0 <= j2 < n ==> #[trigger] positions@[j2] < n,
                decreases n - j,
            {
                let p = positions[j];
                if p == idx_from {
                    positions[j] = idx_to;
                } else if idx_from < idx_to && idx_from < p && p <= idx_to {
                    positions[j] = p - 1;
                } else if idx_to < idx_from && idx_to <= p && p < idx_from {
                    positions[j] = p + 1;
                }
                j = j + 1;
            }
            s = s + 1;
        }
        it = it + 1;
    }
    // locate the zero and sum the three grove coordinates
    let mut zero_start: usize = 0;
    let mut found = false;
    let mut z: usize = 0;
    while z < n && !found
        invariant
            0 <= z <= n,
            n == nums@.len(),
            found ==> zero_start < n && nums@[zero_start as int] == 0,
        decreases n - z, !found as int,
    {
        if nums[z] == 0 {
            zero_start = z;
            found = true;
        } else {
            z = z + 1;
        }
    }
    if !found {
        return None;
    }
    let zero_idx = positions[zero_start];
    let idx_a = (zero_idx + 1000) % n;
    let idx_b = (zero_idx + 2000) % n;
    let idx_c = (zero_idx + 3000) % n;
    let mut total: i64 = 0;
    let mut t: usize = 0;
    while t < n
        invariant
            0 <= t <= n,
            n == nums@.len(),
            positions@.len() == n,
        decreases n - t,
    {
        let idx = positions[t];
        if idx == idx_a || idx == idx_b || idx == idx_c {
            total = match total.checked_add(nums[t]) {
                Some(v) => v,
                None => {
                    return None;
                },
            };
        }
        t = t + 1;
    }
    Some(total)
}

impl Day20 {
    /// Parse one signed decimal per line. `None` on a malformed line or
    /// an oversized list.
    pub fn parse(input: &str) -> (r: Option<Day20>)
        ensures
            r is Some ==> (r->0).0@.len() <= 0x100000,
    {
        let lines = split_lines(input.as_bytes());
        let n = lines.len();
        if n > 0x100000 {
            return None;
        }
        let mut out: Vec<i64> = Vec::new();
        let mut i: usize = 0;
        while i < n
            invariant
                0 <= i <= n,
                n == lines@.len() <= 0x100000,
                out@.len() == i,
            decreases n - i,
        {
            let line = &lines[i];
            let len = line.len();
            if len == 0 {
                return None;
            }
            let neg = line[0] == 45;
            let from: usize = if neg {
                1
            } else {
                0
            };
            if from >= len {
                return None;
            }
            let mag = match parse_usize_in(line, from, len) {
                Some(m) => m,
                None => {
                    return None;
                },
            };
            if mag as u64 > 0x7ffffffffffffffe {
                return None;
            }
            let v: i64 = if neg {
                -(mag as i64)
            } else {
                mag as i64
            };
            out.push(v);
            i = i + 1;
        }
        Some(Day20(out))
    }

    /// The grove coordinate sum after one round of mixing.
    pub fn part1(&self) -> (r: Option<i64>)
        requires
            self.0@.len() <= 0x100000,
    {
        mix_score(&self.0, 1)
    }

    /// The grove coordinate sum after each value is scaled by the
    /// decryption key and the list is mixed ten times. `None` also when a
    /// scaled value overflows.
    pub fn part2(&self) -> (r: Option<i64>)
        requires
            self.0@.len() <= 0x100000,
    {
        let n = self.0.len();
        let mut big: Vec<i64> = Vec::new();
        let mut i: usize = 0;
        while i < n
            invariant
                0 <= i <= n,
                n == self.0@.len() <= 0x100000,
                big@.len() == i,
            decreases n - i,
        {
            let v = match self.0[i].checked_mul(811589153) {
                Some(v) => v,
                None => {
                    return None;
                },
            };
            big.push(v);
            i = i + 1;
        }
        mix_score(&big, 10)
    }
}

} // verus!
