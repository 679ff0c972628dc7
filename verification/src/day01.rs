use crate::day22_flat::split_lines;
use crate::util::{max_checked, max_n, max_usizes, parse_usize_in};
use vstd::prelude::*;

verus! {

/// The total calories carried by each elf, one entry per blank-separated
/// group of the input.
#[derive(Clone, Debug)]
pub struct Day1(pub Vec<usize>);

impl Day1 {
    /// Sum each blank-separated group of decimal lines. `None` when a
    /// line is not a number, a group is empty, or a sum overflows.
    pub fn parse(input: &str) -> (r: Option<Day1>)
    {
        let lines = split_lines(input.as_bytes());
        let n = lines.len();
        let mut sums: Vec<usize> = Vec::new();
        let mut cur: usize = 0;
        let mut group_len: usize = 0;
        let mut i: usize = 0;
        while i < n
            invariant
                0 <= i <= n,
                n == lines@.len(),
                group_len <= i,
            decreases n - i,
        {
            let line = &lines[i];
            if line.len() == 0 {
                if group_len == 0 {
                    return None;
                }
                sums.push(cur);
                cur = 0;
                group_len = 0;
            } else {
                let v = match parse_usize_in(line, 0, line.len()) {
                    Some(v) => v,
                    None => {
                        return None;
                    },
                };
                cur = match cur.checked_add(v) {
                    Some(c) => c,
                    None => {
                        return None;
                    },
                };
                group_len = group_len + 1;
            }
            i = i + 1;
        }
        if group_len == 0 {
            return None;
        }
        sums.push(cur);
        Some(Day1(sums))
    }

    /// The largest group sum; `None` when there are no groups.
    pub fn part1(&self) -> (r: Option<usize>)
        ensures
            r is Some <==> self.0@.len() > 0,
            r is Some ==> r->0 == max_usizes(self.0@),
    {
        max_checked(&self.0)
    }

    /// The sum of the three largest group sums; `None` when there are
    /// fewer than three groups or the sum overflows.
    pub fn part2(&self) -> (r: Option<usize>)
        ensures
            r is Some ==> {
                let t = r->0;
                exists|a: int, b: int, c: int|
                    0 <= a < self.0@.len() && 0 <= b < self.0@.len() && 0 <= c < self.0@.len()
                        && t == #[trigger] (self.0@[a] + self.0@[b] + self.0@[c])
            },
    {
        if self.0.len() < 3 {
            return None;
        }
        let top: [usize; 3] = max_n::<3>(&self.0);
        let a = top[0];
        let b = top[1];
        let c = top[2];
        let r = match a.checked_add(b) {
            Some(x) => x.checked_add(c),
            None => None,
        };
        proof {
            if r is Some {
                let ja = choose|j: int| 0 <= j < self.0@.len() && top@[0] == self.0@[j];
                let jb = choose|j: int| 0 <= j < self.0@.len() && top@[1] == self.0@[j];
                let jc = choose|j: int| 0 <= j < self.0@.len() && top@[2] == self.0@[j];
                assert(crate::util::from_input(self.0@, top@[0]));
                assert(crate::util::from_input(self.0@, top@[1]));
                assert(crate::util::from_input(self.0@, top@[2]));
            }
        }
        r
    }
}

} // verus!
