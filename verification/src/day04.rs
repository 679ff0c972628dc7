use crate::day22_flat::split_lines;
use crate::util::parse_usize_in;
use vstd::prelude::*;

verus! {

/// A pair of inclusive section ranges, one per elf.
pub type RangePair = ((usize, usize), (usize, usize));

/// The parsed camp-cleanup assignments.
#[derive(Clone, Debug)]
pub struct Day4(pub Vec<RangePair>);

/// Does one range of the pair fully contain the other?
pub open spec fn spec_contained(p: RangePair) -> bool {
    (p.0.0 <= p.1.0 && p.0.1 >= p.1.1) || (p.1.0 <= p.0.0 && p.1.1 >= p.0.1)
}

/// Do the two ranges overlap at all?
pub open spec fn spec_overlaps(p: RangePair) -> bool {
    p.0.0 <= p.1.1 && p.0.1 >= p.1.0
}

/// How many pairs satisfy the containment test?
pub open spec fn spec_count_contained(s: Seq<RangePair>) -> int
    decreases s.len(),
{
    if s.len() == 0 {
        0
    } else {
        spec_count_contained(s.drop_last()) + (if spec_contained(s.last()) {
            1int
        } else {
            0int
        })
    }
}

/// How many pairs overlap?
pub open spec fn spec_count_overlapping(s: Seq<RangePair>) -> int
    decreases s.len(),
{
    if s.len() == 0 {
        0
    } else {
        spec_count_overlapping(s.drop_last()) + (if spec_overlaps(s.last()) {
            1int
        } else {
            0int
        })
    }
}

/// The count never exceeds the length.
proof fn lemma_count_bounds(s: Seq<RangePair>)
    ensures
        0 <= spec_count_contained(s) <= s.len(),
        0 <= spec_count_overlapping(s) <= s.len(),
    decreases s.len(),
{
    if s.len() > 0 {
        lemma_count_bounds(s.drop_last());
    }
}

/// The position of the first occurrence of `b` in `v[from..]`, when there
/// is one.
pub fn find_byte(v: &Vec<u8>, from: usize, b: u8) -> (r: Option<usize>)
    requires
        from <= v@.len(),
    ensures
        r is Some ==> from <= r->0 < v@.len() && v@[r->0 as int] == b && forall|j: int|
            from <= j < r->0 ==> v@[j] != b,
        r is None ==> forall|j: int| from <= j < v@.len() ==> v@[j] != b,
{
    let n = v.len();
    let mut i: usize = from;
    while i < n
        invariant
            from <= i <= n,
            n == v@.len(),
            forall|j: int| from <= j < i ==> v@[j] != b,
        decreases n - i,
    {
        if v[i] == b {
            return Some(i);
        }
        i = i + 1;
    }
    None
}

/// Parse one `a-b` range from `v[from..to]`.
fn parse_range_in(v: &Vec<u8>, from: usize, to: usize) -> (r: Option<(usize, usize)>)
    requires
        from <= to <= v@.len(),
{
    let dash = match find_byte(v, from, 45) {
        Some(d) => d,
        None => {
            return None;
        },
    };
    if !(from < dash && dash < to) {
        return None;
    }
    let a = match parse_usize_in(v, from, dash) {
        Some(a) => a,
        None => {
            return None;
        },
    };
    let b = match parse_usize_in(v, dash + 1, to) {
        Some(b) => b,
        None => {
            return None;
        },
    };
    Some((a, b))
}

impl Day4 {
    /// Parse one `a-b,c-d` assignment pair per line.
    pub fn parse(input: &str) -> (r: Option<Day4>)
    {
        let lines = split_lines(input.as_bytes());
        let n = lines.len();
        let mut pairs: Vec<RangePair> = Vec::new();
        let mut i: usize = 0;
        while i < n
            invariant
                0 <= i <= n,
                n == lines@.len(),
            decreases n - i,
        {
            let line = &lines[i];
            let len = line.len();
            let comma = match find_byte(line, 0, 44) {
                Some(c) => c,
                None => {
                    return None;
                },
            };
            let first = match parse_range_in(line, 0, comma) {
                Some(p) => p,
                None => {
                    return None;
                },
            };
            let second = match parse_range_in(line, comma + 1, len) {
                Some(p) => p,
                None => {
                    return None;
                },
            };
            pairs.push((first, second));
            i = i + 1;
        }
        Some(Day4(pairs))
    }

    /// How many pairs have one range containing the other.
    pub fn part1(&self) -> (r: usize)
        ensures
            r == spec_count_contained(self.0@),
    {
        proof {
            lemma_count_bounds(self.0@);
        }
        let n = self.0.len();
        let mut count: usize = 0;
        let mut i: usize = 0;
        proof {
            assert(self.0@.take(0) =~= Seq::<RangePair>::empty());
        }
        while i < n
            invariant
                0 <= i <= n,
                n == self.0@.len(),
                count == spec_count_contained(self.0@.take(i as int)),
                count <= i,
            decreases n - i,
        {
            proof {
                assert(self.0@.take(i as int + 1).drop_last() =~= self.0@.take(i as int));
                assert(self.0@.take(i as int + 1).last() == self.0@[i as int]);
                lemma_count_bounds(self.0@.take(i as int));
            }
            let ((a0, a1), (b0, b1)) = self.0[i];
            if (a0 <= b0 && a1 >= b1) || (b0 <= a0 && b1 >= a1) {
                count = count + 1;
            }
            i = i + 1;
        }
        proof {
            assert(self.0@.take(n as int) =~= self.0@);
        }
        count
    }

    /// How many pairs overlap at all.
    pub fn part2(&self) -> (r: usize)
        ensures
            r == spec_count_overlapping(self.0@),
    {
        let n = self.0.len();
        let mut count: usize = 0;
        let mut i: usize = 0;
        proof {
            assert(self.0@.take(0) =~= Seq::<RangePair>::empty());
        }
        while i < n
            invariant
                0 <= i <= n,
                n == self.0@.len(),
                count == spec_count_overlapping(self.0@.take(i as int)),
                count <= i,
            decreases n - i,
        {
            proof {
                assert(self.0@.take(i as int + 1).drop_last() =~= self.0@.take(i as int));
                assert(self.0@.take(i as int + 1).last() == self.0@[i as int]);
                lemma_count_bounds(self.0@.take(i as int));
            }
            let ((a0, a1), (b0, b1)) = self.0[i];
            if a0 <= b1 && a1 >= b0 {
                count = count + 1;
            }
            i = i + 1;
        }
        proof {
            assert(self.0@.take(n as int) =~= self.0@);
        }
        count
    }
}

} // verus!
