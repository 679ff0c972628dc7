use crate::day22_flat::{spec_lines, split_lines};
use vstd::prelude::*;
use vstd::string::StringSliceAdditionalSpecFns;

verus! {

/// Is this byte a letter?
pub open spec fn is_letter(b: u8) -> bool {
    (97 <= b <= 122) || (65 <= b <= 90)
}

/// The priority of one item letter: 1-26 for a-z, 27-52 for A-Z.
pub open spec fn spec_priority(b: u8) -> usize {
    if 97 <= b <= 122 {
        (b - 96) as usize
    } else {
        (b + 27 - 65) as usize
    }
}

/// Does `v` occur in `s`?
pub open spec fn item_in(s: Seq<usize>, v: usize) -> bool {
    exists|j: int| 0 <= j < s.len() && s[j] == v
}

/// The first item of `left`, from position `i` on, that also occurs in
/// `right`; -1 when there is none.
pub open spec fn spec_first_common(left: Seq<usize>, right: Seq<usize>, i: int) -> int
    decreases left.len() - i,
{
    if i < 0 || i >= left.len() {
        -1
    } else if item_in(right, left[i]) {
        left[i] as int
    } else {
        spec_first_common(left, right, i + 1)
    }
}

/// The first item of `a`, from position `i` on, that occurs in both `b`
/// and `c`; -1 when there is none.
pub open spec fn spec_first_common3(a: Seq<usize>, b: Seq<usize>, c: Seq<usize>, i: int) -> int
    decreases a.len() - i,
{
    if i < 0 || i >= a.len() {
        -1
    } else if item_in(b, a[i]) && item_in(c, a[i]) {
        a[i] as int
    } else {
        spec_first_common3(a, b, c, i + 1)
    }
}

/// The duplicated item of one rucksack line: the first item of the first
/// half that also occurs in the second half.
pub open spec fn spec_line_value(line: Seq<usize>) -> int {
    let half = line.len() as int / 2;
    spec_first_common(line.take(half), line.skip(half), 0)
}

/// Does `v[from..to]` contain `x`?
fn contains_in(v: &Vec<usize>, from: usize, to: usize, x: usize) -> (r: bool)
    requires
        from <= to <= v@.len(),
    ensures
        r == item_in(v@.subrange(from as int, to as int), x),
{
    let ghost s = v@.subrange(from as int, to as int);
    let mut j: usize = from;
    while j < to
        invariant
            from <= j <= to <= v@.len(),
            s == v@.subrange(from as int, to as int),
            forall|k: int| 0 <= k < j - from ==> s[k] != x,
        decreases to - j,
    {
        proof {
            assert(s[j - from] == v@[j as int]);
        }
        if v[j] == x {
            return true;
        }
        j = j + 1;
    }
    false
}

/// The duplicated item of one line, as in [`spec_line_value`]; `None`
/// when the halves share nothing.
fn line_duplicate(line: &Vec<usize>) -> (r: Option<usize>)
    ensures
        r is Some ==> r->0 == spec_line_value(line@),
        r is None ==> spec_line_value(line@) == -1,
{
    let len = line.len();
    let half = len / 2;
    let ghost left = line@.take(half as int);
    let ghost right = line@.skip(half as int);
    let mut i: usize = 0;
    while i < half
        invariant
            0 <= i <= half,
            half == len as int / 2,
            len == line@.len(),
            left == line@.take(half as int),
            right == line@.skip(half as int),
            spec_first_common(left, right, 0) == spec_first_common(left, right, i as int),
        decreases half - i,
    {
        proof {
            assert(left[i as int] == line@[i as int]);
        }
        if contains_in(line, half, len, line[i]) {
            proof {
                assert(line@.subrange(half as int, len as int) =~= right);
            }
            return Some(line[i]);
        }
        proof {
            assert(line@.subrange(half as int, len as int) =~= right);
        }
        i = i + 1;
    }
    None
}

/// The badge of a group of three lines: the first item of the first that
/// occurs in both others, as in [`spec_first_common3`]; `None` when
/// nothing is shared.
fn group_badge(a: &Vec<usize>, b: &Vec<usize>, c: &Vec<usize>) -> (r: Option<usize>)
    ensures
        r is Some ==> r->0 == spec_first_common3(a@, b@, c@, 0),
        r is None ==> spec_first_common3(a@, b@, c@, 0) == -1,
{
    let n = a.len();
    let mut i: usize = 0;
    while i < n
        invariant
            0 <= i <= n,
            n == a@.len(),
            spec_first_common3(a@, b@, c@, 0) == spec_first_common3(a@, b@, c@, i as int),
        decreases n - i,
    {
        let x = a[i];
        let in_b = contains_in(b, 0, b.len(), x);
        let in_c = contains_in(c, 0, c.len(), x);
        proof {
            assert(b@.subrange(0, b@.len() as int) =~= b@);
            assert(c@.subrange(0, c@.len() as int) =~= c@);
        }
        if in_b && in_c {
            return Some(x);
        }
        i = i + 1;
    }
    None
}

/// The rucksack lines, as item priorities.
#[derive(Clone, Debug)]
pub struct Day3(pub Vec<Vec<usize>>);

impl Day3 {
    /// Parse each line into item priorities. `None` when a byte is not a
    /// letter.
    pub fn parse(input: &str) -> (r: Option<Day3>)
        ensures
            r is Some ==> {
                let lines = spec_lines(input.spec_bytes());
                &&& (r->0).0@.len() == lines.len()
                &&& forall|k: int|
                    0 <= k < lines.len() ==> (#[trigger] (r->0).0@[k])@ == lines[k].map_values(
                        |b: u8| spec_priority(b),
                    )
            },
    {
        let lines = split_lines(input.as_bytes());
        let n = lines.len();
        let mut out: Vec<Vec<usize>> = Vec::new();
        let mut i: usize = 0;
        while i < n
            invariant
                0 <= i <= n,
                n == lines@.len(),
                lines.deep_view() == spec_lines(input.spec_bytes()),
                out@.len() == i,
                forall|k: int|
                    0 <= k < i ==> (#[trigger] out@[k])@ == lines.deep_view()[k].map_values(
                        |b: u8| spec_priority(b),
                    ),
            decreases n - i,
        {
            let line = &lines[i];
            proof {
                assert(lines.deep_view()[i as int] =~= line@);
            }
            let m = line.len();
            let mut row: Vec<usize> = Vec::new();
            let mut j: usize = 0;
            while j < m
                invariant
                    0 <= j <= m,
                    m == line@.len(),
                    row@.len() == j,
                    forall|k: int| 0 <= k < j ==> is_letter(#[trigger] line@[k]),
                    forall|k: int| 0 <= k < j ==> (#[trigger] row@[k]) == spec_priority(line@[k]),
                decreases m - j,
            {
                let b = line[j];
                if 97 <= b && b <= 122 {
                    row.push((b - 96) as usize);
                } else if 65 <= b && b <= 90 {
                    row.push((b + 27 - 65) as usize);
                } else {
                    return None;
                }
                j = j + 1;
            }
            proof {
                assert(row@ =~= line@.map_values(|b: u8| spec_priority(b)));
            }
            out.push(row);
            i = i + 1;
        }
        Some(Day3(out))
    }

    /// The sum of each line's duplicated item. `None` when a line shares
    /// nothing between its halves or the sum overflows.
    pub fn part1(&self) -> (r: Option<usize>)
        ensures
            r is Some ==> forall|k: int|
                0 <= k < self.0@.len() ==> spec_line_value(#[trigger] self.0@[k]@) >= 0,
    {
        let n = self.0.len();
        let mut acc: usize = 0;
        let mut i: usize = 0;
        while i < n
            invariant
                0 <= i <= n,
                n == self.0@.len(),
                forall|k: int| 0 <= k < i ==> spec_line_value(#[trigger] self.0@[k]@) >= 0,
            decreases n - i,
        {
            let v = match line_duplicate(&self.0[i]) {
                Some(v) => v,
                None => {
                    return None;
                },
            };
            acc = match acc.checked_add(v) {
                Some(a) => a,
                None => {
                    return None;
                },
            };
            i = i + 1;
        }
        Some(acc)
    }

    /// The sum of each three-line group's badge. `None` when the line
    /// count is not a multiple of three, a group shares nothing, or the
    /// sum overflows.
    pub fn part2(&self) -> (r: Option<usize>)
        ensures
            r is Some ==> self.0@.len() % 3 == 0,
    {
        let n = self.0.len();
        if n % 3 != 0 {
            return None;
        }
        let mut acc: usize = 0;
        let mut i: usize = 0;
        while i < n
            invariant
                0 <= i <= n,
                n == self.0@.len(),
                n % 3 == 0,
                i % 3 == 0,
            decreases n - i,
        {
            let v = match group_badge(&self.0[i], &self.0[i + 1], &self.0[i + 2]) {
                Some(v) => v,
                None => {
                    return None;
                },
            };
            acc = match acc.checked_add(v) {
                Some(a) => a,
                None => {
                    return None;
                },
            };
            i = i + 3;
        }
        Some(acc)
    }
}

} // verus!
