use vstd::prelude::*;
use vstd::string::StringSliceAdditionalSpecFns;

verus! {

/// Are the `n` bytes ending just before `end` pairwise distinct?
pub open spec fn window_distinct(s: Seq<u8>, end: int, n: int) -> bool {
    forall|a: int, b: int| end - n <= a < b < end ==> s[a] != s[b]
}

/// The datastream of the tuning-trouble puzzle.
#[derive(Clone, Debug)]
pub struct Day6(pub Vec<u8>);

/// The number of bytes up to and including the end of the first window of
/// `n` pairwise distinct bytes; `None` when there is none.
pub fn first_distinct(source: &Vec<u8>, n: usize) -> (r: Option<usize>)
    requires
        n >= 1,
    ensures
        r is Some ==> {
            let e = r->0 as int;
            &&& n <= e <= source@.len()
            &&& window_distinct(source@, e, n as int)
            &&& forall|e2: int|
                n <= e2 < e ==> !window_distinct(source@, e2, n as int)
        },
        r is None ==> forall|e2: int|
            n <= e2 <= source@.len() ==> !window_distinct(source@, e2, n as int),
{
    let len = source.len();
    if len < n {
        return None;
    }
    let mut st: usize = 0;
    while st <= len - n
        invariant
            0 <= st <= len - n + 1,
            1 <= n <= len,
            len == source@.len(),
            forall|e2: int| n <= e2 < st + n ==> !window_distinct(source@, e2, n as int),
        decreases len - n + 1 - st,
    {
        let end = st + n;
        let mut ok = true;
        let mut a: usize = st;
        while a < end - 1 && ok
            invariant
                st <= a <= end,
                1 <= n,
                st + n == end <= len,
                len == source@.len(),
                ok ==> forall|x: int, y: int|
                    st <= x < y < end && x < a ==> source@[x] != source@[y],
                !ok ==> !window_distinct(source@, end as int, n as int),
            decreases end - a, ok as int,
        {
            let mut b: usize = a + 1;
            while b < end && ok
                invariant
                    a + 1 <= b <= end,
                    st <= a < end <= len,
                    st + n == end,
                    len == source@.len(),
                    ok ==> forall|y: int| a < y < b ==> source@[a as int] != source@[y],
                    ok ==> forall|x: int, y: int|
                        st <= x < y < end && x < a ==> source@[x] != source@[y],
                    !ok ==> !window_distinct(source@, end as int, n as int),
                decreases end - b, ok as int,
            {
                if source[a] == source[b] {
                    ok = false;
                }
                b = b + 1;
            }
            if ok {
                a = a + 1;
            }
        }
        if ok {
            proof {
                assert(window_distinct(source@, end as int, n as int));
            }
            return Some(end);
        }
        st = st + 1;
    }
    None
}

impl Day6 {
    /// Keep the datastream. `None` when a byte is not a lower-case
    /// letter.
    pub fn parse(input: &str) -> (r: Option<Day6>)
        ensures
            r is Some <==> (forall|i: int|
                0 <= i < input.spec_bytes().len() ==> 97 <= #[trigger] input.spec_bytes()[i]
                    <= 122),
            r is Some ==> (r->0).0@ == input.spec_bytes(),
    {
        let bytes = input.as_bytes();
        let n = bytes.len();
        let mut v: Vec<u8> = Vec::new();
        let mut i: usize = 0;
        while i < n
            invariant
                0 <= i <= n,
                n == bytes@.len(),
                bytes@ == input.spec_bytes(),
                v@ == bytes@.take(i as int),
                forall|j: int| 0 <= j < i ==> 97 <= #[trigger] bytes@[j] <= 122,
            decreases n - i,
        {
            let b = bytes[i];
            if !(97 <= b && b <= 122) {
                return None;
            }
            v.push(b);
            proof {
                assert(v@ =~= bytes@.take(i as int + 1));
            }
            i = i + 1;
        }
        proof {
            assert(v@ =~= bytes@);
        }
        Some(Day6(v))
    }

    /// The start-of-packet position: the first window of four distinct
    /// bytes.
    pub fn part1(&self) -> (r: Option<usize>)
        ensures
            r is Some ==> window_distinct(self.0@, r->0 as int, 4),
    {
        first_distinct(&self.0, 4)
    }

    /// The start-of-message position: the first window of fourteen
    /// distinct bytes.
    pub fn part2(&self) -> (r: Option<usize>)
        ensures
            r is Some ==> window_distinct(self.0@, r->0 as int, 14),
    {
        first_distinct(&self.0, 14)
    }
}

} // verus!
