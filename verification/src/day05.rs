use crate::day22_flat::split_lines;
use crate::util::parse_usize_in;
use vstd::prelude::*;

verus! {

/// One crane instruction: move `count` crates from stack `source` to
/// stack `dest` (0-based).
#[derive(Clone, Copy, Debug, PartialEq, Eq, Structural)]
pub struct CraneMove {
    pub count: usize,
    pub source: usize,
    pub dest: usize,
}

/// The crate stacks and the instruction list.
#[derive(Clone, Debug)]
pub struct Day5 {
    pub crates: Vec<Vec<u8>>,
    pub instructions: Vec<CraneMove>,
}

/// The top crate of every stack, in stack order; `None` when a stack is
/// empty.
pub fn top_crates(crates: &Vec<Vec<u8>>) -> (r: Option<Vec<u8>>)
    ensures
        r is Some <==> (forall|k: int| 0 <= k < crates@.len() ==> (#[trigger] crates@[k])@.len() > 0),
        r is Some ==> {
            let v = r->0;
            &&& v@.len() == crates@.len()
            &&& forall|k: int| 0 <= k < v@.len() ==> (#[trigger] v@[k]) == crates@[k]@.last()
        },
{
    let n = crates.len();
    let mut out: Vec<u8> = Vec::new();
    let mut i: usize = 0;
    while i < n
        invariant
            0 <= i <= n,
            n == crates@.len(),
            out@.len() == i,
            forall|k: int| 0 <= k < i ==> (#[trigger] crates@[k])@.len() > 0,
            forall|k: int| 0 <= k < i ==> (#[trigger] out@[k]) == crates@[k]@.last(),
        decreases n - i,
    {
        let stack = &crates[i];
        if stack.len() == 0 {
            return None;
        }
        out.push(stack[stack.len() - 1]);
        i = i + 1;
    }
    Some(out)
}

impl Day5 {
    /// Parse the crate drawing and the move list. `None` on any malformed
    /// piece.
    pub fn parse(input: &str) -> (r: Option<Day5>)
    {
        let lines = split_lines(input.as_bytes());
        let n = lines.len();
        let mut blank: usize = 0;
        let mut found = false;
        let mut i: usize = 0;
        while i < n && !found
            invariant
                0 <= i <= n,
                n == lines@.len(),
                found ==> blank < n,
            decreases n - i, !found as int,
        {
            if lines[i].len() == 0 {
                blank = i;
                found = true;
            } else {
                i = i + 1;
            }
        }
        if !found || blank == 0 || blank + 1 >= n {
            return None;
        }
        let labels = &lines[blank - 1];
        let ll = labels.len();
        if ll >= 0x4000 {
            return None;
        }
        let num_stacks = (ll + 1) / 4;
        if num_stacks == 0 || num_stacks > 0x1000 {
            return None;
        }
        let mut crates: Vec<Vec<u8>> = Vec::new();
        let mut k: usize = 0;
        while k < num_stacks
            invariant
                0 <= k <= num_stacks,
                crates@.len() == k,
            decreases num_stacks - k,
        {
            crates.push(Vec::new());
            k = k + 1;
        }
        let mut row: usize = blank - 1;
        while row > 0
            invariant
                0 <= row <= blank - 1,
                blank < n == lines@.len(),
                crates@.len() == num_stacks,
                num_stacks <= 0x1000,
            decreases row,
        {
            row = row - 1;
            let line = &lines[row];
            let mut s: usize = 0;
            while s < num_stacks
                invariant
                    0 <= s <= num_stacks,
                    num_stacks <= 0x1000,
                    crates@.len() == num_stacks,
                    0 <= row < lines@.len(),
                decreases num_stacks - s,
            {
                let col = 1 + 4 * s;
                if col < line.len() {
                    let b = line[col];
                    if b != 32 {
                        let mut stack = crates.remove(s);
                        stack.push(b);
                        crates.insert(s, stack);
                    }
                }
                s = s + 1;
            }
        }
        let mut moves: Vec<CraneMove> = Vec::new();
        let mut m: usize = blank + 1;
        while m < n
            invariant
                blank + 1 <= m <= n,
                n == lines@.len(),
            decreases n - m,
        {
            let line = &lines[m];
            let len = line.len();
            if len > 0x10000 {
                return None;
            }
            if !(len > 5 && line[0] == 109 && line[1] == 111 && line[2] == 118 && line[3] == 101
                && line[4] == 32) {
                return None;
            }
            let sp1 = match next_space(line, 5) {
                Some(p) => p,
                None => {
                    return None;
                },
            };
            let count = match parse_usize_in(line, 5, sp1) {
                Some(c) => c,
                None => {
                    return None;
                },
            };
            if sp1 + 6 > len || !(line[sp1 + 1] == 102 && line[sp1 + 2] == 114 && line[sp1 + 3]
                == 111 && line[sp1 + 4] == 109 && line[sp1 + 5] == 32) {
                return None;
            }
            let from_start = sp1 + 6;
            let sp2 = match next_space(line, from_start) {
                Some(p) => p,
                None => {
                    return None;
                },
            };
            let source = match parse_usize_in(line, from_start, sp2) {
                Some(v) => v,
                None => {
                    return None;
                },
            };
            if sp2 + 4 > len || !(line[sp2 + 1] == 116 && line[sp2 + 2] == 111 && line[sp2 + 3]
                == 32) {
                return None;
            }
            let dest = match parse_usize_in(line, sp2 + 4, len) {
                Some(v) => v,
                None => {
                    return None;
                },
            };
            if source == 0 || dest == 0 || source > num_stacks || dest > num_stacks || source
                == dest {
                return None;
            }
            moves.push(CraneMove { count, source: source - 1, dest: dest - 1 });
            m = m + 1;
        }
        Some(Day5 { crates, instructions: moves })
    }

    /// Apply every move, lifting crates one at a time (which reverses
    /// each moved group), then read the stack tops. `None` when a move
    /// asks for more crates than its source holds.
    pub fn part1(&self) -> (r: Option<Vec<u8>>)
        ensures
            r is Some ==> (r->0)@.len() == self.crates@.len(),
    {
        self.run(true)
    }

    /// Apply every move, lifting each group in one piece, then read the
    /// stack tops. `None` when a move asks for more crates than its
    /// source holds.
    pub fn part2(&self) -> (r: Option<Vec<u8>>)
        ensures
            r is Some ==> (r->0)@.len() == self.crates@.len(),
    {
        self.run(false)
    }

    /// Run the crane over all moves; `one_at_a_time` reverses each moved
    /// group.
    fn run(&self, one_at_a_time: bool) -> (r: Option<Vec<u8>>)
        ensures
            r is Some ==> (r->0)@.len() == self.crates@.len(),
    {
        let mut crates: Vec<Vec<u8>> = Vec::new();
        let n0 = self.crates.len();
        let mut i: usize = 0;
        while i < n0
            invariant
                0 <= i <= n0,
                n0 == self.crates@.len(),
                crates@.len() == i,
            decreases n0 - i,
        {
            let src = &self.crates[i];
            let mut copy: Vec<u8> = Vec::new();
            let mut j: usize = 0;
            while j < src.len()
                invariant
                    0 <= j <= src@.len(),
                decreases src@.len() - j,
            {
                copy.push(src[j]);
                j = j + 1;
            }
            crates.push(copy);
            i = i + 1;
        }
        let nm = self.instructions.len();
        let mut m: usize = 0;
        while m < nm
            invariant
                0 <= m <= nm,
                nm == self.instructions@.len(),
                crates@.len() == n0 == self.crates@.len(),
            decreases nm - m,
        {
            let mv = self.instructions[m];
            if mv.source >= crates.len() || mv.dest >= crates.len() {
                return None;
            }
            let mut lifted: Vec<u8> = Vec::new();
            let mut c: usize = 0;
            while c < mv.count
                invariant
                    0 <= c <= mv.count,
                    crates@.len() == n0,
                    mv.source < n0,
                decreases mv.count - c,
            {
                let mut src = crates.remove(mv.source);
                if src.len() == 0 {
                    return None;
                }
                let top = src.pop().unwrap();
                crates.insert(mv.source, src);
                lifted.push(top);
                c = c + 1;
            }
            let mut dst = crates.remove(mv.dest);
            if one_at_a_time {
                let mut c2: usize = 0;
                while c2 < lifted.len()
                    invariant
                        0 <= c2 <= lifted@.len(),
                    decreases lifted@.len() - c2,
                {
                    dst.push(lifted[c2]);
                    c2 = c2 + 1;
                }
            } else {
                let mut c2: usize = lifted.len();
                while c2 > 0
                    invariant
                        0 <= c2 <= lifted@.len(),
                    decreases c2,
                {
                    c2 = c2 - 1;
                    dst.push(lifted[c2]);
                }
            }
            crates.insert(mv.dest, dst);
            m = m + 1;
        }
        top_crates(&crates)
    }
}

/// The position of the next space in `v` at or after `from`.
fn next_space(v: &Vec<u8>, from: usize) -> (r: Option<usize>)
    requires
        from <= v@.len(),
    ensures
        r is Some ==> from <= r->0 < v@.len() && v@[r->0 as int] == 32,
{
    let n = v.len();
    let mut i: usize = from;
    while i < n
        invariant
            from <= i <= n,
            n == v@.len(),
        decreases n - i,
    {
        if v[i] == 32 {
            return Some(i);
        }
        i = i + 1;
    }
    None
}

} // verus!
