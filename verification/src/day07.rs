use crate::day22_flat::split_lines;
use crate::util::parse_usize_in;
use vstd::prelude::*;

verus! {

/// The directory sizes of the browsed filesystem, and the size of its
/// root.
#[derive(Clone, Debug)]
pub struct Day7 {
    pub folder_sizes: Vec<usize>,
    pub root_size: usize,
}

/// The sum of the sizes of at most 100000.
pub open spec fn spec_small_sum(s: Seq<usize>) -> int
    decreases s.len(),
{
    if s.len() == 0 {
        0
    } else {
        spec_small_sum(s.drop_last()) + (if s.last() <= 100000 {
            s.last() as int
        } else {
            0int
        })
    }
}

impl Day7 {
    /// Walk the terminal transcript and compute the size of every
    /// directory, children before parents. `None` on a malformed line,
    /// an unmatched `cd ..`, or a size overflow.
    pub fn parse(input: &str) -> (r: Option<Day7>)
    {
        let lines = split_lines(input.as_bytes());
        let n = lines.len();
        let mut stack: Vec<usize> = Vec::new();
        let mut sizes: Vec<usize> = Vec::new();
        let mut i: usize = 0;
        while i < n
            invariant
                0 <= i <= n,
                n == lines@.len(),
            decreases n - i,
        {
            let line = &lines[i];
            let len = line.len();
            if len > 0x10000 {
                return None;
            }
            if len >= 1 && line[0] == 36 {
                // a command: "$ ls", "$ cd name" or "$ cd .."
                if len == 7 && line[2] == 99 && line[3] == 100 && line[5] == 46 && line[6] == 46 {
                    // "$ cd ..": close the current directory
                    let size = match stack.pop() {
                        Some(s) => s,
                        None => {
                            return None;
                        },
                    };
                    sizes.push(size);
                    if stack.len() > 0 {
                        let top = stack.len() - 1;
                        let parent = stack[top];
                        let merged = match parent.checked_add(size) {
                            Some(v) => v,
                            None => {
                                return None;
                            },
                        };
                        stack[top] = merged;
                    }
                } else if len >= 6 && line[2] == 99 && line[3] == 100 && line[4] == 32 {
                    // "$ cd name": open a directory
                    if stack.len() >= 0x10000 {
                        return None;
                    }
                    stack.push(0);
                }
                // "$ ls" contributes nothing
            } else if len >= 1 && line[0] == 100 {
                // "dir name" contributes nothing
            } else {
                // "size name": a file in the current directory
                let sp = match find_space(line) {
                    Some(p) => p,
                    None => {
                        return None;
                    },
                };
                let size = match parse_usize_in(line, 0, sp) {
                    Some(v) => v,
                    None => {
                        return None;
                    },
                };
                if stack.len() == 0 {
                    return None;
                }
                let top = stack.len() - 1;
                let cur = stack[top];
                let merged = match cur.checked_add(size) {
                    Some(v) => v,
                    None => {
                        return None;
                    },
                };
                stack[top] = merged;
            }
            i = i + 1;
        }
        // close every directory still open, root last
        let mut root: usize = 0;
        while stack.len() > 0
            invariant
                stack@.len() >= 0,
            decreases stack@.len(),
        {
            let size = stack.pop().unwrap();
            sizes.push(size);
            if stack.len() > 0 {
                let top = stack.len() - 1;
                let parent = stack[top];
                let merged = match parent.checked_add(size) {
                    Some(v) => v,
                    None => {
                        return None;
                    },
                };
                stack[top] = merged;
            } else {
                root = size;
            }
        }
        Some(Day7 { folder_sizes: sizes, root_size: root })
    }

    /// The total size of all directories of at most 100000.
    pub fn part1(&self) -> (r: Option<usize>)
        ensures
            r is Some ==> r->0 == spec_small_sum(self.folder_sizes@),
    {
        let n = self.folder_sizes.len();
        let mut acc: usize = 0;
        let mut i: usize = 0;
        proof {
            assert(self.folder_sizes@.take(0) =~= Seq::<usize>::empty());
        }
        while i < n
            invariant
                0 <= i <= n,
                n == self.folder_sizes@.len(),
                acc == spec_small_sum(self.folder_sizes@.take(i as int)),
            decreases n - i,
        {
            proof {
                assert(self.folder_sizes@.take(i as int + 1).drop_last() =~= self.folder_sizes@.take(
                    i as int,
                ));
                assert(self.folder_sizes@.take(i as int + 1).last() == self.folder_sizes@[i as int]);
            }
            let v = self.folder_sizes[i];
            if v <= 100000 {
                acc = match acc.checked_add(v) {
                    Some(a) => a,
                    None => {
                        return None;
                    },
                };
            }
            i = i + 1;
        }
        proof {
            assert(self.folder_sizes@.take(n as int) =~= self.folder_sizes@);
        }
        Some(acc)
    }

    /// The size of the smallest directory whose removal frees enough
    /// space: at least `root_size - 40000000`. `None` when the disk is
    /// not overfull or no directory is big enough.
    pub fn part2(&self) -> (r: Option<usize>)
        ensures
            r is Some ==> {
                let free_up = self.root_size - 40000000;
                &&& exists|k: int|
                    0 <= k < self.folder_sizes@.len() && (#[trigger] self.folder_sizes@[k]) == r->0
                        && r->0 >= free_up
                &&& forall|k: int|
                    0 <= k < self.folder_sizes@.len() && (#[trigger] self.folder_sizes@[k])
                        >= free_up ==> r->0 <= self.folder_sizes@[k]
            },
    {
        if self.root_size < 40000000 {
            return None;
        }
        let free_up = self.root_size - 40000000;
        let n = self.folder_sizes.len();
        let mut best: usize = 0;
        let mut found = false;
        let mut i: usize = 0;
        while i < n
            invariant
                0 <= i <= n,
                n == self.folder_sizes@.len(),
                found ==> exists|k: int|
                    0 <= k < i && (#[trigger] self.folder_sizes@[k]) == best && best >= free_up,
                forall|k: int|
                    0 <= k < i && (#[trigger] self.folder_sizes@[k]) >= free_up ==> (found && best
                        <= self.folder_sizes@[k]),
            decreases n - i,
        {
            let v = self.folder_sizes[i];
            if v >= free_up && (!found || v < best) {
                best = v;
                found = true;
            }
            i = i + 1;
        }
        if found {
            Some(best)
        } else {
            None
        }
    }
}

/// The position of the first space in `v`.
fn find_space(v: &Vec<u8>) -> (r: Option<usize>)
    ensures
        r is Some ==> r->0 < v@.len() && v@[r->0 as int] == 32,
{
    let n = v.len();
    let mut i: usize = 0;
    while i < n
        invariant
            0 <= i <= n,
            n == v@.len(),
        decreases n - i,
    {
        if v[i] == 32 {
            return Some(i);
        }
        i = i + 1;
    }
    None
}

} // verus!
