use crate::day22_flat::split_lines;
use vstd::prelude::*;

verus! {

/// One distress-signal packet: a number, or a list of packets.
pub enum Packet {
    Packet(Vec<Packet>),
    Number(usize),
}

/// The packet order, as -1, 0 or 1: numbers compare as numbers, lists
/// compare element-wise and then by length, and a number against a list
/// compares as the one-element list holding it.
pub open spec fn spec_cmp(a: Packet, b: Packet) -> int
    decreases a, b,
{
    match (a, b) {
        (Packet::Number(x), Packet::Number(y)) => if x < y {
            -1
        } else if x > y {
            1
        } else {
            0
        },
        (Packet::Packet(va), Packet::Packet(vb)) => spec_cmp_lists(va@, vb@, 0),
        (Packet::Packet(va), Packet::Number(y)) => {
            if va@.len() == 0 {
                -1
            } else {
                let r = spec_cmp(va@[0], Packet::Number(y));
                if r != 0 {
                    r
                } else if va@.len() == 1 {
                    0
                } else {
                    1
                }
            }
        },
        (Packet::Number(x), Packet::Packet(vb)) => {
            if vb@.len() == 0 {
                1
            } else {
                let r = spec_cmp(Packet::Number(x), vb@[0]);
                if r != 0 {
                    r
                } else if vb@.len() == 1 {
                    0
                } else {
                    -1
                }
            }
        },
    }
}

/// Element-wise list comparison from position `i` on, then by length.
pub open spec fn spec_cmp_lists(va: Seq<Packet>, vb: Seq<Packet>, i: int) -> int
    decreases va, vb, va.len() - i,
{
    if i < 0 {
        0
    } else if i >= va.len() && i >= vb.len() {
        0
    } else if i >= va.len() {
        -1
    } else if i >= vb.len() {
        1
    } else {
        let r = spec_cmp(va[i], vb[i]);
        if r != 0 {
            r
        } else {
            spec_cmp_lists(va, vb, i + 1)
        }
    }
}

/// Compare two packets, as in [`spec_cmp`].
pub fn cmp_packets(a: &Packet, b: &Packet) -> (r: i8)
    ensures
        r as int == spec_cmp(*a, *b),
    decreases *a, *b,
{
    match (a, b) {
        (Packet::Number(x), Packet::Number(y)) => {
            if x < y {
                -1
            } else if x > y {
                1
            } else {
                0
            }
        },
        (Packet::Packet(va), Packet::Packet(vb)) => {
            let na = va.len();
            let nb = vb.len();
            let mut i: usize = 0;
            while i < na && i < nb
                invariant
                    0 <= i,
                    i <= na,
                    i <= nb,
                    na == va@.len(),
                    nb == vb@.len(),
                    a == &(Packet::Packet(*va)),
                    b == &(Packet::Packet(*vb)),
                    spec_cmp(*a, *b) == spec_cmp_lists(va@, vb@, i as int),
                decreases na - i,
            {
                let r = cmp_packets(&va[i], &vb[i]);
                if r != 0 {
                    return r;
                }
                i = i + 1;
            }
            if i < nb {
                -1
            } else if i < na {
                1
            } else {
                0
            }
        },
        (Packet::Packet(va), Packet::Number(y)) => {
            if va.len() == 0 {
                -1
            } else {
                let r = cmp_packets(&va[0], b);
                if r != 0 {
                    r
                } else if va.len() == 1 {
                    0
                } else {
                    1
                }
            }
        },
        (Packet::Number(x), Packet::Packet(vb)) => {
            if vb.len() == 0 {
                1
            } else {
                let r = cmp_packets(a, &vb[0]);
                if r != 0 {
                    r
                } else if vb.len() == 1 {
                    0
                } else {
                    -1
                }
            }
        },
    }
}

/// The parsed packet pairs.
pub struct Day13(pub Vec<(Packet, Packet)>);

/// Parse one packet from `line` starting at `*at`; advances `*at` past
/// it. `None` on malformed text.
fn parse_packet(line: &Vec<u8>, at: &mut usize) -> (r: Option<Packet>)
    requires
        *old(at) <= line@.len(),
    ensures
        *old(at) <= *final(at) <= line@.len(),
        r is Some ==> *old(at) < *final(at),
    decreases line@.len() - *old(at),
{
    let n = line.len();
    if *at >= n {
        return None;
    }
    let b = line[*at];
    if b == 91 {
        // '[': a list
        *at = *at + 1;
        let mut items: Vec<Packet> = Vec::new();
        loop
            invariant
                *old(at) < *at <= line@.len(),
                n == line@.len(),
            decreases line@.len() - *at,
        {
            if *at >= n {
                return None;
            }
            if line[*at] == 93 {
                // ']': the list ends
                *at = *at + 1;
                return Some(Packet::Packet(items));
            }
            let item = match parse_packet(line, at) {
                Some(p) => p,
                None => {
                    return None;
                },
            };
            items.push(item);
            if *at < n && line[*at] == 44 {
                // ',': more items follow
                *at = *at + 1;
                if *at >= n || line[*at] == 93 {
                    return None;
                }
            }
        }
    } else if 48 <= b && b <= 57 {
        let mut num: usize = 0;
        let mut moved = false;
        loop
            invariant
                *old(at) <= *at <= line@.len(),
                n == line@.len(),
                moved ==> *old(at) < *at,
            decreases line@.len() - *at,
        {
            if *at >= n {
                break ;
            }
            let d = line[*at];
            if !(48 <= d && d <= 57) {
                break ;
            }
            num = match num.checked_mul(10) {
                Some(v) => match v.checked_add((d - 48) as usize) {
                    Some(v2) => v2,
                    None => {
                        return None;
                    },
                },
                None => {
                    return None;
                },
            };
            *at = *at + 1;
            moved = true;
        }
        if !moved {
            return None;
        }
        Some(Packet::Number(num))
    } else {
        None
    }
}

impl Day13 {
    /// Parse pairs of packet lines separated by blank lines. `None` on
    /// malformed text or an odd number of packet lines.
    pub fn parse(input: &str) -> (r: Option<Day13>)
        ensures
            r is Some ==> (r->0).0@.len() <= 0x1000000,
    {
        let lines = split_lines(input.as_bytes());
        let n = lines.len();
        let mut packets: Vec<Packet> = Vec::new();
        let mut i: usize = 0;
        while i < n
            invariant
                0 <= i <= n,
                n == lines@.len(),
            decreases n - i,
        {
            let line = &lines[i];
            if line.len() > 0 {
                let mut at: usize = 0;
                let p = match parse_packet(line, &mut at) {
                    Some(p) => p,
                    None => {
                        return None;
                    },
                };
                if at != line.len() {
                    return None;
                }
                packets.push(p);
            }
            i = i + 1;
        }
        if packets.len() % 2 != 0 || packets.len() > 0x1000000 {
            return None;
        }
        let mut pairs: Vec<(Packet, Packet)> = Vec::new();
        loop
            invariant
                packets@.len() % 2 == 0,
                pairs@.len() + packets@.len() / 2 <= 0x1000000,
            decreases packets@.len(),
        {
            if packets.len() == 0 {
                break ;
            }
            let a = packets.remove(0);
            let b = packets.remove(0);
            pairs.push((a, b));
        }
        Some(Day13(pairs))
    }

    /// The sum of the one-based indices of the pairs already in order.
    pub open spec fn spec_ordered_sum(pairs: Seq<(Packet, Packet)>) -> int
        decreases pairs.len(),
    {
        if pairs.len() == 0 {
            0
        } else {
            Self::spec_ordered_sum(pairs.drop_last()) + (if spec_cmp(
                pairs.last().0,
                pairs.last().1,
            ) == -1 {
                pairs.len() as int
            } else {
                0int
            })
        }
    }

    /// The sum of the indices of the correctly ordered pairs. `None` on
    /// overflow.
    pub fn part1(&self) -> (r: Option<usize>)
        ensures
            r is Some ==> r->0 == Day13::spec_ordered_sum(self.0@),
    {
        let n = self.0.len();
        let mut acc: usize = 0;
        let mut i: usize = 0;
        proof {
            assert(self.0@.take(0) =~= Seq::<(Packet, Packet)>::empty());
        }
        while i < n
            invariant
                0 <= i <= n,
                n == self.0@.len(),
                acc == Day13::spec_ordered_sum(self.0@.take(i as int)),
            decreases n - i,
        {
            proof {
                assert(self.0@.take(i as int + 1).drop_last() =~= self.0@.take(i as int));
                assert(self.0@.take(i as int + 1).last() == self.0@[i as int]);
            }
            let (a, b) = &self.0[i];
            if cmp_packets(a, b) == -1 {
                acc = match acc.checked_add(i + 1) {
                    Some(v) => v,
                    None => {
                        return None;
                    },
                };
            }
            i = i + 1;
        }
        proof {
            assert(self.0@.take(n as int) =~= self.0@);
        }
        Some(acc)
    }

    /// The decoder key: the product of the sorted positions of the two
    /// divider packets `[[2]]` and `[[6]]` among all packets.
    pub fn part2(&self) -> (r: Option<usize>)
        requires
            self.0@.len() <= 0x1000000,
    {
        let two = Packet::Packet(vec![Packet::Packet(vec![Packet::Number(2)])]);
        let six = Packet::Packet(vec![Packet::Packet(vec![Packet::Number(6)])]);
        let n = self.0.len();
        let mut lt2: usize = 1;
        let mut lt6: usize = 2;
        let mut i: usize = 0;
        while i < n
            invariant
                0 <= i <= n,
                n == self.0@.len() <= 0x1000000,
                lt2 <= 1 + 2 * i,
                lt6 <= 2 + 2 * i,
            decreases n - i,
        {
            let (a, b) = &self.0[i];
            if cmp_packets(a, &two) == -1 {
                lt2 = lt2 + 1;
            }
            if cmp_packets(a, &six) == -1 {
                lt6 = lt6 + 1;
            }
            if cmp_packets(b, &two) == -1 {
                lt2 = lt2 + 1;
            }
            if cmp_packets(b, &six) == -1 {
                lt6 = lt6 + 1;
            }
            i = i + 1;
        }
        lt2.checked_mul(lt6)
    }
}

} // verus!
