use crate::day22_flat::{spec_lines, split_lines};
use vstd::prelude::*;
use vstd::string::StringSliceAdditionalSpecFns;

verus! {

/// Is this byte a balanced-quinary digit: `=`, `-`, `0`, `1` or `2`?
pub open spec fn is_snafu_byte(b: u8) -> bool {
    b == 61 || b == 45 || b == 48 || b == 49 || b == 50
}

/// The value of one balanced-quinary digit: -2 to 2.
pub open spec fn spec_snafu_digit(b: u8) -> int {
    if b == 61 {
        -2
    } else if b == 45 {
        -1
    } else {
        b - 48
    }
}

/// The byte of one balanced-quinary digit value.
pub open spec fn spec_snafu_byte(d: int) -> u8 {
    if d == -2 {
        61
    } else if d == -1 {
        45
    } else {
        (48 + d) as u8
    }
}

/// The number a balanced-quinary string denotes.
pub open spec fn spec_snafu_val(s: Seq<u8>) -> int
    decreases s.len(),
{
    if s.len() == 0 {
        0
    } else {
        spec_snafu_val(s.drop_last()) * 5 + spec_snafu_digit(s.last())
    }
}

/// The balanced-quinary digits of a non-negative number, most significant
/// first; empty for zero.
pub open spec fn spec_snafu_digits(n: int) -> Seq<u8>
    decreases n,
{
    if n <= 0 {
        Seq::empty()
    } else {
        spec_snafu_digits((n + 2) / 5).push(spec_snafu_byte(n - ((n + 2) / 5) * 5))
    }
}

/// The fifth powers.
pub open spec fn pow5(n: nat) -> int
    decreases n,
{
    if n == 0 {
        1
    } else {
        5 * pow5((n - 1) as nat)
    }
}

/// Fifth powers are positive and grow.
proof fn lemma_pow5_mono(a: nat, b: nat)
    requires
        a <= b,
    ensures
        1 <= pow5(a) <= pow5(b),
    decreases b,
{
    if a == b {
        if a > 0 {
            lemma_pow5_mono((a - 1) as nat, (b - 1) as nat);
        }
    } else {
        lemma_pow5_mono(a, (b - 1) as nat);
    }
}

/// A balanced-quinary string of `n` digits denotes a value within
/// `(pow5(n) - 1) / 2` of zero.
proof fn lemma_snafu_val_bound(s: Seq<u8>)
    requires
        forall|i: int| 0 <= i < s.len() ==> is_snafu_byte(#[trigger] s[i]),
    ensures
        2 * spec_snafu_val(s) <= pow5(s.len()) - 1,
        -(pow5(s.len()) - 1) <= 2 * spec_snafu_val(s),
    decreases s.len(),
{
    if s.len() > 0 {
        assert(forall|i: int|
            0 <= i < s.drop_last().len() ==> is_snafu_byte(#[trigger] s.drop_last()[i]));
        lemma_snafu_val_bound(s.drop_last());
        let v = spec_snafu_val(s.drop_last());
        let p = pow5((s.len() - 1) as nat);
        assert(2 * (v * 5) <= 5 * (p - 1) && -(5 * (p - 1)) <= 2 * (v * 5)) by (nonlinear_arith)
            requires
                2 * v <= p - 1,
                -(p - 1) <= 2 * v,
        ;
    }
}

/// The value of one balanced-quinary digit byte, as in
/// [`spec_snafu_digit`].
pub fn snafu_digit_to_int(digit: u8) -> (r: Option<i64>)
    ensures
        r is Some <==> is_snafu_byte(digit),
        r is Some ==> r->0 == spec_snafu_digit(digit),
{
    if digit == 61 {
        Some(-2)
    } else if digit == 45 {
        Some(-1)
    } else if 48 <= digit && digit <= 50 {
        Some((digit - 48) as i64)
    } else {
        None
    }
}

/// The byte of one digit value, as in [`spec_snafu_byte`].
pub fn int_to_snafu_digit(digit: i64) -> (r: u8)
    requires
        -2 <= digit <= 2,
    ensures
        r == spec_snafu_byte(digit as int),
{
    if digit == -2 {
        61
    } else if digit == -1 {
        45
    } else {
        (48 + digit) as u8
    }
}

/// The value a balanced-quinary line denotes; `None` on a stray byte. The
/// bound on the line length keeps the value inside `i64`.
pub fn snafu_to_int(line: &Vec<u8>) -> (r: Option<i64>)
    requires
        line@.len() <= 24,
    ensures
        r is Some <==> forall|i: int| 0 <= i < line@.len() ==> is_snafu_byte(#[trigger] line@[i]),
        r is Some ==> r->0 == spec_snafu_val(line@),
{
    let n = line.len();
    let mut acc: i64 = 0;
    let mut i: usize = 0;
    proof {
        assert(line@.take(0) =~= Seq::<u8>::empty());
    }
    while i < n
        invariant
            0 <= i <= n,
            n == line@.len() <= 24,
            forall|j: int| 0 <= j < i ==> is_snafu_byte(#[trigger] line@[j]),
            acc == spec_snafu_val(line@.take(i as int)),
        decreases n - i,
    {
        proof {
            assert(line@.take(i as int + 1).drop_last() =~= line@.take(i as int));
            assert(line@.take(i as int + 1).last() == line@[i as int]);
        }
        let d = match snafu_digit_to_int(line[i]) {
            Some(d) => d,
            None => {
                return None;
            },
        };
        proof {
            lemma_snafu_val_bound(line@.take(i as int));
            lemma_snafu_val_bound(line@.take(i as int + 1));
            lemma_pow5_mono(line@.take(i as int).len(), 24);
            lemma_pow5_mono(line@.take(i as int + 1).len(), 24);
            assert(pow5(24) == 59604644775390625) by {
                reveal_with_fuel(pow5, 25);
            }
        }
        acc = acc * 5 + d;
        i = i + 1;
    }
    proof {
        assert(line@.take(n as int) =~= line@);
    }
    Some(acc)
}

/// The balanced-quinary digits of `n`, as in [`spec_snafu_digits`].
pub fn int_to_snafu(n: i64) -> (r: Vec<u8>)
    requires
        0 <= n <= 0x7ffffffffffffffd,
    ensures
        r@ == spec_snafu_digits(n as int),
{
    let mut digits: Vec<u8> = Vec::new();
    let mut m = n;
    proof {
        assert(digits@.reverse() =~= Seq::<u8>::empty());
        assert(spec_snafu_digits(n as int) =~= spec_snafu_digits(n as int) + digits@.reverse());
    }
    while m != 0
        invariant
            0 <= m <= n <= 0x7ffffffffffffffd,
            spec_snafu_digits(n as int) == spec_snafu_digits(m as int) + digits@.reverse(),
        decreases m,
    {
        let new = (m + 2) / 5;
        let digit = m - new * 5;
        let ghost pre = digits@;
        digits.push(int_to_snafu_digit(digit));
        proof {
            assert(digits@ =~= pre.push(spec_snafu_byte(digit as int)));
            assert(digits@.reverse() =~= seq![spec_snafu_byte(digit as int)] + pre.reverse());
            assert(spec_snafu_digits(m as int) == spec_snafu_digits(new as int).push(
                spec_snafu_byte(digit as int),
            ));
            assert(spec_snafu_digits(new as int).push(spec_snafu_byte(digit as int))
                + pre.reverse() =~= spec_snafu_digits(new as int) + digits@.reverse());
        }
        m = new;
    }
    let len = digits.len();
    let mut out: Vec<u8> = Vec::new();
    let mut k: usize = 0;
    while k < len
        invariant
            0 <= k <= len,
            len == digits@.len(),
            out@.len() == k,
            forall|j: int| 0 <= j < k ==> out@[j] == digits@[len - 1 - j],
        decreases len - k,
    {
        out.push(digits[len - 1 - k]);
        k = k + 1;
    }
    proof {
        assert(out@ =~= digits@.reverse());
        assert(spec_snafu_digits(0) + digits@.reverse() =~= digits@.reverse());
    }
    out
}

/// The sum of a sequence of signed machine integers.
pub open spec fn spec_sum_i64s(s: Seq<i64>) -> int
    decreases s.len(),
{
    if s.len() == 0 {
        0
    } else {
        spec_sum_i64s(s.drop_last()) + s.last()
    }
}

/// The fuel totals of the full-of-hot-air puzzle, one per line.
#[derive(Clone, Debug)]
pub struct Day25(pub Vec<i64>);

impl Day25 {
    /// Parse one balanced-quinary number per line. `None` on a stray byte
    /// or an overlong line.
    pub fn parse(input: &str) -> (r: Option<Day25>)
        ensures
            r is Some ==> {
                let lines = spec_lines(input.spec_bytes());
                &&& (r->0).0@.len() == lines.len()
                &&& forall|k: int|
                    0 <= k < lines.len() ==> (#[trigger] (r->0).0@[k]) == spec_snafu_val(lines[k])
            },
    {
        let lines = split_lines(input.as_bytes());
        let n = lines.len();
        let mut vals: Vec<i64> = Vec::new();
        let mut i: usize = 0;
        while i < n
            invariant
                0 <= i <= n,
                n == lines@.len(),
                lines.deep_view() == spec_lines(input.spec_bytes()),
                vals@.len() == i,
                forall|k: int|
                    0 <= k < i ==> (#[trigger] vals@[k]) == spec_snafu_val(lines.deep_view()[k]),
            decreases n - i,
        {
            let line = &lines[i];
            proof {
                assert(lines.deep_view()[i as int] =~= line@);
            }
            if line.len() > 24 {
                return None;
            }
            let v = match snafu_to_int(line) {
                Some(v) => v,
                None => {
                    return None;
                },
            };
            vals.push(v);
            i = i + 1;
        }
        Some(Day25(vals))
    }

    /// The sum of all fuel totals, written back in balanced quinary.
    /// `None` when the sum leaves `i64` or is negative.
    pub fn part1(&self) -> (r: Option<Vec<u8>>)
        ensures
            r is Some ==> (r->0)@ == spec_snafu_digits(spec_sum_i64s(self.0@)),
    {
        let n = self.0.len();
        let mut acc: i64 = 0;
        let mut i: usize = 0;
        proof {
            assert(self.0@.take(0) =~= Seq::<i64>::empty());
        }
        while i < n
            invariant
                0 <= i <= n,
                n == self.0@.len(),
                acc == spec_sum_i64s(self.0@.take(i as int)),
            decreases n - i,
        {
            proof {
                assert(self.0@.take(i as int + 1).drop_last() =~= self.0@.take(i as int));
                assert(self.0@.take(i as int + 1).last() == self.0@[i as int]);
            }
            acc = match acc.checked_add(self.0[i]) {
                Some(a) => a,
                None => {
                    return None;
                },
            };
            i = i + 1;
        }
        proof {
            assert(self.0@.take(n as int) =~= self.0@);
        }
        if acc < 0 || acc > 0x7ffffffffffffffd {
            return None;
        }
        Some(int_to_snafu(acc))
    }

    /// The second half of the puzzle asks for nothing: the answer is
    /// empty.
    pub fn part2(&self) -> (r: Vec<u8>)
        ensures
            r@.len() == 0,
    {
        Vec::new()
    }
}

} // verus!
