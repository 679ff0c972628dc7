use crate::day22_flat::split_lines;
use crate::util::parse_usize_in;
use vstd::prelude::*;

verus! {

/// The letters the screen decoder reads off an ASCII screen. The decoder
/// is a fixed table lookup, so the result depends on the screen text
/// alone.
pub uninterp spec fn ocr_letters_of(screen: Seq<u8>) -> Seq<char>;

/// Relies on advent_of_code_ocr::parse_string_to_letters: a pure lookup
/// of each 5-column letter cell in a fixed glyph table.
#[verifier::external_body]
fn ocr_letters(screen: &Vec<u8>) -> (r: String)
    ensures
        r@ == ocr_letters_of(screen@),
{
    advent_of_code_ocr::parse_string_to_letters(core::str::from_utf8(screen).unwrap_or(""))
}

/// The x register during each clock cycle.
#[derive(Clone, Debug)]
pub struct Day10(pub Vec<i64>);

/// The signal strengths of the first six report cycles: cycle
/// `20 + 40 * i` times the register value during it.
pub open spec fn spec_signal(v: Seq<i64>, i: int) -> int
    decreases i,
{
    if i <= 0 {
        0
    } else {
        spec_signal(v, i - 1) + (20 + (i - 1) * 40) * v[19 + (i - 1) * 40]
    }
}

/// The lit-or-dark byte of one screen pixel: lit when the sprite centred
/// on the register value covers the pixel's column.
pub open spec fn spec_pixel(v: Seq<i64>, clock: int) -> u8 {
    if -1 <= (clock % 40) - v[clock] <= 1 {
        35
    } else {
        46
    }
}

/// The whole 40 by 6 screen, rows separated by newlines.
pub open spec fn spec_screen(v: Seq<i64>) -> Seq<u8> {
    Seq::new(
        245,
        |i: int|
            if i % 41 == 40 {
                10
            } else {
                spec_pixel(v, (i / 41) * 40 + i % 41)
            },
    )
}

impl Day10 {
    /// Parse `noop` and `addx n` lines into the register trace: the value
    /// during each cycle. `None` on a malformed line or register
    /// overflow.
    pub fn parse(input: &str) -> (r: Option<Day10>)
    {
        let lines = split_lines(input.as_bytes());
        let n = lines.len();
        let mut x: i64 = 1;
        let mut values: Vec<i64> = Vec::new();
        let mut i: usize = 0;
        while i < n
            invariant
                0 <= i <= n,
                n == lines@.len(),
            decreases n - i,
        {
            let line = &lines[i];
            let len = line.len();
            if len == 4 && line[0] == 110 && line[1] == 111 && line[2] == 111 && line[3] == 112 {
                values.push(x);
            } else if len >= 6 && line[0] == 97 && line[1] == 100 && line[2] == 100 && line[3]
                == 120 && line[4] == 32 {
                values.push(x);
                values.push(x);
                let neg = line[5] == 45;
                let from: usize = if neg {
                    6
                } else {
                    5
                };
                if from >= len {
                    return None;
                }
                let mag = match parse_usize_in(line, from, len) {
                    Some(m) => m,
                    None => {
                        return None;
                    },
                };
                if mag as u64 > 0x7ffffffffffffffe {
                    return None;
                }
                let delta: i64 = if neg {
                    -(mag as i64)
                } else {
                    mag as i64
                };
                x = match x.checked_add(delta) {
                    Some(v) => v,
                    None => {
                        return None;
                    },
                };
            } else {
                return None;
            }
            i = i + 1;
        }
        Some(Day10(values))
    }

    /// The sum of the six report-cycle signal strengths. `None` when the
    /// trace is too short or the arithmetic overflows.
    pub fn part1(&self) -> (r: Option<i64>)
        ensures
            r is Some ==> self.0@.len() >= 220 && r->0 == spec_signal(self.0@, 6),
    {
        if self.0.len() < 220 {
            return None;
        }
        let mut acc: i64 = 0;
        let mut i: usize = 0;
        while i < 6
            invariant
                0 <= i <= 6,
                self.0@.len() >= 220,
                acc == spec_signal(self.0@, i as int),
            decreases 6 - i,
        {
            let clock: i64 = 20 + (i as i64) * 40;
            let v = self.0[19 + i * 40];
            let product = match clock.checked_mul(v) {
                Some(p) => p,
                None => {
                    return None;
                },
            };
            acc = match acc.checked_add(product) {
                Some(a) => a,
                None => {
                    return None;
                },
            };
            i = i + 1;
        }
        Some(acc)
    }

    /// Render the screen and read the letters off it. `None` when the
    /// trace is shorter than the 240 screen pixels.
    pub fn part2(&self) -> (r: Option<String>)
        ensures
            r is Some ==> self.0@.len() >= 240 && (r->0)@ == ocr_letters_of(spec_screen(self.0@)),
    {
        if self.0.len() < 240 {
            return None;
        }
        let mut screen: Vec<u8> = Vec::new();
        let mut row: usize = 0;
        while row < 6
            invariant
                0 <= row <= 6,
                self.0@.len() >= 240,
                screen@.len() == (if row == 6 {
                    245int
                } else {
                    row * 41
                }),
                forall|j: int|
                    0 <= j < screen@.len() ==> (#[trigger] screen@[j]) == spec_screen(self.0@)[j],
            decreases 6 - row,
        {
            let limit: usize = if row < 5 {
                41
            } else {
                40
            };
            let mut col: usize = 0;
            while col < limit
                invariant
                    0 <= col <= limit,
                    limit == (if row < 5 {
                        41int
                    } else {
                        40int
                    }),
                    0 <= row < 6,
                    self.0@.len() >= 240,
                    screen@.len() == row * 41 + col,
                    forall|j: int|
                        0 <= j < screen@.len() ==> (#[trigger] screen@[j]) == spec_screen(
                            self.0@,
                        )[j],
                decreases limit - col,
            {
                proof {
                    vstd::arithmetic::div_mod::lemma_fundamental_div_mod_converse(
                        (row * 41 + col) as int,
                        41,
                        row as int,
                        col as int,
                    );
                }
                if col == 40 {
                    screen.push(10);
                } else {
                    let clock = row * 40 + col;
                    let xv = self.0[clock];
                    let colv = col as i64;
                    let lit = xv <= colv + 1 && colv - 1 <= xv;
                    proof {
                        vstd::arithmetic::div_mod::lemma_fundamental_div_mod_converse(
                            clock as int,
                            40,
                            row as int,
                            col as int,
                        );
                    }
                    screen.push(
                        if lit {
                            35
                        } else {
                            46
                        },
                    );
                }
                col = col + 1;
            }
            proof {
                assert((row + 1) * 41 == row * 41 + 41) by (nonlinear_arith);
            }
            row = row + 1;
        }
        proof {
            assert(screen@ =~= spec_screen(self.0@));
        }
        Some(ocr_letters(&screen))
    }
}

} // verus!
