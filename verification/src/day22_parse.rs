use vstd::prelude::*;
use vstd::string::StringSliceAdditionalSpecFns;

verus! {

/// One tile of the net: walkable, blocked, or outside the net.
#[derive(Copy, Clone, Debug, PartialEq, Eq, Structural)]
pub enum Tile {
    Open,
    Closed,
    Void,
}

/// A quarter turn of the walking agent.
#[derive(Copy, Clone, Debug, PartialEq, Eq, Structural)]
pub enum Turn {
    Left,
    Right,
}

/// One step of the instruction stream: walk forward, or turn in place.
#[derive(Copy, Clone, Debug, PartialEq, Eq, Structural)]
pub enum Instruction {
    Move(usize),
    Turn(Turn),
}

impl DeepView for Tile {
    type V = Tile;

    open spec fn deep_view(&self) -> Tile {
        *self
    }
}

impl Turn {
    pub fn from_char(c: char) -> (r: Self)
        requires
            c == 'L' || c == 'R',
        ensures
            r == (if c == 'L' {
                Turn::Left
            } else {
                Turn::Right
            }),
    {
        if c == 'L' {
            Turn::Left
        } else {
            Turn::Right
        }
    }
}

impl Tile {
    pub fn from_char(c: char) -> (r: Self)
        requires
            c == '.' || c == '#' || c == ' ',
        ensures
            r == (if c == '.' {
                Tile::Open
            } else if c == '#' {
                Tile::Closed
            } else {
                Tile::Void
            }),
    {
        if c == '.' {
            Tile::Open
        } else if c == '#' {
            Tile::Closed
        } else {
            Tile::Void
        }
    }
}

/// The byte values of the characters that may appear in an instruction
/// string: 'L', 'R' and the decimal digits.
pub const BYTE_L: u8 = 76;

/// The byte value of 'R'.
pub const BYTE_R: u8 = 82;

/// The byte value of '0'.
pub const BYTE_0: u8 = 48;

/// The byte value of '9'.
pub const BYTE_9: u8 = 57;

/// Is this byte a decimal digit?
pub open spec fn is_digit(b: u8) -> bool {
    BYTE_0 <= b <= BYTE_9
}

/// May this byte appear in an instruction string?
pub open spec fn is_instruction_byte(b: u8) -> bool {
    b == BYTE_L || b == BYTE_R || is_digit(b)
}

/// The instruction stream denoted by `bytes` when `acc` is the value of the
/// digit run read so far: a run of digits accumulates a `Move`, each `L` or
/// `R` flushes the pending `Move` and appends a `Turn`, and the end of the
/// input flushes the final `Move`.
pub open spec fn spec_instructions_from(bytes: Seq<u8>, acc: nat) -> Seq<Instruction>
    decreases bytes.len(),
{
    if bytes.len() == 0 {
        seq![Instruction::Move(acc as usize)]
    } else if bytes[0] == BYTE_L {
        seq![Instruction::Move(acc as usize), Instruction::Turn(Turn::Left)]
            + spec_instructions_from(bytes.drop_first(), 0)
    } else if bytes[0] == BYTE_R {
        seq![Instruction::Move(acc as usize), Instruction::Turn(Turn::Right)]
            + spec_instructions_from(bytes.drop_first(), 0)
    } else {
        spec_instructions_from(bytes.drop_first(), (acc * 10 + (bytes[0] - BYTE_0)) as nat)
    }
}

/// Do all the digit runs of `bytes` denote values that fit in `usize` when
/// the run read so far has value `acc`?
pub open spec fn spec_moves_fit(bytes: Seq<u8>, acc: nat) -> bool
    decreases bytes.len(),
{
    if bytes.len() == 0 {
        acc <= usize::MAX
    } else if bytes[0] == BYTE_L || bytes[0] == BYTE_R {
        acc <= usize::MAX && spec_moves_fit(bytes.drop_first(), 0)
    } else {
        acc * 10 + (bytes[0] - BYTE_0) <= usize::MAX && spec_moves_fit(
            bytes.drop_first(),
            (acc * 10 + (bytes[0] - BYTE_0)) as nat,
        )
    }
}

/// Parse an instruction string: runs of digits become `Move`s, `L` and `R`
/// become `Turn`s. Mirrors [`spec_instructions_from`] exactly.
pub fn instructions(raw: &str) -> (r: Vec<Instruction>)
    requires
        forall|i: int|
            0 <= i < raw.spec_bytes().len() ==> is_instruction_byte(#[trigger] raw.spec_bytes()[i]),
        spec_moves_fit(raw.spec_bytes(), 0),
    ensures
        r@ == spec_instructions_from(raw.spec_bytes(), 0),
{
    let bytes = raw.as_bytes();
    let n = bytes.len();
    let mut distance: usize = 0;
    let mut r: Vec<Instruction> = Vec::new();
    let mut i: usize = 0;
    proof {
        assert(bytes@.skip(0) =~= bytes@);
        assert(r@ + spec_instructions_from(bytes@, 0) =~= spec_instructions_from(bytes@, 0));
    }
    while i < n
        invariant
            0 <= i <= n,
            n == bytes.len(),
            bytes@ == raw.spec_bytes(),
            forall|j: int| 0 <= j < n ==> is_instruction_byte(#[trigger] bytes@[j]),
            spec_moves_fit(bytes@.skip(i as int), distance as nat),
            spec_instructions_from(bytes@, 0) == r@ + spec_instructions_from(
                bytes@.skip(i as int),
                distance as nat,
            ),
        decreases n - i,
    {
        let b = bytes[i];
        proof {
            assert(bytes@.skip(i as int).drop_first() =~= bytes@.skip(i as int + 1));
            assert(bytes@.skip(i as int)[0] == b);
        }
        if b == BYTE_L {
            r.push(Instruction::Move(distance));
            r.push(Instruction::Turn(Turn::Left));
            distance = 0;
        } else if b == BYTE_R {
            r.push(Instruction::Move(distance));
            r.push(Instruction::Turn(Turn::Right));
            distance = 0;
        } else {
            distance = distance * 10 + ((b - BYTE_0) as usize);
        }
        i = i + 1;
    }
    proof {
        assert(bytes@.skip(n as int) =~= Seq::<u8>::empty());
    }
    r.push(Instruction::Move(distance));
    r
}

} // verus!
