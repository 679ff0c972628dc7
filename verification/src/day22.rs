use crate::day22_cube::{cube_matches_net, lemma_match_unique, spec_assembles};
use crate::day22_cubewalk::{cm_wf, lemma_same_score, spec_cube_score_instructions, CubeMap};
use crate::day22_flat::{parses_to, same_net, valid_net_text, BasicMap, BYTE_NL};
use crate::day22_parse::{
    instructions, is_instruction_byte, spec_instructions_from, spec_moves_fit, Instruction,
};
use vstd::prelude::*;
use vstd::string::StringSliceAdditionalSpecFns;

verus! {

/// The parsed puzzle: the net and the instruction stream.
#[derive(Clone, Debug)]
pub struct Day22 {
    pub map: BasicMap,
    pub instructions: Vec<Instruction>,
}

/// The index of the first blank line, that is of the first of two
/// consecutive newline bytes; -1 when there is none.
pub open spec fn spec_first_blank(bytes: Seq<u8>) -> int
    decreases bytes.len(),
{
    if bytes.len() < 2 {
        -1
    } else if bytes[0] == BYTE_NL && bytes[1] == BYTE_NL {
        0
    } else {
        let r = spec_first_blank(bytes.drop_first());
        if r == -1 {
            -1
        } else {
            r + 1
        }
    }
}

/// The first-blank index is never below -1.
proof fn lemma_first_blank_range(bytes: Seq<u8>)
    ensures
        spec_first_blank(bytes) >= -1,
    decreases bytes.len(),
{
    if bytes.len() < 2 {
    } else if bytes[0] == BYTE_NL && bytes[1] == BYTE_NL {
    } else {
        lemma_first_blank_range(bytes.drop_first());
    }
}

/// Does `bytes` split at its first blank line into an acceptable net and
/// a valid instruction string, with the split on character boundaries?
pub open spec fn valid_puzzle_text(bytes: Seq<u8>) -> bool {
    let cut = spec_first_blank(bytes);
    &&& cut >= 0
    &&& vstd::utf8::is_char_boundary(bytes, cut)
    &&& cut + 2 <= bytes.len()
    &&& vstd::utf8::is_char_boundary(bytes.subrange(cut, bytes.len() as int), 2)
    &&& valid_net_text(bytes.subrange(0, cut))
    &&& (forall|i: int|
        cut + 2 <= i < bytes.len() ==> is_instruction_byte(#[trigger] bytes[i]))
    &&& spec_moves_fit(bytes.subrange(cut + 2, bytes.len() as int), 0)
}

/// A cube map that realises this puzzle's net: a well-formed map over a
/// view-equal copy of the net whose cube is the one the net's placement
/// names.
pub open spec fn part2_witness(m: BasicMap, cm: CubeMap) -> bool {
    &&& cm_wf(cm)
    &&& same_net(cm.net, m)
    &&& cube_matches_net(cm.cube, m.map.deep_view(), m.face_size as int)
}

/// Check that `bytes` is a well-formed instruction string whose move
/// distances all fit in `usize`.
fn check_instruction_text(bytes: &[u8]) -> (r: bool)
    ensures
        r == ((forall|i: int|
            0 <= i < bytes@.len() ==> is_instruction_byte(#[trigger] bytes@[i]))
            && spec_moves_fit(bytes@, 0)),
{
    let n = bytes.len();
    let mut acc: usize = 0;
    let mut i: usize = 0;
    proof {
        assert(bytes@.skip(0) =~= bytes@);
    }
    while i < n
        invariant
            0 <= i <= n,
            n == bytes@.len(),
            forall|j: int| 0 <= j < i ==> is_instruction_byte(#[trigger] bytes@[j]),
            spec_moves_fit(bytes@, 0) == spec_moves_fit(bytes@.skip(i as int), acc as nat),
        decreases n - i,
    {
        let b = bytes[i];
        proof {
            assert(bytes@.skip(i as int).drop_first() =~= bytes@.skip(i as int + 1));
            assert(bytes@.skip(i as int)[0] == b);
        }
        if b == 76 || b == 82 {
            acc = 0;
        } else if 48 <= b && b <= 57 {
            let d = (b - 48) as usize;
            let next = match acc.checked_mul(10) {
                Some(v) => v.checked_add(d),
                None => None,
            };
            match next {
                Some(v) => {
                    acc = v;
                },
                None => {
                    proof {
                        assert(!spec_moves_fit(bytes@.skip(i as int), acc as nat));
                    }
                    return false;
                },
            }
        } else {
            return false;
        }
        i = i + 1;
    }
    proof {
        assert(bytes@.skip(n as int) =~= Seq::<u8>::empty());
    }
    true
}

impl Day22 {
    /// Parse the puzzle text: the net, a blank line, then the instruction
    /// string. `None` when there is no blank line, the net is not
    /// acceptable (see [`valid_net_text`]), or the instruction string
    /// holds a stray byte or an oversized distance.
    pub fn parse(input: &str) -> (r: Option<Day22>)
        ensures
            r is Some <==> valid_puzzle_text(input.spec_bytes()),
            r is Some ==> {
                let bytes = input.spec_bytes();
                let cut = spec_first_blank(bytes);
                let map_text = bytes.subrange(0, cut);
                let instr_text = bytes.subrange(cut + 2, bytes.len() as int);
                &&& valid_net_text(map_text)
                &&& parses_to(map_text, (r->0).map)
                &&& (r->0).map.wf()
                &&& (r->0).instructions@ == spec_instructions_from(instr_text, 0)
            },
    {
        let bytes = input.as_bytes();
        let n = bytes.len();
        if n < 2 {
            proof {
                assert(spec_first_blank(bytes@) == -1);
            }
            return None;
        }
        let mut i: usize = 0;
        let mut cut: usize = 0;
        let mut found = false;
        proof {
            assert(bytes@.skip(0) =~= bytes@);
        }
        while i < n - 1 && !found
            invariant
                0 <= i <= n,
                n == bytes@.len() >= 2,
                found ==> i < n - 1 && bytes@[i as int] == BYTE_NL && bytes@[i as int + 1]
                    == BYTE_NL && cut == i && spec_first_blank(bytes@) == i,
                !found ==> spec_first_blank(bytes@) == if spec_first_blank(
                    bytes@.skip(i as int),
                ) == -1 {
                    -1int
                } else {
                    spec_first_blank(bytes@.skip(i as int)) + i
                },
            decreases n - i, !found as int,
        {
            proof {
                assert(bytes@.skip(i as int).drop_first() =~= bytes@.skip(i as int + 1));
                assert(bytes@.skip(i as int)[0] == bytes@[i as int]);
                assert(bytes@.skip(i as int)[1] == bytes@[i as int + 1]);
            }
            if bytes[i] == 10 && bytes[i + 1] == 10 {
                cut = i;
                found = true;
            } else {
                proof {
                    lemma_first_blank_range(bytes@.skip(i as int + 1));
                    assert(spec_first_blank(bytes@.skip(i as int)) == (if spec_first_blank(
                        bytes@.skip(i as int + 1),
                    ) == -1 {
                        -1int
                    } else {
                        spec_first_blank(bytes@.skip(i as int + 1)) + 1
                    }));
                }
                i = i + 1;
            }
        }
        if !found {
            proof {
                if i + 1 >= n {
                    assert(bytes@.skip(i as int).len() < 2);
                    assert(spec_first_blank(bytes@.skip(i as int)) == -1);
                }
            }
            return None;
        }
        if !input.is_char_boundary(cut) {
            return None;
        }
        let (map_str, rest) = input.split_at(cut);
        if rest.len() < 2 || !rest.is_char_boundary(2) {
            return None;
        }
        let (_, instr_str) = rest.split_at(2);
        proof {
            assert(map_str.spec_bytes() =~= bytes@.subrange(0, cut as int));
            assert(instr_str.spec_bytes() =~= bytes@.subrange(cut as int + 2, n as int));
            assert(rest.spec_bytes() =~= bytes@.subrange(cut as int, n as int));
        }
        let map = match BasicMap::parse(map_str) {
            Some(m) => m,
            None => {
                return None;
            },
        };
        if !check_instruction_text(instr_str.as_bytes()) {
            return None;
        }
        let instrs = instructions(instr_str);
        proof {
            assert forall|i: int|
                cut + 2 <= i < bytes@.len() implies is_instruction_byte(
                #[trigger] bytes@[i],
            ) by {
                assert(instr_str.spec_bytes()[i - cut - 2] == bytes@[i]);
            }
        }
        Some(Day22 { map, instructions: instrs })
    }

    /// The flat-wrap score of the walk.
    pub fn part1(&self) -> (r: Option<usize>)
        requires
            self.map.wf(),
        ensures
            match r {
                None => self.map.spec_score_instructions(self.instructions@) is None,
                Some(s) => self.map.spec_score_instructions(self.instructions@) == Some(s as int),
            },
    {
        self.map.score_instructions(&self.instructions)
    }

    /// The cube-wrap score of the walk: the net is folded into the cube
    /// its placement names and the same instructions are walked under
    /// cube wrapping. `Some` exactly when the net's sides are whole
    /// numbers of faces, the net assembles, and the walk has a start
    /// tile; the score is then the cube walk's, whichever view-equal
    /// copy of the net carries it.
    pub fn part2(&self) -> (r: Option<usize>)
        requires
            self.map.wf(),
        ensures
            r is Some <==> ({
                let netv = self.map.map.deep_view();
                let s = self.map.face_size as int;
                &&& (self.map.width as int) % s == 0
                &&& (self.map.height as int) % s == 0
                &&& spec_assembles(netv, s)
                &&& exists|cm: CubeMap|
                    #[trigger] part2_witness(self.map, cm) && spec_cube_score_instructions(
                        cm,
                        self.instructions@,
                    ) is Some
            }),
            r is Some ==> forall|cm: CubeMap|
                #[trigger] part2_witness(self.map, cm) ==> spec_cube_score_instructions(
                    cm,
                    self.instructions@,
                ) == Some(r->0 as int),
    {
        let ghost netv = self.map.map.deep_view();
        let ghost s = self.map.face_size as int;
        let net = self.map.duplicate();
        proof {
            assert(net.map.deep_view() == netv);
        }
        let cm0 = match CubeMap::from_map(net) {
            Some(c) => c,
            None => {
                return None;
            },
        };
        proof {
            assert(part2_witness(self.map, cm0));
        }
        let r = cm0.score_instructions(&self.instructions);
        proof {
            assert forall|cm: CubeMap| #[trigger] part2_witness(self.map, cm) implies
                spec_cube_score_instructions(cm, self.instructions@)
                == spec_cube_score_instructions(cm0, self.instructions@) by {
                lemma_match_unique(cm.cube, cm0.cube, netv, s);
                lemma_same_score(cm, cm0, self.instructions@);
            }
        }
        r
    }
}

} // verus!
