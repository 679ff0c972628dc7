use crate::day22_flat::{spec_lines, split_lines};
use crate::util::{sum_checked, sum_usizes};
use vstd::prelude::*;
use vstd::string::StringSliceAdditionalSpecFns;

verus! {

/// Is this line a round: an opponent letter, a space, an own letter?
pub open spec fn valid_round(line: Seq<u8>) -> bool {
    line.len() == 3 && line[1] == 32 && 65 <= line[0] <= 67 && 88 <= line[2] <= 90
}

/// The round a line denotes: the opponent's shape and our shape, each 0,
/// 1 or 2 for rock, paper, scissors.
pub open spec fn round_of(line: Seq<u8>) -> (usize, usize) {
    (((line[0] - 65) as usize), ((line[2] - 88) as usize))
}

/// The parsed rounds of the rock-paper-scissors puzzle.
#[derive(Clone, Debug)]
pub struct Day2(pub Vec<(usize, usize)>);

/// The shape that beats `opponent`.
pub fn wins_against(opponent: usize) -> (r: usize)
    requires
        opponent <= 2,
    ensures
        r == (opponent + 1) % 3,
{
    (opponent + 1) % 3
}

/// The shape that loses to `opponent`.
pub fn loses_against(opponent: usize) -> (r: usize)
    requires
        opponent <= 2,
    ensures
        r == (opponent + 2) % 3,
{
    (opponent + 2) % 3
}

/// The score of one round when the letters name the two shapes: the shape
/// value plus 0, 3 or 6 for a loss, draw or win.
pub open spec fn spec_round_score(them: usize, us: usize) -> usize {
    if them == us {
        (4 + us) as usize
    } else if (them + 1) % 3 == us {
        (7 + us) as usize
    } else {
        (1 + us) as usize
    }
}

/// The score of one round when our letter names the outcome: 0, 1 or 2
/// for lose, draw, win.
pub open spec fn spec_outcome_score(them: usize, us: usize) -> usize {
    if us == 0 {
        (1 + (them + 2) % 3) as usize
    } else if us == 1 {
        (4 + them) as usize
    } else {
        (7 + (them + 1) % 3) as usize
    }
}

impl Day2 {
    /// Are all rounds in range?
    pub open spec fn wf(self) -> bool {
        forall|k: int|
            0 <= k < self.0@.len() ==> (#[trigger] self.0@[k]).0 <= 2 && self.0@[k].1 <= 2
    }

    /// Parse one round per line. `None` exactly when a line is not a
    /// round.
    pub fn parse(input: &str) -> (r: Option<Day2>)
        ensures
            r is Some <==> (forall|k: int|
                0 <= k < spec_lines(input.spec_bytes()).len() ==> valid_round(
                    #[trigger] spec_lines(input.spec_bytes())[k],
                )),
            r is Some ==> {
                let lines = spec_lines(input.spec_bytes());
                &&& (r->0).wf()
                &&& (r->0).0@.len() == lines.len()
                &&& forall|k: int|
                    0 <= k < lines.len() ==> (#[trigger] (r->0).0@[k]) == round_of(lines[k])
            },
    {
        let lines = split_lines(input.as_bytes());
        let n = lines.len();
        let mut rounds: Vec<(usize, usize)> = Vec::new();
        let mut i: usize = 0;
        while i < n
            invariant
                0 <= i <= n,
                n == lines@.len(),
                lines.deep_view() == spec_lines(input.spec_bytes()),
                forall|k: int| 0 <= k < i ==> valid_round(#[trigger] lines.deep_view()[k]),
                rounds@.len() == i,
                forall|k: int|
                    0 <= k < i ==> (#[trigger] rounds@[k]) == round_of(lines.deep_view()[k])
                        && rounds@[k].0 <= 2 && rounds@[k].1 <= 2,
            decreases n - i,
        {
            let line = &lines[i];
            proof {
                assert(lines.deep_view()[i as int] =~= line@);
            }
            if !(line.len() == 3) {
                return None;
            }
            let a = line[0];
            let sp = line[1];
            let b = line[2];
            if !(sp == 32 && 65 <= a && a <= 67 && 88 <= b && b <= 90) {
                return None;
            }
            rounds.push((((a - 65) as usize), ((b - 88) as usize)));
            i = i + 1;
        }
        Some(Day2(rounds))
    }

    /// The scores of all rounds under the shape reading.
    pub open spec fn spec_part1_scores(rounds: Seq<(usize, usize)>) -> Seq<usize> {
        rounds.map_values(|p: (usize, usize)| spec_round_score(p.0, p.1))
    }

    /// The total score when the second letter names our shape. `None`
    /// exactly on overflow.
    pub fn part1(&self) -> (r: Option<usize>)
        requires
            self.wf(),
        ensures
            r is Some <==> sum_usizes(Day2::spec_part1_scores(self.0@)) <= usize::MAX,
            r is Some ==> r->0 == sum_usizes(Day2::spec_part1_scores(self.0@)),
    {
        let n = self.0.len();
        let mut scores: Vec<usize> = Vec::new();
        let mut i: usize = 0;
        while i < n
            invariant
                0 <= i <= n,
                n == self.0@.len(),
                self.wf(),
                scores@.len() == i,
                forall|k: int|
                    0 <= k < i ==> (#[trigger] scores@[k]) == spec_round_score(
                        self.0@[k].0,
                        self.0@[k].1,
                    ),
            decreases n - i,
        {
            let (them, us) = self.0[i];
            let sc: usize = if them == us {
                4 + us
            } else if wins_against(them) == us {
                7 + us
            } else {
                1 + us
            };
            scores.push(sc);
            i = i + 1;
        }
        proof {
            assert(scores@ =~= Day2::spec_part1_scores(self.0@));
        }
        sum_checked(&scores)
    }

    /// The scores of all rounds under the outcome reading.
    pub open spec fn spec_part2_scores(rounds: Seq<(usize, usize)>) -> Seq<usize> {
        rounds.map_values(|p: (usize, usize)| spec_outcome_score(p.0, p.1))
    }

    /// The total score when the second letter names the outcome. `None`
    /// exactly on overflow.
    pub fn part2(&self) -> (r: Option<usize>)
        requires
            self.wf(),
        ensures
            r is Some <==> sum_usizes(Day2::spec_part2_scores(self.0@)) <= usize::MAX,
            r is Some ==> r->0 == sum_usizes(Day2::spec_part2_scores(self.0@)),
    {
        let n = self.0.len();
        let mut scores: Vec<usize> = Vec::new();
        let mut i: usize = 0;
        while i < n
            invariant
                0 <= i <= n,
                n == self.0@.len(),
                self.wf(),
                scores@.len() == i,
                forall|k: int|
                    0 <= k < i ==> (#[trigger] scores@[k]) == spec_outcome_score(
                        self.0@[k].0,
                        self.0@[k].1,
                    ),
            decreases n - i,
        {
            let (them, us) = self.0[i];
            let sc: usize = if us == 0 {
                1 + loses_against(them)
            } else if us == 1 {
                4 + them
            } else {
                7 + wins_against(them)
            };
            scores.push(sc);
            i = i + 1;
        }
        proof {
            assert(scores@ =~= Day2::spec_part2_scores(self.0@));
        }
        sum_checked(&scores)
    }
}

} // verus!
