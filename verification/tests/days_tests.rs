use aoc22::day01::Day1;
use aoc22::day02::Day2;
use aoc22::day03::Day3;
use aoc22::day04::Day4;
use aoc22::day05::Day5;
use aoc22::day06::Day6;
use aoc22::day07::Day7;
use aoc22::day08::Day8;
use aoc22::day09::Day9;
use aoc22::day10::Day10;
use aoc22::day20::Day20;
use aoc22::day25::Day25;

#[test]
fn calorie_counting() {
    let input = "1000\n2000\n3000\n\n4000\n\n5000\n6000\n\n7000\n8000\n9000\n\n10000";
    let day = Day1::parse(input).unwrap();
    assert_eq!(day.part1(), Some(24000));
    assert_eq!(day.part2(), Some(45000));
    assert!(Day1::parse("12\n\n\n3").is_none());
    assert!(Day1::parse("1x").is_none());
}

#[test]
fn rock_paper_scissors() {
    let day = Day2::parse("A Y\nB X\nC Z").unwrap();
    assert_eq!(day.part1(), Some(15));
    assert_eq!(day.part2(), Some(12));
    assert!(Day2::parse("A D").is_none());
}

#[test]
fn rucksacks() {
    let input = "vJrwpWtwJgWrhcsFMMfFFhFp\njqHRNqRjqzjGDLGLrsFMfFZSrLrFZsSL\nPmmdzqPrVvPwwTWBwg\nwMqvLMZHhHMvwLHjbvcjnnSBnvTQFn\nttgJtRGJQctTZtZT\nCrZsJsPPZsGzwwsLwLmpwMDw";
    let day = Day3::parse(input).unwrap();
    assert_eq!(day.part1(), Some(157));
    assert_eq!(day.part2(), Some(70));
    assert!(Day3::parse("ab1").is_none());
}

#[test]
fn camp_cleanup() {
    let input = "2-4,6-8\n2-3,4-5\n5-7,7-9\n2-8,3-7\n6-6,4-6\n2-6,4-8";
    let day = Day4::parse(input).unwrap();
    assert_eq!(day.part1(), 2);
    assert_eq!(day.part2(), 4);
    assert!(Day4::parse("1-2").is_none());
}

#[test]
fn supply_stacks() {
    let input = "    [D]    \n[N] [C]    \n[Z] [M] [P]\n 1   2   3 \n\nmove 1 from 2 to 1\nmove 3 from 1 to 3\nmove 2 from 2 to 1\nmove 1 from 1 to 2";
    let day = Day5::parse(input).unwrap();
    assert_eq!(day.part1(), Some(b"CMZ".to_vec()));
    assert_eq!(day.part2(), Some(b"MCD".to_vec()));
}

#[test]
fn tuning_trouble() {
    let day = Day6::parse("mjqjpqmgbljsphdztnvjfqwrcgsmlb").unwrap();
    assert_eq!(day.part1(), Some(7));
    assert_eq!(day.part2(), Some(19));
    let day2 = Day6::parse("zcfzfwzzqfrljwzlrfnpqdbhtmscgvjw").unwrap();
    assert_eq!(day2.part1(), Some(11));
    assert_eq!(day2.part2(), Some(26));
    assert!(Day6::parse("abc!").is_none());
}

#[test]
fn no_space_left() {
    let input = "$ cd /\n$ ls\ndir a\n14848514 b.txt\n8504156 c.dat\ndir d\n$ cd a\n$ ls\ndir e\n29116 f\n2557 g\n62596 h.lst\n$ cd e\n$ ls\n584 i\n$ cd ..\n$ cd ..\n$ cd d\n$ ls\n4060174 j\n8033020 d.log\n5626152 d.ext\n7214296 k";
    let day = Day7::parse(input).unwrap();
    assert_eq!(day.part1(), Some(95437));
    assert_eq!(day.part2(), Some(24933642));
}

#[test]
fn treetop_house() {
    let day = Day8::parse("30373\n25512\n65332\n33549\n35390").unwrap();
    assert_eq!(day.part1(), 21);
    assert_eq!(day.part2(), 8);
    assert!(Day8::parse("123\n45").is_none());
}

#[test]
fn rope_bridge() {
    let day = Day9::parse("R 4\nU 4\nL 3\nD 1\nR 4\nD 1\nL 5\nR 2").unwrap();
    assert_eq!(day.part1(), 13);
    assert_eq!(day.part2(), 1);
    let day2 = Day9::parse("R 5\nU 8\nL 8\nD 3\nR 17\nD 10\nL 25\nU 20").unwrap();
    assert_eq!(day2.part2(), 36);
}

#[test]
fn cathode_ray_tube() {
    let input = "addx 15\naddx -11\naddx 6\naddx -3\naddx 5\naddx -1\naddx -8\naddx 13\naddx 4\nnoop\naddx -1\naddx 5\naddx -1\naddx 5\naddx -1\naddx 5\naddx -1\naddx 5\naddx -1\naddx -35\naddx 1\naddx 24\naddx -19\naddx 1\naddx 16\naddx -11\nnoop\nnoop\naddx 21\naddx -15\nnoop\nnoop\naddx -3\naddx 9\naddx 1\naddx -3\naddx 8\naddx 1\naddx 5\nnoop\nnoop\nnoop\nnoop\nnoop\naddx -36\nnoop\naddx 1\naddx 7\nnoop\nnoop\nnoop\naddx 2\naddx 6\nnoop\nnoop\nnoop\nnoop\nnoop\naddx 1\nnoop\nnoop\naddx 7\naddx 1\nnoop\naddx -13\naddx 13\naddx 7\nnoop\naddx 1\naddx -33\nnoop\nnoop\nnoop\naddx 2\nnoop\nnoop\nnoop\naddx 8\nnoop\naddx -1\naddx 2\naddx 1\nnoop\naddx 17\naddx -9\naddx 1\naddx 1\naddx -3\naddx 11\nnoop\nnoop\naddx 1\nnoop\naddx 1\nnoop\nnoop\naddx -13\naddx -19\naddx 1\naddx 3\naddx 26\naddx -30\naddx 12\naddx -1\naddx 3\naddx 1\nnoop\nnoop\nnoop\naddx -9\naddx 18\naddx 1\naddx 2\nnoop\nnoop\naddx 9\nnoop\nnoop\nnoop\naddx -1\naddx 2\naddx -37\naddx 1\naddx 3\nnoop\naddx 15\naddx -21\naddx 22\naddx -6\naddx 1\nnoop\naddx 2\naddx 1\nnoop\naddx -10\nnoop\nnoop\naddx 20\naddx 1\naddx 2\naddx 2\naddx -6\naddx -11\nnoop\nnoop\nnoop";
    let day = Day10::parse(input).unwrap();
    assert_eq!(day.part1(), Some(13140));
    // the sample screen draws no real letters; the decoder must at least
    // not hand the 245-byte screen back unchanged
    let letters = day.part2().unwrap();
    assert!(letters.len() < 100);
}

#[test]
fn grove_positioning() {
    let day = Day20::parse("1\n2\n-3\n3\n-2\n0\n4").unwrap();
    assert_eq!(day.part1(), Some(3));
    assert_eq!(day.part2(), Some(1623178306));
    assert!(Day20::parse("1\nx").is_none());
}

#[test]
fn full_of_hot_air() {
    let input = "1=-0-2\n12111\n2=0=\n21\n2=01\n111\n20012\n112\n1=-1=\n1-12\n12\n1=\n122";
    let day = Day25::parse(input).unwrap();
    assert_eq!(day.part1(), Some(b"2=-1=0".to_vec()));
    assert_eq!(day.part2(), Vec::<u8>::new());
    assert!(Day25::parse("3").is_none());
}

#[test]
fn hill_climbing() {
    let day = aoc22::day12::Day12::parse("Sabqponm\nabcryxxl\naccszExk\nacctuvwj\nabdefghi")
        .unwrap();
    assert_eq!(day.part1(), Some(31));
    assert_eq!(day.part2(), Some(29));
    assert!(aoc22::day12::Day12::parse("ab\nA.").is_none());
}

#[test]
fn distress_signal() {
    let input = "[1,1,3,1,1]\n[1,1,5,1,1]\n\n[[1],[2,3,4]]\n[[1],4]\n\n[9]\n[[8,7,6]]\n\n[[4,4],4,4]\n[[4,4],4,4,4]\n\n[7,7,7,7]\n[7,7,7]\n\n[]\n[3]\n\n[[[]]]\n[[]]\n\n[1,[2,[3,[4,[5,6,7]]]],8,9]\n[1,[2,[3,[4,[5,6,0]]]],8,9]";
    let day = aoc22::day13::Day13::parse(input).unwrap();
    assert_eq!(day.part1(), Some(13));
    assert_eq!(day.part2(), Some(140));
    assert!(aoc22::day13::Day13::parse("[1,2").is_none());
    assert!(aoc22::day13::Day13::parse("[1]").is_none());
}
