use aoc22::day22::Day22;
use aoc22::day22_cube::{face_size, Cube};
use aoc22::day22_flat::BasicMap;
use aoc22::day22_parse::{instructions, Instruction, Tile, Turn};

const SAMPLE: &str = "        ...#
        .#..
        #...
        ....
...#.......#
........#...
..#....#....
..........#.
        ...#....
        .....#..
        .#......
        ......#.

10R5L5R10L4R5L5";

#[test]
fn sample_flat_score() {
    let day = Day22::parse(SAMPLE).unwrap();
    assert_eq!(day.part1(), Some(6032));
}

#[test]
fn sample_cube_score() {
    let day = Day22::parse(SAMPLE).unwrap();
    assert_eq!(day.part2(), Some(5031));
}

#[test]
fn flat_and_cube_agree_on_a_ring_walk() {
    // A net whose middle row is a closed ring of four faces: a purely
    // horizontal walk along that ring scores the same under flat and
    // cube wrapping.
    let input = ".\n....\n.\n\n0R1L8";
    let day = Day22::parse(input).unwrap();
    let flat = day.part1();
    let cube = day.part2();
    assert_eq!(flat, Some(2004));
    assert_eq!(cube, flat);
}

#[test]
fn instruction_parsing() {
    let r = instructions("10R5L5");
    assert_eq!(
        r,
        vec![
            Instruction::Move(10),
            Instruction::Turn(Turn::Right),
            Instruction::Move(5),
            Instruction::Turn(Turn::Left),
            Instruction::Move(5),
        ]
    );
    assert_eq!(instructions("7"), vec![Instruction::Move(7)]);
    assert_eq!(
        instructions("L"),
        vec![
            Instruction::Move(0),
            Instruction::Turn(Turn::Left),
            Instruction::Move(0),
        ]
    );
}

#[test]
fn tile_and_turn_letters() {
    assert_eq!(Tile::from_char('.'), Tile::Open);
    assert_eq!(Tile::from_char('#'), Tile::Closed);
    assert_eq!(Tile::from_char(' '), Tile::Void);
    assert_eq!(Turn::from_char('L'), Turn::Left);
    assert_eq!(Turn::from_char('R'), Turn::Right);
}

#[test]
fn face_size_of_the_two_box_shapes() {
    assert_eq!(face_size(16, 12), 4);
    assert_eq!(face_size(12, 16), 4);
    assert_eq!(face_size(10, 4), 2);
    assert_eq!(face_size(2, 5), 1);
}

#[test]
fn cube_faces_cover_the_sample_net() {
    let (raw_map, _) = SAMPLE.split_once("\n\n").unwrap();
    let map = BasicMap::parse(raw_map).unwrap();
    let cube = Cube::from_lines(&map.map, map.face_size).unwrap();
    assert_eq!(cube.face_size, 4);
    let mut positions: Vec<(isize, isize)> = cube
        .faces
        .iter()
        .map(|f| (f.position.0, f.position.1))
        .collect();
    positions.sort();
    let mut expected = vec![(0, 1), (1, 1), (2, 0), (2, 1), (2, 2), (3, 2)];
    expected.sort();
    assert_eq!(positions, expected);
    // every face's neighbour points back at it
    for f in cube.faces.iter() {
        for d in 0..4 {
            let nb = f.adjacent[d];
            let g = cube.get_face(nb);
            assert!(g.adjacent.iter().any(|&p| p == f.position));
        }
    }
}

#[test]
fn walking_off_an_edge_and_back_returns() {
    let (raw_map, _) = SAMPLE.split_once("\n\n").unwrap();
    let map = BasicMap::parse(raw_map).unwrap();
    let cm = aoc22::day22_cubewalk::CubeMap::from_map(map).unwrap();
    let start = cm.start_point().unwrap();
    // walk to the right edge of the face, off it, turn around, and return
    let mut pos = start;
    for _ in 0..3 {
        pos = cm.next_position(pos);
    }
    let off = cm.next_position(pos);
    let mut back = off;
    back.position = aoc22::day22_flat::BasicMap::turn_position(back.position, Turn::Left);
    back.position = aoc22::day22_flat::BasicMap::turn_position(back.position, Turn::Left);
    let returned = cm.next_position(back);
    assert_eq!(returned.face.position, pos.face.position);
    assert_eq!(returned.position.pos, pos.position.pos);
}

#[test]
fn malformed_nets_are_rejected() {
    assert!(Day22::parse("no blank line").is_none());
    assert!(Day22::parse("..x.\n\n1").is_none());
    assert!(Day22::parse("....\n\n1X2").is_none());
}
