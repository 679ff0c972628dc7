//! Solutions to a set of grid- and arithmetic-puzzles, verified with Verus.
//!
//! The heart of the crate is the cube-net walker: it reconstructs the 3-D
//! adjacency of a cube from its 2-D unfolding and simulates an agent walking
//! over the tiles under either flat toroidal wrapping or true cube wrapping.

pub mod day01;
pub mod day02;
pub mod day03;
pub mod day04;
pub mod day05;
pub mod day06;
pub mod day07;
pub mod day08;
pub mod day09;
pub mod day10;
pub mod day12;
pub mod day13;
pub mod day20;
pub mod day22;
pub mod day22_cube;
pub mod day22_cubewalk;
pub mod day22_flat;
pub mod day22_parse;
pub mod day25;
pub mod util;
pub mod vec2;
