//! The shared state of a fixed-size worker pool, and the chunked search that
//! runs on it; beside them, small exercises: an arena tree with a preorder
//! walk, a minesweeper board, the game of life, bracket balancing, anagram
//! groups, the extremes of a list of numbers, and a typestate machine.
pub mod pool;
pub mod search;
pub mod tree;
pub mod minesweeper;
pub mod life;
pub mod braces;
pub mod bottle;
pub mod anagrams;
pub mod high_low;
mod text;
