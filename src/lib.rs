//! A guard patrols a rectangular lab: it walks straight ahead and turns right in
//! front of an obstacle until it leaves the grid. This library parses the lab,
//! replays the patrol, detects patrols that never end, and counts the single extra
//! obstacles that would trap the guard in a cycle.
pub mod direction;
pub mod grid;
pub mod lab;
pub mod laws;
pub mod patrol;
pub mod report;
pub mod search;
pub mod trial;

pub use direction::{get_next_direction, Direction};
pub use grid::{format_data, init};
pub use lab::{PatrolError, State};
pub use report::{part1, part2};
pub use search::{candidates, count_loop_obstructions, Strategy};
pub use trial::Trial;
