use guard_patrol::{
    candidates, count_loop_obstructions, format_data, get_next_direction, init, part1, part2,
    Direction, PatrolError, State, Strategy,
};

fn grid_of(lines: &[&str]) -> Vec<Vec<char>> {
    let rows: Vec<String> = lines.iter().map(|l| l.to_string()).collect();
    format_data(rows).expect("rectangular grid")
}

fn example() -> Vec<Vec<char>> {
    grid_of(&[
        "....#.....",
        ".........#",
        "..........",
        "..#.......",
        ".......#..",
        "..........",
        ".#..^.....",
        "........#.",
        "#.........",
        "......#...",
    ])
}

fn state_of(lines: &[&str]) -> State {
    init(&grid_of(lines)).expect("valid lab")
}

#[test]
fn example_visits_forty_one_cells() {
    assert_eq!(part1(&example()), Ok(41));
}

#[test]
fn example_has_six_trapping_obstructions() {
    assert_eq!(part2(&example(), Strategy::Sequential), Ok(6));
    assert_eq!(part2(&example(), Strategy::Parallel), Ok(6));
}

#[test]
fn example_start_is_parsed() {
    let s = init(&example()).unwrap();
    assert_eq!(s.rows, 10);
    assert_eq!(s.cols, 10);
    assert_eq!(s.guard_position, (6, 4));
    assert_eq!(s.guard_direction, Direction::Up);
    assert_eq!(s.obstacles.iter().filter(|b| **b).count(), 8);
    assert!(s.obstacles[0 * 10 + 4]);
    assert!(s.obstacles[9 * 10 + 6]);
    assert!(!s.obstacles[6 * 10 + 4]);
}

#[test]
fn visited_count_is_deterministic() {
    let g = example();
    let a = part1(&g);
    let b = part1(&g);
    assert_eq!(a, b);
    let s = init(&g).unwrap();
    assert_eq!(s.get_initial_path(), s.get_initial_path());
}

#[test]
fn candidates_leave_out_the_start() {
    let s = init(&example()).unwrap();
    let path = s.get_initial_path().unwrap();
    assert_eq!(path.len(), 41);
    assert_eq!(path[0], (6, 4));
    let c = candidates(&path, s.guard_position);
    assert_eq!(c.len(), 40);
    assert!(!c.contains(&(6, 4)));
    assert!(c.iter().all(|p| path.contains(p)));
}

#[test]
fn candidates_of_path_without_start() {
    let path = vec![(1, 1), (1, 2), (2, 2)];
    assert_eq!(candidates(&path, (0, 0)), path);
    assert_eq!(candidates(&path, (1, 2)), vec![(1, 1), (2, 2)]);
}

#[test]
fn trials_stay_within_four_times_the_area() {
    let s = init(&example()).unwrap();
    let bound = 4 * s.rows * s.cols;
    let open = s.run_trial(None);
    assert!(!open.cycle);
    assert!(open.steps <= bound);
    for r in 0..s.rows {
        for c in 0..s.cols {
            let t = s.run_trial(Some((r, c)));
            assert!(t.steps <= bound);
            assert_eq!(t.cycle, s.simulate((r, c)));
        }
    }
}

#[test]
fn unobstructed_trial_length() {
    // Straight up from (2, 1): poses at rows 2, 1, 0, then the guard leaves.
    let s = state_of(&["...", "...", ".^."]);
    let t = s.run_trial(None);
    assert!(!t.cycle);
    assert_eq!(t.steps, 3);
}

#[test]
fn sequential_and_parallel_agree() {
    let s = init(&example()).unwrap();
    let path = s.get_initial_path().unwrap();
    let c = candidates(&path, s.guard_position);
    let a = count_loop_obstructions(&s, &c, Strategy::Sequential);
    let b = count_loop_obstructions(&s, &c, Strategy::Parallel);
    assert_eq!(a, 6);
    assert_eq!(a, b);
}

#[test]
fn straight_walk_in_open_lab() {
    let mut lines: Vec<String> = vec![".".repeat(10); 10];
    lines[5] = "....^.....".to_string();
    let g = format_data(lines).unwrap();
    assert_eq!(part1(&g), Ok(6));
    let s = init(&g).unwrap();
    let path = s.get_initial_path().unwrap();
    assert_eq!(path, vec![(5, 4), (4, 4), (3, 4), (2, 4), (1, 4), (0, 4)]);
    assert_eq!(part2(&g, Strategy::Sequential), Ok(0));
}

#[test]
fn boxed_on_three_sides_turns_once() {
    let s = state_of(&[".....", "..#..", ".#^..", "..#..", "....."]);
    let path = s.get_initial_path().unwrap();
    assert_eq!(path, vec![(2, 2), (2, 3), (2, 4)]);
}

#[test]
fn placed_obstacle_closes_a_cycle() {
    let s = init(&example()).unwrap();
    assert!(s.simulate((6, 3)));
    assert!(s.simulate((7, 6)));
    assert!(!s.simulate((1, 4)));
    assert!(!s.run_trial(None).cycle);
}

#[test]
fn extra_obstacle_on_the_edge_turns_the_guard() {
    // The extra obstacle on the top row stops the guard before it would leave.
    let s = state_of(&["....", "...#", "#^..", "..#."]);
    assert!(s.simulate((0, 1)));
    assert!(!s.simulate((3, 3)));
}

#[test]
fn ragged_rows_are_refused() {
    let rows = vec!["...".to_string(), "..".to_string()];
    assert_eq!(format_data(rows), Err(PatrolError::Format));
    let g = vec![vec!['.', '^'], vec!['.']];
    assert_eq!(init(&g).err(), Some(PatrolError::Format));
    assert_eq!(part1(&g), Err(PatrolError::Format));
}

#[test]
fn format_keeps_characters() {
    let g = format_data(vec!["#.^".to_string(), "...".to_string()]).unwrap();
    assert_eq!(g, vec![vec!['#', '.', '^'], vec!['.', '.', '.']]);
    assert_eq!(format_data(vec![]), Ok(vec![]));
}

#[test]
fn missing_marker_is_a_config_error() {
    let g = grid_of(&["...", ".#.", "..."]);
    assert_eq!(init(&g).err(), Some(PatrolError::Config));
    assert_eq!(part1(&g), Err(PatrolError::Config));
    assert_eq!(part1(&vec![]), Err(PatrolError::Config));
}

#[test]
fn two_markers_are_a_config_error() {
    let g = grid_of(&["^..", "...", "..>"]);
    assert_eq!(init(&g).err(), Some(PatrolError::Config));
    assert_eq!(part2(&g, Strategy::Parallel), Err(PatrolError::Config));
}

#[test]
fn enclosed_guard_is_degenerate() {
    let g = grid_of(&[".#.", "#^#", ".#."]);
    assert_eq!(part1(&g), Err(PatrolError::Degenerate));
    assert_eq!(part2(&g, Strategy::Sequential), Err(PatrolError::Degenerate));
}

#[test]
fn cycling_patrol_is_degenerate() {
    let g = grid_of(&[".#...", ".^..#", ".....", "#....", "...#."]);
    assert_eq!(part1(&g), Err(PatrolError::Degenerate));
    let s = init(&g).unwrap();
    assert!(s.run_trial(None).cycle);
}

#[test]
fn markers_give_headings() {
    assert_eq!(Direction::from_marker('^'), Some(Direction::Up));
    assert_eq!(Direction::from_marker('>'), Some(Direction::Right));
    assert_eq!(Direction::from_marker('v'), Some(Direction::Down));
    assert_eq!(Direction::from_marker('<'), Some(Direction::Left));
    assert_eq!(Direction::from_marker('#'), None);
    let s = state_of(&["...", ".v.", "..."]);
    assert_eq!(s.guard_direction, Direction::Down);
    assert_eq!(part1(&grid_of(&["...", ".v.", "..."])), Ok(2));
}

#[test]
fn turning_goes_clockwise() {
    assert_eq!(get_next_direction(Direction::Up), Direction::Right);
    assert_eq!(get_next_direction(Direction::Right), Direction::Down);
    assert_eq!(get_next_direction(Direction::Down), Direction::Left);
    assert_eq!(get_next_direction(Direction::Left), Direction::Up);
    assert_eq!(Direction::Left.index(), 3);
}

#[test]
fn next_pose_steps_and_turns() {
    let s = state_of(&[".#.", ".^.", "..."]);
    assert_eq!(s.next_pose(None, (1, 1, Direction::Up)), Some((1, 1, Direction::Right)));
    assert_eq!(s.next_pose(None, (1, 1, Direction::Right)), Some((1, 2, Direction::Right)));
    assert_eq!(s.next_pose(None, (1, 2, Direction::Right)), None);
    assert_eq!(s.next_pose(Some((2, 1)), (1, 1, Direction::Down)), Some((1, 1, Direction::Left)));
    assert_eq!(s.key((1, 2, Direction::Down)), (1 * 3 + 2) * 4 + 2);
}
