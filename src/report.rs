use vstd::prelude::*;
use crate::grid::{fits, grid_lab, init, one_marker, rectangular};
use crate::lab::{cell_of, PatrolError, State};
use crate::patrol::cells_of;
use crate::search::{
    candidates, count_loop_obstructions, lemma_loop_count_set, loop_count, looping_cells, Strategy,
};

verus! {

/// What the patrol of a grid comes to: the number of distinct cells the guard
/// occupies before it leaves, or why there is no such number.
pub open spec fn visited_outcome(g: Seq<Vec<char>>) -> Result<nat, PatrolError> {
    if !rectangular(g) {
        Err(PatrolError::Format)
    } else if !one_marker(g) {
        Err(PatrolError::Config)
    } else if grid_lab(g).loops(None) {
        Err(PatrolError::Degenerate)
    } else {
        Ok(grid_lab(g).visited().len())
    }
}

/// The number of visited cells, other than the start, where one extra obstacle
/// traps the guard in a cycle, or why there is no such number.
pub open spec fn obstruction_outcome(g: Seq<Vec<char>>) -> Result<nat, PatrolError> {
    match visited_outcome(g) {
        Ok(_) => Ok(grid_lab(g).trapping_cells().len()),
        Err(e) => Err(e),
    }
}

/// An exec result stands for a spec outcome.
pub open spec fn agrees(r: Result<usize, PatrolError>, o: Result<nat, PatrolError>) -> bool {
    match r {
        Ok(n) => o == Ok::<nat, PatrolError>(n as nat),
        Err(e) => o == Err::<nat, PatrolError>(e),
    }
}

/// Number of distinct cells that the guard occupies before leaving the lab.
pub fn part1(grid: &Vec<Vec<char>>) -> (r: Result<usize, PatrolError>)
    requires
        fits(grid@),
    ensures
        agrees(r, visited_outcome(grid@)),
{
    let state = init(grid)?;
    let path = state.get_initial_path()?;
    Ok(path.len())
}

/// Number of cells where one extra obstacle would trap the guard in a cycle.
/// Only the cells of the unobstructed patrol, other than the start, are tried.
pub fn part2(grid: &Vec<Vec<char>>, strategy: Strategy) -> (r: Result<usize, PatrolError>)
    requires
        fits(grid@),
    ensures
        agrees(r, obstruction_outcome(grid@)),
{
    let state = init(grid)?;
    let path = state.get_initial_path()?;
    let cands = candidates(&path, state.guard_position);
    let n = count_loop_obstructions(&state, &cands, strategy);
    proof {
        lemma_search_counts_trapping_cells(&state, path@, cands@);
    }
    Ok(n)
}

/// A cell of a path, as integers, is in its integer cells exactly when the
/// path holds it.
pub proof fn lemma_cells_of_contains(s: Seq<(usize, usize)>, u: (usize, usize))
    ensures
        cells_of(s).contains((u.0 as int, u.1 as int)) <==> s.contains(u),
{
    if s.contains(u) {
        let k = choose|k: int| 0 <= k < s.len() && #[trigger] s[k] == u;
        assert(cells_of(s)[k] == (u.0 as int, u.1 as int));
    }
    if cells_of(s).contains((u.0 as int, u.1 as int)) {
        let k = choose|k: int|
            0 <= k < cells_of(s).len() && #[trigger] cells_of(s)[k] == (u.0 as int, u.1 as int);
        assert(s[k] == u);
    }
}

/// Counting over the candidates of the unobstructed path counts the trapping
/// cells of the lab.
proof fn lemma_search_counts_trapping_cells(
    s: &State,
    path: Seq<(usize, usize)>,
    cands: Seq<(usize, usize)>,
)
    requires
        cells_of(path).to_set() == s.lab().visited(),
        cands.no_duplicates(),
        forall|c: (usize, usize)| cands.contains(c) <==> path.contains(c) && c != s.guard_position,
    ensures
        loop_count(s.lab(), cells_of(cands)) == s.lab().trapping_cells().len(),
{
    let lab = s.lab();
    let cs = cells_of(cands);
    assert forall|a: int, b: int| 0 <= a < b < cs.len() implies cs[a] != cs[b] by {
        assert(cands[a] != cands[b]);
    }
    lemma_loop_count_set(lab, cs);
    assert forall|c: (int, int)|
        looping_cells(lab, cs).contains(c) <==> lab.trapping_cells().contains(c) by {
        if cs.contains(c) {
            let k = choose|k: int| 0 <= k < cs.len() && #[trigger] cs[k] == c;
            let u = cands[k];
            assert(cands.contains(u));
            lemma_cells_of_contains(path, u);
            assert(cells_of(path).to_set().contains(c));
        }
        if lab.visited().contains(c) && c != cell_of(lab.start) {
            assert(cells_of(path).to_set().contains(c));
            let k = choose|k: int| 0 <= k < cells_of(path).len() && #[trigger] cells_of(path)[k] == c;
            let u = path[k];
            assert(path.contains(u));
            assert(u != s.guard_position);
            lemma_cells_of_contains(cands, u);
        }
    }
    assert(looping_cells(lab, cs) =~= lab.trapping_cells());
}

} // verus!
