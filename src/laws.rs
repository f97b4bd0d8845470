use vstd::prelude::*;
use crate::lab::{ahead_of, cell_of, lemma_walk_gone, Lab, PatrolError, Pose};
use crate::report::{agrees, obstruction_outcome, visited_outcome};

verus! {

/// Two exec results that stand for the same outcome are equal.
pub proof fn lemma_agrees_unique(
    r1: Result<usize, PatrolError>,
    r2: Result<usize, PatrolError>,
    o: Result<nat, PatrolError>,
)
    requires
        agrees(r1, o),
        agrees(r2, o),
    ensures
        r1 == r2,
{
    match r1 {
        Ok(a) => match r2 {
            Ok(b) => assert(a as nat == b as nat),
            Err(_) => {},
        },
        Err(_) => {},
    }
}

/// The patrol is deterministic: any two runs of `part1` on the same grid give
/// the same result.
pub proof fn lemma_visited_count_deterministic(
    g: Seq<Vec<char>>,
    r1: Result<usize, PatrolError>,
    r2: Result<usize, PatrolError>,
)
    requires
        agrees(r1, visited_outcome(g)),
        agrees(r2, visited_outcome(g)),
    ensures
        r1 == r2,
{
    lemma_agrees_unique(r1, r2, visited_outcome(g));
}

/// The sequential and the parallel search give the same count: whatever the
/// strategy, `part2` on one grid returns one result.
pub proof fn lemma_strategies_agree(
    g: Seq<Vec<char>>,
    sequential: Result<usize, PatrolError>,
    parallel: Result<usize, PatrolError>,
)
    requires
        agrees(sequential, obstruction_outcome(g)),
        agrees(parallel, obstruction_outcome(g)),
    ensures
        sequential == parallel,
{
    lemma_agrees_unique(sequential, parallel, obstruction_outcome(g));
}

/// Only cells of the unobstructed patrol other than the start are counted as
/// trapping obstructions.
pub proof fn lemma_trapping_cells_on_path(lab: Lab, c: (int, int))
    requires
        lab.trapping_cells().contains(c),
    ensures
        lab.visited().contains(c),
        c != cell_of(lab.start),
        lab.loops(Some(c)),
{
}

/// A guard whose four neighbouring cells all lie inside the grid and hold
/// obstacles turns in place for ever: its patrol loops.
pub proof fn lemma_enclosed_loops(lab: Lab)
    requires
        forall|p: Pose|
            cell_of(p) == cell_of(lab.start) ==> lab.in_grid(ahead_of(p)) && lab.blocked.contains(
                #[trigger] ahead_of(p),
            ),
    ensures
        lab.loops(None),
{
    let s = lab.start;
    let once = Pose { row: s.row, col: s.col, dir: s.dir.turned() };
    let twice = Pose { row: s.row, col: s.col, dir: once.dir.turned() };
    let thrice = Pose { row: s.row, col: s.col, dir: twice.dir.turned() };
    assert(lab.walk(None, 1) == Some(once));
    assert(lab.walk(None, 2) == Some(twice));
    assert(lab.walk(None, 3) == Some(thrice));
    assert(lab.walk(None, 4) == Some(s));
    assert(lab.walk(None, 0) is Some);
}

/// Once a pose comes back, it keeps coming back one period later.
proof fn lemma_walk_shift(lab: Lab, extra: Option<(int, int)>, i: nat, j: nat, k: nat)
    requires
        lab.walk(extra, i) == lab.walk(extra, j),
    ensures
        lab.walk(extra, i + k) == lab.walk(extra, j + k),
    decreases k,
{
    if k > 0 {
        lemma_walk_shift(lab, extra, i, j, (k - 1) as nat);
        assert(lab.walk(extra, i + k) == match lab.walk(extra, (i + k - 1) as nat) {
            Some(p) => lab.step(extra, p),
            None => None,
        });
        assert(lab.walk(extra, j + k) == match lab.walk(extra, (j + k - 1) as nat) {
            Some(p) => lab.step(extra, p),
            None => None,
        });
    }
}

/// A patrol that loops never leaves the grid: it is inside it at every step.
pub proof fn lemma_cycle_is_forever(lab: Lab, extra: Option<(int, int)>, n: nat)
    requires
        lab.loops(extra),
    ensures
        lab.walk(extra, n) is Some,
    decreases n,
{
    let (i, j) = choose|i: nat, j: nat|
        i < j && (#[trigger] lab.walk(extra, i)) is Some && lab.walk(extra, i)
            == #[trigger] lab.walk(extra, j);
    if n <= j {
        if lab.walk(extra, n) is None {
            lemma_walk_gone(lab, extra, n, j);
        }
    } else {
        let k = (n - j) as nat;
        lemma_walk_shift(lab, extra, i, j, k);
        assert(i + k < n);
        lemma_cycle_is_forever(lab, extra, i + k);
    }
}

} // verus!
