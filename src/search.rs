use vstd::prelude::*;
use rayon::iter::{IntoParallelRefIterator, ParallelIterator};
use crate::lab::{cell_of, Lab, State};
use crate::patrol::cells_of;

verus! {

/// How the candidate cells of the obstruction search are tried.
#[derive(Clone, Copy, Debug, PartialEq, Eq, Structural)]
pub enum Strategy {
    /// One candidate after the other.
    Sequential,
    /// Candidates spread over a pool of worker threads.
    Parallel,
}

/// Number of cells in `cs` whose single extra obstacle traps the guard.
pub open spec fn loop_count(lab: Lab, cs: Seq<(int, int)>) -> nat
    decreases cs.len(),
{
    if cs.len() == 0 {
        0
    } else {
        loop_count(lab, cs.drop_last()) + if lab.loops(Some(cs.last())) {
            1nat
        } else {
            0nat
        }
    }
}

/// The cells of `cs` whose single extra obstacle traps the guard.
pub open spec fn looping_cells(lab: Lab, cs: Seq<(int, int)>) -> Set<(int, int)> {
    Set::new(|c: (int, int)| cs.contains(c) && lab.loops(Some(c)))
}

/// Over distinct cells, the count is the size of the set of trapping cells.
pub proof fn lemma_loop_count_set(lab: Lab, cs: Seq<(int, int)>)
    requires
        cs.no_duplicates(),
    ensures
        looping_cells(lab, cs).finite(),
        loop_count(lab, cs) == looping_cells(lab, cs).len(),
    decreases cs.len(),
{
    if cs.len() == 0 {
        assert(looping_cells(lab, cs) =~= Set::empty());
    } else {
        let front = cs.drop_last();
        let x = cs.last();
        assert(front.no_duplicates()) by {
            assert forall|a: int, b: int| 0 <= a < b < front.len() implies front[a] != front[b] by {
                assert(cs[a] != cs[b]);
            }
        }
        lemma_loop_count_set(lab, front);
        assert forall|c: (int, int)| cs.contains(c) <==> front.contains(c) || c == x by {
            if cs.contains(c) && c != x {
                let k = choose|k: int| 0 <= k < cs.len() && #[trigger] cs[k] == c;
                assert(front[k] == c);
            }
            if front.contains(c) {
                let k = choose|k: int| 0 <= k < front.len() && #[trigger] front[k] == c;
                assert(cs[k] == c);
            }
            if c == x {
                assert(cs[cs.len() - 1] == c);
            }
        }
        assert(!front.contains(x)) by {
            if front.contains(x) {
                let k = choose|k: int| 0 <= k < front.len() && #[trigger] front[k] == x;
                assert(cs[k] == cs[cs.len() - 1]);
            }
        }
        if lab.loops(Some(x)) {
            assert(looping_cells(lab, cs) =~= looping_cells(lab, front).insert(x));
        } else {
            assert(looping_cells(lab, cs) =~= looping_cells(lab, front));
        }
    }
}

/// Relies on rayon's `par_iter`, `filter` and `count`: the parallel iterator
/// visits every candidate once, and `count` returns how many passed the filter,
/// whatever the order in which the workers ran.
#[verifier::external_body]
fn count_loops_parallel(state: &State, cands: &Vec<(usize, usize)>) -> (r: usize)
    requires
        state.wf(),
    ensures
        r == loop_count(state.lab(), cells_of(cands@)),
{
    cands.par_iter().filter(|c| state.simulate(**c)).count()
}

/// Tries the candidates one after the other.
fn count_loops_sequential(state: &State, cands: &Vec<(usize, usize)>) -> (r: usize)
    requires
        state.wf(),
    ensures
        r == loop_count(state.lab(), cells_of(cands@)),
{
    let mut count: usize = 0;
    let mut i: usize = 0;
    while i < cands.len()
        invariant
            state.wf(),
            i <= cands@.len(),
            count == loop_count(state.lab(), cells_of(cands@.take(i as int))),
            count <= i,
        decreases cands@.len() - i,
    {
        let ghost front = cells_of(cands@.take(i as int));
        let ghost next = cells_of(cands@.take(i as int + 1));
        assert(next.drop_last() =~= front);
        if state.simulate(cands[i]) {
            count = count + 1;
        }
        i = i + 1;
    }
    assert(cands@.take(cands@.len() as int) =~= cands@);
    count
}

/// Counts the candidate cells whose single extra obstacle traps the guard,
/// with the strategy asked for; the count does not depend on it.
pub fn count_loop_obstructions(state: &State, cands: &Vec<(usize, usize)>, strategy: Strategy) -> (r:
    usize)
    requires
        state.wf(),
    ensures
        r == loop_count(state.lab(), cells_of(cands@)),
{
    match strategy {
        Strategy::Sequential => count_loops_sequential(state, cands),
        Strategy::Parallel => count_loops_parallel(state, cands),
    }
}

/// The cells of `path` other than `start`: the cells where an extra obstacle
/// is worth trying.
pub fn candidates(path: &Vec<(usize, usize)>, start: (usize, usize)) -> (r: Vec<(usize, usize)>)
    requires
        path@.no_duplicates(),
    ensures
        r@.no_duplicates(),
        forall|c: (usize, usize)| r@.contains(c) <==> path@.contains(c) && c != start,
{
    let mut r: Vec<(usize, usize)> = Vec::new();
    let mut i: usize = 0;
    while i < path.len()
        invariant
            path@.no_duplicates(),
            i <= path@.len(),
            r@.no_duplicates(),
            forall|c: (usize, usize)|
                r@.contains(c) <==> path@.take(i as int).contains(c) && c != start,
        decreases path@.len() - i,
    {
        let c = path[i];
        let ghost old_r = r@;
        proof {
            assert forall|d: (usize, usize)|
                path@.take(i as int + 1).contains(d) <==> path@.take(i as int).contains(d) || d
                    == c by {
                if path@.take(i as int + 1).contains(d) && d != c {
                    let k = choose|k: int| 0 <= k < i + 1 && #[trigger] path@.take(i as int + 1)[k] == d;
                    assert(path@.take(i as int)[k] == d);
                }
                if path@.take(i as int).contains(d) {
                    let k = choose|k: int| 0 <= k < i && #[trigger] path@.take(i as int)[k] == d;
                    assert(path@.take(i as int + 1)[k] == d);
                }
                if d == c {
                    assert(path@.take(i as int + 1)[i as int] == d);
                }
            }
            assert(!path@.take(i as int).contains(c)) by {
                if path@.take(i as int).contains(c) {
                    let k = choose|k: int| 0 <= k < i && #[trigger] path@.take(i as int)[k] == c;
                    assert(path@[k] == path@[i as int]);
                }
            }
        }
        if c.0 != start.0 || c.1 != start.1 {
            r.push(c);
            proof {
                assert forall|d: (usize, usize)| r@.contains(d) <==> old_r.contains(d) || d == c by {
                    if r@.contains(d) && d != c {
                        let k = choose|k: int| 0 <= k < r@.len() && #[trigger] r@[k] == d;
                        assert(old_r[k] == d);
                    }
                    if old_r.contains(d) {
                        let k = choose|k: int| 0 <= k < old_r.len() && #[trigger] old_r[k] == d;
                        assert(r@[k] == d);
                    }
                    if d == c {
                        assert(r@[old_r.len() as int] == d);
                    }
                }
                assert forall|a: int, b: int| 0 <= a < b < r@.len() implies r@[a] != r@[b] by {
                    if b < old_r.len() {
                        assert(old_r[a] != old_r[b]);
                    } else {
                        assert(old_r.contains(r@[a]));
                    }
                }
            }
        }
        assert forall|d: (usize, usize)|
            r@.contains(d) <==> path@.take(i as int + 1).contains(d) && d != start by {
            assert(path@.take(i as int + 1).contains(d) <==> path@.take(i as int).contains(d) || d
                == c);
            assert(old_r.contains(d) <==> path@.take(i as int).contains(d) && d != start);
            if c.0 == start.0 && c.1 == start.1 {
                assert(c == start);
                assert(r@ == old_r);
            } else {
                assert(r@.contains(d) <==> old_r.contains(d) || d == c);
            }
        }
        i = i + 1;
    }
    assert(path@.take(path@.len() as int) =~= path@);
    r
}

} // verus!
