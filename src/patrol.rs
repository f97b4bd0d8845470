use vstd::prelude::*;
use crate::lab::{
    cell_of, flat, lemma_flat_bound, lemma_flat_injective, lemma_walk_gone, pose_of, PatrolError,
    State,
};
use crate::trial::{all_unset, lemma_walk_in_grid};

verus! {

/// The cells of a path as integer pairs.
pub open spec fn cells_of(path: Seq<(usize, usize)>) -> Seq<(int, int)> {
    path.map_values(|p: (usize, usize)| (p.0 as int, p.1 as int))
}

impl State {
    /// Walks the unobstructed patrol and lists each cell it occupies once, in
    /// the order of first visit; the last cell is the one the guard leaves from.
    pub fn get_initial_path(&self) -> (r: Result<Vec<(usize, usize)>, PatrolError>)
        requires
            self.wf(),
        ensures
            match r {
                Ok(path) => {
                    &&& !self.lab().loops(None)
                    &&& path@.no_duplicates()
                    &&& cells_of(path@).no_duplicates()
                    &&& cells_of(path@).to_set() == self.lab().visited()
                    &&& path@.len() == self.lab().visited().len()
                    &&& forall|k: int|
                        0 <= k < path@.len() ==> (#[trigger] path@[k]).0 < self.rows
                            && path@[k].1 < self.cols
                },
                Err(e) => e == PatrolError::Degenerate && self.lab().loops(None),
            },
    {
        let ghost lab = self.lab();
        let t = self.run_trial(None);
        if t.cycle {
            return Err(PatrolError::Degenerate);
        }
        let m = t.steps;
        assert(lab.walk(None, 0) is Some);
        let ghost cols = self.cols as int;
        let mut mark = all_unset(self.rows * self.cols);
        let mut path: Vec<(usize, usize)> = Vec::new();
        let mut cur = (self.guard_position.0, self.guard_position.1, self.guard_direction);
        let mut i: usize = 0;
        while i < m
            invariant
                self.wf(),
                lab == self.lab(),
                cols == self.cols as int,
                0 < m,
                i <= m,
                lab.walk(None, m as nat) is None,
                forall|j: nat| j < m ==> (#[trigger] lab.walk(None, j)) is Some,
                mark@.len() == self.rows * self.cols,
                cur.0 < self.rows,
                cur.1 < self.cols,
                i < m ==> lab.walk(None, i as nat) == Some(pose_of(cur)),
                forall|j: nat|
                    j < i ==> mark@[flat(
                        (#[trigger] lab.walk(None, j)).unwrap().row,
                        lab.walk(None, j).unwrap().col,
                        cols,
                    )],
                forall|k: int|
                    0 <= k < path@.len() ==> (#[trigger] path@[k]).0 < self.rows && path@[k].1
                        < self.cols && mark@[flat(path@[k].0 as int, path@[k].1 as int, cols)],
                forall|k: int|
                    0 <= k < path@.len() ==> exists|j: nat|
                        j < i && cell_of((#[trigger] lab.walk(None, j)).unwrap()) == (
                            (#[trigger] path@[k]).0 as int,
                            path@[k].1 as int,
                        ),
                forall|x: int|
                    0 <= x < self.rows * self.cols && #[trigger] mark@[x] ==> exists|k: int|
                        0 <= k < path@.len() && flat(
                            (#[trigger] path@[k]).0 as int,
                            path@[k].1 as int,
                            cols,
                        ) == x,
                path@.no_duplicates(),
            decreases m - i,
        {
            proof {
                lemma_flat_bound(cur.0 as int, cur.1 as int, self.rows as int, cols);
            }
            let x = cur.0 * self.cols + cur.1;
            if !mark[x] {
                proof {
                    assert forall|k: int| 0 <= k < path@.len() implies path@[k] != (
                        cur.0,
                        cur.1,
                    ) by {
                        if path@[k] == (cur.0, cur.1) {
                            assert(mark@[flat(path@[k].0 as int, path@[k].1 as int, cols)]);
                        }
                    }
                }
                let ghost old_mark = mark@;
                let ghost old_path = path@;
                mark.set(x, true);
                path.push((cur.0, cur.1));
                proof {
                    assert forall|j: nat| j < i + 1 implies mark@[flat(
                        (#[trigger] lab.walk(None, j)).unwrap().row,
                        lab.walk(None, j).unwrap().col,
                        cols,
                    )] by {
                        if j < i {
                            let p = lab.walk(None, j).unwrap();
                            lemma_walk_in_grid(self, None, j);
                            lemma_flat_bound(p.row, p.col, self.rows as int, cols);
                            assert(old_mark[flat(p.row, p.col, cols)]);
                        }
                    }
                    assert forall|k: int| 0 <= k < path@.len() implies (#[trigger] path@[k]).0
                        < self.rows && path@[k].1 < self.cols && mark@[flat(
                        path@[k].0 as int,
                        path@[k].1 as int,
                        cols,
                    )] by {
                        if k < old_path.len() {
                            assert(old_path[k] == path@[k]);
                            lemma_flat_bound(
                                path@[k].0 as int,
                                path@[k].1 as int,
                                self.rows as int,
                                cols,
                            );
                        }
                    }
                    assert forall|k: int| 0 <= k < path@.len() implies exists|j: nat|
                        j < i + 1 && cell_of((#[trigger] lab.walk(None, j)).unwrap()) == (
                            (#[trigger] path@[k]).0 as int,
                            path@[k].1 as int,
                        ) by {
                        if k < old_path.len() {
                            assert(old_path[k] == path@[k]);
                        } else {
                            assert(cell_of(lab.walk(None, i as nat).unwrap()) == (
                                path@[k].0 as int,
                                path@[k].1 as int,
                            ));
                        }
                    }
                    assert forall|y: int|
                        0 <= y < self.rows * self.cols && #[trigger] mark@[y] implies exists|k: int|
                        0 <= k < path@.len() && flat(
                            (#[trigger] path@[k]).0 as int,
                            path@[k].1 as int,
                            cols,
                        ) == y by {
                        if y == x {
                            assert(flat(path@[old_path.len() as int].0 as int, path@[old_path.len() as int].1 as int, cols) == y);
                        } else {
                            assert(old_mark[y]);
                            let k = choose|k: int|
                                0 <= k < old_path.len() && flat(
                                    (#[trigger] old_path[k]).0 as int,
                                    old_path[k].1 as int,
                                    cols,
                                ) == y;
                            assert(path@[k] == old_path[k]);
                        }
                    }
                    assert(path@.no_duplicates()) by {
                        assert forall|a: int, b: int|
                            0 <= a < b < path@.len() implies path@[a] != path@[b] by {
                            if b < old_path.len() {
                                assert(old_path[a] != old_path[b]);
                            }
                        }
                    }
                }
            }
            i = i + 1;
            if i < m {
                let nx = self.next_pose(None, cur);
                match nx {
                    Some(t2) => {
                        cur = t2;
                    },
                    None => {
                        proof {
                            assert(lab.walk(None, i as nat) is Some);
                        }
                    },
                }
            }
        }
        proof {
            self.lemma_path_cells(path@, m as nat, mark@);
        }
        Ok(path)
    }

    proof fn lemma_path_cells(&self, path: Seq<(usize, usize)>, m: nat, mark: Seq<bool>)
        requires
            self.wf(),
            lab_ok(self, m),
            mark.len() == self.rows * self.cols,
            forall|j: nat|
                j < m ==> mark[flat(
                    (#[trigger] self.lab().walk(None, j)).unwrap().row,
                    self.lab().walk(None, j).unwrap().col,
                    self.cols as int,
                )],
            forall|k: int|
                0 <= k < path.len() ==> (#[trigger] path[k]).0 < self.rows && path[k].1
                    < self.cols,
            forall|k: int|
                0 <= k < path.len() ==> exists|j: nat|
                    j < m && cell_of((#[trigger] self.lab().walk(None, j)).unwrap()) == (
                        (#[trigger] path[k]).0 as int,
                        path[k].1 as int,
                    ),
            forall|x: int|
                0 <= x < self.rows * self.cols && #[trigger] mark[x] ==> exists|k: int|
                    0 <= k < path.len() && flat(
                        (#[trigger] path[k]).0 as int,
                        path[k].1 as int,
                        self.cols as int,
                    ) == x,
            path.no_duplicates(),
        ensures
            cells_of(path).no_duplicates(),
            cells_of(path).to_set() == self.lab().visited(),
            path.len() == self.lab().visited().len(),
    {
        let lab = self.lab();
        let cols = self.cols as int;
        let cs = cells_of(path);
        assert forall|a: int, b: int| 0 <= a < b < cs.len() implies cs[a] != cs[b] by {
            assert(path[a] != path[b]);
        }
        assert forall|c: (int, int)| cs.to_set().contains(c) implies lab.visited().contains(
            c,
        ) by {
            let k = choose|k: int| 0 <= k < cs.len() && cs[k] == c;
            assert(cs[k] == (path[k].0 as int, path[k].1 as int));
            let j = choose|j: nat|
                j < m && cell_of((#[trigger] lab.walk(None, j)).unwrap()) == (
                    (#[trigger] path[k]).0 as int,
                    path[k].1 as int,
                );
            assert(lab.walk(None, j) is Some);
        }
        assert forall|c: (int, int)| lab.visited().contains(c) implies cs.to_set().contains(
            c,
        ) by {
            let n = choose|n: nat|
                (#[trigger] lab.walk(None, n)) is Some && cell_of(lab.walk(None, n).unwrap())
                    == c;
            if n >= m {
                lemma_walk_gone(lab, None, m, n);
            }
            let p = lab.walk(None, n).unwrap();
            lemma_walk_in_grid(self, None, n);
            lemma_flat_bound(p.row, p.col, self.rows as int, cols);
            assert(mark[flat(p.row, p.col, cols)]);
            let k = choose|k: int|
                0 <= k < path.len() && flat(
                    (#[trigger] path[k]).0 as int,
                    path[k].1 as int,
                    cols,
                ) == flat(p.row, p.col, cols);
            lemma_flat_injective(path[k].0 as int, path[k].1 as int, p.row, p.col, cols);
            assert(cs[k] == c);
        }
        assert(cs.to_set() =~= lab.visited());
        cs.unique_seq_to_set();
    }
}

/// The unobstructed patrol leaves the grid at step `m`, taking a pose inside it
/// at every earlier step.
pub open spec fn lab_ok(s: &State, m: nat) -> bool {
    &&& s.lab().walk(None, m) is None
    &&& forall|j: nat| j < m ==> (#[trigger] s.lab().walk(None, j)) is Some
}

} // verus!
