use vstd::prelude::*;
use crate::lab::{cell_of, extra_of, lemma_flat_bound, lemma_pose_key_injective, lemma_walk_gone, pose_key, pose_of, Lab, State};

verus! {

/// Number of `true` entries.
pub open spec fn count_true(s: Seq<bool>) -> nat
    decreases s.len(),
{
    if s.len() == 0 {
        0
    } else {
        count_true(s.drop_last()) + if s.last() {
            1nat
        } else {
            0nat
        }
    }
}

pub proof fn lemma_count_true_bound(s: Seq<bool>)
    ensures
        count_true(s) <= s.len(),
    decreases s.len(),
{
    if s.len() > 0 {
        lemma_count_true_bound(s.drop_last());
    }
}

pub proof fn lemma_count_true_push_false(s: Seq<bool>)
    ensures
        count_true(s.push(false)) == count_true(s),
{
    assert(s.push(false).drop_last() =~= s);
}

pub proof fn lemma_count_true_set(s: Seq<bool>, k: int)
    requires
        0 <= k < s.len(),
        !s[k],
    ensures
        count_true(s.update(k, true)) == count_true(s) + 1,
    decreases s.len(),
{
    let t = s.update(k, true);
    if k == s.len() - 1 {
        assert(t.drop_last() =~= s.drop_last());
    } else {
        assert(t.drop_last() =~= s.drop_last().update(k, true));
        lemma_count_true_set(s.drop_last(), k);
    }
}

/// A table of `n` unset flags.
pub fn all_unset(n: usize) -> (v: Vec<bool>)
    ensures
        v@.len() == n,
        count_true(v@) == 0,
        forall|k: int| 0 <= k < n ==> !(#[trigger] v@[k]),
{
    let mut v: Vec<bool> = Vec::new();
    let mut i: usize = 0;
    while i < n
        invariant
            i <= n,
            v@.len() == i,
            count_true(v@) == 0,
            forall|k: int| 0 <= k < i ==> !(#[trigger] v@[k]),
        decreases n - i,
    {
        proof {
            lemma_count_true_push_false(v@);
        }
        v.push(false);
        i = i + 1;
    }
    v
}

/// Outcome of one trial of the patrol.
#[derive(Clone, Copy, Debug, PartialEq, Eq, Structural)]
pub struct Trial {
    /// The patrol came back to a pose it had taken before.
    pub cycle: bool,
    /// Poses taken inside the grid before the guard left or came back.
    pub steps: usize,
}

/// The patrol has taken distinct poses, all inside the grid, up to step `m`
/// (exclusive).
pub open spec fn distinct_prefix(lab: Lab, extra: Option<(int, int)>, m: nat) -> bool {
    &&& forall|i: nat| i < m ==> (#[trigger] lab.walk(extra, i)) is Some
    &&& forall|i: nat, j: nat|
        i < j < m ==> #[trigger] lab.walk(extra, i) != #[trigger] lab.walk(extra, j)
}

/// Step `m` is where the patrol ends or closes a cycle: the poses before it are
/// distinct, and at `m` the guard has either left or returned to one of them.
pub open spec fn trial_end(lab: Lab, extra: Option<(int, int)>, m: nat, cycle: bool) -> bool {
    &&& distinct_prefix(lab, extra, m)
    &&& if cycle {
        exists|i: nat| i < m && lab.walk(extra, i) == #[trigger] lab.walk(extra, m)
    } else {
        lab.walk(extra, m) is None
    }
}

/// A cycle closes exactly when the patrol loops.
pub proof fn lemma_trial_end_loops(lab: Lab, extra: Option<(int, int)>, m: nat, cycle: bool)
    requires
        trial_end(lab, extra, m, cycle),
    ensures
        cycle == lab.loops(extra),
{
    if cycle {
        let i = choose|i: nat| i < m && lab.walk(extra, i) == #[trigger] lab.walk(extra, m);
        assert(lab.walk(extra, i) is Some);
        assert(lab.loops(extra));
    } else if lab.loops(extra) {
        let (i, j) = choose|i: nat, j: nat|
            i < j && (#[trigger] lab.walk(extra, i)) is Some && lab.walk(extra, i)
                == #[trigger] lab.walk(extra, j);
        if j >= m {
            lemma_walk_gone(lab, extra, m, j);
        }
        assert(lab.walk(extra, i) != lab.walk(extra, j));
    }
}

impl State {
    /// Replays the patrol with one optional extra obstacle, watching the poses
    /// taken until the guard leaves the grid or repeats a pose.
    pub fn run_trial(&self, extra: Option<(usize, usize)>) -> (t: Trial)
        requires
            self.wf(),
        ensures
            trial_end(self.lab(), extra_of(extra), t.steps as nat, t.cycle),
            t.cycle == self.lab().loops(extra_of(extra)),
            t.steps <= self.rows * self.cols * 4,
    {
        let ghost lab = self.lab();
        let ghost ex = extra_of(extra);
        let n = self.rows * self.cols * 4;
        let mut seen = all_unset(n);
        let mut cur = (self.guard_position.0, self.guard_position.1, self.guard_direction);
        let mut steps: usize = 0;
        loop
            invariant
                self.wf(),
                lab == self.lab(),
                ex == extra_of(extra),
                n == self.rows * self.cols * 4,
                seen@.len() == n,
                count_true(seen@) == steps,
                cur.0 < self.rows,
                cur.1 < self.cols,
                lab.walk(ex, steps as nat) == Some(pose_of(cur)),
                distinct_prefix(lab, ex, steps as nat),
                forall|i: nat|
                    i < steps ==> seen@[pose_key(
                        (#[trigger] lab.walk(ex, i)).unwrap(),
                        self.cols as int,
                    )],
                forall|k: int|
                    0 <= k < n && #[trigger] seen@[k] ==> exists|i: nat|
                        i < steps && pose_key(
                            (#[trigger] lab.walk(ex, i)).unwrap(),
                            self.cols as int,
                        ) == k,
            decreases n - steps,
        {
            proof {
                lemma_count_true_bound(seen@);
            }
            let k = self.key(cur);
            if seen[k] {
                proof {
                    let i = choose|i: nat|
                        i < steps && pose_key(
                            (#[trigger] lab.walk(ex, i)).unwrap(),
                            self.cols as int,
                        ) == k;
                    let p = lab.walk(ex, i).unwrap();
                    assert(lab.walk(ex, i) is Some);
                    lemma_walk_in_grid(self, ex, i);
                    lemma_pose_key_injective(
                        p,
                        pose_of(cur),
                        self.rows as int,
                        self.cols as int,
                    );
                    assert(lab.walk(ex, i) == lab.walk(ex, steps as nat));
                    lemma_trial_end_loops(lab, ex, steps as nat, true);
                }
                return Trial { cycle: true, steps };
            }
            proof {
                assert forall|i: nat| i < steps implies lab.walk(ex, i) != #[trigger] lab.walk(
                    ex,
                    steps as nat,
                ) by {
                    assert(seen@[pose_key(lab.walk(ex, i).unwrap(), self.cols as int)]);
                }
                lemma_count_true_set(seen@, k as int);
            }
            let ghost old_seen = seen@;
            seen.set(k, true);
            proof {
                lemma_count_true_bound(seen@);
                assert forall|i: nat| i < steps + 1 implies seen@[pose_key(
                    (#[trigger] lab.walk(ex, i)).unwrap(),
                    self.cols as int,
                )] by {
                    if i < steps {
                        let p = lab.walk(ex, i).unwrap();
                        lemma_walk_in_grid(self, ex, i);
                        lemma_flat_bound(p.row, p.col, self.rows as int, self.cols as int);
                        assert(old_seen[pose_key(lab.walk(ex, i).unwrap(), self.cols as int)]);
                    }
                }
                assert forall|k2: int|
                    0 <= k2 < n && #[trigger] seen@[k2] implies exists|i: nat|
                    i < steps + 1 && pose_key(
                        (#[trigger] lab.walk(ex, i)).unwrap(),
                        self.cols as int,
                    ) == k2 by {
                    if k2 == k {
                        assert(pose_key(lab.walk(ex, steps as nat).unwrap(), self.cols as int)
                            == k2);
                    } else {
                        let i = choose|i: nat|
                            i < steps && pose_key(
                                (#[trigger] lab.walk(ex, i)).unwrap(),
                                self.cols as int,
                            ) == k2;
                        assert(i < steps + 1);
                    }
                }
            }
            match self.next_pose(extra, cur) {
                None => {
                    proof {
                        assert(lab.walk(ex, (steps + 1) as nat) is None);
                        lemma_trial_end_loops(lab, ex, (steps + 1) as nat, false);
                    }
                    return Trial { cycle: false, steps: steps + 1 };
                },
                Some(nx) => {
                    cur = nx;
                    steps = steps + 1;
                },
            }
        }
    }

    /// Whether one extra obstacle at `candidate` traps the guard in a cycle.
    pub fn simulate(&self, candidate: (usize, usize)) -> (r: bool)
        requires
            self.wf(),
        ensures
            r == self.lab().loops(Some((candidate.0 as int, candidate.1 as int))),
    {
        self.run_trial(Some(candidate)).cycle
    }
}

/// Every pose of a patrol lies inside the grid.
pub proof fn lemma_walk_in_grid(s: &State, extra: Option<(int, int)>, n: nat)
    requires
        s.wf(),
        s.lab().walk(extra, n) is Some,
    ensures
        s.lab().in_grid(cell_of(s.lab().walk(extra, n).unwrap())),
    decreases n,
{
    if n > 0 {
        lemma_walk_in_grid(s, extra, (n - 1) as nat);
    }
}

} // verus!
