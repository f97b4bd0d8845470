use vstd::prelude::*;
use crate::direction::Direction;

verus! {

/// Why a lab cannot be patrolled.
#[derive(Clone, Copy, Debug, PartialEq, Eq, Structural)]
pub enum PatrolError {
    /// The rows of the grid differ in length.
    Format,
    /// The grid holds no guard marker, or more than one.
    Config,
    /// The guard never leaves the grid: it is walled in on all four sides, or
    /// its patrol runs in a cycle.
    Degenerate,
}

/// A guard's place and heading, as mathematical integers.
pub struct Pose {
    pub row: int,
    pub col: int,
    pub dir: Direction,
}

/// The abstract lab: its size, its obstacle cells and the guard's starting pose.
pub struct Lab {
    pub rows: int,
    pub cols: int,
    pub blocked: Set<(int, int)>,
    pub start: Pose,
}

/// The cell that a pose occupies.
pub open spec fn cell_of(p: Pose) -> (int, int) {
    (p.row, p.col)
}

/// The cell directly ahead of a pose; it may lie outside the grid.
pub open spec fn ahead_of(p: Pose) -> (int, int) {
    (p.row + p.dir.dr(), p.col + p.dir.dc())
}

/// A pose given by exec coordinates.
pub open spec fn pose_of(t: (usize, usize, Direction)) -> Pose {
    Pose { row: t.0 as int, col: t.1 as int, dir: t.2 }
}

/// An optional extra obstacle given by exec coordinates.
pub open spec fn extra_of(e: Option<(usize, usize)>) -> Option<(int, int)> {
    match e {
        Some(c) => Some((c.0 as int, c.1 as int)),
        None => None,
    }
}

impl Lab {
    pub open spec fn in_grid(self, c: (int, int)) -> bool {
        0 <= c.0 < self.rows && 0 <= c.1 < self.cols
    }

    /// Whether a cell stops the guard, counting the extra obstacle of a trial.
    pub open spec fn stops(self, extra: Option<(int, int)>, c: (int, int)) -> bool {
        self.blocked.contains(c) || extra == Some(c)
    }

    /// One step of the patrol: `None` once the guard walks out of the grid, a
    /// quarter turn in front of an obstacle, else one cell forward.
    pub open spec fn step(self, extra: Option<(int, int)>, p: Pose) -> Option<Pose> {
        let f = ahead_of(p);
        if !self.in_grid(f) {
            None
        } else if self.stops(extra, f) {
            Some(Pose { row: p.row, col: p.col, dir: p.dir.turned() })
        } else {
            Some(Pose { row: f.0, col: f.1, dir: p.dir })
        }
    }

    /// The pose after `n` steps from the start, `None` once the guard has left.
    pub open spec fn walk(self, extra: Option<(int, int)>, n: nat) -> Option<Pose>
        decreases n,
    {
        if n == 0 {
            Some(self.start)
        } else {
            match self.walk(extra, (n - 1) as nat) {
                Some(p) => self.step(extra, p),
                None => None,
            }
        }
    }

    /// The patrol runs into a cycle: some pose inside the grid comes back.
    pub open spec fn loops(self, extra: Option<(int, int)>) -> bool {
        exists|i: nat, j: nat|
            i < j && (#[trigger] self.walk(extra, i)) is Some && self.walk(extra, i)
                == #[trigger] self.walk(extra, j)
    }

    /// The cells that the guard occupies at some time of the unobstructed patrol.
    pub open spec fn visited(self) -> Set<(int, int)> {
        Set::new(
            |c: (int, int)|
                exists|n: nat|
                    (#[trigger] self.walk(None, n)) is Some && cell_of(
                        self.walk(None, n).unwrap(),
                    ) == c,
        )
    }

    /// The cells whose single extra obstacle traps the guard in a cycle:
    /// visited cells other than the start.
    pub open spec fn trapping_cells(self) -> Set<(int, int)> {
        self.visited().filter(|c: (int, int)| c != cell_of(self.start) && self.loops(Some(c)))
    }
}

/// Once the guard has left, it stays out.
pub proof fn lemma_walk_gone(lab: Lab, extra: Option<(int, int)>, m: nat, n: nat)
    requires
        m <= n,
        lab.walk(extra, m) is None,
    ensures
        lab.walk(extra, n) is None,
    decreases n - m,
{
    if m < n {
        lemma_walk_gone(lab, extra, m, (n - 1) as nat);
    }
}

/// A well-formed lab laid out for execution: obstacle flags in row-major order.
pub struct State {
    pub rows: usize,
    pub cols: usize,
    pub obstacles: Vec<bool>,
    pub guard_position: (usize, usize),
    pub guard_direction: Direction,
}

/// Row-major index of a cell.
pub open spec fn flat(r: int, c: int, cols: int) -> int {
    r * cols + c
}

/// Index of a pose among the `4 * rows * cols` poses inside the grid.
pub open spec fn pose_key(p: Pose, cols: int) -> int {
    flat(p.row, p.col, cols) * 4 + p.dir.ord()
}

pub proof fn lemma_flat_bound(r: int, c: int, rows: int, cols: int)
    requires
        0 <= r < rows,
        0 <= c < cols,
    ensures
        0 <= flat(r, c, cols) < rows * cols,
        0 <= pose_key(Pose { row: r, col: c, dir: Direction::Left }, cols) < rows * cols * 4,
{
    assert(r * cols + c < rows * cols) by (nonlinear_arith)
        requires
            0 <= r < rows,
            0 <= c < cols,
    ;
    assert(0 <= r * cols) by (nonlinear_arith)
        requires
            0 <= r,
            0 <= c < cols,
    ;
    assert((r * cols + c) * 4 + 3 < rows * cols * 4) by (nonlinear_arith)
        requires
            r * cols + c < rows * cols,
    ;
}

pub proof fn lemma_flat_injective(r1: int, c1: int, r2: int, c2: int, cols: int)
    requires
        0 <= r1,
        0 <= r2,
        0 <= c1 < cols,
        0 <= c2 < cols,
        flat(r1, c1, cols) == flat(r2, c2, cols),
    ensures
        r1 == r2,
        c1 == c2,
{
    if r1 < r2 {
        assert(r1 * cols + cols <= r2 * cols) by (nonlinear_arith)
            requires
                r1 < r2,
                0 <= cols,
        ;
    } else if r2 < r1 {
        assert(r2 * cols + cols <= r1 * cols) by (nonlinear_arith)
            requires
                r2 < r1,
                0 <= cols,
        ;
    }
}

/// Distinct poses inside the grid have distinct keys.
pub proof fn lemma_pose_key_injective(p: Pose, q: Pose, rows: int, cols: int)
    requires
        0 <= p.row < rows,
        0 <= p.col < cols,
        0 <= q.row < rows,
        0 <= q.col < cols,
        pose_key(p, cols) == pose_key(q, cols),
    ensures
        p == q,
{
    lemma_flat_injective(p.row, p.col, q.row, q.col, cols);
}

impl State {
    pub open spec fn wf(&self) -> bool {
        &&& self.obstacles@.len() == self.rows * self.cols
        &&& self.rows * self.cols * 4 <= usize::MAX
        &&& self.guard_position.0 < self.rows
        &&& self.guard_position.1 < self.cols
    }

    pub open spec fn blocked_at(&self, c: (int, int)) -> bool {
        0 <= c.0 < self.rows && 0 <= c.1 < self.cols && self.obstacles@[flat(
            c.0,
            c.1,
            self.cols as int,
        )]
    }

    /// The abstract lab that this state lays out.
    pub open spec fn lab(&self) -> Lab {
        Lab {
            rows: self.rows as int,
            cols: self.cols as int,
            blocked: Set::new(|c: (int, int)| self.blocked_at(c)),
            start: pose_of((self.guard_position.0, self.guard_position.1, self.guard_direction)),
        }
    }

    /// Whether the cell `(r, c)` holds an obstacle or is the extra one.
    fn stops_at(&self, extra: Option<(usize, usize)>, r: usize, c: usize) -> (b: bool)
        requires
            self.wf(),
            r < self.rows,
            c < self.cols,
        ensures
            b == self.lab().stops(extra_of(extra), (r as int, c as int)),
    {
        proof {
            lemma_flat_bound(r as int, c as int, self.rows as int, self.cols as int);
        }
        let hit = match extra {
            Some(e) => e.0 == r && e.1 == c,
            None => false,
        };
        self.obstacles[r * self.cols + c] || hit
    }

    /// The cell ahead of `(r, c)` facing `d`, or `None` where it lies outside.
    fn ahead(&self, r: usize, c: usize, d: Direction) -> (a: Option<(usize, usize)>)
        requires
            self.wf(),
            r < self.rows,
            c < self.cols,
        ensures
            match a {
                None => !self.lab().in_grid(ahead_of(pose_of((r, c, d)))),
                Some(f) => f.0 < self.rows && f.1 < self.cols && (f.0 as int, f.1 as int)
                    == ahead_of(pose_of((r, c, d))),
            },
    {
        match d {
            Direction::Up => if r == 0 {
                None
            } else {
                Some((r - 1, c))
            },
            Direction::Down => if r + 1 == self.rows {
                None
            } else {
                Some((r + 1, c))
            },
            Direction::Left => if c == 0 {
                None
            } else {
                Some((r, c - 1))
            },
            Direction::Right => if c + 1 == self.cols {
                None
            } else {
                Some((r, c + 1))
            },
        }
    }

    /// One step of the patrol from `cur`, as `Lab::step` states it.
    pub fn next_pose(&self, extra: Option<(usize, usize)>, cur: (usize, usize, Direction)) -> (n:
        Option<(usize, usize, Direction)>)
        requires
            self.wf(),
            cur.0 < self.rows,
            cur.1 < self.cols,
        ensures
            match n {
                None => self.lab().step(extra_of(extra), pose_of(cur)) is None,
                Some(t) => t.0 < self.rows && t.1 < self.cols && self.lab().step(
                    extra_of(extra),
                    pose_of(cur),
                ) == Some(pose_of(t)),
            },
    {
        match self.ahead(cur.0, cur.1, cur.2) {
            None => None,
            Some(f) => {
                if self.stops_at(extra, f.0, f.1) {
                    Some((cur.0, cur.1, crate::direction::get_next_direction(cur.2)))
                } else {
                    Some((f.0, f.1, cur.2))
                }
            },
        }
    }

    /// Index of a pose in a table of all poses inside the grid.
    pub fn key(&self, cur: (usize, usize, Direction)) -> (k: usize)
        requires
            self.wf(),
            cur.0 < self.rows,
            cur.1 < self.cols,
        ensures
            k as int == pose_key(pose_of(cur), self.cols as int),
            k < self.rows * self.cols * 4,
    {
        proof {
            lemma_flat_bound(cur.0 as int, cur.1 as int, self.rows as int, self.cols as int);
        }
        (cur.0 * self.cols + cur.1) * 4 + cur.2.index()
    }
}

} // verus!
