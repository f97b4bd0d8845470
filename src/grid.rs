use vstd::prelude::*;
use vstd::string::StrSliceExecFns;
use crate::direction::Direction;
use crate::lab::{flat, lemma_flat_bound, lemma_flat_injective, Lab, PatrolError, Pose, State};

verus! {

/// All rows of a grid have the same length.
pub open spec fn rectangular(g: Seq<Vec<char>>) -> bool {
    forall|i: int| 0 <= i < g.len() ==> (#[trigger] g[i])@.len() == g[0]@.len()
}

/// A grid whose poses can all be numbered by a `usize`.
pub open spec fn fits(g: Seq<Vec<char>>) -> bool {
    forall|i: int| 0 <= i < g.len() ==> g.len() * (#[trigger] g[i])@.len() * 4 <= usize::MAX
}

/// The cell `(r, c)` of the grid holds a guard marker.
pub open spec fn marker_at(g: Seq<Vec<char>>, r: int, c: int) -> bool {
    0 <= r < g.len() && 0 <= c < g[r]@.len() && Direction::of_marker(g[r]@[c]) is Some
}

/// The grid holds exactly one guard marker.
pub open spec fn one_marker(g: Seq<Vec<char>>) -> bool {
    exists|r: int, c: int|
        #[trigger] marker_at(g, r, c) && forall|r2: int, c2: int|
            #[trigger] marker_at(g, r2, c2) ==> r2 == r && c2 == c
}

/// The lab that a grid describes: `#` cells are obstacles, and the guard starts
/// on its marker, heading as the marker points.
pub open spec fn grid_lab(g: Seq<Vec<char>>) -> Lab {
    let cols = if g.len() > 0 {
        g[0]@.len() as int
    } else {
        0
    };
    let m = choose|m: (int, int)| marker_at(g, m.0, m.1);
    Lab {
        rows: g.len() as int,
        cols,
        blocked: Set::new(
            |p: (int, int)| 0 <= p.0 < g.len() && 0 <= p.1 < cols && g[p.0]@[p.1] == '#',
        ),
        start: Pose { row: m.0, col: m.1, dir: Direction::of_marker(g[m.0]@[m.1]).unwrap() },
    }
}

/// Turns text lines into a grid of characters, one row per line; rows of
/// different lengths are refused.
pub fn format_data(rows: Vec<String>) -> (r: Result<Vec<Vec<char>>, PatrolError>)
    ensures
        match r {
            Ok(g) => {
                &&& g@.len() == rows@.len()
                &&& forall|i: int| 0 <= i < rows@.len() ==> (#[trigger] g@[i])@ == rows@[i]@
                &&& rectangular(g@)
            },
            Err(e) => e == PatrolError::Format && exists|i: int|
                0 <= i < rows@.len() && (#[trigger] rows@[i])@.len() != rows@[0]@.len(),
        },
{
    let mut g: Vec<Vec<char>> = Vec::new();
    let mut i: usize = 0;
    while i < rows.len()
        invariant
            i <= rows@.len(),
            g@.len() == i,
            forall|k: int| 0 <= k < i ==> (#[trigger] g@[k])@ == rows@[k]@,
            forall|k: int| 0 <= k < i ==> (#[trigger] rows@[k])@.len() == rows@[0]@.len(),
        decreases rows@.len() - i,
    {
        let line = rows[i].as_str();
        let n = line.unicode_len();
        if i > 0 && n != g[0].len() {
            return Err(PatrolError::Format);
        }
        let mut row: Vec<char> = Vec::new();
        let mut j: usize = 0;
        while j < n
            invariant
                j <= n,
                n == line@.len(),
                line@ == rows@[i as int]@,
                row@ == line@.subrange(0, j as int),
            decreases n - j,
        {
            row.push(line.get_char(j));
            j = j + 1;
        }
        assert(row@ =~= rows@[i as int]@);
        g.push(row);
        i = i + 1;
    }
    Ok(g)
}

/// Where the scan of a grid has got to: row `i`, column `j`.
pub open spec fn scanned(i: int, j: int, r: int, c: int) -> bool {
    r < i || (r == i && c < j)
}

/// Lays out a grid as a `State`: obstacle flags in row-major order and the
/// guard's start. A ragged grid is a `Format` error; a grid without exactly
/// one guard marker is a `Config` error.
pub fn init(grid: &Vec<Vec<char>>) -> (r: Result<State, PatrolError>)
    requires
        fits(grid@),
    ensures
        match r {
            Ok(s) => rectangular(grid@) && one_marker(grid@) && s.wf() && s.lab() == grid_lab(
                grid@,
            ),
            Err(e) => if !rectangular(grid@) {
                e == PatrolError::Format
            } else {
                e == PatrolError::Config && !one_marker(grid@)
            },
        },
{
    let rows = grid.len();
    let cols = if rows > 0 {
        grid[0].len()
    } else {
        0
    };
    let mut i: usize = 0;
    while i < rows
        invariant
            i <= rows,
            rows == grid@.len(),
            rows > 0 ==> cols == grid@[0]@.len(),
            forall|k: int| 0 <= k < i ==> (#[trigger] grid@[k])@.len() == cols,
        decreases rows - i,
    {
        if grid[i].len() != cols {
            return Err(PatrolError::Format);
        }
        i = i + 1;
    }
    assert(rows * cols * 4 <= usize::MAX) by {
        if rows > 0 {
            assert(grid@.len() * grid@[0]@.len() * 4 <= usize::MAX);
        }
    }
    let ghost g = grid@;
    let mut obstacles: Vec<bool> = Vec::new();
    let mut found: Option<(usize, usize, Direction)> = None;
    let mut i: usize = 0;
    while i < rows
        invariant
            rectangular(g),
            g == grid@,
            rows == g.len(),
            forall|k: int| 0 <= k < rows ==> (#[trigger] g[k])@.len() == cols,
            rows * cols * 4 <= usize::MAX,
            i <= rows,
            obstacles@.len() == i * cols,
            forall|r: int, c: int|
                0 <= r < i && 0 <= c < cols ==> obstacles@[flat(r, c, cols as int)] == (g[r]@[c]
                    == '#'),
            found_ok(g, found, i as int, 0),
        decreases rows - i,
    {
        let mut j: usize = 0;
        proof {
            assert(i * cols + cols <= rows * cols) by (nonlinear_arith)
                requires
                    i < rows,
            ;
        }
        while j < cols
            invariant
                rectangular(g),
                g == grid@,
                rows == g.len(),
                forall|k: int| 0 <= k < rows ==> (#[trigger] g[k])@.len() == cols,
                i < rows,
                i * cols + cols <= rows * cols,
                rows * cols * 4 <= usize::MAX,
                j <= cols,
                obstacles@.len() == i * cols + j,
                forall|r: int, c: int|
                    ((0 <= r < i && 0 <= c < cols) || (r == i && 0 <= c < j)) ==> obstacles@[flat(
                        r,
                        c,
                        cols as int,
                    )] == (g[r]@[c] == '#'),
                found_ok(g, found, i as int, j as int),
            decreases cols - j,
        {
            let cell = grid[i][j];
            proof {
                lemma_flat_bound(i as int, j as int, rows as int, cols as int);
            }
            let ghost old_obs = obstacles@;
            obstacles.push(cell == '#');
            proof {
                assert forall|r: int, c: int|
                    ((0 <= r < i && 0 <= c < cols) || (r == i && 0 <= c < j + 1)) implies obstacles@[flat(
                    r,
                    c,
                    cols as int,
                )] == (g[r]@[c] == '#') by {
                    if r < i || c < j {
                        lemma_flat_bound(r, c, i as int + 1, cols as int);
                        if r < i {
                            lemma_flat_bound(r, c, i as int, cols as int);
                        }
                        assert(flat(r, c, cols as int) < flat(i as int, j as int, cols as int))
                            by (nonlinear_arith)
                            requires
                                (r < i && 0 <= c < cols) || (r == i && c < j),
                                0 <= j,
                        ;
                        assert(old_obs[flat(r, c, cols as int)] == (g[r]@[c] == '#'));
                    }
                }
            }
            match Direction::from_marker(cell) {
                Some(d) => {
                    if found.is_some() {
                        proof {
                            let f = found.unwrap();
                            assert(marker_at(g, f.0 as int, f.1 as int));
                            assert(marker_at(g, i as int, j as int));
                            assert(!one_marker(g));
                        }
                        return Err(PatrolError::Config);
                    }
                    found = Some((i, j, d));
                },
                None => {},
            }
            j = j + 1;
        }
        proof {
            assert((i + 1) * cols == i * cols + cols) by (nonlinear_arith);
        }
        i = i + 1;
    }
    match found {
        None => {
            proof {
                assert forall|r: int, c: int| !marker_at(g, r, c) by {
                    if marker_at(g, r, c) {
                        assert(scanned(rows as int, 0, r, c));
                    }
                }
            }
            Err(PatrolError::Config)
        },
        Some(f) => {
            let s = State {
                rows,
                cols,
                obstacles,
                guard_position: (f.0, f.1),
                guard_direction: f.2,
            };
            proof {
                assert((rows as int) * (cols as int) == rows * cols);
                assert(marker_at(g, f.0 as int, f.1 as int));
                assert forall|r2: int, c2: int| #[trigger] marker_at(g, r2, c2) implies r2 == f.0
                    && c2 == f.1 by {
                    assert(scanned(rows as int, 0, r2, c2));
                }
                assert(one_marker(g));
                let lab = grid_lab(g);
                assert(s.lab().blocked =~= lab.blocked);
                assert(lab.cols == cols);
                assert(lab.start == s.lab().start);
            }
            Ok(s)
        },
    }
}

/// `found` records the only guard marker among the cells scanned so far, or
/// `None` where there is none.
pub open spec fn found_ok(g: Seq<Vec<char>>, found: Option<(usize, usize, Direction)>, i: int, j: int) -> bool {
    match found {
        None => forall|r: int, c: int| #[trigger] marker_at(g, r, c) ==> !scanned(i, j, r, c),
        Some(f) => {
            &&& marker_at(g, f.0 as int, f.1 as int)
            &&& scanned(i, j, f.0 as int, f.1 as int)
            &&& Direction::of_marker(g[f.0 as int]@[f.1 as int]) == Some(f.2)
            &&& forall|r: int, c: int|
                #[trigger] marker_at(g, r, c) && scanned(i, j, r, c) ==> r == f.0 && c == f.1
        },
    }
}

} // verus!
