//! Field of view: recursive shadowcasting over 8 octants, and a
//! straight-line visibility test.
//!
//! Slopes are exact rationals with positive denominators, so the octant
//! scans never lose precision.

use vstd::prelude::*;
use crate::tile::spec_blocking;
use crate::world::room::Room;

verus! {

/// Anything that can say which of its cells block vision.
pub trait Opacity {
    /// Whether the cell at (x, y) blocks vision.
    spec fn blocks_spec(&self, x: int, y: int) -> bool;

    /// Check whether the cell at (x, y) blocks vision.
    fn blocks(&self, x: i32, y: i32) -> (b: bool)
        ensures
            b == self.blocks_spec(x as int, y as int),
    ;
}

impl Opacity for Room {
    /// A room blocks vision outside its grid and on blocking tiles.
    open spec fn blocks_spec(&self, x: int, y: int) -> bool {
        !(0 <= y < self.tiles@.len() && 0 <= x < self.tiles@[y]@.len())
            || spec_blocking(self.tiles@[y]@[x])
    }

    fn blocks(&self, x: i32, y: i32) -> (b: bool) {
        if x < 0 || y < 0 {
            return true;
        }
        let ux = x as usize;
        let uy = y as usize;
        if uy >= self.tiles.len() {
            return true;
        }
        let row = &self.tiles[uy];
        if ux >= row.len() {
            return true;
        }
        row[ux].is_blocking()
    }
}

/// An unobstructed field: nothing blocks vision anywhere.
#[derive(Debug, Clone, Copy, PartialEq, Eq, Structural)]
pub struct Unobstructed;

impl Opacity for Unobstructed {
    open spec fn blocks_spec(&self, x: int, y: int) -> bool {
        false
    }

    fn blocks(&self, x: i32, y: i32) -> (b: bool) {
        false
    }
}

/// An exact slope: `num / den` with a positive denominator.
#[derive(Debug, Clone, Copy, PartialEq, Eq, Structural)]
pub struct Slope {
    pub num: i32,
    pub den: i32,
}

/// A slope whose denominator is positive and whose parts are small enough
/// for exact cross-multiplication.
pub open spec fn spec_slope_wf(s: Slope) -> bool {
    1 <= s.den <= 30_000 && -30_000 <= s.num <= 30_000
}

/// `a` is strictly below `b` as a rational.
pub open spec fn spec_slope_lt(a: Slope, b: Slope) -> bool {
    (a.num as int) * (b.den as int) < (b.num as int) * (a.den as int)
}

fn slope_lt(a: Slope, b: Slope) -> (r: bool)
    requires
        spec_slope_wf(a),
        spec_slope_wf(b),
    ensures
        r == spec_slope_lt(a, b),
{
    proof {
        assert((-900_000_000) <= a.num * b.den <= 900_000_000) by (nonlinear_arith)
            requires
                -30_000 <= a.num <= 30_000,
                1 <= b.den <= 30_000,
        ;
        assert((-900_000_000) <= b.num * a.den <= 900_000_000) by (nonlinear_arith)
            requires
                -30_000 <= b.num <= 30_000,
                1 <= a.den <= 30_000,
        ;
    }
    a.num * b.den < b.num * a.den
}

/// Octant transform: maps scan coordinates to grid offsets so that the 8
/// octants together cover the full circle.
pub open spec fn spec_transform(octant: u8, x: int, y: int) -> (int, int) {
    if octant == 0 {
        (x, y)
    } else if octant == 1 {
        (y, x)
    } else if octant == 2 {
        (y, -x)
    } else if octant == 3 {
        (-x, y)
    } else if octant == 4 {
        (-x, -y)
    } else if octant == 5 {
        (-y, -x)
    } else if octant == 6 {
        (-y, x)
    } else if octant == 7 {
        (x, -y)
    } else {
        (x, y)
    }
}

/// Transform scan coordinates into grid offsets for the given octant.
pub fn transform_octant(octant: u8, x: i32, y: i32) -> (r: (i32, i32))
    requires
        -15_000 <= x <= 15_000,
        -15_000 <= y <= 15_000,
    ensures
        r.0 as int == spec_transform(octant, x as int, y as int).0,
        r.1 as int == spec_transform(octant, x as int, y as int).1,
{
    match octant {
        0 => (x, y),
        1 => (y, x),
        2 => (y, -x),
        3 => (-x, y),
        4 => (-x, -y),
        5 => (-y, -x),
        6 => (-y, x),
        7 => (x, -y),
        _ => (x, y),
    }
}

/// The grid cell that the scan position (dx, -row) lands on, for an origin
/// and octant.
pub open spec fn spec_cell(origin: (i32, i32), octant: u8, dx: int, row: int) -> (int, int) {
    let t = spec_transform(octant, dx, -row);
    (origin.0 + t.0, origin.1 + t.1)
}

/// The visible set holds the cell (x, y).
pub open spec fn spec_sees(s: Seq<(i32, i32)>, x: int, y: int) -> bool {
    exists|k: int| 0 <= k < s.len() && (#[trigger] s[k]).0 == x && s[k].1 == y
}

fn insert_unique(visible: &mut Vec<(i32, i32)>, p: (i32, i32))
    ensures
        spec_sees(final(visible)@, p.0 as int, p.1 as int),
        forall|x: int, y: int| #![trigger spec_sees(final(visible)@, x, y)]
            spec_sees(final(visible)@, x, y)
                <==> (spec_sees(old(visible)@, x, y) || (x == p.0 as int && y == p.1 as int)),
        old(visible)@.no_duplicates() ==> final(visible)@.no_duplicates(),
{
    let n = visible.len();
    let mut k: usize = 0;
    while k < n
        invariant
            n == visible@.len(),
            0 <= k <= n,
            forall|a: int| 0 <= a < k ==> #[trigger] visible@[a] != p,
        decreases n - k,
    {
        if visible[k].0 == p.0 && visible[k].1 == p.1 {
            proof {
                assert(visible@[k as int] == p);
            }
            return;
        }
        k += 1;
    }
    let ghost v0 = visible@;
    visible.push(p);
    proof {
        assert(visible@[v0.len() as int] == p);
        assert forall|x: int, y: int| spec_sees(visible@, x, y)
            implies (spec_sees(v0, x, y) || (x == p.0 as int && y == p.1 as int)) by {
            let k0 = choose|k0: int| 0 <= k0 < visible@.len()
                && (#[trigger] visible@[k0]).0 == x && visible@[k0].1 == y;
            if k0 < v0.len() {
                assert(v0[k0] == visible@[k0]);
            }
        }
        assert forall|x: int, y: int| spec_sees(v0, x, y)
            implies spec_sees(visible@, x, y) by {
            let k0 = choose|k0: int| 0 <= k0 < v0.len()
                && (#[trigger] v0[k0]).0 == x && v0[k0].1 == y;
            assert(visible@[k0] == v0[k0]);
        }
        if v0.no_duplicates() {
            assert forall|a: int, b: int| 0 <= a < b < visible@.len()
                implies visible@[a] != visible@[b] by {
                if b < v0.len() {
                    assert(visible@[a] == v0[a] && visible@[b] == v0[b]);
                } else {
                    assert(visible@[b] == p && visible@[a] == v0[a]);
                }
            }
        }
    }
}

proof fn lemma_transform_dist(octant: u8, dx: int, dy: int)
    ensures
        ({
            let t = spec_transform(octant, dx, dy);
            t.0 * t.0 + t.1 * t.1 == dx * dx + dy * dy
        }),
{
    let t = spec_transform(octant, dx, dy);
    assert((t.0 == dx && t.1 == dy) || (t.0 == dy && t.1 == dx) || (t.0 == dy && t.1 == -dx)
        || (t.0 == -dx && t.1 == dy) || (t.0 == -dx && t.1 == -dy) || (t.0 == -dy && t.1 == -dx)
        || (t.0 == -dy && t.1 == dx) || (t.0 == dx && t.1 == -dy));
    assert(t.0 * t.0 + t.1 * t.1 == dx * dx + dy * dy) by (nonlinear_arith)
        requires
            (t.0 == dx && t.1 == dy) || (t.0 == dy && t.1 == dx) || (t.0 == dy && t.1 == -dx)
                || (t.0 == -dx && t.1 == dy) || (t.0 == -dx && t.1 == -dy)
                || (t.0 == -dy && t.1 == -dx) || (t.0 == -dy && t.1 == dx)
                || (t.0 == dx && t.1 == -dy),
    ;
}

/// The straight-ahead slope window facts behind the adjacent-cell
/// guarantee: any slope of the form `start` or a blocker's right edge in
/// row 1 stays at or above the right edge of the straight-ahead cell.
pub open spec fn spec_at_least_ahead(s: Slope) -> bool {
    s.num * 3 >= -s.den
}

/// The slope along the left (lower-x) edge of the cell at (dx, -row):
/// (dx - 1/2) / (-row + 1/2), normalized to a positive denominator.
pub open spec fn spec_left_slope(dx: int, row: int) -> Slope {
    Slope { num: (1 - 2 * dx) as i32, den: (2 * row - 1) as i32 }
}

/// The slope along the right (higher-x) edge of the cell at (dx, -row):
/// (dx + 1/2) / (-row - 1/2), normalized to a positive denominator.
pub open spec fn spec_right_slope(dx: int, row: int) -> Slope {
    Slope { num: (-(2 * dx + 1)) as i32, den: (2 * row + 1) as i32 }
}

/// The visible cells a sequence of grid positions denotes.
pub open spec fn spec_seen(s: Seq<(i32, i32)>) -> Set<(int, int)> {
    Set::new(|p: (int, int)| spec_sees(s, p.0, p.1))
}

/// The running state of one octant scan: the visible set so far, the
/// active and pending window tops, and whether the scan stands inside a
/// run of blockers.
#[verifier::ext_equal]
pub struct ScanState {
    pub vis: Set<(int, int)>,
    pub cur_start: Slope,
    pub next_start: Slope,
    pub blocked: bool,
}

/// One row of the shadowcast, cell by cell from `dx` to 0: a cell right
/// of the window is skipped; a cell left of the window ends the row; any
/// other cell within the radius becomes visible, and blockers narrow the
/// window, spawning a scan of the next row over the still-open part.
pub open spec fn spec_scan_cells<O: Opacity>(
    map: &O,
    origin: (i32, i32),
    radius: int,
    octant: u8,
    row: int,
    end: Slope,
    st: ScanState,
    dx: int,
) -> ScanState
    decreases radius + 1 - row, 0int, 1 - dx,
{
    if dx > 0 || row < 1 || row > radius {
        st
    } else {
        let left = spec_left_slope(dx, row);
        let right = spec_right_slope(dx, row);
        if spec_slope_lt(st.cur_start, right) {
            spec_scan_cells(map, origin, radius, octant, row, end, st, dx + 1)
        } else if spec_slope_lt(left, end) {
            st
        } else {
            let cell = spec_cell(origin, octant, dx, row);
            let vis1 = if dx * dx + row * row <= radius * radius {
                st.vis.insert(cell)
            } else {
                st.vis
            };
            let st1 = if st.blocked {
                if map.blocks_spec(cell.0, cell.1) {
                    ScanState { vis: vis1, cur_start: st.cur_start, next_start: right, blocked: true }
                } else {
                    ScanState {
                        vis: vis1,
                        cur_start: st.next_start,
                        next_start: st.next_start,
                        blocked: false,
                    }
                }
            } else {
                if map.blocks_spec(cell.0, cell.1) && row < radius {
                    ScanState {
                        vis: spec_scan_rows(map, origin, radius, octant, row + 1, st.cur_start,
                            left, vis1),
                        cur_start: st.cur_start,
                        next_start: right,
                        blocked: true,
                    }
                } else {
                    ScanState {
                        vis: vis1,
                        cur_start: st.cur_start,
                        next_start: st.next_start,
                        blocked: st.blocked,
                    }
                }
            };
            spec_scan_cells(map, origin, radius, octant, row, end, st1, dx + 1)
        }
    }
}

/// The rows of one octant from `row` outward: each row is scanned inside
/// the window [end, start], and the next row follows unless the row ended
/// inside a run of blockers.
pub open spec fn spec_scan_rows<O: Opacity>(
    map: &O,
    origin: (i32, i32),
    radius: int,
    octant: u8,
    row: int,
    start: Slope,
    end: Slope,
    vis: Set<(int, int)>,
) -> Set<(int, int)>
    decreases radius + 1 - row, 1int, 0int,
{
    if spec_slope_lt(start, end) || row < 1 || row > radius {
        vis
    } else {
        let st = spec_scan_cells(map, origin, radius, octant, row, end,
            ScanState { vis, cur_start: start, next_start: start, blocked: false }, -row);
        if !st.blocked {
            spec_scan_rows(map, origin, radius, octant, row + 1, st.cur_start, end, st.vis)
        } else {
            st.vis
        }
    }
}

/// The octants of the shadowcast, folded in order from `octant` to 7.
pub open spec fn spec_fov_octants<O: Opacity>(
    map: &O,
    origin: (i32, i32),
    radius: int,
    octant: int,
    vis: Set<(int, int)>,
) -> Set<(int, int)>
    decreases 8 - octant,
{
    if octant < 0 || octant >= 8 {
        vis
    } else {
        spec_fov_octants(map, origin, radius, octant + 1,
            spec_scan_rows(map, origin, radius, octant as u8, 1,
                Slope { num: 1i32, den: 1i32 }, Slope { num: 0i32, den: 1i32 }, vis))
    }
}

/// The visible set of the shadowcast engine: the origin, plus everything
/// the eight octant scans reach.
pub open spec fn spec_fov<O: Opacity>(map: &O, origin: (i32, i32), radius: int) -> Set<(int, int)> {
    spec_fov_octants(map, origin, radius, 0,
        Set::empty().insert((origin.0 as int, origin.1 as int)))
}

/// One octant scan: processes the given row inside the slope window
/// [end, start], then recurses into the next row, narrowing the window at
/// blockers.
#[verifier::rlimit(100)]
fn scan_octant<O: Opacity>(
    visible: &mut Vec<(i32, i32)>,
    origin: (i32, i32),
    radius: i32,
    row: i32,
    start: Slope,
    end: Slope,
    octant: u8,
    map: &O,
)
    requires
        1 <= row <= radius + 1,
        0 <= radius <= 10_000,
        -100_000 <= origin.0 <= 100_000,
        -100_000 <= origin.1 <= 100_000,
        spec_slope_wf(start),
        spec_slope_wf(end),
    ensures
        forall|x: int, y: int| #![trigger spec_sees(old(visible)@, x, y)]
            spec_sees(old(visible)@, x, y) ==> spec_sees(final(visible)@, x, y),
        forall|x: int, y: int| #![trigger spec_sees(final(visible)@, x, y)]
            spec_sees(final(visible)@, x, y)
                ==> spec_sees(old(visible)@, x, y)
                    || (x - origin.0) * (x - origin.0) + (y - origin.1) * (y - origin.1)
                        <= radius * radius,
        old(visible)@.no_duplicates() ==> final(visible)@.no_duplicates(),
        (row == 1 && row <= radius && start == (Slope { num: 1i32, den: 1i32 })
            && end == (Slope { num: 0i32, den: 1i32 }))
            ==> spec_sees(final(visible)@, spec_cell(origin, octant, 0, 1).0,
                spec_cell(origin, octant, 0, 1).1),
        spec_seen(final(visible)@) == spec_scan_rows(map, origin, radius as int, octant,
            row as int, start, end, spec_seen(old(visible)@)),
    decreases radius + 1 - row,
{
    if slope_lt(start, end) {
        proof {
            if start == (Slope { num: 1i32, den: 1i32 })
                && end == (Slope { num: 0i32, den: 1i32 }) {
                assert(spec_slope_lt(start, end));
                assert(1i32 * 1i32 < 0i32 * 1i32) by (nonlinear_arith)
                    requires
                        spec_slope_lt(Slope { num: 1i32, den: 1i32 },
                            Slope { num: 0i32, den: 1i32 }),
                ;
            }
            assert(spec_scan_rows(map, origin, radius as int, octant, row as int, start, end,
                spec_seen(old(visible)@)) == spec_seen(visible@));
        }
        return;
    }
    if row > radius {
        proof {
            assert(spec_scan_rows(map, origin, radius as int, octant, row as int, start, end,
                spec_seen(old(visible)@)) == spec_seen(visible@));
        }
        return;
    }

    let ghost ahead = row == 1 && start == (Slope { num: 1i32, den: 1i32 })
        && end == (Slope { num: 0i32, den: 1i32 });
    let ghost target = spec_cell(origin, octant, 0, 1);
    let ghost entry_st = ScanState {
        vis: spec_seen(old(visible)@),
        cur_start: start,
        next_start: start,
        blocked: false,
    };
    let mut cur_start = start;
    let mut next_start = start;
    let mut blocked = false;
    let mut cut = false;
    let mut dx: i32 = -row;
    while dx <= 0 && !cut
        invariant
            1 <= row <= radius,
            0 <= radius <= 10_000,
            -100_000 <= origin.0 <= 100_000,
            -100_000 <= origin.1 <= 100_000,
            -row <= dx <= 1,
            spec_slope_wf(cur_start),
            spec_slope_wf(next_start),
            spec_slope_wf(start),
            spec_slope_wf(end),
            ahead == (row == 1 && start == (Slope { num: 1i32, den: 1i32 })
                && end == (Slope { num: 0i32, den: 1i32 })),
            target == spec_cell(origin, octant, 0, 1),
            ahead ==> spec_at_least_ahead(cur_start) && spec_at_least_ahead(next_start),
            ahead ==> !cut,
            ahead && dx > 0 ==> spec_sees(visible@, target.0, target.1),
            entry_st == (ScanState {
                vis: spec_seen(old(visible)@),
                cur_start: start,
                next_start: start,
                blocked: false,
            }),
            spec_scan_cells(map, origin, radius as int, octant, row as int, end, entry_st,
                -(row as int))
                == spec_scan_cells(map, origin, radius as int, octant, row as int, end,
                    ScanState {
                        vis: spec_seen(visible@),
                        cur_start: cur_start,
                        next_start: next_start,
                        blocked: blocked,
                    }, dx as int),
            cut ==> dx <= 0
                && !spec_slope_lt(cur_start, spec_right_slope(dx as int, row as int))
                && spec_slope_lt(spec_left_slope(dx as int, row as int), end),
            forall|x: int, y: int| #![trigger spec_sees(old(visible)@, x, y)]
                spec_sees(old(visible)@, x, y) ==> spec_sees(visible@, x, y),
            forall|x: int, y: int| #![trigger spec_sees(visible@, x, y)]
                spec_sees(visible@, x, y)
                    ==> spec_sees(old(visible)@, x, y)
                        || (x - origin.0) * (x - origin.0) + (y - origin.1) * (y - origin.1)
                            <= radius * radius,
            old(visible)@.no_duplicates() ==> visible@.no_duplicates(),
        decreases 2 - 2 * dx + (if cut { 0int } else { 1int }),
    {
        let ghost v0 = visible@;
        let ghost st_head = ScanState {
            vis: spec_seen(v0),
            cur_start: cur_start,
            next_start: next_start,
            blocked: blocked,
        };
        let left = Slope { num: 1 - 2 * dx, den: 2 * row - 1 };
        let right = Slope { num: -(2 * dx + 1), den: 2 * row + 1 };
        proof {
            assert(spec_slope_wf(left));
            assert(spec_slope_wf(right));
            assert(left == spec_left_slope(dx as int, row as int));
            assert(right == spec_right_slope(dx as int, row as int));
            if ahead {
                assert(right.num * 3 >= -right.den);
            }
        }

        if slope_lt(cur_start, right) {
            // cell is entirely right of the window
            proof {
                if ahead && dx == 0 {
                    assert(right == (Slope { num: -1i32, den: 3i32 }));
                    assert(cur_start.num * 3 < -1 * cur_start.den) by (nonlinear_arith)
                        requires
                            spec_slope_lt(cur_start, Slope { num: -1i32, den: 3i32 }),
                    ;
                    assert(false);
                }
            }
            proof {
                // the skipped cell leaves the scan state untouched
                assert(spec_scan_cells(map, origin, radius as int, octant, row as int, end,
                    st_head, dx as int)
                    == spec_scan_cells(map, origin, radius as int, octant, row as int, end,
                        st_head, dx + 1));
            }
            dx += 1;
            continue;
        }
        if slope_lt(left, end) {
            // cell is entirely left of the window: the rest of the row too
            proof {
                if ahead {
                    assert(spec_slope_lt(left, Slope { num: 0i32, den: 1i32 }));
                    assert(left.num < 0) by (nonlinear_arith)
                        requires
                            spec_slope_lt(left, Slope { num: 0i32, den: 1i32 }),
                            left.den >= 1,
                    ;
                    assert(false);
                }
            }
            cut = true;
        } else {
            proof {
                assert(0 <= dx * dx <= 100_000_000) by (nonlinear_arith)
                    requires
                        -10_000 <= dx <= 10_000,
                ;
                assert(1 <= row * row <= 100_000_000) by (nonlinear_arith)
                    requires
                        1 <= row <= 10_000,
                ;
                assert(0 <= radius * radius <= 100_000_000) by (nonlinear_arith)
                    requires
                        0 <= radius <= 10_000,
                ;
                assert(radius * radius >= 1) by (nonlinear_arith)
                    requires
                        1 <= radius,
                ;
                lemma_transform_dist(octant, dx as int, -row as int);
                assert((-row as int) * (-row as int) == (row as int) * (row as int))
                    by (nonlinear_arith);
            }
            let t = transform_octant(octant, dx, -row);
            proof {
                let tt = spec_transform(octant, dx as int, -row as int);
                assert(tt.0 == dx || tt.0 == -dx || tt.0 == -row || tt.0 == row);
                assert(tt.1 == dx || tt.1 == -dx || tt.1 == -row || tt.1 == row);
            }
            let ax = origin.0 + t.0;
            let ay = origin.1 + t.1;

            let dist_sq = dx * dx + row * row;
            let ghost mid = visible@;
            if dist_sq <= radius * radius {
                insert_unique(visible, (ax, ay));
                proof {
                    let tt = spec_transform(octant, dx as int, -row as int);
                    assert((ax - origin.0) as int == tt.0 && (ay - origin.1) as int == tt.1);
                    assert((ax - origin.0) * (ax - origin.0) + (ay - origin.1) * (ay - origin.1)
                        == dx * dx + row * row) by (nonlinear_arith)
                        requires
                            (ax - origin.0) as int == tt.0,
                            (ay - origin.1) as int == tt.1,
                            tt.0 * tt.0 + tt.1 * tt.1 == (dx as int) * (dx as int)
                                + (row as int) * (row as int),
                    ;
                    if ahead && dx == 0 {
                        assert((ax as int, ay as int) == target);
                        assert(spec_sees(visible@, target.0, target.1));
                    }
                }
            } else {
                proof {
                    if ahead && dx == 0 {
                        assert(dx * dx + row * row == 1) by (nonlinear_arith)
                            requires
                                dx == 0,
                                row == 1,
                        ;
                        assert(false);
                    }
                }
            }
            let ghost v1 = visible@;
            let ghost cell = spec_cell(origin, octant, dx as int, row as int);
            let ghost vis1 = if dx * dx + row * row <= radius * radius {
                st_head.vis.insert(cell)
            } else {
                st_head.vis
            };
            proof {
                assert forall|x: int, y: int| #![trigger spec_sees(v0, x, y)]
                    spec_sees(v0, x, y) implies spec_sees(v1, x, y) by {
                    assert(spec_sees(mid, x, y));
                }
                assert forall|x: int, y: int| #![trigger spec_sees(v1, x, y)]
                    spec_sees(v1, x, y) implies spec_sees(v0, x, y)
                        || (x - origin.0) * (x - origin.0) + (y - origin.1) * (y - origin.1)
                            <= radius * radius by {
                }
                // the listed cells now match the model's visible set
                assert((ax as int, ay as int) == cell);
                assert(spec_seen(v1) =~= vis1) by {
                    assert forall|p: (int, int)| spec_seen(v1).contains(p)
                        implies vis1.contains(p) by {
                        assert(spec_sees(v1, p.0, p.1));
                    }
                    assert forall|p: (int, int)| vis1.contains(p)
                        implies spec_seen(v1).contains(p) by {
                        if p != cell {
                            assert(spec_sees(v0, p.0, p.1));
                        }
                    }
                }
            }

            let blocks_here = map.blocks(ax, ay);
            if blocked {
                if blocks_here {
                    next_start = right;
                } else {
                    blocked = false;
                    cur_start = next_start;
                }
            } else {
                if blocks_here && row < radius {
                    blocked = true;
                    scan_octant(visible, origin, radius, row + 1, cur_start, left, octant, map);
                    proof {
                        assert forall|x: int, y: int| #![trigger spec_sees(v0, x, y)]
                            spec_sees(v0, x, y) implies spec_sees(visible@, x, y) by {
                            assert(spec_sees(v1, x, y));
                        }
                        if ahead && dx == 0 {
                            assert(spec_sees(v1, target.0, target.1));
                            assert(spec_sees(visible@, target.0, target.1));
                        }
                    }
                    next_start = right;
                }
            }
            proof {
                // one cell of the model: the state after this cell is the
                // model's step from the state before it
                assert(blocks_here == map.blocks_spec(cell.0, cell.1));
                let st1 = if st_head.blocked {
                    if map.blocks_spec(cell.0, cell.1) {
                        ScanState {
                            vis: vis1,
                            cur_start: st_head.cur_start,
                            next_start: spec_right_slope(dx as int, row as int),
                            blocked: true,
                        }
                    } else {
                        ScanState {
                            vis: vis1,
                            cur_start: st_head.next_start,
                            next_start: st_head.next_start,
                            blocked: false,
                        }
                    }
                } else {
                    if map.blocks_spec(cell.0, cell.1) && row < radius {
                        ScanState {
                            vis: spec_scan_rows(map, origin, radius as int, octant, row + 1,
                                st_head.cur_start, spec_left_slope(dx as int, row as int), vis1),
                            cur_start: st_head.cur_start,
                            next_start: spec_right_slope(dx as int, row as int),
                            blocked: true,
                        }
                    } else {
                        ScanState {
                            vis: vis1,
                            cur_start: st_head.cur_start,
                            next_start: st_head.next_start,
                            blocked: st_head.blocked,
                        }
                    }
                };
                let now = ScanState {
                    vis: spec_seen(visible@),
                    cur_start: cur_start,
                    next_start: next_start,
                    blocked: blocked,
                };
                if !st_head.blocked && map.blocks_spec(cell.0, cell.1) && row < radius {
                    assert(spec_seen(visible@) == spec_scan_rows(map, origin, radius as int,
                        octant, row + 1, st_head.cur_start,
                        spec_left_slope(dx as int, row as int), spec_seen(v1)));
                    assert(spec_seen(v1) == vis1);
                    assert(now =~= st1);
                } else {
                    assert(spec_seen(visible@) == spec_seen(v1));
                    assert(now =~= st1);
                }
                assert(spec_scan_cells(map, origin, radius as int, octant, row as int, end,
                    st_head, dx as int)
                    == spec_scan_cells(map, origin, radius as int, octant, row as int, end,
                        st1, dx + 1));
                assert(now == st1);
            }
            dx += 1;
        }
    }

    proof {
        let final_st = ScanState {
            vis: spec_seen(visible@),
            cur_start: cur_start,
            next_start: next_start,
            blocked: blocked,
        };
        // at loop exit the model's row scan has nothing left to do
        assert(spec_scan_cells(map, origin, radius as int, octant, row as int, end, final_st,
            dx as int) == final_st);
        assert(spec_scan_cells(map, origin, radius as int, octant, row as int, end, entry_st,
            -(row as int)) == final_st);
    }
    if !blocked {
        let ghost snap2 = visible@;
        scan_octant(visible, origin, radius, row + 1, cur_start, end, octant, map);
        proof {
            if ahead {
                assert(!cut && dx > 0);
                assert(spec_sees(snap2, target.0, target.1));
                assert(spec_sees(visible@, target.0, target.1));
            }
            assert(spec_seen(visible@) == spec_scan_rows(map, origin, radius as int, octant,
                row as int, start, end, spec_seen(old(visible)@)));
        }
    } else {
        proof {
            assert(spec_seen(visible@) == spec_scan_rows(map, origin, radius as int, octant,
                row as int, start, end, spec_seen(old(visible)@)));
        }
    }
}

/// Calculate the set of visible cells from `origin` out to `radius`, by
/// recursive shadowcasting over 8 octants. The origin is always visible;
/// every other listed cell lies within `radius` (by squared distance); and
/// whenever the radius is at least 1 the four axis-adjacent cells are
/// visible. No cell is listed twice.
#[verifier::rlimit(100)]
pub fn calculate_fov<O: Opacity>(origin: (i32, i32), radius: u32, map: &O)
    -> (visible: Vec<(i32, i32)>)
    requires
        radius <= 10_000,
        -100_000 <= origin.0 <= 100_000,
        -100_000 <= origin.1 <= 100_000,
    ensures
        spec_sees(visible@, origin.0 as int, origin.1 as int),
        forall|x: int, y: int| #![trigger spec_sees(visible@, x, y)]
            spec_sees(visible@, x, y)
                ==> (x - origin.0) * (x - origin.0) + (y - origin.1) * (y - origin.1)
                    <= (radius as int) * (radius as int),
        visible@.no_duplicates(),
        radius >= 1 ==> spec_sees(visible@, origin.0 + 1, origin.1 as int),
        radius >= 1 ==> spec_sees(visible@, origin.0 - 1, origin.1 as int),
        radius >= 1 ==> spec_sees(visible@, origin.0 as int, origin.1 + 1),
        radius >= 1 ==> spec_sees(visible@, origin.0 as int, origin.1 - 1),
        spec_seen(visible@) == spec_fov(map, origin, radius as int),
{
    let mut visible: Vec<(i32, i32)> = Vec::new();
    insert_unique(&mut visible, origin);
    proof {
        assert(spec_seen(visible@)
            =~= Set::empty().insert((origin.0 as int, origin.1 as int))) by {
            assert forall|p: (int, int)| spec_seen(visible@).contains(p)
                implies Set::empty().insert((origin.0 as int, origin.1 as int)).contains(p) by {
                assert(spec_sees(visible@, p.0, p.1));
            }
            assert forall|p: (int, int)|
                Set::empty().insert((origin.0 as int, origin.1 as int)).contains(p)
                implies spec_seen(visible@).contains(p) by {
                assert(spec_sees(visible@, origin.0 as int, origin.1 as int));
            }
        }
    }

    let r = radius as i32;
    let start = Slope { num: 1, den: 1 };
    let end = Slope { num: 0, den: 1 };
    let mut octant: u8 = 0;
    while octant < 8
        invariant
            0 <= radius <= 10_000,
            r == radius as int,
            -100_000 <= origin.0 <= 100_000,
            -100_000 <= origin.1 <= 100_000,
            start == (Slope { num: 1, den: 1 }),
            end == (Slope { num: 0, den: 1 }),
            0 <= octant <= 8,
            spec_sees(visible@, origin.0 as int, origin.1 as int),
            visible@.no_duplicates(),
            forall|x: int, y: int| #![trigger spec_sees(visible@, x, y)]
                spec_sees(visible@, x, y)
                    ==> (x == origin.0 as int && y == origin.1 as int)
                        || (x - origin.0) * (x - origin.0) + (y - origin.1) * (y - origin.1)
                            <= r * r,
            forall|oc: u8| 0 <= oc < octant && radius >= 1
                ==> spec_sees(visible@, spec_cell(origin, oc, 0, 1).0,
                    #[trigger] spec_cell(origin, oc, 0, 1).1),
            spec_fov(map, origin, radius as int)
                == spec_fov_octants(map, origin, radius as int, octant as int,
                    spec_seen(visible@)),
        decreases 8 - octant,
    {
        let ghost seen0 = spec_seen(visible@);
        scan_octant(&mut visible, origin, r, 1, start, end, octant, map);
        proof {
            assert forall|oc: u8| 0 <= oc < octant + 1 && radius >= 1
                implies spec_sees(visible@, spec_cell(origin, oc, 0, 1).0,
                    #[trigger] spec_cell(origin, oc, 0, 1).1) by {
            }
            // one octant of the model folded away
            assert(spec_seen(visible@) == spec_scan_rows(map, origin, radius as int, octant,
                1, Slope { num: 1i32, den: 1i32 }, Slope { num: 0i32, den: 1i32 }, seen0));
            assert(spec_fov_octants(map, origin, radius as int, octant as int, seen0)
                == spec_fov_octants(map, origin, radius as int, octant as int + 1,
                    spec_seen(visible@)));
        }
        octant += 1;
    }
    proof {
        assert(origin.0 as int * 0 == 0);
        if radius >= 1 {
            assert(spec_sees(visible@, spec_cell(origin, 0, 0, 1).0,
                spec_cell(origin, 0, 0, 1).1));
            assert(spec_sees(visible@, spec_cell(origin, 2, 0, 1).0,
                spec_cell(origin, 2, 0, 1).1));
            assert(spec_sees(visible@, spec_cell(origin, 4, 0, 1).0,
                spec_cell(origin, 4, 0, 1).1));
            assert(spec_sees(visible@, spec_cell(origin, 6, 0, 1).0,
                spec_cell(origin, 6, 0, 1).1));
            assert(spec_cell(origin, 0, 0, 1) == (origin.0 as int, origin.1 - 1));
            assert(spec_cell(origin, 2, 0, 1) == (origin.0 - 1, origin.1 as int));
            assert(spec_cell(origin, 4, 0, 1) == (origin.0 as int, origin.1 + 1));
            assert(spec_cell(origin, 6, 0, 1) == (origin.0 + 1, origin.1 as int));
        }
        assert(spec_fov_octants(map, origin, radius as int, 8, spec_seen(visible@))
            == spec_seen(visible@));
        assert forall|x: int, y: int| spec_sees(visible@, x, y)
            implies (x - origin.0) * (x - origin.0) + (y - origin.1) * (y - origin.1)
                <= (radius as int) * (radius as int) by {
            if x == origin.0 as int && y == origin.1 as int {
                assert((x - origin.0) * (x - origin.0) == 0) by (nonlinear_arith)
                    requires
                        x == origin.0 as int,
                ;
                assert((y - origin.1) * (y - origin.1) == 0) by (nonlinear_arith)
                    requires
                        y == origin.1 as int,
                ;
                assert((radius as int) * (radius as int) >= 0) by (nonlinear_arith);
            }
        }
    }
    visible
}

/// A cell farther than the radius along one axis lies outside the
/// squared-distance bound, and so outside any computed visible set.
pub proof fn lemma_beyond_radius_excluded(dx: int, dy: int, r: int)
    requires
        r >= 0,
        dx > r || dx < -r || dy > r || dy < -r,
    ensures
        dx * dx + dy * dy > r * r,
{
    assert(dx * dx + dy * dy > r * r) by (nonlinear_arith)
        requires
            r >= 0,
            dx > r || dx < -r || dy > r || dy < -r,
    ;
}

/// `s` is the integer ceiling of the square root of `d2`.
pub open spec fn spec_is_ceil_sqrt(s: int, d2: int) -> bool {
    0 <= s && d2 <= s * s && (s == 0 || (s - 1) * (s - 1) < d2)
}

/// `a / b` rounded to the nearest integer (half rounds up); `b` positive.
pub open spec fn spec_round_div(a: int, b: int) -> int {
    (2 * a + b) / (2 * b)
}

/// The x coordinate of the ray point at `step` of `steps` between origin
/// and target.
pub open spec fn spec_ray_x(o: (i32, i32), t: (i32, i32), step: int, steps: int) -> int {
    spec_round_div(o.0 * steps + (t.0 - o.0) * step, steps)
}

/// The y coordinate of the ray point at `step` of `steps` between origin
/// and target.
pub open spec fn spec_ray_y(o: (i32, i32), t: (i32, i32), step: int, steps: int) -> int {
    spec_round_div(o.1 * steps + (t.1 - o.1) * step, steps)
}

/// No interior point of the ray from `o` to `t`, sampled at `steps` evenly
/// spaced points, is blocked.
pub open spec fn spec_ray_clear<O: Opacity>(o: (i32, i32), t: (i32, i32), steps: int, map: &O) -> bool {
    forall|st: int| 1 <= st < steps
        ==> !map.blocks_spec(#[trigger] spec_ray_x(o, t, st, steps), spec_ray_y(o, t, st, steps))
}

fn ray_coord(o: i32, delta: i64, step: i64, steps: i64) -> (c: i32)
    requires
        -100_000 <= o <= 100_000,
        -200_000 <= delta <= 200_000,
        1 <= steps <= 300_000,
        0 <= step <= steps,
    ensures
        c as int == spec_round_div(o as int * steps as int + delta as int * step as int, steps as int),
        -300_001 <= c <= 300_001,
{
    let m: i64 = 1_000_000;
    proof {
        assert((o as int + m) * steps + delta * step >= 700_000 * steps) by (nonlinear_arith)
            requires
                o as int + m >= 900_000,
                -200_000 <= delta <= 200_000,
                1 <= steps <= 300_000,
                0 <= step <= steps,
        ;
        assert((o as int + m) * steps + delta * step <= 1_300_000 * steps) by (nonlinear_arith)
            requires
                o as int + m <= 1_100_000,
                -200_000 <= delta <= 200_000,
                1 <= steps <= 300_000,
                0 <= step <= steps,
        ;
        assert(1_300_000 * steps <= 390_000_000_000) by (nonlinear_arith)
            requires
                1 <= steps <= 300_000,
        ;
        assert(700_000 * steps >= 700_000) by (nonlinear_arith)
            requires
                1 <= steps,
        ;
    }
    proof {
        assert(900_000 * steps <= (o as int + m) * steps <= 1_100_000 * steps) by (nonlinear_arith)
            requires
                900_000 <= o as int + m <= 1_100_000,
                1 <= steps,
        ;
        assert(1_100_000 * steps <= 330_000_000_000) by (nonlinear_arith)
            requires
                steps <= 300_000,
        ;
        assert(-60_000_000_000 <= delta * step <= 60_000_000_000) by (nonlinear_arith)
            requires
                -200_000 <= delta <= 200_000,
                0 <= step <= 300_000,
        ;
    }
    let a: i64 = (o as i64 + m) * steps + delta * step;
    let au: u64 = (2 * a + steps) as u64;
    let du: u64 = (2 * steps) as u64;
    let qu: u64 = au / du;
    let q: i64 = qu as i64;
    proof {
        let base: int = o as int * steps as int + delta as int * step as int;
        assert(2 * a + steps == (2 * base + steps) + m * (2 * steps)) by (nonlinear_arith)
            requires
                a == (o as int + m) * steps + delta * step,
                base == o as int * steps as int + delta as int * step as int,
        ;
        vstd::arithmetic::div_mod::lemma_hoist_over_denominator(
            2 * base + steps, m as int, (2 * steps) as nat);
        assert(q == (2 * base + steps) / (2 * steps) + m);
        // the quotient stays within the coordinate band
        assert(au <= 2_600_001 * steps) by (nonlinear_arith)
            requires
                au == 2 * ((o as int + m) * steps + delta * step) + steps,
                900_000 <= o as int + m <= 1_100_000,
                -200_000 <= delta <= 200_000,
                0 <= step <= steps,
                1 <= steps,
        ;
        assert(au >= 2 * 700_000 * steps) by (nonlinear_arith)
            requires
                au == 2 * ((o as int + m) * steps + delta * step) + steps,
                900_000 <= o as int + m <= 1_100_000,
                -200_000 <= delta <= 200_000,
                0 <= step <= steps,
                1 <= steps,
        ;
        assert((2_600_001 * steps) / (2 * steps) <= 1_300_001) by (nonlinear_arith)
            requires
                1 <= steps,
        ;
        assert((1_400_000 * steps) / (2 * steps) >= 699_999) by (nonlinear_arith)
            requires
                1 <= steps,
        ;
        vstd::arithmetic::div_mod::lemma_div_is_ordered(
            au as int, 2_600_001 * steps, 2 * steps);
        vstd::arithmetic::div_mod::lemma_div_is_ordered(
            1_400_000 * steps, au as int, 2 * steps);
    }
    (q - m) as i32
}

/// Check if `target` is visible from `origin` by walking a straight ray
/// between them and testing each intermediate sample for blocking. The
/// ray takes one sample per unit of euclidean distance (rounded up); a
/// target at or next to the origin is always visible.
pub fn is_visible<O: Opacity>(origin: (i32, i32), target: (i32, i32), map: &O) -> (r: bool)
    requires
        -100_000 <= origin.0 <= 100_000,
        -100_000 <= origin.1 <= 100_000,
        -100_000 <= target.0 <= 100_000,
        -100_000 <= target.1 <= 100_000,
    ensures
        ({
            let d2 = (target.0 - origin.0) * (target.0 - origin.0)
                + (target.1 - origin.1) * (target.1 - origin.1);
            exists|steps: int| #[trigger] spec_is_ceil_sqrt(steps, d2)
                && r == spec_ray_clear(origin, target, steps, map)
        }),
        origin == target ==> r,
{
    let dx: i64 = target.0 as i64 - origin.0 as i64;
    let dy: i64 = target.1 as i64 - origin.1 as i64;
    proof {
        assert(0 <= dx * dx <= 40_000_000_000) by (nonlinear_arith)
            requires
                -200_000 <= dx <= 200_000,
        ;
        assert(0 <= dy * dy <= 40_000_000_000) by (nonlinear_arith)
            requires
                -200_000 <= dy <= 200_000,
        ;
    }
    let d2: i64 = dx * dx + dy * dy;
    let ghost d2i = (target.0 - origin.0) * (target.0 - origin.0)
        + (target.1 - origin.1) * (target.1 - origin.1);
    proof {
        assert(dx * dx == (target.0 - origin.0) * (target.0 - origin.0)) by (nonlinear_arith)
            requires
                dx == target.0 - origin.0,
        ;
        assert(dy * dy == (target.1 - origin.1) * (target.1 - origin.1)) by (nonlinear_arith)
            requires
                dy == target.1 - origin.1,
        ;
    }

    // integer ceiling square root, tracking the square incrementally
    let mut steps: i64 = 0;
    let mut sq: i64 = 0;
    while sq < d2
        invariant
            0 <= steps <= 300_000,
            sq == steps * steps,
            steps == 0 || (steps - 1) * (steps - 1) < d2,
            d2 <= 80_000_000_000,
            0 <= d2,
        decreases d2 - steps,
    {
        proof {
            assert(steps < 300_000) by (nonlinear_arith)
                requires
                    steps * steps < d2,
                    sq == steps * steps,
                    sq < d2,
                    d2 <= 80_000_000_000,
                    0 <= steps,
            ;
            assert(steps < d2) by (nonlinear_arith)
                requires
                    sq == steps * steps,
                    sq < d2,
                    0 <= steps,
            ;
            assert((steps + 1) * (steps + 1) == steps * steps + 2 * steps + 1)
                by (nonlinear_arith);
        }
        sq = sq + 2 * steps + 1;
        steps += 1;
    }
    proof {
        assert(spec_is_ceil_sqrt(steps as int, d2i));
    }

    let mut st: i64 = 1;
    while st < steps
        invariant
            1 <= st,
            steps <= 300_000,
            st <= (if steps >= 1 { steps } else { 1i64 }),
            -100_000 <= origin.0 <= 100_000,
            -100_000 <= origin.1 <= 100_000,
            -200_000 <= dx <= 200_000,
            -200_000 <= dy <= 200_000,
            dx == target.0 - origin.0,
            dy == target.1 - origin.1,
            spec_is_ceil_sqrt(steps as int, d2i),
            d2i == (target.0 - origin.0) * (target.0 - origin.0)
                + (target.1 - origin.1) * (target.1 - origin.1),
            forall|s0: int| 1 <= s0 < st
                ==> !map.blocks_spec(#[trigger] spec_ray_x(origin, target, s0, steps as int),
                    spec_ray_y(origin, target, s0, steps as int)),
        decreases steps - st,
    {
        let xi = ray_coord(origin.0, dx, st, steps);
        let yi = ray_coord(origin.1, dy, st, steps);
        proof {
            assert(origin.0 as int * steps as int + dx as int * st as int
                == origin.0 * (steps as int) + (target.0 - origin.0) * (st as int))
                by (nonlinear_arith)
                requires
                    dx == target.0 - origin.0,
            ;
            assert(origin.1 as int * steps as int + dy as int * st as int
                == origin.1 * (steps as int) + (target.1 - origin.1) * (st as int))
                by (nonlinear_arith)
                requires
                    dy == target.1 - origin.1,
            ;
            assert(xi as int == spec_ray_x(origin, target, st as int, steps as int));
            assert(yi as int == spec_ray_y(origin, target, st as int, steps as int));
        }
        if map.blocks(xi, yi) {
            proof {
                assert(map.blocks_spec(spec_ray_x(origin, target, st as int, steps as int),
                    spec_ray_y(origin, target, st as int, steps as int)));
                assert(!spec_ray_clear(origin, target, steps as int, map));
                assert(spec_is_ceil_sqrt(steps as int, d2i));
                if origin == target {
                    assert(dx == 0 && dy == 0);
                    assert(d2i == 0) by (nonlinear_arith)
                        requires
                            d2i == (target.0 - origin.0) * (target.0 - origin.0)
                                + (target.1 - origin.1) * (target.1 - origin.1),
                            target.0 == origin.0,
                            target.1 == origin.1,
                    ;
                    assert((steps - 1) * (steps - 1) >= 1) by (nonlinear_arith)
                        requires
                            steps >= 2,
                    ;
                    assert(false);
                }
            }
            return false;
        }
        st += 1;
    }
    proof {
        assert(spec_ray_clear(origin, target, steps as int, map));
        assert(spec_is_ceil_sqrt(steps as int, d2i));
    }
    true
}

} // verus!
