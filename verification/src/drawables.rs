//! The standard drawables: lines, rectangles, circles, sprites and video
//! streams. Each one rasterises itself into draws and reports the rows
//! it may cover, so that only those get redrawn.
use crate::cell::{BasicDraw, TerminalChar};
use crate::geometry::{spec_clamp_to_u16, Point, PointU16, PointUsize, RectUsize};
use crate::errors::DrawError;
use crate::sprites::{frames_exist, lemma_selected_frame_exists, SpriteDrawable, SpriteRegistry};
use crate::update_interval::{UpdateInterval, UpdateIntervalType};
use std::collections::HashMap;
use vstd::prelude::*;

verus! {

/// The rows of a row map, each as the sequence of its intervals.
pub open spec fn rows_view(m: Map<u16, Vec<UpdateInterval>>) -> Map<u16, Seq<UpdateInterval>> {
    m.map_values(|v: Vec<UpdateInterval>| v@)
}

/// The intervals held for row `y` (none if the row is absent).
pub open spec fn row_of(m: Map<u16, Seq<UpdateInterval>>, y: u16) -> Seq<UpdateInterval> {
    if m.contains_key(y) {
        m[y]
    } else {
        Seq::empty()
    }
}

/// An `Optimized` interval `[start, end)`.
pub open spec fn opt_iv(start: usize, end: usize) -> UpdateInterval {
    UpdateInterval { interval: (start, end), iv_type: UpdateIntervalType::Optimized }
}

/// Appends an interval to row `y` of a row map.
pub fn push_row_interval(map: &mut HashMap<u16, Vec<UpdateInterval>>, y: u16, iv: UpdateInterval)
    ensures
        rows_view(final(map)@) == rows_view(old(map)@).insert(y, row_of(rows_view(old(map)@), y).push(iv)),
{
    broadcast use vstd::std_specs::hash::group_hash_axioms;

    let ghost before = rows_view(map@);
    let mut v = match map.remove(&y) {
        Some(v) => v,
        None => Vec::new(),
    };
    assert(v@ == row_of(before, y));
    v.push(iv);
    map.insert(y, v);
    assert(rows_view(map@) =~= before.insert(y, row_of(before, y).push(iv)));
}

/// The rows `[y1, y2)` of a rectangle, each holding the one interval
/// `[x1, x2)`; nothing when the columns are empty.
pub open spec fn spec_rect_rows(x1: usize, x2: usize, y1: int, y2: int) -> Map<u16, Seq<UpdateInterval>> {
    Map::new(|y: u16| y1 <= y < y2 && x1 < x2, |y: u16| seq![opt_iv(x1, x2)])
}

/// The row map of the rectangle with columns `[x1, x2)` and rows
/// `[y1, y2)`.
pub fn rect_rows(x1: usize, x2: usize, y1: u32, y2: u32) -> (m: HashMap<u16, Vec<UpdateInterval>>)
    requires
        y2 <= 65536,
    ensures
        rows_view(m@) == spec_rect_rows(x1, x2, y1 as int, y2 as int),
{
    let mut m: HashMap<u16, Vec<UpdateInterval>> = HashMap::new();
    if x1 >= x2 || y1 >= y2 {
        assert(rows_view(m@) =~= spec_rect_rows(x1, x2, y1 as int, y2 as int));
        return m;
    }
    let mut y: u32 = y1;
    assert(rows_view(m@) =~= spec_rect_rows(x1, x2, y1 as int, y1 as int));
    while y < y2
        invariant
            x1 < x2,
            y2 <= 65536,
            y1 <= y <= y2,
            rows_view(m@) == spec_rect_rows(x1, x2, y1 as int, y as int),
        decreases y2 - y,
    {
        let ghost before = rows_view(m@);
        push_row_interval(&mut m, y as u16, UpdateInterval { interval: (x1, x2), iv_type: UpdateIntervalType::Optimized });
        proof {
            assert(row_of(before, y as u16) =~= Seq::<UpdateInterval>::empty());
            assert(rows_view(m@) =~= spec_rect_rows(x1, x2, y1 as int, y + 1));
        }
        y += 1;
    }
    m
}

/// `|a - b|`.
pub open spec fn abs_diff(a: int, b: int) -> int {
    if a >= b {
        a - b
    } else {
        b - a
    }
}

/// The direction (`1` or `-1`) in which a coordinate walks from `a`
/// towards `b`; `-1` when they are equal.
pub open spec fn step_dir(a: int, b: int) -> int {
    if a < b {
        1
    } else {
        -1
    }
}

/// The cell `q` lies near the straight line from `p1` to `p2`: with `a`
/// and `b` its column and row distances from `p1` and `w`, `h` the spans of
/// the line, the cross term `b * w - a * h` (zero exactly on the ideal
/// line) stays within `[-(2w + h) / 2, (w + 2h) / 2]`.
pub open spec fn near_line(p1: Point, p2: Point, q: Point) -> bool {
    let w = abs_diff(p1.x as int, p2.x as int);
    let h = abs_diff(p1.y as int, p2.y as int);
    let a = abs_diff(p1.x as int, q.x as int);
    let b = abs_diff(p1.y as int, q.y as int);
    -(2 * w + h) <= 2 * (b * w - a * h) <= w + 2 * h
}

/// One step of a line walk: each coordinate stays or moves one cell in
/// its direction, and the point moves.
pub open spec fn line_step(p: Point, q: Point, sx: int, sy: int) -> bool {
    &&& (q.x - p.x == 0 || q.x - p.x == sx)
    &&& (q.y - p.y == 0 || q.y - p.y == sy)
    &&& q != p
}


/// `x + 1`, saturating at `u16::MAX`.
pub open spec fn sat_inc_u16(x: u16) -> u16 {
    if x == 65535 {
        65535
    } else {
        (x + 1) as u16
    }
}

/// `x + 1`, saturating at `usize::MAX`.
pub open spec fn sat_inc_usize(x: usize) -> usize {
    if x == usize::MAX {
        usize::MAX
    } else {
        (x + 1) as usize
    }
}

/// The draws of a sequence of optional draws, in order.
pub open spec fn somes(s: Seq<Option<BasicDraw>>) -> Seq<BasicDraw>
    decreases s.len(),
{
    if s.len() == 0 {
        Seq::empty()
    } else {
        let r = somes(s.drop_last());
        match s.last() {
            Some(d) => r.push(d),
            None => r,
        }
    }
}

pub proof fn lemma_somes_push(s: Seq<Option<BasicDraw>>, x: Option<BasicDraw>)
    ensures
        somes(s.push(x)) == (match x {
            Some(d) => somes(s).push(d),
            None => somes(s),
        }),
{
    assert(s.push(x).drop_last() =~= s);
}

/// Cell `k` of a grid of rows of `wc` cells is at column `k % wc` and row
/// `k / wc`.
proof fn lemma_grid_index(row: int, col: int, wc: int)
    requires
        0 <= row,
        0 <= col < wc,
    ensures
        (row * wc + col) % wc == col,
        (row * wc + col) / wc == row,
        row * wc + col + 1 <= (row + 1) * wc,
{
    vstd::arithmetic::div_mod::lemma_fundamental_div_mod_converse(row * wc + col, wc, row, col);
    assert((row + 1) * wc == row * wc + wc) by (nonlinear_arith);
}

pub open spec fn min4(a: int, b: int, c: int, d: int) -> int {
    let ab = if a <= b { a } else { b };
    let cd = if c <= d { c } else { d };
    if ab <= cd { ab } else { cd }
}

/// A rectangle with a border of some thickness and an optional fill.
#[derive(Clone, Copy, Debug)]
pub struct RectDrawable {
    pub rect: RectUsize,
    pub border_thickness: usize,
    pub border_style: TerminalChar,
    pub fill_style: Option<TerminalChar>,
}

impl RectDrawable {
    pub open spec fn cols(self) -> int {
        self.rect.p2.x - self.rect.p1.x + 1
    }

    pub open spec fn rows(self) -> int {
        self.rect.p2.y - self.rect.p1.y + 1
    }

    /// The corners are ordered.
    pub open spec fn ordered(self) -> bool {
        self.rect.p1.x <= self.rect.p2.x && self.rect.p1.y <= self.rect.p2.y
    }

    /// What is drawn at `(x, y)`: the border where the cell is closer than
    /// the thickness to an edge, else the fill (if any). Positions are
    /// truncated to `u16`.
    pub open spec fn cell_at(self, x: int, y: int) -> Option<BasicDraw> {
        let d = min4(x - self.rect.p1.x, self.rect.p2.x - x, y - self.rect.p1.y, self.rect.p2.y - y);
        let pos = Point { x: (x as u16) as i32, y: (y as u16) as i32 };
        if d < self.border_thickness {
            Some(BasicDraw { pos, chr: self.border_style })
        } else {
            match self.fill_style {
                Some(ch) => Some(BasicDraw { pos, chr: ch }),
                None => None,
            }
        }
    }

    /// The cells of the rectangle in row-major order.
    pub open spec fn cells(self) -> Seq<Option<BasicDraw>> {
        Seq::new(
            (self.cols() * self.rows()) as nat,
            |k: int| self.cell_at(self.rect.p1.x + k % self.cols(), self.rect.p1.y + k / self.cols()),
        )
    }

    /// Cell `k` of the rectangle (row by row) lies inside the corners; it
    /// carries the border when it is fewer than `border_thickness` cells
    /// from the left, right, top or bottom edge, else the fill, and is
    /// left out when there is no fill; on the `u16` grid it stands at its
    /// own column and row.
    pub proof fn rect_border_and_fill(self, k: int)
        requires
            self.ordered(),
            0 <= k < self.cols() * self.rows(),
        ensures
            ({
                let x = self.rect.p1.x + k % self.cols();
                let y = self.rect.p1.y + k / self.cols();
                let t = self.border_thickness as int;
                let near_edge = x - self.rect.p1.x < t || self.rect.p2.x - x < t || y - self.rect.p1.y < t
                    || self.rect.p2.y - y < t;
                &&& self.rect.p1.x <= x <= self.rect.p2.x
                &&& self.rect.p1.y <= y <= self.rect.p2.y
                &&& near_edge ==> (self.cells()[k] matches Some(d) && d.chr == self.border_style)
                &&& !near_edge ==> (self.fill_style matches Some(f) ==> (self.cells()[k] matches Some(d) && d.chr
                    == f))
                &&& !near_edge ==> (self.fill_style is None ==> self.cells()[k] is None)
                &&& (self.rect.p2.x <= 65535 && self.rect.p2.y <= 65535) ==> (self.cells()[k] matches Some(d)
                    ==> d.pos.x == x && d.pos.y == y)
            }),
    {
        let c = self.cols();
        let r = self.rows();
        assert(0 <= k / c < r) by (nonlinear_arith)
            requires
                0 <= k < c * r,
                c >= 1,
        ;
        assert(0 <= k % c < c) by (nonlinear_arith)
            requires
                c >= 1,
        ;
    }

    /// The draws of the rectangle, row by row (see `cell_at`); nothing
    /// when the corners are out of order.
    pub fn draw(&self) -> (out: Vec<BasicDraw>)
        requires
            self.ordered() ==> self.cols() * self.rows() <= usize::MAX,
        ensures
            !self.ordered() ==> out@.len() == 0,
            self.ordered() ==> out@ == somes(self.cells()),
    {
        let r = self.rect;
        if r.p1.x > r.p2.x || r.p1.y > r.p2.y {
            return Vec::new();
        }
        let ghost wci = self.cols();
        let ghost hci = self.rows();
        assert(wci * hci >= wci) by (nonlinear_arith)
            requires
                hci >= 1,
                wci >= 1,
        ;
        assert(wci * hci >= hci) by (nonlinear_arith)
            requires
                hci >= 1,
                wci >= 1,
        ;
        let wc: usize = r.p2.x - r.p1.x + 1;
        let hc: usize = r.p2.y - r.p1.y + 1;
        let ghost cells = self.cells();
        let mut out: Vec<BasicDraw> = Vec::new();
        let mut row: usize = 0;
        assert(cells.take(0) =~= Seq::<Option<BasicDraw>>::empty());
        while row < hc
            invariant
                wc == wci,
                hc == hci,
                wc == r.p2.x - r.p1.x + 1,
                hc == r.p2.y - r.p1.y + 1,
                wc >= 1,
                wci * hci <= usize::MAX,
                cells == self.cells(),
                r == self.rect,
                self.ordered(),
                0 <= row <= hc,
                row * wc <= wci * hci,
                out@ == somes(cells.take(row * wc)),
            decreases hc - row,
        {
            let y = r.p1.y + row;
            assert((row + 1) * wc <= wci * hci) by (nonlinear_arith)
                requires
                    row + 1 <= hc,
                    hc == hci,
                    wc == wci,
                    wc >= 1,
            ;
            let mut col: usize = 0;
            while col < wc
                invariant
                    wc == wci,
                    hc == hci,
                    wc == r.p2.x - r.p1.x + 1,
                    hc == r.p2.y - r.p1.y + 1,
                    wc >= 1,
                    wci * hci <= usize::MAX,
                    cells == self.cells(),
                    r == self.rect,
                    self.ordered(),
                    0 <= row < hc,
                    y == r.p1.y + row,
                    0 <= col <= wc,
                    row * wc + col <= wci * hci,
                    (row + 1) * wc <= wci * hci,
                    out@ == somes(cells.take(row * wc + col)),
                decreases wc - col,
            {
                let x = r.p1.x + col;
                let left = x - r.p1.x;
                let right = r.p2.x - x;
                let top = y - r.p1.y;
                let bottom = r.p2.y - y;
                let lr = if left <= right { left } else { right };
                let tb = if top <= bottom { top } else { bottom };
                let min_dist = if lr <= tb { lr } else { tb };
                let pos = Point { x: (#[verifier::truncate] (x as u16)) as i32, y: (#[verifier::truncate] (y as u16)) as i32 };
                let cell: Option<BasicDraw> = if min_dist < self.border_thickness {
                    Some(BasicDraw { pos, chr: self.border_style })
                } else {
                    match self.fill_style {
                        Some(ch) => Some(BasicDraw { pos, chr: ch }),
                        None => None,
                    }
                };
                proof {
                    let k = row * wc + col;
                    lemma_grid_index(row as int, col as int, wc as int);
                    assert(cells[k] == self.cell_at(x as int, y as int));
                    assert(cells.take(k + 1) =~= cells.take(k).push(cells[k]));
                    lemma_somes_push(cells.take(k), cells[k]);
                }
                if let Some(d) = cell {
                    out.push(d);
                }
                col += 1;
            }
            proof {
                assert((row + 1) * wc == row * wc + wc) by (nonlinear_arith);
                assert((row + 1) * wc <= wci * hci);
            }
            row += 1;
        }
        proof {
            assert(cells.take(hc * wc) =~= cells) by {
                assert(hc * wc == wci * hci) by (nonlinear_arith)
                    requires
                        hc == hci,
                        wc == wci,
                ;
            }
        }
        out
    }
}

/// `[start, end)` as a one-interval sequence, or nothing if it is empty.
pub open spec fn nonempty_iv(start: usize, end: usize) -> Seq<UpdateInterval> {
    if start < end {
        seq![opt_iv(start, end)]
    } else {
        Seq::empty()
    }
}

/// `m` with the intervals `s` appended to row `k` (unchanged if `s` is
/// empty).
pub open spec fn add_row_ivs(m: Map<u16, Seq<UpdateInterval>>, k: u16, s: Seq<UpdateInterval>) -> Map<
    u16,
    Seq<UpdateInterval>,
> {
    if s.len() == 0 {
        m
    } else {
        m.insert(k, row_of(m, k) + s)
    }
}

/// Appends `[start, end)` to row `y` when it is not empty.
fn push_interval(map: &mut HashMap<u16, Vec<UpdateInterval>>, y: usize, start: usize, end: usize)
    ensures
        rows_view(final(map)@) == add_row_ivs(rows_view(old(map)@), y as u16, nonempty_iv(start, end)),
{
    if start < end {
        let ghost before = rows_view(map@);
        push_row_interval(
            map,
            #[verifier::truncate] (y as u16),
            UpdateInterval { interval: (start, end), iv_type: UpdateIntervalType::Optimized },
        );
        assert(row_of(before, y as u16).push(opt_iv(start, end)) =~= row_of(before, y as u16) + nonempty_iv(start, end));
    } else {
        assert(nonempty_iv(start, end).len() == 0);
    }
}

impl RectDrawable {
    /// The intervals the border of row `y` needs: top and bottom rows (the
    /// first and last `thickness` rows) span the whole width; other rows
    /// get a left and a right strip of `thickness` cells, or one span
    /// when the strips meet, or nothing when the right strip would start
    /// left of column 0. Ends saturate at `usize::MAX`.
    pub open spec fn border_row_ivs(self, y: int) -> Seq<UpdateInterval> {
        let t = self.border_thickness as int;
        let p1 = self.rect.p1;
        let p2 = self.rect.p2;
        let full_end = sat_inc_usize(p2.x);
        if y < p1.y + t || y > p2.y - t {
            nonempty_iv(p1.x, full_end)
        } else {
            let ls = p1.x;
            let le = if p1.x + t <= full_end { (p1.x + t) as usize } else { full_end };
            if p2.x >= t - 1 {
                let rs = (p2.x - (t - 1)) as usize;
                if ls < rs {
                    nonempty_iv(ls, le) + nonempty_iv(rs, full_end)
                } else {
                    nonempty_iv(if ls <= rs { ls } else { rs }, if le >= full_end { le } else { full_end })
                }
            } else {
                Seq::empty()
            }
        }
    }

    /// The row map after the first `n` rows of the border, rows keyed by
    /// their index truncated to `u16`.
    pub open spec fn border_rows_upto(self, n: nat) -> Map<u16, Seq<UpdateInterval>>
        decreases n,
    {
        if n == 0 {
            Map::empty()
        } else {
            let y = self.rect.p1.y + n - 1;
            add_row_ivs(self.border_rows_upto((n - 1) as nat), y as u16, self.border_row_ivs(y))
        }
    }

    pub open spec fn spec_bounding(self) -> Map<u16, Seq<UpdateInterval>> {
        if self.border_thickness == 0 {
            Map::empty()
        } else if self.fill_style is Some {
            spec_rect_rows(
                (self.rect.p1.x as u16) as usize,
                (sat_inc_usize(self.rect.p2.x) as u16) as usize,
                (self.rect.p1.y as u16) as int,
                (sat_inc_usize(self.rect.p2.y) as u16) as int,
            )
        } else {
            self.border_rows_upto(
                if self.rect.p1.y <= self.rect.p2.y {
                    (self.rect.p2.y - self.rect.p1.y + 1) as nat
                } else {
                    0
                },
            )
        }
    }

    /// The rows that may change when the rectangle is drawn: nothing
    /// without a border; the whole (closed) rectangle, with coordinates
    /// truncated to `u16`, when it is filled; otherwise the border
    /// strips of every row (see `border_row_ivs`).
    pub fn bounding_iv(&self) -> (m: HashMap<u16, Vec<UpdateInterval>>)
        requires
            self.border_thickness == 0 || self.fill_style is Some || self.rect.p1.y > self.rect.p2.y || (
            self.rect.p1.y + self.border_thickness <= usize::MAX && self.border_thickness <= self.rect.p2.y
                && (self.rect.p1.y + self.border_thickness <= self.rect.p2.y - self.border_thickness
                ==> self.rect.p1.x + self.border_thickness <= usize::MAX)),
        ensures
            rows_view(m@) == self.spec_bounding(),
    {
        if self.border_thickness == 0 {
            let m: HashMap<u16, Vec<UpdateInterval>> = HashMap::new();
            assert(rows_view(m@) =~= Map::<u16, Seq<UpdateInterval>>::empty());
            return m;
        }
        let r = self.rect;
        if self.fill_style.is_some() {
            let x1: u16 = #[verifier::truncate] (r.p1.x as u16);
            let x2: u16 = #[verifier::truncate] (r.p2.x.saturating_add(1) as u16);
            let y1: u16 = #[verifier::truncate] (r.p1.y as u16);
            let y2: u16 = #[verifier::truncate] (r.p2.y.saturating_add(1) as u16);
            return rect_rows(x1 as usize, x2 as usize, y1 as u32, y2 as u32);
        }
        let mut intervals: HashMap<u16, Vec<UpdateInterval>> = HashMap::new();
        assert(rows_view(intervals@) =~= self.border_rows_upto(0));
        if r.p1.y > r.p2.y {
            return intervals;
        }
        let t = self.border_thickness;
        let rows: u128 = (r.p2.y - r.p1.y) as u128;
        let mut n: u128 = 0;
        while n <= rows
            invariant
                r == self.rect,
                t == self.border_thickness,
                t != 0,
                self.fill_style is None,
                r.p1.y <= r.p2.y,
                rows == r.p2.y - r.p1.y,
                r.p1.y + t <= usize::MAX,
                t <= r.p2.y,
                r.p1.y + t <= r.p2.y - t ==> r.p1.x + t <= usize::MAX,
                0 <= n <= rows + 1,
                rows_view(intervals@) == self.border_rows_upto(n as nat),
            decreases rows + 1 - n,
        {
            let y = r.p1.y + n as usize;
            let is_top = y < r.p1.y + t;
            let is_bottom = y > r.p2.y - t;
            let full_end = r.p2.x.saturating_add(1);
            if is_top || is_bottom {
                push_interval(&mut intervals, y, r.p1.x, full_end);
            } else {
                let left_start = r.p1.x;
                let le0 = r.p1.x + t;
                let left_end = if le0 <= full_end {
                    le0
                } else {
                    full_end
                };
                let right_start_opt = r.p2.x.checked_sub(t - 1);
                if let Some(right_start) = right_start_opt {
                    let right_end = full_end;
                    if left_start < right_start {
                        let ghost m0 = rows_view(intervals@);
                        push_interval(&mut intervals, y, left_start, left_end);
                        push_interval(&mut intervals, y, right_start, right_end);
                        proof {
                            let a = nonempty_iv(left_start, left_end);
                            let b = nonempty_iv(right_start, right_end);
                            let k = y as u16;
                            let m1 = add_row_ivs(m0, k, a);
                            assert(row_of(m1, k) + b =~= row_of(m0, k) + (a + b));
                            assert(add_row_ivs(m1, k, b) =~= add_row_ivs(m0, k, a + b));
                        }
                    } else {
                        let start = if left_start <= right_start {
                            left_start
                        } else {
                            right_start
                        };
                        let end = if left_end >= right_end {
                            left_end
                        } else {
                            right_end
                        };
                        push_interval(&mut intervals, y, start, end);
                    }
                } else {
                    assert(self.border_row_ivs(y as int) =~= Seq::<UpdateInterval>::empty());
                }
            }
            n += 1;
        }
        intervals
    }
}

/// Row `y` of a row map holds an interval that contains column `x`.
pub open spec fn row_map_covers(m: Map<u16, Seq<UpdateInterval>>, x: int, y: u16) -> bool {
    m.contains_key(y) && exists|j: int| 0 <= j < m[y].len() && (#[trigger] m[y][j]).interval.0 <= x < m[y][j].interval.1
}

impl RectDrawable {
    /// Every interval of row `m` of the border stays in the row map once
    /// the first `n` rows are in.
    proof fn lemma_border_rows_contain(self, n: nat, m: int, iv: UpdateInterval)
        requires
            0 <= m < n,
            self.border_row_ivs(self.rect.p1.y + m).contains(iv),
        ensures
            self.border_rows_upto(n).contains_key((self.rect.p1.y + m) as u16),
            self.border_rows_upto(n)[(self.rect.p1.y + m) as u16].contains(iv),
        decreases n,
    {
        let y0 = (self.rect.p1.y + m) as u16;
        let prev = self.border_rows_upto((n - 1) as nat);
        let y = self.rect.p1.y + n - 1;
        let s = self.border_row_ivs(y);
        if m == n - 1 {
            let j = choose|j: int| 0 <= j < s.len() && s[j] == iv;
            assert((row_of(prev, y0) + s)[row_of(prev, y0).len() + j] == iv);
            assert(self.border_rows_upto(n) == add_row_ivs(prev, y as u16, s));
        } else {
            self.lemma_border_rows_contain((n - 1) as nat, m, iv);
            if s.len() > 0 && (y as u16) == y0 {
                let row = prev[y0];
                let j = choose|j: int| 0 <= j < row.len() && row[j] == iv;
                assert((row_of(prev, y0) + s)[j] == iv);
            }
        }
    }

    /// Every cell that a rectangle with a border draws (each `Some` of
    /// `cells`, which `draw` lists in order) lies in an interval of the
    /// rows that `bounding_iv` gives, as long as coordinates stay below
    /// `u16::MAX` and the rectangle is at least as wide as the border is
    /// thick less one.
    pub proof fn rect_draws_inside_bounding(self, k: int)
        requires
            self.ordered(),
            self.border_thickness > 0,
            self.rect.p2.x < 65535,
            self.rect.p2.y < 65535,
            self.rect.p2.x + 1 >= self.border_thickness,
            0 <= k < self.cols() * self.rows(),
            self.cells()[k] is Some,
        ensures
            row_map_covers(self.spec_bounding(), self.cells()[k]->Some_0.pos.x as int, self.cells()[k]->Some_0.pos.y as u16),
    {
        let c = self.cols();
        let rw = self.rows();
        assert(0 <= k % c < c && 0 <= k / c < rw) by (nonlinear_arith)
            requires
                c >= 1,
                rw >= 1,
                0 <= k < c * rw,
        ;
        let x = self.rect.p1.x + k % c;
        let y = self.rect.p1.y + k / c;
        let d = self.cells()[k]->Some_0;
        assert(d == self.cell_at(x, y).unwrap());
        assert(d.pos.x == x && d.pos.y == y);
        let t = self.border_thickness as int;
        let m = self.spec_bounding();
        if self.fill_style is Some {
            assert(m[y as u16] == seq![opt_iv(self.rect.p1.x, (self.rect.p2.x + 1) as usize)]);
            assert(m[y as u16][0].interval.0 <= x < m[y as u16][0].interval.1);
        } else {
            let ivs = self.border_row_ivs(y);
            let iv: UpdateInterval = if y < self.rect.p1.y + t || y > self.rect.p2.y - t {
                opt_iv(self.rect.p1.x, (self.rect.p2.x + 1) as usize)
            } else {
                let ls = self.rect.p1.x;
                let le = if self.rect.p1.x + t <= self.rect.p2.x + 1 {
                    (self.rect.p1.x + t) as usize
                } else {
                    (self.rect.p2.x + 1) as usize
                };
                let rs = (self.rect.p2.x - (t - 1)) as usize;
                if ls < rs {
                    if x - self.rect.p1.x < t {
                        opt_iv(ls, le)
                    } else {
                        opt_iv(rs, (self.rect.p2.x + 1) as usize)
                    }
                } else {
                    opt_iv(
                        if ls <= rs { ls } else { rs },
                        if le >= self.rect.p2.x + 1 { le } else { (self.rect.p2.x + 1) as usize },
                    )
                }
            };
            assert(ivs.contains(iv)) by {
                if !(y < self.rect.p1.y + t || y > self.rect.p2.y - t) {
                    let ls = self.rect.p1.x;
                    let rs = (self.rect.p2.x - (t - 1)) as usize;
                    if ls < rs && x - self.rect.p1.x >= t {
                        assert(ivs[ivs.len() - 1] == iv);
                    } else {
                        assert(ivs[0] == iv);
                    }
                } else {
                    assert(ivs[0] == iv);
                }
            }
            assert(iv.interval.0 <= x < iv.interval.1);
            self.lemma_border_rows_contain((self.rect.p2.y - self.rect.p1.y + 1) as nat, k / c, iv);
            let row = m[y as u16];
            let j = choose|j: int| 0 <= j < row.len() && row[j] == iv;
            assert(m[y as u16][j].interval.0 <= x < m[y as u16][j].interval.1);
        }
    }
}

impl RectDrawable {
    /// `p2 - p1`, each coordinate truncated to `u16`.
    pub fn size(&self) -> (s: (u16, u16))
        requires
            self.ordered(),
        ensures
            s == (((self.rect.p2.x - self.rect.p1.x) as u16), ((self.rect.p2.y - self.rect.p1.y) as u16)),
    {
        let dx = self.rect.p2.x - self.rect.p1.x;
        let dy = self.rect.p2.y - self.rect.p1.y;
        (#[verifier::truncate] (dx as u16), #[verifier::truncate] (dy as u16))
    }

    /// The top-left corner, truncated to `u16`.
    pub fn start(&self) -> (p: PointU16)
        ensures
            p == (PointU16 { x: self.rect.p1.x as u16, y: self.rect.p1.y as u16 }),
    {
        PointU16 { x: #[verifier::truncate] (self.rect.p1.x as u16), y: #[verifier::truncate] (self.rect.p1.y as u16) }
    }

    /// The bottom-right corner, truncated to `u16`.
    pub fn end(&self) -> (p: PointU16)
        ensures
            p == (PointU16 { x: self.rect.p2.x as u16, y: self.rect.p2.y as u16 }),
    {
        PointU16 { x: #[verifier::truncate] (self.rect.p2.x as u16), y: #[verifier::truncate] (self.rect.p2.y as u16) }
    }

    pub fn set_start(&mut self, p: PointU16)
        ensures
            *final(self) == (RectDrawable {
                rect: RectUsize { p1: PointUsize { x: p.x as usize, y: p.y as usize }, p2: old(self).rect.p2 },
                ..*old(self)
            }),
    {
        self.rect.p1 = PointUsize { x: p.x as usize, y: p.y as usize };
    }

    pub fn set_end(&mut self, p: PointU16)
        ensures
            *final(self) == (RectDrawable {
                rect: RectUsize { p1: old(self).rect.p1, p2: PointUsize { x: p.x as usize, y: p.y as usize } },
                ..*old(self)
            }),
    {
        self.rect.p2 = PointUsize { x: p.x as usize, y: p.y as usize };
    }

    /// The same rectangle moved by `offset`.
    pub fn shifted(&self, offset: PointU16) -> (r: RectDrawable)
        requires
            self.rect.p1.x + offset.x <= usize::MAX,
            self.rect.p1.y + offset.y <= usize::MAX,
            self.rect.p2.x + offset.x <= usize::MAX,
            self.rect.p2.y + offset.y <= usize::MAX,
        ensures
            r == (RectDrawable {
                rect: RectUsize {
                    p1: PointUsize {
                        x: (self.rect.p1.x + offset.x) as usize,
                        y: (self.rect.p1.y + offset.y) as usize,
                    },
                    p2: PointUsize {
                        x: (self.rect.p2.x + offset.x) as usize,
                        y: (self.rect.p2.y + offset.y) as usize,
                    },
                },
                ..*self
            }),
    {
        RectDrawable {
            rect: RectUsize {
                p1: PointUsize { x: self.rect.p1.x + offset.x as usize, y: self.rect.p1.y + offset.y as usize },
                p2: PointUsize { x: self.rect.p2.x + offset.x as usize, y: self.rect.p2.y + offset.y as usize },
            },
            border_thickness: self.border_thickness,
            border_style: self.border_style,
            fill_style: self.fill_style,
        }
    }
}

/// The integer square root: the largest `s` with `s * s <= n`.
pub open spec fn is_isqrt(n: int, s: int) -> bool {
    s >= 0 && s * s <= n && n < (s + 1) * (s + 1)
}

/// Integer square root of a number below `2^32`.
pub fn isqrt(n: u64) -> (s: u64)
    requires
        n < 0x1_0000_0000,
    ensures
        is_isqrt(n as int, s as int),
        s <= 65535,
{
    let mut lo: u64 = 0;
    let mut hi: u64 = 65536;
    assert(65536 * 65536 > n) by (nonlinear_arith)
        requires
            n < 0x1_0000_0000,
    ;
    while hi - lo > 1
        invariant
            lo < hi <= 65536,
            lo * lo <= n,
            n < hi * hi,
        decreases hi - lo,
    {
        let mid = lo + (hi - lo) / 2;
        assert(mid * mid <= 65536 * 65536) by (nonlinear_arith)
            requires
                mid <= 65536,
        ;
        if mid * mid <= n {
            lo = mid;
        } else {
            hi = mid;
        }
    }
    lo
}

/// A circle (a disc of grid cells) with a one-cell border and an
/// optional fill.
#[derive(Clone, Copy, Debug)]
pub struct CircleDrawable {
    pub center: PointU16,
    pub radius: u16,
    pub border_style: TerminalChar,
    pub fill_style: Option<TerminalChar>,
}

impl CircleDrawable {
    /// The squared distances stay within `i32`.
    pub open spec fn radius_ok(self) -> bool {
        2 * self.radius * self.radius <= i32::MAX
    }

    pub open spec fn side(self) -> int {
        2 * self.radius + 1
    }

    /// What is drawn at offset `(dx, dy)` from the center: nothing outside
    /// the radius, the border where the squared distance is at least
    /// `(radius - 1)^2` (saturating), else the fill (if any). Positions
    /// are truncated to `u16`.
    pub open spec fn cell_at(self, dx: int, dy: int) -> Option<BasicDraw> {
        let r = self.radius as int;
        let ri = if r >= 1 { r - 1 } else { 0 };
        let dist2 = dx * dx + dy * dy;
        let pos = Point { x: ((self.center.x + dx) as u16) as i32, y: ((self.center.y + dy) as u16) as i32 };
        if dist2 > r * r {
            None
        } else if dist2 >= ri * ri {
            Some(BasicDraw { pos, chr: self.border_style })
        } else {
            match self.fill_style {
                Some(ch) => Some(BasicDraw { pos, chr: ch }),
                None => None,
            }
        }
    }

    /// The cells of the circle's square, row by row from `(-r, -r)`.
    pub open spec fn cells(self) -> Seq<Option<BasicDraw>> {
        Seq::new(
            (self.side() * self.side()) as nat,
            |k: int| self.cell_at(k % self.side() - self.radius, k / self.side() - self.radius),
        )
    }

    /// What each cell of the circle's square gets, by its squared distance
    /// `d2` from the center: nothing beyond the radius (`d2 > r^2`); the
    /// border character on the ring `(r - 1)^2 <= d2 <= r^2`; inside the
    /// ring, the fill character when there is a fill, else nothing. When
    /// the whole square lies on the `u16` grid, each drawn cell stands at
    /// the center plus its offset.
    pub proof fn circle_ring_and_fill(self, k: int)
        requires
            0 <= k < self.side() * self.side(),
        ensures
            ({
                let r = self.radius as int;
                let ri = if r >= 1 { r - 1 } else { 0 };
                let dx = k % self.side() - r;
                let dy = k / self.side() - r;
                let d2 = dx * dx + dy * dy;
                &&& d2 > r * r ==> self.cells()[k] is None
                &&& ri * ri <= d2 <= r * r ==> (self.cells()[k] matches Some(d) && d.chr == self.border_style)
                &&& d2 < ri * ri ==> (self.fill_style matches Some(f) ==> (self.cells()[k] matches Some(d) && d.chr == f))
                &&& d2 < ri * ri ==> (self.fill_style is None ==> self.cells()[k] is None)
                &&& (r <= self.center.x && self.center.x + r <= 65535 && r <= self.center.y && self.center.y + r
                    <= 65535) ==> (self.cells()[k] matches Some(d) ==> d.pos.x == self.center.x + dx && d.pos.y
                    == self.center.y + dy)
            }),
    {
        let r = self.radius as int;
        let dx = k % self.side() - r;
        let dy = k / self.side() - r;
        let sd = self.side();
        assert(0 <= k / sd < sd && 0 <= k % sd < sd) by (nonlinear_arith)
            requires
                0 <= k < sd * sd,
                sd >= 1,
        ;
        assert(self.cells()[k] == self.cell_at(dx, dy));
        let ri = if r >= 1 { r - 1 } else { 0 };
        assert(ri * ri <= r * r) by (nonlinear_arith)
            requires
                0 <= ri <= r,
        ;
    }

    /// The draws of the circle, row by row (see `cell_at`).
    pub fn draw(&self) -> (out: Vec<BasicDraw>)
        requires
            self.radius_ok(),
        ensures
            out@ == somes(self.cells()),
    {
        let r: i32 = self.radius as i32;
        let ri: i32 = if self.radius >= 1 {
            (self.radius - 1) as i32
        } else {
            0
        };
        assert(r * r <= 2147483647) by (nonlinear_arith)
            requires
                2 * r * r <= 2147483647,
        ;
        assert(ri * ri <= r * r) by (nonlinear_arith)
            requires
                0 <= ri <= r,
        ;
        let r2 = r * r;
        let r_inner2 = ri * ri;
        let side: i32 = 2 * r + 1;
        let ghost sd = self.side();
        let ghost cells = self.cells();
        let mut out: Vec<BasicDraw> = Vec::new();
        let mut dy: i32 = -r;
        assert(cells.take(0) =~= Seq::<Option<BasicDraw>>::empty());
        assert((dy + r) * sd == 0) by (nonlinear_arith)
            requires
                dy + r == 0,
        ;
        while dy <= r
            invariant
                r == self.radius,
                2 * r * r <= 2147483647,
                r2 == r * r,
                r_inner2 == (if r >= 1 { (r - 1) * (r - 1) } else { 0 }),
                side == sd,
                sd == 2 * r + 1,
                cells == self.cells(),
                -r <= dy <= r + 1,
                out@ == somes(cells.take((dy + r) * sd)),
            decreases r + 1 - dy,
        {
            let mut dx: i32 = -r;
            while dx <= r
                invariant
                    r == self.radius,
                    2 * r * r <= 2147483647,
                    r2 == r * r,
                    r_inner2 == (if r >= 1 { (r - 1) * (r - 1) } else { 0 }),
                    side == sd,
                    sd == 2 * r + 1,
                    cells == self.cells(),
                    -r <= dy <= r,
                    -r <= dx <= r + 1,
                    out@ == somes(cells.take((dy + r) * sd + (dx + r))),
                decreases r + 1 - dx,
            {
                assert(dx * dx <= r * r && dy * dy <= r * r && dx * dx + dy * dy <= 2147483647) by (nonlinear_arith)
                    requires
                        -r <= dx <= r,
                        -r <= dy <= r,
                        2 * r * r <= 2147483647,
                ;
                assert(0 <= dx * dx <= 2147483647 && 0 <= dy * dy <= 2147483647) by (nonlinear_arith)
                    requires
                        -r <= dx <= r,
                        -r <= dy <= r,
                        2 * r * r <= 2147483647,
                ;
                let dxx: i32 = dx * dx;
                let dyy: i32 = dy * dy;
                let dist2: i32 = dxx + dyy;
                let x: i32 = self.center.x as i32 + dx;
                let y: i32 = self.center.y as i32 + dy;
                let pos = Point { x: (#[verifier::truncate] (x as u16)) as i32, y: (#[verifier::truncate] (y as u16)) as i32 };
                let cell: Option<BasicDraw> = if dist2 <= r2 {
                    if dist2 >= r_inner2 {
                        Some(BasicDraw { pos, chr: self.border_style })
                    } else {
                        match self.fill_style {
                            Some(ch) => Some(BasicDraw { pos, chr: ch }),
                            None => None,
                        }
                    }
                } else {
                    None
                };
                proof {
                    let k = (dy + r) * sd + (dx + r);
                    lemma_grid_index((dy + r) as int, (dx + r) as int, sd);
                    assert((dy + r + 1) * sd <= sd * sd) by (nonlinear_arith)
                        requires
                            dy + r + 1 <= sd,
                            sd >= 1,
                    ;
                    assert(cells[k] == self.cell_at(dx as int, dy as int));
                    assert(cells.take(k + 1) =~= cells.take(k).push(cells[k]));
                    lemma_somes_push(cells.take(k), cells[k]);
                }
                if let Some(d) = cell {
                    out.push(d);
                }
                dx += 1;
            }
            proof {
                assert((dy + r) * sd + (r + 1 + r) == (dy + 1 + r) * sd) by (nonlinear_arith)
                    requires
                        sd == 2 * r + 1,
                ;
            }
            dy += 1;
        }
        proof {
            assert(cells.take(sd * sd) =~= cells);
        }
        out
    }
}

/// The integer square root of `n` (unique, see `lemma_isqrt_unique`).
pub open spec fn spec_isqrt(n: int) -> int {
    choose|s: int| is_isqrt(n, s)
}

pub proof fn lemma_isqrt_unique(n: int, s1: int, s2: int)
    requires
        is_isqrt(n, s1),
        is_isqrt(n, s2),
    ensures
        s1 == s2,
{
    if s1 < s2 {
        assert((s1 + 1) * (s1 + 1) <= s2 * s2) by (nonlinear_arith)
            requires
                0 <= s1 + 1 <= s2,
        ;
    } else if s2 < s1 {
        assert((s2 + 1) * (s2 + 1) <= s1 * s1) by (nonlinear_arith)
            requires
                0 <= s2 + 1 <= s1,
        ;
    }
}

impl CircleDrawable {
    /// Half the width of the circle on the row `dy` rows below its top:
    /// `isqrt(r^2 - (dy - r)^2)`.
    pub open spec fn half_width(self, dy: int) -> int {
        let r = self.radius as int;
        spec_isqrt(r * r - (dy - r) * (dy - r))
    }

    /// The interval of the row `dy` rows below the top:
    /// `[cx - w, cx + w + 1)` with `w = half_width(dy)` and the start
    /// saturating at 0.
    pub open spec fn row_iv(self, dy: int) -> Seq<UpdateInterval> {
        let w = self.half_width(dy);
        let cx = self.center.x as int;
        nonempty_iv((if cx >= w { cx - w } else { 0 }) as usize, (cx + w + 1) as usize)
    }

    /// The row a row offset `dy` is filed under: `cy + (dy - r)`, where
    /// the difference saturates at 0, so every row above the center is
    /// filed under the center row.
    pub open spec fn row_key(self, dy: int) -> u16 {
        let r = self.radius as int;
        (self.center.y + (if dy >= r { dy - r } else { 0 })) as u16
    }

    /// The row map after the first `n` row offsets.
    pub open spec fn rows_upto(self, n: nat) -> Map<u16, Seq<UpdateInterval>>
        decreases n,
    {
        if n == 0 {
            Map::empty()
        } else {
            add_row_ivs(self.rows_upto((n - 1) as nat), self.row_key(n - 1), self.row_iv(n - 1))
        }
    }

    pub open spec fn spec_bounding(self) -> Map<u16, Seq<UpdateInterval>> {
        self.rows_upto(self.side() as nat)
    }

    /// The rows of the circle, one interval per row offset
    /// `0 ..= 2 * radius` (see `row_iv` and `row_key`).
    pub fn bounding_iv(&self) -> (m: HashMap<u16, Vec<UpdateInterval>>)
        requires
            self.radius_ok(),
        ensures
            rows_view(m@) == self.spec_bounding(),
    {
        let mut intervals: HashMap<u16, Vec<UpdateInterval>> = HashMap::new();
        assert(rows_view(intervals@) =~= self.rows_upto(0));
        let r: usize = self.radius as usize;
        let cx: usize = self.center.x as usize;
        let cy: usize = self.center.y as usize;
        assert(r * r <= 2147483647) by (nonlinear_arith)
            requires
                2 * r * r <= 2147483647,
        ;
        let mut dy: usize = 0;
        while dy <= 2 * r
            invariant
                r == self.radius,
                cx == self.center.x,
                cy == self.center.y,
                2 * r * r <= 2147483647,
                r * r <= 2147483647,
                0 <= dy <= 2 * r + 1,
                rows_view(intervals@) == self.rows_upto(dy as nat),
            decreases 2 * r + 1 - dy,
        {
            let y = cy + dy.saturating_sub(r);
            let d: i64 = dy as i64 - r as i64;
            assert(0 <= d * d <= r * r) by (nonlinear_arith)
                requires
                    -r <= d <= r,
            ;
            let dist_y: i64 = d * d;
            let rr: i64 = (r * r) as i64;
            let n: u64 = (rr - dist_y) as u64;
            let w = isqrt(n) as usize;
            proof {
                assert(is_isqrt(n as int, w as int));
                assert(is_isqrt(n as int, self.half_width(dy as int))) by {
                    assert(exists|s: int| is_isqrt(n as int, s));
                }
                lemma_isqrt_unique(n as int, w as int, self.half_width(dy as int));
                assert(w * w <= r * r);
                assert(w <= r) by (nonlinear_arith)
                    requires
                        w * w <= r * r,
                        r >= 0,
                        w >= 0,
                ;
            }
            let start = cx.saturating_sub(w);
            let end = cx + w + 1;
            push_interval(&mut intervals, y, start, end);
            dy += 1;
        }
        intervals
    }

    /// Width and height: twice the radius.
    pub fn size(&self) -> (s: (u16, u16))
        requires
            self.radius <= 32767,
        ensures
            s == ((2 * self.radius) as u16, (2 * self.radius) as u16),
    {
        (self.radius * 2, self.radius * 2)
    }

    /// The top-left corner of the bounding square (saturating at 0).
    pub fn start(&self) -> (p: PointU16)
        ensures
            p.x == (if self.center.x >= self.radius { self.center.x - self.radius } else { 0 }),
            p.y == (if self.center.y >= self.radius { self.center.y - self.radius } else { 0 }),
    {
        PointU16 { x: self.center.x.saturating_sub(self.radius), y: self.center.y.saturating_sub(self.radius) }
    }

    /// The bottom-right corner of the bounding square (saturating at
    /// `u16::MAX`).
    pub fn end(&self) -> (p: PointU16)
        ensures
            p.x == (if self.center.x + self.radius > 65535 { 65535 } else { self.center.x + self.radius }),
            p.y == (if self.center.y + self.radius > 65535 { 65535 } else { self.center.y + self.radius }),
    {
        PointU16 { x: self.center.x.saturating_add(self.radius), y: self.center.y.saturating_add(self.radius) }
    }

    /// The circle with its top-left corner moved to `p` and its
    /// bottom-right corner `e` kept: the center becomes the midpoint and
    /// the radius half the larger side (sides saturate at 0).
    pub open spec fn spec_with_corners(self, p: PointU16, e: PointU16) -> CircleDrawable {
        let sx = if e.x >= p.x { e.x - p.x } else { 0 };
        let sy = if e.y >= p.y { e.y - p.y } else { 0 };
        CircleDrawable {
            center: PointU16 { x: ((p.x + e.x) / 2) as u16, y: ((p.y + e.y) / 2) as u16 },
            radius: ((if sx >= sy { sx } else { sy }) / 2) as u16,
            ..self
        }
    }

    /// Moves the top-left corner, keeping the bottom-right one.
    pub fn set_start(&mut self, p: PointU16)
        requires
            p.x + old(self).spec_end().x <= 65535,
            p.y + old(self).spec_end().y <= 65535,
        ensures
            *final(self) == old(self).spec_with_corners(p, old(self).spec_end()),
    {
        let end = self.end();
        self.center = PointU16 { x: (p.x + end.x) / 2, y: (p.y + end.y) / 2 };
        let sx = end.x.saturating_sub(p.x);
        let sy = end.y.saturating_sub(p.y);
        self.radius = (if sx >= sy { sx } else { sy }) / 2;
    }

    /// Moves the bottom-right corner, keeping the top-left one.
    pub fn set_end(&mut self, p: PointU16)
        requires
            p.x + old(self).spec_start().x <= 65535,
            p.y + old(self).spec_start().y <= 65535,
        ensures
            *final(self) == old(self).spec_with_corners(old(self).spec_start(), p),
    {
        let start = self.start();
        self.center = PointU16 { x: (p.x + start.x) / 2, y: (p.y + start.y) / 2 };
        let sx = p.x.saturating_sub(start.x);
        let sy = p.y.saturating_sub(start.y);
        self.radius = (if sx >= sy { sx } else { sy }) / 2;
    }

    pub open spec fn spec_start(self) -> PointU16 {
        PointU16 {
            x: if self.center.x >= self.radius { (self.center.x - self.radius) as u16 } else { 0 },
            y: if self.center.y >= self.radius { (self.center.y - self.radius) as u16 } else { 0 },
        }
    }

    pub open spec fn spec_end(self) -> PointU16 {
        PointU16 {
            x: if self.center.x + self.radius > 65535 { 65535 } else { (self.center.x + self.radius) as u16 },
            y: if self.center.y + self.radius > 65535 { 65535 } else { (self.center.y + self.radius) as u16 },
        }
    }

    /// The same circle moved by `offset`.
    pub fn shifted(&self, offset: PointU16) -> (c: CircleDrawable)
        requires
            self.center.x + offset.x <= 65535,
            self.center.y + offset.y <= 65535,
        ensures
            c == (CircleDrawable {
                center: PointU16 { x: (self.center.x + offset.x) as u16, y: (self.center.y + offset.y) as u16 },
                ..*self
            }),
    {
        CircleDrawable {
            center: PointU16 { x: self.center.x + offset.x, y: self.center.y + offset.y },
            radius: self.radius,
            border_style: self.border_style,
            fill_style: self.fill_style,
        }
    }
}

/// `x` clamped to `[0, hi]`.
pub open spec fn clamp_i32(x: i32, hi: int) -> int {
    if x < 0 {
        0
    } else if x > hi {
        hi
    } else {
        x as int
    }
}

/// The row map of the rectangle with columns `[x1, x2)` and rows
/// `[y1, y2)` in `i32` coordinates: negative values are clamped to 0 and
/// rows to at most 65536.
pub fn rect_rows_i32(x1: i32, x2: i32, y1: i32, y2: i32) -> (m: HashMap<u16, Vec<UpdateInterval>>)
    ensures
        rows_view(m@) == spec_rect_rows(
            clamp_i32(x1, i32::MAX as int) as usize,
            clamp_i32(x2, i32::MAX as int) as usize,
            clamp_i32(y1, 65536),
            clamp_i32(y2, 65536),
        ),
{
    let xs: usize = if x1 < 0 { 0 } else { x1 as usize };
    let xe: usize = if x2 < 0 { 0 } else { x2 as usize };
    let ys: u32 = if y1 < 0 { 0 } else if y1 > 65536 { 65536 } else { y1 as u32 };
    let ye: u32 = if y2 < 0 { 0 } else if y2 > 65536 { 65536 } else { y2 as u32 };
    rect_rows(xs, xe, ys, ye)
}

impl SpriteDrawable {
    pub open spec fn spec_bounding(self, sprites: SpriteRegistry) -> Map<u16, Seq<UpdateInterval>> {
        let (h, w) = if self.sprite_id < sprites.sprites@.len() {
            (
                sprites.sprites@[self.sprite_id as int].height as int,
                sprites.sprites@[self.sprite_id as int].width as int,
            )
        } else {
            (0, 0)
        };
        spec_rect_rows(
            clamp_i32(self.position.x, i32::MAX as int) as usize,
            clamp_i32((self.position.x + h) as i32, i32::MAX as int) as usize,
            clamp_i32(self.position.y, 65536),
            clamp_i32((self.position.y + w) as i32, 65536),
        )
    }

    /// The rectangle at the sprite's position whose horizontal extent is
    /// the sprite's height and vertical extent its width (nothing for a
    /// missing sprite).
    pub fn bounding_iv(&self, sprites: &SpriteRegistry) -> (m: HashMap<u16, Vec<UpdateInterval>>)
        requires
            self.position.x + 65535 <= i32::MAX,
            self.position.y + 65535 <= i32::MAX,
        ensures
            rows_view(m@) == self.spec_bounding(*sprites),
    {
        let size = match sprites.get(&self.sprite_id) {
            Some(sp) => sp.size(),
            None => (0, 0, 0),
        };
        rect_rows_i32(
            self.position.x,
            self.position.x + size.1 as i32,
            self.position.y,
            self.position.y + size.2 as i32,
        )
    }

    /// `(height, width)` of the sprite, or an error for a missing sprite.
    pub fn size(&self, sprites: &SpriteRegistry) -> (r: Result<(u16, u16), DrawError>)
        ensures
            self.sprite_id < sprites.sprites@.len() ==> r == Ok::<(u16, u16), DrawError>(
                (
                    sprites.sprites@[self.sprite_id as int].height,
                    sprites.sprites@[self.sprite_id as int].width,
                ),
            ),
            self.sprite_id >= sprites.sprites@.len() ==> r == Err::<(u16, u16), DrawError>(
                DrawError::SpriteNotFound(self.sprite_id),
            ),
    {
        match sprites.get(&self.sprite_id) {
            Some(sp) => {
                let size = sp.size();
                Ok((size.1 as u16, size.2 as u16))
            },
            None => Err(DrawError::SpriteNotFound(self.sprite_id)),
        }
    }
}

#[verifier::external_type_specification]
#[verifier::external_body]
#[verifier::reject_recursive_types(T)]
pub struct ExFlumeReceiver<T>(flume::Receiver<T>);

#[verifier::external_type_specification]
#[verifier::external_body]
pub struct ExFlumeTryRecvError(flume::TryRecvError);

/// One frame of a video stream: `size.0 * size.1` optional characters,
/// row-major; `None` leaves the cell alone.
#[derive(Debug)]
pub struct StreamFrame {
    pub size: (u16, u16),
    pub data: Vec<Option<TerminalChar>>,
}

/// `flume::Receiver::try_recv`: the next frame if one is waiting. Whether
/// one is depends on the sending thread, so nothing is stated.
#[verifier::external_body]
fn try_recv_frame(receiver: &flume::Receiver<StreamFrame>) -> (r: Result<StreamFrame, flume::TryRecvError>) {
    receiver.try_recv()
}

/// The draw of entry `i` of a frame of size `(w, h)` placed at `pos`:
/// entries wrap around after `w * h` cells.
pub open spec fn stream_cell(pos: Point, w: int, h: int, i: int, c: Option<TerminalChar>) -> Option<BasicDraw> {
    let idx = i % (w * h);
    match c {
        Some(ch) => Some(BasicDraw { pos: Point { x: (pos.x + idx % w) as i32, y: (pos.y + idx / w) as i32 }, chr: ch }),
        None => None,
    }
}

/// The draws of a frame at `pos`: nothing for an empty frame size, else
/// every present entry (see `stream_cell`).
pub open spec fn spec_stream_draws(pos: Point, frame: StreamFrame) -> Seq<BasicDraw> {
    let w = frame.size.0 as int;
    let h = frame.size.1 as int;
    if w == 0 || h == 0 {
        Seq::empty()
    } else {
        somes(Seq::new(frame.data@.len(), |i: int| stream_cell(pos, w, h, i, frame.data@[i])))
    }
}

/// Rasterises a received frame at `pos`.
pub fn stream_frame_draws(pos: Point, frame: &StreamFrame) -> (out: Vec<BasicDraw>)
    requires
        pos.x + 65535 <= i32::MAX,
        pos.y + 65535 <= i32::MAX,
    ensures
        out@ == spec_stream_draws(pos, *frame),
{
    let width = frame.size.0 as usize;
    let height = frame.size.1 as usize;
    if width == 0 || height == 0 {
        return Vec::new();
    }
    assert(0 < width * height <= 65535 * 65535) by (nonlinear_arith)
        requires
            0 < width <= 65535,
            0 < height <= 65535,
    ;
    let cells = width * height;
    let ghost s = Seq::new(
        frame.data@.len(),
        |i: int| stream_cell(pos, width as int, height as int, i, frame.data@[i]),
    );
    let mut draws: Vec<BasicDraw> = Vec::new();
    let mut i: usize = 0;
    assert(s.take(0) =~= Seq::<Option<BasicDraw>>::empty());
    while i < frame.data.len()
        invariant
            width == frame.size.0,
            height == frame.size.1,
            width > 0,
            height > 0,
            cells == width * height,
            cells > 0,
            pos.x + 65535 <= i32::MAX,
            pos.y + 65535 <= i32::MAX,
            s == Seq::new(
                frame.data@.len(),
                |i: int| stream_cell(pos, width as int, height as int, i, frame.data@[i]),
            ),
            0 <= i <= frame.data@.len(),
            draws@ == somes(s.take(i as int)),
        decreases frame.data@.len() - i,
    {
        let idx = i % cells;
        let x_off = idx % width;
        let y_off = idx / width;
        proof {
            assert(idx < width * height);
            assert(y_off < height) by {
                vstd::arithmetic::div_mod::lemma_div_by_multiple_is_strongly_ordered(idx as int, (width * height) as int, height as int, width as int);
                assert((width * height) / (width as int) == height) by {
                    vstd::arithmetic::div_mod::lemma_div_by_multiple(height as int, width as int);
                    assert(width * height == height * width) by (nonlinear_arith);
                }
            }
        }
        let cell: Option<BasicDraw> = match frame.data[i] {
            Some(ch) => Some(BasicDraw { pos: Point { x: pos.x + x_off as i32, y: pos.y + y_off as i32 }, chr: ch }),
            None => None,
        };
        proof {
            assert(s[i as int] == cell);
            assert(s.take(i + 1) =~= s.take(i as int).push(s[i as int]));
            lemma_somes_push(s.take(i as int), s[i as int]);
        }
        if let Some(d) = cell {
            draws.push(d);
        }
        i += 1;
    }
    assert(s.take(frame.data@.len() as int) =~= s);
    draws
}

/// A stream of frames arriving over a channel, drawn at a position.
#[derive(Debug)]
pub struct VideoStreamDrawable {
    pub position: Point,
    pub receiver: flume::Receiver<StreamFrame>,
    pub size: (u16, u16),
}

impl VideoStreamDrawable {
    /// The position can take a frame of any size.
    pub open spec fn position_ok(self) -> bool {
        self.position.x + 65535 <= i32::MAX && self.position.y + 65535 <= i32::MAX
    }

    /// Draws the next frame, if one has arrived, and takes over its size;
    /// otherwise draws nothing. Which of the two happens depends on the
    /// sender, so the contract covers both.
    pub fn draw(&mut self) -> (out: Vec<BasicDraw>)
        requires
            old(self).position_ok(),
        ensures
            final(self).position == old(self).position,
            final(self).receiver == old(self).receiver,
            (final(self).size == old(self).size && out@.len() == 0) || exists|f: StreamFrame|
                f.size == final(self).size && out@ == #[trigger] spec_stream_draws(old(self).position, f),
    {
        match try_recv_frame(&self.receiver) {
            Ok(frame) => {
                self.size = frame.size;
                let out = stream_frame_draws(self.position, &frame);
                assert(frame.size == self.size && out@ == spec_stream_draws(self.position, frame));
                out
            },
            Err(_) => Vec::new(),
        }
    }

    pub open spec fn spec_bounding(self) -> Map<u16, Seq<UpdateInterval>> {
        spec_rect_rows(
            clamp_i32(self.position.x, i32::MAX as int) as usize,
            clamp_i32((self.position.x + self.size.0) as i32, i32::MAX as int) as usize,
            clamp_i32(self.position.y, 65536),
            clamp_i32((self.position.y + self.size.1) as i32, 65536),
        )
    }

    /// The rectangle at the position with the current size (columns
    /// `[x, x + w)`, rows `[y, y + h)`).
    pub fn bounding_iv(&self) -> (m: HashMap<u16, Vec<UpdateInterval>>)
        requires
            self.position_ok(),
        ensures
            rows_view(m@) == self.spec_bounding(),
    {
        rect_rows_i32(
            self.position.x,
            self.position.x + self.size.0 as i32,
            self.position.y,
            self.position.y + self.size.1 as i32,
        )
    }
}

/// Any of the standard drawables.
#[derive(Debug)]
pub enum Drawable {
    Line(LineDrawable),
    Rect(RectDrawable),
    Circle(CircleDrawable),
    Sprite(SpriteDrawable),
    VideoStream(VideoStreamDrawable),
}

impl Drawable {
    /// Drawing does not fail on arithmetic: a rectangle's cells fit in
    /// memory, a circle's squared radius fits `i32`, a sprite's sprite has
    /// frames of the right size and a playable animation, and a stream's
    /// position can take any frame.
    pub open spec fn draw_ok(&self, sprites: SpriteRegistry) -> bool {
        match self {
            Drawable::Line(_) => true,
            Drawable::Rect(r) => r.ordered() ==> r.cols() * r.rows() <= usize::MAX,
            Drawable::Circle(c) => c.radius_ok(),
            Drawable::Sprite(sp) => sprites.wf() && sp.draw_ok(sprites),
            Drawable::VideoStream(v) => v.position_ok(),
        }
    }

    /// What drawing gives: the variant's draws (see the variants' `draw`).
    /// A sprite reads the clock and a stream its channel, so for those the
    /// result is the one for some elapsed time or some received frame.
    pub open spec fn draw_result(
        &self,
        after: Drawable,
        sprites: SpriteRegistry,
        r: Result<Vec<BasicDraw>, DrawError>,
    ) -> bool {
        match *self {
            Drawable::Line(l) => after == *self && (r matches Ok(out) && l.is_line_path(out@)),
            Drawable::Rect(rd) => after == *self && (r matches Ok(out) && (if rd.ordered() {
                out@ == somes(rd.cells())
            } else {
                out@.len() == 0
            })),
            Drawable::Circle(c) => after == *self && (r matches Ok(out) && out@ == somes(c.cells())),
            Drawable::Sprite(sp) => {
                &&& after == *self
                &&& sp.sprite_id >= sprites.sprites@.len() ==> r == Err::<Vec<BasicDraw>, DrawError>(
                    DrawError::SpriteNotFound(sp.sprite_id),
                )
                &&& sp.sprite_id < sprites.sprites@.len() ==> exists|e: u128|
                    e <= 18446744073709551615999u128 && #[trigger] sp.spec_draw_result(
                        sprites.sprites@[sp.sprite_id as int],
                        e,
                        r,
                    )
            },
            Drawable::VideoStream(v) => {
                &&& after matches Drawable::VideoStream(v2)
                &&& after->VideoStream_0.position == v.position
                &&& after->VideoStream_0.receiver == v.receiver
                &&& r matches Ok(out)
                &&& ((after->VideoStream_0.size == v.size && r->Ok_0@.len() == 0) || exists|f: StreamFrame|
                    f.size == after->VideoStream_0.size && r->Ok_0@ == #[trigger] spec_stream_draws(v.position, f))
            },
        }
    }

    /// Drawing keeps a drawable drawable, boundable and measurable.
    pub proof fn lemma_draw_keeps_ok(&self, after: Drawable, sprites: SpriteRegistry, r: Result<Vec<BasicDraw>, DrawError>)
        requires
            self.draw_result(after, sprites, r),
            self.draw_ok(sprites),
            self.bounding_ok(),
            self.size_ok(),
        ensures
            after.draw_ok(sprites),
            after.bounding_ok(),
            after.size_ok(),
    {
    }

    /// Drawing and measuring cannot fail, whatever the clock says: a
    /// sprite's sprite exists and so does every frame its animation can
    /// show. Every other drawable always draws.
    pub open spec fn draws_surely(&self, sprites: SpriteRegistry) -> bool {
        match self {
            Drawable::Sprite(sp) => sp.sprite_id < sprites.sprites@.len() && frames_exist(
                sp.animation_type,
                sprites.sprites@[sp.sprite_id as int].frames@.len(),
            ),
            _ => true,
        }
    }

    /// A drawable that draws surely gives draws and a size, and still
    /// draws surely after drawing.
    pub proof fn lemma_draws_surely(&self, after: Drawable, sprites: SpriteRegistry, r: Result<Vec<BasicDraw>, DrawError>)
        requires
            self.draw_result(after, sprites, r),
            self.draw_ok(sprites),
            self.draws_surely(sprites),
        ensures
            r is Ok,
            after.spec_size(sprites) is Ok,
            after.draws_surely(sprites),
    {
        match *self {
            Drawable::Sprite(sp) => {
                let sprite = sprites.sprites@[sp.sprite_id as int];
                let e = choose|e: u128| e <= 18446744073709551615999u128 && #[trigger] sp.spec_draw_result(sprite, e, r);
                lemma_selected_frame_exists(sp.animation_type, sprite.frames@.len(), e);
            },
            _ => {},
        }
    }

    /// Rasterises the drawable.
    pub fn draw(&mut self, sprites: &SpriteRegistry) -> (r: Result<Vec<BasicDraw>, DrawError>)
        requires
            old(self).draw_ok(*sprites),
        ensures
            old(self).draw_result(*final(self), *sprites, r),
    {
        match self {
            Drawable::Line(l) => Ok(l.draw()),
            Drawable::Rect(rd) => Ok(rd.draw()),
            Drawable::Circle(c) => Ok(c.draw()),
            Drawable::Sprite(sp) => sp.draw(sprites),
            Drawable::VideoStream(v) => Ok(v.draw()),
        }
    }

    /// The row map of the drawable can be computed: a rectangle's border
    /// fits `usize` (see `RectDrawable::bounding_iv`), a circle's squared
    /// radius fits `i32`, and sprite and stream positions leave room for a
    /// full frame.
    pub open spec fn bounding_ok(&self) -> bool {
        match self {
            Drawable::Line(_) => true,
            Drawable::Rect(r) => r.border_thickness == 0 || r.fill_style is Some || r.rect.p1.y > r.rect.p2.y || (
            r.rect.p1.y + r.border_thickness <= usize::MAX && r.border_thickness <= r.rect.p2.y && (r.rect.p1.y
                + r.border_thickness <= r.rect.p2.y - r.border_thickness ==> r.rect.p1.x + r.border_thickness
                <= usize::MAX)),
            Drawable::Circle(c) => c.radius_ok(),
            Drawable::Sprite(sp) => sp.position.x + 65535 <= i32::MAX && sp.position.y + 65535 <= i32::MAX,
            Drawable::VideoStream(v) => v.position_ok(),
        }
    }

    /// The rows that may change when the drawable is drawn, per variant.
    pub open spec fn spec_bounding(&self, sprites: SpriteRegistry) -> Map<u16, Seq<UpdateInterval>> {
        match self {
            Drawable::Line(l) => l.spec_bounding(),
            Drawable::Rect(r) => r.spec_bounding(),
            Drawable::Circle(c) => c.spec_bounding(),
            Drawable::Sprite(sp) => sp.spec_bounding(sprites),
            Drawable::VideoStream(v) => v.spec_bounding(),
        }
    }

    pub fn bounding_iv(&self, sprites: &SpriteRegistry) -> (m: HashMap<u16, Vec<UpdateInterval>>)
        requires
            self.bounding_ok(),
        ensures
            rows_view(m@) == self.spec_bounding(*sprites),
    {
        match self {
            Drawable::Line(l) => l.bounding_iv(),
            Drawable::Rect(r) => r.bounding_iv(),
            Drawable::Circle(c) => c.bounding_iv(),
            Drawable::Sprite(sp) => sp.bounding_iv(sprites),
            Drawable::VideoStream(v) => v.bounding_iv(),
        }
    }

    /// Whether the drawable can be drawn, bounded and measured without
    /// arithmetic failure (see `draw_ok`, `bounding_ok`, `size_ok`).
    pub fn check_usable(&self, sprites: &SpriteRegistry) -> (b: bool)
        ensures
            b == (self.draw_ok(*sprites) && self.bounding_ok() && self.size_ok()),
    {
        match self {
            Drawable::Line(l) => {
                let w: u16 = if l.start.x >= l.end.x { l.start.x - l.end.x } else { l.end.x - l.start.x };
                let h: u16 = if l.start.y >= l.end.y { l.start.y - l.end.y } else { l.end.y - l.start.y };
                assert(w == l.width_span() && h == l.height_span());
                w < 65535 && h < 65535
            },
            Drawable::Rect(r) => {
                let p1 = r.rect.p1;
                let p2 = r.rect.p2;
                if !(p1.x <= p2.x && p1.y <= p2.y) {
                    return false;
                }
                let ghost cols_i: int = p2.x - p1.x + 1;
                let ghost rows_i: int = p2.y - p1.y + 1;
                assert(cols_i >= 1 && rows_i >= 1);
                let cells_fit = match ((p2.x - p1.x).checked_add(1), (p2.y - p1.y).checked_add(1)) {
                    (Some(cols), Some(rows)) => cols.checked_mul(rows).is_some(),
                    _ => {
                        assert(cols_i * rows_i >= cols_i && cols_i * rows_i >= rows_i) by (nonlinear_arith)
                            requires
                                cols_i >= 1,
                                rows_i >= 1,
                        ;
                        false
                    },
                };
                if !cells_fit {
                    return false;
                }
                let t = r.border_thickness;
                if t == 0 || r.fill_style.is_some() {
                    return true;
                }
                match p1.y.checked_add(t) {
                    None => false,
                    Some(top) => {
                        if t > p2.y {
                            false
                        } else if top <= p2.y - t {
                            p1.x.checked_add(t).is_some()
                        } else {
                            true
                        }
                    },
                }
            },
            Drawable::Circle(c) => {
                let r: u64 = c.radius as u64;
                assert(r * r <= 65535 * 65535) by (nonlinear_arith)
                    requires
                        r <= 65535,
                ;
                assert(2 * c.radius * c.radius == 2 * (r * r)) by (nonlinear_arith)
                    requires
                        r == c.radius,
                ;
                2 * (r * r) <= 2147483647 && c.radius <= 32767
            },
            Drawable::Sprite(sp) => {
                if !sprites.check_wf() {
                    return false;
                }
                let anim_ok = match sprites.get(&sp.sprite_id) {
                    Some(s) => crate::sprites::check_animation(&sp.animation_type, s.frames.len()),
                    None => true,
                };
                anim_ok && sp.position.x <= 2147418112 && sp.position.y <= 2147418112
            },
            Drawable::VideoStream(v) => v.position.x <= 2147418112 && v.position.y <= 2147418112,
        }
    }

    /// Whether the first corner can be moved to `p` (see `set_start_ok`).
    pub fn check_set_start(&self, p: PointU16) -> (b: bool)
        ensures
            b == self.set_start_ok(p),
    {
        match self {
            Drawable::Circle(c) => {
                let e = c.end();
                p.x as u32 + e.x as u32 <= 65535 && p.y as u32 + e.y as u32 <= 65535
            },
            _ => true,
        }
    }

    /// Whether the second corner can be moved to `p` (see `set_end_ok`).
    pub fn check_set_end(&self, p: PointU16) -> (b: bool)
        ensures
            b == self.set_end_ok(p),
    {
        match self {
            Drawable::Circle(c) => {
                let s = c.start();
                p.x as u32 + s.x as u32 <= 65535 && p.y as u32 + s.y as u32 <= 65535
            },
            _ => true,
        }
    }

    /// A copy of a two-point drawable (lines, rectangles and circles are
    /// plain values); `None` for the others.
    pub fn copy_shape(&self) -> (r: Option<Drawable>)
        ensures
            self.spec_corners() is Some ==> r == Some(*self),
            self.spec_corners() is None ==> r is None,
    {
        match self {
            Drawable::Line(l) => Some(Drawable::Line(*l)),
            Drawable::Rect(r) => Some(Drawable::Rect(*r)),
            Drawable::Circle(c) => Some(Drawable::Circle(*c)),
            _ => None,
        }
    }

    /// Whether the drawable can be given the new points and stays usable
    /// (see `replace_points_ok`, `spec_replace_points`, `check_usable`).
    pub fn check_replace_points(&self, pts: &Vec<Point>, sprites: &SpriteRegistry) -> (b: bool)
        ensures
            b == (self.replace_points_ok(pts@) && self.spec_replace_points(pts@).draw_ok(*sprites)
                && self.spec_replace_points(pts@).bounding_ok() && self.spec_replace_points(pts@).size_ok()),
    {
        match self.copy_shape() {
            Some(mut probe) => {
                if pts.len() == 2 {
                    let g0 = PointU16::from_point_clamped(pts[0]);
                    let g1 = PointU16::from_point_clamped(pts[1]);
                    if !probe.check_set_start(g0) {
                        return false;
                    }
                    probe.set_start(g0);
                    if !probe.check_set_end(g1) {
                        return false;
                    }
                    probe.set_end(g1);
                }
                probe.check_usable(sprites)
            },
            None => {
                let pos = match self {
                    Drawable::Sprite(sp) => sp.position,
                    Drawable::VideoStream(v) => v.position,
                    _ => Point { x: 0, y: 0 },
                };
                let p = if pts.len() == 1 { pts[0] } else { pos };
                match self {
                    Drawable::Sprite(sp) => {
                        if !sprites.check_wf() {
                            return false;
                        }
                        let anim_ok = match sprites.get(&sp.sprite_id) {
                            Some(s) => crate::sprites::check_animation(&sp.animation_type, s.frames.len()),
                            None => true,
                        };
                        anim_ok && p.x <= 2147418112 && p.y <= 2147418112
                    },
                    _ => p.x <= 2147418112 && p.y <= 2147418112,
                }
            },
        }
    }

    /// The size can be computed without overflow.


    pub open spec fn size_ok(&self) -> bool {
        match self {
            Drawable::Line(l) => l.width_span() < 65535 && l.height_span() < 65535,
            Drawable::Rect(r) => r.ordered(),
            Drawable::Circle(c) => c.radius <= 32767,
            _ => true,
        }
    }

    /// Width and height of the drawable, per variant; a missing sprite is
    /// an error.
    pub open spec fn spec_size(&self, sprites: SpriteRegistry) -> Result<(u16, u16), DrawError> {
        match self {
            Drawable::Line(l) => Ok(((l.width_span() + 1) as u16, (l.height_span() + 1) as u16)),
            Drawable::Rect(rd) => Ok(((rd.rect.p2.x - rd.rect.p1.x) as u16, (rd.rect.p2.y - rd.rect.p1.y) as u16)),
            Drawable::Circle(c) => Ok(((2 * c.radius) as u16, (2 * c.radius) as u16)),
            Drawable::Sprite(sp) => if sp.sprite_id < sprites.sprites@.len() {
                Ok(
                    (
                        sprites.sprites@[sp.sprite_id as int].height,
                        sprites.sprites@[sp.sprite_id as int].width,
                    ),
                )
            } else {
                Err(DrawError::SpriteNotFound(sp.sprite_id))
            },
            Drawable::VideoStream(v) => Ok(v.size),
        }
    }

    pub fn size(&self, sprites: &SpriteRegistry) -> (r: Result<(u16, u16), DrawError>)
        requires
            self.size_ok(),
        ensures
            r == self.spec_size(*sprites),
    {
        match self {
            Drawable::Line(l) => Ok(l.size()),
            Drawable::Rect(r) => Ok(r.size()),
            Drawable::Circle(c) => Ok(c.size()),
            Drawable::Sprite(sp) => sp.size(sprites),
            Drawable::VideoStream(v) => Ok(v.size),
        }
    }

    /// The corner shaders measure from: the start point of two-point
    /// drawables, the position of positioned ones.
    pub open spec fn spec_top_left(&self) -> Point {
        match self {
            Drawable::Line(l) => l.start.as_point(),
            Drawable::Rect(r) => Point { x: (r.rect.p1.x as u16) as i32, y: (r.rect.p1.y as u16) as i32 },
            Drawable::Circle(c) => c.spec_start().as_point(),
            Drawable::Sprite(sp) => sp.position,
            Drawable::VideoStream(v) => v.position,
        }
    }

    pub fn get_top_left(&self) -> (p: Option<Point>)
        ensures
            p == Some(self.spec_top_left()),
    {
        match self {
            Drawable::Line(l) => Some(l.start.to_point()),
            Drawable::Rect(r) => Some(r.start().to_point()),
            Drawable::Circle(c) => Some(c.start().to_point()),
            Drawable::Sprite(sp) => Some(sp.position),
            Drawable::VideoStream(v) => Some(v.position),
        }
    }
}

/// `x` clamped to `[0, i32::MAX]`.
pub open spec fn clamp_nonneg(x: int) -> i32 {
    if x < 0 {
        0
    } else if x > i32::MAX {
        i32::MAX
    } else {
        x as i32
    }
}

/// The grid point of an `i32` point: both coordinates clamped into `u16`.
pub open spec fn grid_point(p: Point) -> PointU16 {
    PointU16 { x: spec_clamp_to_u16(p.x), y: spec_clamp_to_u16(p.y) }
}

impl Drawable {
    /// The two corners of a two-point drawable (line, rectangle, circle).
    pub open spec fn spec_corners(&self) -> Option<(PointU16, PointU16)> {
        match self {
            Drawable::Line(l) => Some((l.start, l.end)),
            Drawable::Rect(r) => Some(
                (
                    PointU16 { x: r.rect.p1.x as u16, y: r.rect.p1.y as u16 },
                    PointU16 { x: r.rect.p2.x as u16, y: r.rect.p2.y as u16 },
                ),
            ),
            Drawable::Circle(c) => Some((c.spec_start(), c.spec_end())),
            _ => None,
        }
    }

    /// The position of a one-point drawable (sprite, stream).
    pub open spec fn spec_position(&self) -> Option<Point> {
        match self {
            Drawable::Sprite(sp) => Some(sp.position),
            Drawable::VideoStream(v) => Some(v.position),
            _ => None,
        }
    }

    /// Moving the first corner of a circle keeps its coordinate sums in
    /// `u16`; other drawables take any corner.
    pub open spec fn set_start_ok(&self, p: PointU16) -> bool {
        match self {
            Drawable::Circle(c) => p.x + c.spec_end().x <= 65535 && p.y + c.spec_end().y <= 65535,
            _ => true,
        }
    }

    pub open spec fn set_end_ok(&self, p: PointU16) -> bool {
        match self {
            Drawable::Circle(c) => p.x + c.spec_start().x <= 65535 && p.y + c.spec_start().y <= 65535,
            _ => true,
        }
    }

    /// The drawable with its first corner moved to `p`.
    pub open spec fn spec_set_start(self, p: PointU16) -> Drawable {
        match self {
            Drawable::Line(l) => Drawable::Line(LineDrawable { start: p, ..l }),
            Drawable::Rect(r) => Drawable::Rect(
                RectDrawable { rect: RectUsize { p1: PointUsize { x: p.x as usize, y: p.y as usize }, p2: r.rect.p2 }, ..r },
            ),
            Drawable::Circle(c) => Drawable::Circle(c.spec_with_corners(p, c.spec_end())),
            _ => self,
        }
    }

    /// The drawable with its second corner moved to `p`.
    pub open spec fn spec_set_end(self, p: PointU16) -> Drawable {
        match self {
            Drawable::Line(l) => Drawable::Line(LineDrawable { end: p, ..l }),
            Drawable::Rect(r) => Drawable::Rect(
                RectDrawable { rect: RectUsize { p1: r.rect.p1, p2: PointUsize { x: p.x as usize, y: p.y as usize } }, ..r },
            ),
            Drawable::Circle(c) => Drawable::Circle(c.spec_with_corners(c.spec_start(), p)),
            _ => self,
        }
    }

    pub fn set_start(&mut self, p: PointU16)
        requires
            old(self).set_start_ok(p),
        ensures
            *final(self) == old(self).spec_set_start(p),
    {
        match self {
            Drawable::Line(l) => {
                l.start = p;
            },
            Drawable::Rect(r) => r.set_start(p),
            Drawable::Circle(c) => c.set_start(p),
            _ => {},
        }
    }

    pub fn set_end(&mut self, p: PointU16)
        requires
            old(self).set_end_ok(p),
        ensures
            *final(self) == old(self).spec_set_end(p),
    {
        match self {
            Drawable::Line(l) => {
                l.end = p;
            },
            Drawable::Rect(r) => r.set_end(p),
            Drawable::Circle(c) => c.set_end(p),
            _ => {},
        }
    }

    /// The corners of a two-point drawable.
    pub fn corners(&self) -> (r: Option<(PointU16, PointU16)>)
        ensures
            r == self.spec_corners(),
    {
        match self {
            Drawable::Line(l) => Some((l.start, l.end)),
            Drawable::Rect(r) => Some((r.start(), r.end())),
            Drawable::Circle(c) => Some((c.start(), c.end())),
            _ => None,
        }
    }

    /// The drawable with its position (if it has one) set to `p`.
    pub open spec fn spec_set_position(self, p: Point) -> Drawable {
        match self {
            Drawable::Sprite(sp) => Drawable::Sprite(SpriteDrawable { position: p, ..sp }),
            Drawable::VideoStream(v) => Drawable::VideoStream(VideoStreamDrawable { position: p, ..v }),
            _ => self,
        }
    }

    /// Moves a one-point drawable; others are kept.
    pub fn set_position(&mut self, p: Point)
        ensures
            *final(self) == old(self).spec_set_position(p),
    {
        match self {
            Drawable::Sprite(sp) => {
                sp.position = p;
            },
            Drawable::VideoStream(v) => {
                v.position = p;
            },
            _ => {},
        }
    }

    /// Where `move_to` puts the second corner: the old one shifted like
    /// the first, clamped into `u16`.
    pub open spec fn moved_end(&self, new_pos: Point) -> PointU16 {
        let (s, e) = self.spec_corners()->Some_0;
        PointU16 {
            x: spec_clamp_to_u16((e.x + (new_pos.x - s.x)) as i32),
            y: spec_clamp_to_u16((e.y + (new_pos.y - s.y)) as i32),
        }
    }

    /// `move_to` can be carried out: the shift fits `i32` and a circle's
    /// corner sums fit `u16`.
    pub open spec fn move_to_ok(&self, new_pos: Point) -> bool {
        self.spec_corners() is Some ==> {
            &&& i32::MIN + 65535 <= new_pos.x <= i32::MAX - 65535
            &&& i32::MIN + 65535 <= new_pos.y <= i32::MAX - 65535
            &&& self.set_start_ok(grid_point(new_pos))
            &&& self.spec_set_start(grid_point(new_pos)).set_end_ok(self.moved_end(new_pos))
        }
    }

    /// Moves the drawable so that its first corner (or its position) is
    /// at `new_pos`: a two-point drawable moves its second corner by the
    /// same amount (both clamped into `u16`).
    pub open spec fn spec_move_to(self, new_pos: Point) -> Drawable {
        if self.spec_corners() is Some {
            self.spec_set_start(grid_point(new_pos)).spec_set_end(self.moved_end(new_pos))
        } else {
            match self {
                Drawable::Sprite(sp) => Drawable::Sprite(SpriteDrawable { position: new_pos, ..sp }),
                Drawable::VideoStream(v) => Drawable::VideoStream(VideoStreamDrawable { position: new_pos, ..v }),
                _ => self,
            }
        }
    }

    pub fn move_to(&mut self, new_pos: Point)
        requires
            old(self).move_to_ok(new_pos),
        ensures
            *final(self) == old(self).spec_move_to(new_pos),
    {
        match self.corners() {
            Some((s, e)) => {
                let dx: i32 = new_pos.x - s.x as i32;
                let dy: i32 = new_pos.y - s.y as i32;
                let ex = crate::geometry::clamp_to_u16(e.x as i32 + dx);
                let ey = crate::geometry::clamp_to_u16(e.y as i32 + dy);
                self.set_start(PointU16::from_point_clamped(new_pos));
                self.set_end(PointU16 { x: ex, y: ey });
            },
            None => {
                self.set_position(new_pos);
            },
        }
    }

    /// `p` shifted by `(dx, dy)`, each coordinate clamped to
    /// `[0, i32::MAX]`.
    pub open spec fn shift_clamped(p: Point, dx: i32, dy: i32) -> Point {
        Point { x: clamp_nonneg(p.x + dx), y: clamp_nonneg(p.y + dy) }
    }

    /// `move_by` can be carried out without overflow.
    pub open spec fn move_by_ok(&self, dx: i32, dy: i32) -> bool {
        match self.spec_corners() {
            Some((s, e)) => {
                &&& dx <= i32::MAX - 65535
                &&& dy <= i32::MAX - 65535
                &&& self.set_start_ok(grid_point(Self::shift_clamped(s.as_point(), dx, dy)))
                &&& self.spec_set_start(grid_point(Self::shift_clamped(s.as_point(), dx, dy))).set_end_ok(
                    grid_point(Self::shift_clamped(e.as_point(), dx, dy)),
                )
            },
            None => match self.spec_position() {
                Some(p) => i32::MIN <= p.x + dx <= i32::MAX && i32::MIN <= p.y + dy <= i32::MAX,
                None => true,
            },
        }
    }

    /// The drawable moved by `(dx, dy)`: corners or position shifted and
    /// clamped to `[0, i32::MAX]` (corners then into `u16`).
    pub open spec fn spec_move_by(self, dx: i32, dy: i32) -> Drawable {
        match self.spec_corners() {
            Some((s, e)) => self.spec_set_start(grid_point(Self::shift_clamped(s.as_point(), dx, dy))).spec_set_end(
                grid_point(Self::shift_clamped(e.as_point(), dx, dy)),
            ),
            None => match self {
                Drawable::Sprite(sp) => Drawable::Sprite(
                    SpriteDrawable { position: Self::shift_clamped(sp.position, dx, dy), ..sp },
                ),
                Drawable::VideoStream(v) => Drawable::VideoStream(
                    VideoStreamDrawable { position: Self::shift_clamped(v.position, dx, dy), ..v },
                ),
                _ => self,
            },
        }
    }

    /// `p` shifted by `(dx, dy)` and clamped (see `shift_clamped`).
    pub fn shift_clamped_exec(p: Point, dx: i32, dy: i32) -> (q: Point)
        requires
            i32::MIN <= p.x + dx <= i32::MAX,
            i32::MIN <= p.y + dy <= i32::MAX,
        ensures
            q == Self::shift_clamped(p, dx, dy),
    {
        let x = p.x + dx;
        let y = p.y + dy;
        Point { x: if x < 0 { 0 } else { x }, y: if y < 0 { 0 } else { y } }
    }

    pub fn move_by(&mut self, dx: i32, dy: i32)
        requires
            old(self).move_by_ok(dx, dy),
        ensures
            *final(self) == old(self).spec_move_by(dx, dy),
    {
        match self.corners() {
            Some((s, e)) => {
                let ns = Self::shift_clamped_exec(s.to_point(), dx, dy);
                let ne = Self::shift_clamped_exec(e.to_point(), dx, dy);
                self.set_start(PointU16::from_point_clamped(ns));
                self.set_end(PointU16::from_point_clamped(ne));
            },
            None => {
                let pos = match self {
                    Drawable::Sprite(sp) => sp.position,
                    Drawable::VideoStream(v) => v.position,
                    _ => Point { x: 0, y: 0 },
                };
                let np = Self::shift_clamped_exec(pos, dx, dy);
                self.set_position(np);
            },
        }
    }

    /// `move_point` can be carried out.
    pub open spec fn move_point_ok(&self, point_index: usize, new_pos: Point) -> bool {
        let c = grid_point(Point { x: clamp_nonneg(new_pos.x as int), y: clamp_nonneg(new_pos.y as int) });
        (point_index == 0 ==> self.set_start_ok(c)) && (point_index == 1 ==> self.set_end_ok(c))
    }

    /// Moves corner `point_index` (0 or 1) of a two-point drawable to
    /// `new_pos` clamped to `[0, i32::MAX]` (and into `u16`); other
    /// indices and drawables are kept.
    pub open spec fn spec_move_point(self, point_index: usize, new_pos: Point) -> Drawable {
        let c = grid_point(Point { x: clamp_nonneg(new_pos.x as int), y: clamp_nonneg(new_pos.y as int) });
        if self.spec_corners() is Some && point_index == 0 {
            self.spec_set_start(c)
        } else if self.spec_corners() is Some && point_index == 1 {
            self.spec_set_end(c)
        } else {
            self
        }
    }

    pub fn move_point(&mut self, point_index: usize, new_pos: Point)
        requires
            old(self).move_point_ok(point_index, new_pos),
        ensures
            *final(self) == old(self).spec_move_point(point_index, new_pos),
    {
        if self.corners().is_some() {
            let c = Point { x: if new_pos.x < 0 { 0 } else { new_pos.x }, y: if new_pos.y < 0 { 0 } else { new_pos.y } };
            let g = PointU16::from_point_clamped(c);
            if point_index == 0 {
                self.set_start(g);
            } else if point_index == 1 {
                self.set_end(g);
            }
        }
    }

    /// `replace_points` can be carried out: a two-point drawable given two
    /// points can take them as its corners.
    pub open spec fn replace_points_ok(&self, pts: Seq<Point>) -> bool {
        self.spec_corners() is Some && pts.len() == 2 ==> {
            &&& self.set_start_ok(grid_point(pts[0]))
            &&& self.spec_set_start(grid_point(pts[0])).set_end_ok(grid_point(pts[1]))
        }
    }

    /// The drawable defined by new points: a two-point drawable given two
    /// points takes them as its corners (clamped into `u16`), a positioned
    /// drawable given one point takes it as its position; otherwise the
    /// drawable is kept.
    pub open spec fn spec_replace_points(self, pts: Seq<Point>) -> Drawable {
        if self.spec_corners() is Some {
            if pts.len() == 2 {
                self.spec_set_start(grid_point(pts[0])).spec_set_end(grid_point(pts[1]))
            } else {
                self
            }
        } else if pts.len() == 1 {
            self.spec_set_position(pts[0])
        } else {
            self
        }
    }

    pub fn replace_points(&mut self, pts: &Vec<Point>)
        requires
            old(self).replace_points_ok(pts@),
        ensures
            *final(self) == old(self).spec_replace_points(pts@),
    {
        if self.corners().is_some() {
            if pts.len() == 2 {
                self.set_start(PointU16::from_point_clamped(pts[0]));
                self.set_end(PointU16::from_point_clamped(pts[1]));
            }
        } else if pts.len() == 1 {
            self.set_position(pts[0]);
        }
    }

    /// How many points define the drawable: two for two-point drawables,

    /// one for positioned ones.
    pub fn get_amount_of_points(&self) -> (n: Option<usize>)
        ensures
            self.spec_corners() is Some ==> n == Some(2usize),
            self.spec_position() is Some ==> n == Some(1usize),
    {
        match self {
            Drawable::Line(_) | Drawable::Rect(_) | Drawable::Circle(_) => Some(2),
            Drawable::Sprite(_) | Drawable::VideoStream(_) => Some(1),
        }
    }
}

/// `o` moved `k` cells in direction `s`.
pub open spec fn walk(o: int, s: int, k: int) -> int {
    if s == 1 {
        o + k
    } else {
        o - k
    }
}

/// The next offsets of Bresenham's walk on a line spanning `w` columns and
/// `h` rows, from `a` columns and `b` rows walked so far: with
/// `e = w - h + b * w - a * h` the error term, the walk advances a column
/// when `2e >= -h` and a row when `2e <= w` (`> -h` and `< w` when
/// `strict`).
pub open spec fn bres_next(w: int, h: int, a: int, b: int, strict: bool) -> (int, int) {
    let e2 = 2 * (w - h + b * w - a * h);
    let mx = if strict {
        e2 > -h
    } else {
        e2 >= -h
    };
    let my = if strict {
        e2 < w
    } else {
        e2 <= w
    };
    (
        if mx {
            a + 1
        } else {
            a
        },
        if my {
            b + 1
        } else {
            b
        },
    )
}

/// The offsets Bresenham's walk visits from `(a, b)` on, `(a, b)` first,
/// until it reaches `(w, h)` (it stops early only off the grid or where it
/// would not move, which the walk from `(0, 0)` never does).
pub open spec fn bres_offsets(w: int, h: int, a: int, b: int, strict: bool) -> Seq<(int, int)>
    decreases (w - a) + (h - b) + 2,
{
    let n = bres_next(w, h, a, b, strict);
    if a > w || b > h || (a == w && b == h) || n == (a, b) {
        seq![(a, b)]
    } else {
        seq![(a, b)] + bres_offsets(w, h, n.0, n.1, strict)
    }
}

/// The grid cell at offsets `o` along the line from `p1` to `p2`.
pub open spec fn bres_cell(p1: Point, p2: Point, o: (int, int)) -> Point {
    Point {
        x: walk(p1.x as int, step_dir(p1.x as int, p2.x as int), o.0) as i32,
        y: walk(p1.y as int, step_dir(p1.y as int, p2.y as int), o.1) as i32,
    }
}

/// The cells of the straight line from `p1` to `p2` as Bresenham's walk
/// visits them, both ends included.
pub open spec fn bres_line(p1: Point, p2: Point, strict: bool) -> Seq<Point> {
    let w = abs_diff(p1.x as int, p2.x as int);
    let h = abs_diff(p1.y as int, p2.y as int);
    bres_offsets(w, h, 0, 0, strict).map_values(|o: (int, int)| bres_cell(p1, p2, o))
}

/// One step of Bresenham's walk, with `a` and `b` the steps taken so far
/// along `x` and `y` and `err` the error term: unless the walk is done, it
/// moves along at least one axis, never past the end, and keeps the error
/// term's closed form and bounds.
proof fn lemma_bresenham_step(w: int, h: int, a: int, b: int, err: int)
    requires
        0 <= w,
        0 <= h,
        0 <= a <= w,
        0 <= b <= h,
        !(a == w && b == h),
        err == w - h + b * w - a * h,
        -3 * h <= 2 * err <= 3 * w,
    ensures
        2 * err >= -h || 2 * err <= w,
        2 * err >= -h ==> a < w,
        2 * err <= w ==> b < h,
        ({
            let a2 = if 2 * err >= -h { a + 1 } else { a };
            let b2 = if 2 * err <= w { b + 1 } else { b };
            let e2 = err + (if 2 * err >= -h { -h } else { 0 }) + (if 2 * err <= w { w } else { 0 });
            &&& e2 == w - h + b2 * w - a2 * h
            &&& -3 * h <= 2 * e2 <= 3 * w
        }),
{
    if a == w {
        assert(b < h);
        assert(w * (1 + b - h) <= 0) by (nonlinear_arith)
            requires
                w >= 0,
                1 + b - h <= 0,
        ;
        assert(err == w * (1 + b - h) - h) by (nonlinear_arith)
            requires
                err == w - h + b * w - a * h,
                a == w,
        ;
    }
    if b == h {
        assert(a < w);
        assert(h * (1 + a) <= h * w) by (nonlinear_arith)
            requires
                h >= 0,
                1 + a <= w,
        ;
        assert(err == w * (1 + h) - h * (1 + a)) by (nonlinear_arith)
            requires
                err == w - h + b * w - a * h,
                b == h,
        ;
        assert(err >= w) by (nonlinear_arith)
            requires
                err == w * (1 + h) - h * (1 + a),
                h * (1 + a) <= h * w,
        ;
    }
    assert((a + 1) * h == a * h + h) by (nonlinear_arith);
    assert((b + 1) * w == b * w + w) by (nonlinear_arith);
}

/// Bresenham's walk on a line wider than tall advances a column on every
/// step, so it visits one cell per column still ahead.
proof fn lemma_bres_len_wide(w: int, h: int, a: int, b: int)
    requires
        0 <= h <= w,
        0 <= a <= w,
        0 <= b <= h,
        -3 * h <= 2 * (w - h + b * w - a * h) <= 3 * w,
        2 * (w - h + b * w - a * h) >= -h,
    ensures
        bres_offsets(w, h, a, b, false).len() == w - a + 1,
        forall|i: int| 0 <= i <= w - a ==> (#[trigger] bres_offsets(w, h, a, b, false)[i]).0 == a + i,
    decreases w - a,
{
    let err = w - h + b * w - a * h;
    if a == w && b == h {
    } else {
        lemma_bresenham_step(w, h, a, b, err);
        let n = bres_next(w, h, a, b, false);
        assert(n.0 == a + 1);
        let e2 = w - h + n.1 * w - n.0 * h;
        if 2 * err <= w {
            assert(2 * e2 >= -h);
        } else {
            assert(2 * e2 >= -h);
        }
        lemma_bres_len_wide(w, h, n.0, n.1);
        let rest = bres_offsets(w, h, n.0, n.1, false);
        assert(bres_offsets(w, h, a, b, false) == seq![(a, b)] + rest);
        assert forall|i: int| 0 <= i <= w - a implies (#[trigger] bres_offsets(w, h, a, b, false)[i]).0 == a + i by {
            if i > 0 {
                assert(bres_offsets(w, h, a, b, false)[i] == rest[i - 1]);
            }
        }
    }
}

/// Bresenham's walk on a line taller than wide advances a row on every
/// step, so it visits one cell per row still ahead.
proof fn lemma_bres_len_tall(w: int, h: int, a: int, b: int)
    requires
        0 <= w <= h,
        0 <= a <= w,
        0 <= b <= h,
        -3 * h <= 2 * (w - h + b * w - a * h) <= 3 * w,
        2 * (w - h + b * w - a * h) <= w,
    ensures
        bres_offsets(w, h, a, b, false).len() == h - b + 1,
        forall|i: int| 0 <= i <= h - b ==> (#[trigger] bres_offsets(w, h, a, b, false)[i]).1 == b + i,
    decreases h - b,
{
    let err = w - h + b * w - a * h;
    if a == w && b == h {
    } else {
        lemma_bresenham_step(w, h, a, b, err);
        let n = bres_next(w, h, a, b, false);
        assert(n.1 == b + 1);
        lemma_bres_len_tall(w, h, n.0, n.1);
        let rest = bres_offsets(w, h, n.0, n.1, false);
        assert(bres_offsets(w, h, a, b, false) == seq![(a, b)] + rest);
        assert forall|i: int| 0 <= i <= h - b implies (#[trigger] bres_offsets(w, h, a, b, false)[i]).1 == b + i by {
            if i > 0 {
                assert(bres_offsets(w, h, a, b, false)[i] == rest[i - 1]);
            }
        }
    }
}

/// Bresenham's walk, from any point on its way, ends at the far end.
proof fn lemma_bres_ends_at_far_end(w: int, h: int, a: int, b: int)
    requires
        0 <= w,
        0 <= h,
        0 <= a <= w,
        0 <= b <= h,
        -3 * h <= 2 * (w - h + b * w - a * h) <= 3 * w,
    ensures
        bres_offsets(w, h, a, b, false).len() >= 1,
        bres_offsets(w, h, a, b, false)[0] == (a, b),
        bres_offsets(w, h, a, b, false).last() == (w, h),
    decreases (w - a) + (h - b),
{
    let err = w - h + b * w - a * h;
    if a == w && b == h {
    } else {
        lemma_bresenham_step(w, h, a, b, err);
        let n = bres_next(w, h, a, b, false);
        assert(n != (a, b));
        lemma_bres_ends_at_far_end(w, h, n.0, n.1);
        let rest = bres_offsets(w, h, n.0, n.1, false);
        assert(bres_offsets(w, h, a, b, false) == seq![(a, b)] + rest);
    }
}

/// The line from `p1` to `p2` starts at `p1` and ends at `p2`.
pub proof fn line_runs_from_end_to_end(p1: Point, p2: Point)
    ensures
        bres_line(p1, p2, false).len() >= 1,
        bres_line(p1, p2, false)[0] == p1,
        bres_line(p1, p2, false).last() == p2,
{
    let w = abs_diff(p1.x as int, p2.x as int);
    let h = abs_diff(p1.y as int, p2.y as int);
    assert(-3 * h <= 2 * (w - h) <= 3 * w);
    lemma_bres_ends_at_far_end(w, h, 0, 0);
    let offs = bres_offsets(w, h, 0, 0, false);
    let cells = bres_line(p1, p2, false);
    assert(cells[0] == bres_cell(p1, p2, offs[0]));
    assert(cells.last() == bres_cell(p1, p2, offs.last()));
}

/// The line from `p1` to `p2` drawn by `LineDrawable::draw` has one cell
/// per column or per row, whichever the line spans more of:
/// `max(|dx|, |dy|) + 1` cells, no two the same.
pub proof fn line_drawable_cell_count(p1: Point, p2: Point)
    ensures
        bres_line(p1, p2, false).len() == (if abs_diff(p1.x as int, p2.x as int) >= abs_diff(p1.y as int, p2.y as int) {
            abs_diff(p1.x as int, p2.x as int)
        } else {
            abs_diff(p1.y as int, p2.y as int)
        }) + 1,
        bres_line(p1, p2, false).no_duplicates(),
{
    let w = abs_diff(p1.x as int, p2.x as int);
    let h = abs_diff(p1.y as int, p2.y as int);
    let offs = bres_offsets(w, h, 0, 0, false);
    let cells = bres_line(p1, p2, false);
    if w >= h {
        lemma_bres_len_wide(w, h, 0, 0);
        assert forall|i: int, j: int| 0 <= i < cells.len() && 0 <= j < cells.len() && i != j implies cells[i] != cells[j] by {
            assert(offs[i].0 == i && offs[j].0 == j);
            assert(cells[i] == bres_cell(p1, p2, offs[i]) && cells[j] == bres_cell(p1, p2, offs[j]));
        }
    } else {
        lemma_bres_len_tall(w, h, 0, 0);
        assert forall|i: int, j: int| 0 <= i < cells.len() && 0 <= j < cells.len() && i != j implies cells[i] != cells[j] by {
            assert(offs[i].1 == i && offs[j].1 == j);
            assert(cells[i] == bres_cell(p1, p2, offs[i]) && cells[j] == bres_cell(p1, p2, offs[j]));
        }
    }
}

/// A straight line between two grid points, drawn with one character.
#[derive(Clone, Copy, Debug)]
pub struct LineDrawable {
    pub start: PointU16,
    pub end: PointU16,
    pub chr: TerminalChar,
}

impl LineDrawable {
    /// `out` holds the cells of Bresenham's walk along the line, in order
    /// and each with the line's character; such a walk has the properties
    /// listed after the first clause (see `draw`).
    pub open spec fn is_line_path(self, out: Seq<BasicDraw>) -> bool {
        &&& out.map_values(|d: BasicDraw| d.pos) == bres_line(self.start.as_point(), self.end.as_point(), false)
        &&& out.len() >= 1
        &&& out[0].pos == self.start.as_point()
        &&& out.last().pos == self.end.as_point()
        &&& forall|i: int|
            0 <= i < out.len() - 1 ==> line_step(
                #[trigger] out[i].pos,
                out[i + 1].pos,
                step_dir(self.start.x as int, self.end.x as int),
                step_dir(self.start.y as int, self.end.y as int),
            )
        &&& forall|i: int| 0 <= i < out.len() ==> (#[trigger] out[i]).chr == self.chr
        &&& forall|i: int| 0 <= i < out.len() ==> near_line(self.start.as_point(), self.end.as_point(), #[trigger] out[i].pos)
        &&& out.len() <= self.width_span() + self.height_span() + 1
        &&& out.len() >= self.width_span() + 1
        &&& out.len() >= self.height_span() + 1
    }

    pub open spec fn width_span(self) -> int {
        abs_diff(self.start.x as int, self.end.x as int)
    }

    pub open spec fn height_span(self) -> int {
        abs_diff(self.start.y as int, self.end.y as int)
    }

    /// The cells of the line, from `start` to `end` (Bresenham): the walk
    /// starts at `start`, ends at `end`, each step moves to one of the
    /// eight neighbours in the direction of `end`, and it takes between
    /// `max(|dx|, |dy|)` and `|dx| + |dy|` steps. Every cell gets the
    /// line's character.
    pub fn draw(&self) -> (out: Vec<BasicDraw>)
        ensures
            self.is_line_path(out@),
    {
        let x0: i32 = self.start.x as i32;
        let y0: i32 = self.start.y as i32;
        let x1: i32 = self.end.x as i32;
        let y1: i32 = self.end.y as i32;
        let w: i32 = if x1 >= x0 {
            x1 - x0
        } else {
            x0 - x1
        };
        let h: i32 = if y1 >= y0 {
            y1 - y0
        } else {
            y0 - y1
        };
        let dy: i32 = -h;
        let sx: i32 = if x0 < x1 {
            1
        } else {
            -1
        };
        let sy: i32 = if y0 < y1 {
            1
        } else {
            -1
        };
        let mut err: i32 = w + dy;
        let mut x = x0;
        let mut y = y0;
        let ghost mut a: int = 0;
        let ghost mut b: int = 0;
        let ghost p1 = self.start.as_point();
        let ghost p2 = self.end.as_point();
        let ghost total = bres_offsets(w as int, h as int, 0, 0, false);
        let ghost mut done: Seq<(int, int)> = Seq::empty();
        let mut out: Vec<BasicDraw> = Vec::new();
        out.push(BasicDraw { pos: Point { x, y }, chr: self.chr });
        proof {
            assert(total =~= done + bres_offsets(w as int, h as int, a, b, false));
        }
        while !(x == x1 && y == y1)
            invariant
                p1 == self.start.as_point(),
                p2 == self.end.as_point(),
                total == bres_offsets(w as int, h as int, 0, 0, false),
                total == done + bres_offsets(w as int, h as int, a, b, false),
                out@.len() == done.len() + 1,
                forall|i: int| 0 <= i < done.len() ==> (#[trigger] out@[i]).pos == bres_cell(p1, p2, done[i]),
                w == self.width_span(),
                h == self.height_span(),
                dy == -h,
                0 <= w <= 65535,
                0 <= h <= 65535,
                x0 == self.start.x,
                y0 == self.start.y,
                x1 == self.end.x,
                y1 == self.end.y,
                sx == step_dir(x0 as int, x1 as int),
                sy == step_dir(y0 as int, y1 as int),
                x1 == walk(x0 as int, sx as int, w as int),
                y1 == walk(y0 as int, sy as int, h as int),
                0 <= a <= w,
                0 <= b <= h,
                x == walk(x0 as int, sx as int, a),
                y == walk(y0 as int, sy as int, b),
                err == w - h + b * w - a * h,
                -3 * h <= 2 * err <= 3 * w,
                out@.len() >= 1,
                out@[0].pos == (Point { x: x0, y: y0 }),
                out@.last().pos == (Point { x, y }),
                forall|i: int| 0 <= i < out@.len() - 1 ==> line_step(#[trigger] out@[i].pos, out@[i + 1].pos, sx as int, sy as int),
                forall|i: int| 0 <= i < out@.len() ==> (#[trigger] out@[i]).chr == self.chr,
                forall|i: int| 0 <= i < out@.len() ==> near_line(self.start.as_point(), self.end.as_point(), #[trigger] out@[i].pos),
                out@.len() <= a + b + 1,
                out@.len() >= a + 1,
                out@.len() >= b + 1,
            decreases (w - a) + (h - b),
        {
            let ghost old_out = out@;
            let ghost ao = a;
            let ghost bo = b;
            proof {
                lemma_bresenham_step(w as int, h as int, a, b, err as int);
                assert(bres_offsets(w as int, h as int, a, b, false) == seq![(a, b)] + bres_offsets(
                    w as int,
                    h as int,
                    bres_next(w as int, h as int, a, b, false).0,
                    bres_next(w as int, h as int, a, b, false).1,
                    false,
                ));
            }
            let e2 = 2 * err;
            if e2 >= dy {
                err = err + dy;
                x = x + sx;
                proof {
                    a = a + 1;
                }
            }
            if e2 <= w {
                err = err + w;
                y = y + sy;
                proof {
                    b = b + 1;
                }
            }
            out.push(BasicDraw { pos: Point { x, y }, chr: self.chr });
            proof {
                assert(out@[old_out.len() - 1] == old_out.last());
                assert((a, b) == bres_next(w as int, h as int, ao, bo, false));
                let old_done = done;
                done = done.push((ao, bo));
                assert(total =~= done + bres_offsets(w as int, h as int, a, b, false)) by {
                    assert(done + bres_offsets(w as int, h as int, a, b, false) =~= old_done + (seq![(ao, bo)]
                        + bres_offsets(w as int, h as int, a, b, false)));
                }
                assert forall|i: int| 0 <= i < done.len() implies (#[trigger] out@[i]).pos == bres_cell(p1, p2, done[i]) by {
                    if i < old_done.len() {
                        assert(out@[i] == old_out[i]);
                    }
                }
                assert(near_line(self.start.as_point(), self.end.as_point(), Point { x, y }));
                assert forall|i: int| 0 <= i < out@.len() implies near_line(self.start.as_point(), self.end.as_point(), #[trigger] out@[i].pos) by {
                    if i < old_out.len() {
                        assert(out@[i] == old_out[i]);
                    }
                }
                assert forall|i: int| 0 <= i < out@.len() - 1 implies line_step(#[trigger] out@[i].pos, out@[i + 1].pos, sx as int, sy as int) by {
                    if i < old_out.len() - 1 {
                        assert(out@[i] == old_out[i]);
                        assert(out@[i + 1] == old_out[i + 1]);
                    }
                }
            }
        }
        proof {
            assert(a == w && b == h);
            assert(bres_offsets(w as int, h as int, a, b, false) == seq![(a, b)]);
            assert(out@.map_values(|d: BasicDraw| d.pos) =~= bres_line(p1, p2, false)) by {
                assert forall|i: int| 0 <= i < out@.len() implies (#[trigger] out@[i]).pos == bres_cell(p1, p2, total[i]) by {
                    if i < done.len() {
                        assert(total[i] == done[i]);
                    } else {
                        assert(total[i] == (a, b));
                    }
                }
            }
        }
        out
    }

    /// Width and height of the line's bounding box, counting both ends.
    pub fn size(&self) -> (s: (u16, u16))
        requires
            self.width_span() < 65535,
            self.height_span() < 65535,
        ensures
            s == ((self.width_span() + 1) as u16, (self.height_span() + 1) as u16),
    {
        let min_x = if self.start.x <= self.end.x { self.start.x } else { self.end.x };
        let max_x = if self.start.x >= self.end.x { self.start.x } else { self.end.x };
        let min_y = if self.start.y <= self.end.y { self.start.y } else { self.end.y };
        let max_y = if self.start.y >= self.end.y { self.start.y } else { self.end.y };
        (max_x - min_x + 1, max_y - min_y + 1)
    }

    pub open spec fn spec_bounding(self) -> Map<u16, Seq<UpdateInterval>> {
        let min_x = if self.start.x <= self.end.x { self.start.x } else { self.end.x };
        let max_x = if self.start.x >= self.end.x { self.start.x } else { self.end.x };
        let min_y = if self.start.y <= self.end.y { self.start.y } else { self.end.y };
        let max_y = if self.start.y >= self.end.y { self.start.y } else { self.end.y };
        spec_rect_rows(min_x as usize, sat_inc_u16(max_x) as usize, min_y as int, sat_inc_u16(max_y) as int)
    }

    /// The rows of the bounding box, each spanning its columns: rows
    /// `[min_y, max_y + 1)` and columns `[min_x, max_x + 1)`, where the
    /// `+ 1` saturates at `u16::MAX`.
    pub fn bounding_iv(&self) -> (m: HashMap<u16, Vec<UpdateInterval>>)
        ensures
            rows_view(m@) == self.spec_bounding(),
    {
        let min_x = if self.start.x <= self.end.x { self.start.x } else { self.end.x };
        let max_x = if self.start.x >= self.end.x { self.start.x } else { self.end.x };
        let min_y = if self.start.y <= self.end.y { self.start.y } else { self.end.y };
        let max_y = if self.start.y >= self.end.y { self.start.y } else { self.end.y };
        rect_rows(min_x as usize, max_x.saturating_add(1) as usize, min_y as u32, max_y.saturating_add(1) as u32)
    }

    /// The same line moved by `offset`.
    pub fn shifted(&self, offset: PointU16) -> (l: LineDrawable)
        requires
            self.start.x + offset.x <= 65535,
            self.start.y + offset.y <= 65535,
            self.end.x + offset.x <= 65535,
            self.end.y + offset.y <= 65535,
        ensures
            l.start == (PointU16 { x: (self.start.x + offset.x) as u16, y: (self.start.y + offset.y) as u16 }),
            l.end == (PointU16 { x: (self.end.x + offset.x) as u16, y: (self.end.y + offset.y) as u16 }),
            l.chr == self.chr,
    {
        LineDrawable {
            start: PointU16 { x: self.start.x + offset.x, y: self.start.y + offset.y },
            end: PointU16 { x: self.end.x + offset.x, y: self.end.y + offset.y },
            chr: self.chr,
        }
    }
}

} // verus!
