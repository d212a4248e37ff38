//! A collector of single-cell draws keyed by position: drawing at a
//! position that already holds a character replaces it.
use crate::cell::{BasicDraw, Color, TerminalChar};
use crate::drawables::{abs_diff, bres_cell, bres_line, bres_next, bres_offsets, line_step, near_line, step_dir, walk};
use crate::geometry::{Point, Rect};
use vstd::prelude::*;
use vstd::string::StrSliceExecFns;

verus! {

/// No two draws share a position.
pub open spec fn distinct_pos(s: Seq<BasicDraw>) -> bool {
    forall|i: int, j: int| 0 <= i < s.len() && 0 <= j < s.len() && i != j ==> #[trigger] s[i].pos != #[trigger] s[j].pos
}

/// Some draw of `s` is at `p`.
pub open spec fn has_pos(s: Seq<BasicDraw>, p: Point) -> bool {
    exists|i: int| 0 <= i < s.len() && (#[trigger] s[i]).pos == p
}

/// The map from position to character that a list of draws describes.
pub open spec fn draws_map(s: Seq<BasicDraw>) -> Map<Point, TerminalChar> {
    Map::new(|p: Point| has_pos(s, p), |p: Point| s[choose|i: int| 0 <= i < s.len() && (#[trigger] s[i]).pos == p].chr)
}

/// In a list without repeated positions, the draw at index `i` is what the
/// map holds at its position.
pub proof fn lemma_draws_map_index(s: Seq<BasicDraw>, i: int)
    requires
        distinct_pos(s),
        0 <= i < s.len(),
    ensures
        draws_map(s).dom().contains(s[i].pos),
        draws_map(s)[s[i].pos] == s[i].chr,
{
    assert(has_pos(s, s[i].pos));
    let j = choose|j: int| 0 <= j < s.len() && (#[trigger] s[j]).pos == s[i].pos;
    assert(j == i);
}

/// Appending a draw at a new position adds it to the map.
pub proof fn lemma_draws_map_push(s: Seq<BasicDraw>, d: BasicDraw)
    requires
        distinct_pos(s),
        !draws_map(s).dom().contains(d.pos),
    ensures
        distinct_pos(s.push(d)),
        draws_map(s.push(d)) == draws_map(s).insert(d.pos, d.chr),
{
    let t = s.push(d);
    assert forall|i: int, j: int| 0 <= i < t.len() && 0 <= j < t.len() && i != j implies #[trigger] t[i].pos != #[trigger] t[j].pos by {
        if i == s.len() as int {
            assert(t[j] == s[j]);
            if t[j].pos == d.pos {
                assert(has_pos(s, d.pos));
            }
        } else if j == s.len() as int {
            assert(t[i] == s[i]);
            if t[i].pos == d.pos {
                assert(has_pos(s, d.pos));
            }
        } else {
            assert(t[i] == s[i] && t[j] == s[j]);
        }
    }
    assert forall|p: Point| #[trigger] draws_map(t).dom().contains(p) == draws_map(s).insert(d.pos, d.chr).dom().contains(p) by {
        if has_pos(t, p) {
            let k = choose|k: int| 0 <= k < t.len() && (#[trigger] t[k]).pos == p;
            if k < s.len() {
                assert(s[k] == t[k]);
                assert(has_pos(s, p));
            }
        }
        if has_pos(s, p) {
            let k = choose|k: int| 0 <= k < s.len() && (#[trigger] s[k]).pos == p;
            assert(t[k] == s[k]);
            assert(has_pos(t, p));
        }
        if p == d.pos {
            assert(t[s.len() as int] == d);
            assert(has_pos(t, p));
        }
    }
    assert forall|p: Point| #[trigger] draws_map(t).dom().contains(p) implies draws_map(t)[p] == draws_map(s).insert(d.pos, d.chr)[p] by {
        let k = choose|k: int| 0 <= k < t.len() && (#[trigger] t[k]).pos == p;
        lemma_draws_map_index(t, k);
        if k < s.len() {
            assert(t[k] == s[k]);
            lemma_draws_map_index(s, k);
        } else {
            assert(t[k] == d);
        }
    }
    assert(draws_map(t) =~= draws_map(s).insert(d.pos, d.chr));
}

/// Replacing the character of the draw at index `i` replaces it in the
/// map.
pub proof fn lemma_draws_map_update(s: Seq<BasicDraw>, i: int, chr: TerminalChar)
    requires
        distinct_pos(s),
        0 <= i < s.len(),
    ensures
        distinct_pos(s.update(i, BasicDraw { pos: s[i].pos, chr })),
        draws_map(s.update(i, BasicDraw { pos: s[i].pos, chr })) == draws_map(s).insert(s[i].pos, chr),
{
    let d = BasicDraw { pos: s[i].pos, chr };
    let t = s.update(i, d);
    assert forall|a: int, b: int| 0 <= a < t.len() && 0 <= b < t.len() && a != b implies #[trigger] t[a].pos != #[trigger] t[b].pos by {
        assert(t[a].pos == s[a].pos && t[b].pos == s[b].pos);
    }
    assert forall|p: Point| #[trigger] draws_map(t).dom().contains(p) == draws_map(s).insert(d.pos, chr).dom().contains(p) by {
        if has_pos(t, p) {
            let k = choose|k: int| 0 <= k < t.len() && (#[trigger] t[k]).pos == p;
            assert(s[k].pos == t[k].pos);
            assert(has_pos(s, p));
        }
        if has_pos(s, p) {
            let k = choose|k: int| 0 <= k < s.len() && (#[trigger] s[k]).pos == p;
            assert(s[k].pos == t[k].pos);
            assert(has_pos(t, p));
        }
    }
    assert forall|p: Point| #[trigger] draws_map(t).dom().contains(p) implies draws_map(t)[p] == draws_map(s).insert(d.pos, chr)[p] by {
        let k = choose|k: int| 0 <= k < t.len() && (#[trigger] t[k]).pos == p;
        lemma_draws_map_index(t, k);
        if k != i {
            assert(t[k] == s[k]);
            lemma_draws_map_index(s, k);
        }
    }
    assert(draws_map(t) =~= draws_map(s).insert(d.pos, chr));
}


/// `path` walks from `p1` to `p2`: it starts at `p1`, ends at `p2`, each
/// step moves to one of the eight neighbours in the direction of `p2`,
/// every cell lies near the ideal line (see `near_line`), and it has
/// between `max(|dx|, |dy|) + 1` and `|dx| + |dy| + 1` points.
pub open spec fn is_walk(p1: Point, p2: Point, path: Seq<Point>) -> bool {
    let w = abs_diff(p1.x as int, p2.x as int);
    let h = abs_diff(p1.y as int, p2.y as int);
    &&& path.len() >= 1
    &&& path[0] == p1
    &&& path.last() == p2
    &&& forall|i: int|
        0 <= i < path.len() - 1 ==> line_step(
            #[trigger] path[i],
            path[i + 1],
            step_dir(p1.x as int, p2.x as int),
            step_dir(p1.y as int, p2.y as int),
        )
    &&& forall|i: int| 0 <= i < path.len() ==> near_line(p1, p2, #[trigger] path[i])
    &&& w + 1 <= path.len() <= w + h + 1
    &&& h + 1 <= path.len()
}

/// The error term of the walk stays within `i32` when both spans are at
/// most a third of `i32::MAX`.
pub open spec fn walk_fits(p1: Point, p2: Point) -> bool {
    3 * abs_diff(p1.x as int, p2.x as int) <= i32::MAX && 3 * abs_diff(p1.y as int, p2.y as int) <= i32::MAX
}

/// One step of the walk with strict comparisons, with `a` and `b` the
/// steps taken so far along `x` and `y` and `err` the error term.
proof fn lemma_walk_step(w: int, h: int, a: int, b: int, err: int)
    requires
        0 <= w,
        0 <= h,
        0 <= a <= w,
        0 <= b <= h,
        !(a == w && b == h),
        err == w - h + b * w - a * h,
        -3 * h <= 2 * err <= 3 * w,
    ensures
        2 * err > -h || 2 * err < w,
        2 * err > -h ==> a < w,
        2 * err < w ==> b < h,
        ({
            let a2 = if 2 * err > -h { a + 1 } else { a };
            let b2 = if 2 * err < w { b + 1 } else { b };
            let e2 = err + (if 2 * err > -h { -h } else { 0 }) + (if 2 * err < w { w } else { 0 });
            &&& e2 == w - h + b2 * w - a2 * h
            &&& -3 * h <= 2 * e2 <= 3 * w
        }),
{
    if a == w {
        assert(b < h);
        assert(w * (1 + b - h) <= 0) by (nonlinear_arith)
            requires
                w >= 0,
                1 + b - h <= 0,
        ;
        assert(err == w * (1 + b - h) - h) by (nonlinear_arith)
            requires
                err == w - h + b * w - a * h,
                a == w,
        ;
    }
    if b == h {
        assert(a < w);
        assert(h * (1 + a) <= h * w) by (nonlinear_arith)
            requires
                h >= 0,
                1 + a <= w,
        ;
        assert(err == w * (1 + h) - h * (1 + a)) by (nonlinear_arith)
            requires
                err == w - h + b * w - a * h,
                b == h,
        ;
        assert(err >= w) by (nonlinear_arith)
            requires
                err == w * (1 + h) - h * (1 + a),
                h * (1 + a) <= h * w,
        ;
    }
    assert((a + 1) * h == a * h + h) by (nonlinear_arith);
    assert((b + 1) * w == b * w + w) by (nonlinear_arith);
}

/// The walk with strict comparisons on a line wider than tall advances a
/// column on every step.
proof fn lemma_walk_len_wide(w: int, h: int, a: int, b: int)
    requires
        0 <= h <= w,
        0 <= a <= w,
        0 <= b <= h,
        -3 * h <= 2 * (w - h + b * w - a * h) <= 3 * w,
        w > h ==> 2 * (w - h + b * w - a * h) > -h,
        w == h ==> a == b,
    ensures
        bres_offsets(w, h, a, b, true).len() == w - a + 1,
        forall|i: int| 0 <= i <= w - a ==> (#[trigger] bres_offsets(w, h, a, b, true)[i]).0 == a + i,
    decreases w - a,
{
    let err = w - h + b * w - a * h;
    if a == w && b == h {
    } else {
        if w == h {
            assert(err == 0) by (nonlinear_arith)
                requires
                    err == w - h + b * w - a * h,
                    w == h,
                    a == b,
            ;
        }
        lemma_walk_step(w, h, a, b, err);
        let n = bres_next(w, h, a, b, true);
        assert(n.0 == a + 1);
        lemma_walk_len_wide(w, h, n.0, n.1);
        let rest = bres_offsets(w, h, n.0, n.1, true);
        assert(bres_offsets(w, h, a, b, true) == seq![(a, b)] + rest);
        assert forall|i: int| 0 <= i <= w - a implies (#[trigger] bres_offsets(w, h, a, b, true)[i]).0 == a + i by {
            if i > 0 {
                assert(bres_offsets(w, h, a, b, true)[i] == rest[i - 1]);
            }
        }
    }
}

/// The walk with strict comparisons on a line taller than wide advances
/// a row on every step.
proof fn lemma_walk_len_tall(w: int, h: int, a: int, b: int)
    requires
        0 <= w <= h,
        0 <= a <= w,
        0 <= b <= h,
        -3 * h <= 2 * (w - h + b * w - a * h) <= 3 * w,
        w < h ==> 2 * (w - h + b * w - a * h) < w,
        w == h ==> a == b,
    ensures
        bres_offsets(w, h, a, b, true).len() == h - b + 1,
        forall|i: int| 0 <= i <= h - b ==> (#[trigger] bres_offsets(w, h, a, b, true)[i]).1 == b + i,
    decreases h - b,
{
    let err = w - h + b * w - a * h;
    if a == w && b == h {
    } else {
        if w == h {
            assert(err == 0) by (nonlinear_arith)
                requires
                    err == w - h + b * w - a * h,
                    w == h,
                    a == b,
            ;
        }
        lemma_walk_step(w, h, a, b, err);
        let n = bres_next(w, h, a, b, true);
        assert(n.1 == b + 1);
        lemma_walk_len_tall(w, h, n.0, n.1);
        let rest = bres_offsets(w, h, n.0, n.1, true);
        assert(bres_offsets(w, h, a, b, true) == seq![(a, b)] + rest);
        assert forall|i: int| 0 <= i <= h - b implies (#[trigger] bres_offsets(w, h, a, b, true)[i]).1 == b + i by {
            if i > 0 {
                assert(bres_offsets(w, h, a, b, true)[i] == rest[i - 1]);
            }
        }
    }
}

/// The line from `p1` to `p2` that `line_walk` and `draw_line` draw has
/// one cell per column or per row, whichever the line spans more of:
/// `max(|dx|, |dy|) + 1` cells, no two the same.
pub proof fn line_walk_cell_count(p1: Point, p2: Point)
    ensures
        bres_line(p1, p2, true).len() == (if abs_diff(p1.x as int, p2.x as int) >= abs_diff(p1.y as int, p2.y as int) {
            abs_diff(p1.x as int, p2.x as int)
        } else {
            abs_diff(p1.y as int, p2.y as int)
        }) + 1,
        bres_line(p1, p2, true).no_duplicates(),
{
    let w = abs_diff(p1.x as int, p2.x as int);
    let h = abs_diff(p1.y as int, p2.y as int);
    let offs = bres_offsets(w, h, 0, 0, true);
    let cells = bres_line(p1, p2, true);
    if w >= h {
        lemma_walk_len_wide(w, h, 0, 0);
        assert forall|i: int, j: int| 0 <= i < cells.len() && 0 <= j < cells.len() && i != j implies cells[i] != cells[j] by {
            assert(offs[i].0 == i && offs[j].0 == j);
            assert(cells[i] == bres_cell(p1, p2, offs[i]) && cells[j] == bres_cell(p1, p2, offs[j]));
        }
    } else {
        lemma_walk_len_tall(w, h, 0, 0);
        assert forall|i: int, j: int| 0 <= i < cells.len() && 0 <= j < cells.len() && i != j implies cells[i] != cells[j] by {
            assert(offs[i].1 == i && offs[j].1 == j);
            assert(cells[i] == bres_cell(p1, p2, offs[i]) && cells[j] == bres_cell(p1, p2, offs[j]));
        }
    }
}

/// The cells of the straight line from `p1` to `p2`, both ends included,
/// in the order Bresenham's walk with strict comparisons visits them
/// (`bres_line`); such a walk has the properties of `is_walk`.
pub fn line_walk(p1: Point, p2: Point) -> (path: Vec<Point>)
    requires
        walk_fits(p1, p2),
    ensures
        path@ == bres_line(p1, p2, true),
        is_walk(p1, p2, path@),
{
    let x1 = p2.x;
    let y1 = p2.y;
    let mut x0 = p1.x;
    let mut y0 = p1.y;
    let dx: i32 = if x1 >= x0 { x1 - x0 } else { x0 - x1 };
    let dy: i32 = if y1 >= y0 { y1 - y0 } else { y0 - y1 };
    let sx: i32 = if x0 < x1 { 1 } else { -1 };
    let sy: i32 = if y0 < y1 { 1 } else { -1 };
    let mut err: i32 = dx - dy;
    let ghost mut a: int = 0;
    let ghost mut b: int = 0;
    let ghost total = bres_offsets(dx as int, dy as int, 0, 0, true);
    let ghost mut done: Seq<(int, int)> = Seq::empty();
    let mut path: Vec<Point> = Vec::new();
    path.push(Point { x: x0, y: y0 });
    proof {
        assert(total =~= done + bres_offsets(dx as int, dy as int, a, b, true));
    }
    while !(x0 == x1 && y0 == y1)
        invariant
            total == bres_offsets(dx as int, dy as int, 0, 0, true),
            total == done + bres_offsets(dx as int, dy as int, a, b, true),
            path@.len() == done.len() + 1,
            forall|i: int| 0 <= i < done.len() ==> #[trigger] path@[i] == bres_cell(p1, p2, done[i]),
            dx == abs_diff(p1.x as int, p2.x as int),
            dy == abs_diff(p1.y as int, p2.y as int),
            3 * dx <= i32::MAX,
            3 * dy <= i32::MAX,
            x1 == p2.x,
            y1 == p2.y,
            sx == step_dir(p1.x as int, p2.x as int),
            sy == step_dir(p1.y as int, p2.y as int),
            x1 == walk(p1.x as int, sx as int, dx as int),
            y1 == walk(p1.y as int, sy as int, dy as int),
            0 <= a <= dx,
            0 <= b <= dy,
            x0 == walk(p1.x as int, sx as int, a),
            y0 == walk(p1.y as int, sy as int, b),
            err == dx - dy + b * dx - a * dy,
            -3 * dy <= 2 * err <= 3 * dx,
            path@.len() >= 1,
            path@[0] == p1,
            path@.last() == (Point { x: x0, y: y0 }),
            forall|i: int| 0 <= i < path@.len() - 1 ==> line_step(#[trigger] path@[i], path@[i + 1], sx as int, sy as int),
            forall|i: int| 0 <= i < path@.len() ==> near_line(p1, p2, #[trigger] path@[i]),
            path@.len() <= a + b + 1,
            path@.len() >= a + 1,
            path@.len() >= b + 1,
        decreases (dx - a) + (dy - b),
    {
        let ghost before = path@;
        let ghost ao = a;
        let ghost bo = b;
        proof {
            lemma_walk_step(dx as int, dy as int, a, b, err as int);
            assert(bres_offsets(dx as int, dy as int, a, b, true) == seq![(a, b)] + bres_offsets(
                dx as int,
                dy as int,
                bres_next(dx as int, dy as int, a, b, true).0,
                bres_next(dx as int, dy as int, a, b, true).1,
                true,
            ));
        }
        let e2 = 2 * err;
        if e2 > -dy {
            err -= dy;
            x0 += sx;
            proof {
                a = a + 1;
            }
        }
        if e2 < dx {
            err += dx;
            y0 += sy;
            proof {
                b = b + 1;
            }
        }
        path.push(Point { x: x0, y: y0 });
        proof {
            assert(path@[before.len() - 1] == before.last());
            assert((a, b) == bres_next(dx as int, dy as int, ao, bo, true));
            let old_done = done;
            done = done.push((ao, bo));
            assert(total =~= done + bres_offsets(dx as int, dy as int, a, b, true)) by {
                assert(done + bres_offsets(dx as int, dy as int, a, b, true) =~= old_done + (seq![(ao, bo)]
                    + bres_offsets(dx as int, dy as int, a, b, true)));
            }
            assert forall|i: int| 0 <= i < done.len() implies #[trigger] path@[i] == bres_cell(p1, p2, done[i]) by {
                if i < old_done.len() {
                    assert(path@[i] == before[i]);
                }
            }
            assert(near_line(p1, p2, Point { x: x0, y: y0 }));
            assert forall|i: int| 0 <= i < path@.len() implies near_line(p1, p2, #[trigger] path@[i]) by {
                if i < before.len() {
                    assert(path@[i] == before[i]);
                }
            }
            assert forall|i: int| 0 <= i < path@.len() - 1 implies line_step(#[trigger] path@[i], path@[i + 1], sx as int, sy as int) by {
                if i < before.len() - 1 {
                    assert(path@[i] == before[i]);
                    assert(path@[i + 1] == before[i + 1]);
                }
            }
        }
    }
    proof {
        assert(a == dx && b == dy);
        assert(bres_offsets(dx as int, dy as int, a, b, true) == seq![(a, b)]);
        assert forall|i: int| 0 <= i < path@.len() implies #[trigger] path@[i] == bres_cell(p1, p2, total[i]) by {
            if i < done.len() {
                assert(total[i] == done[i]);
            } else {
                assert(total[i] == (a, b));
            }
        }
        assert(path@ =~= bres_line(p1, p2, true));
    }
    path
}

/// The cells of `pts`, each holding `chr`.
pub open spec fn points_map(pts: Seq<Point>, chr: TerminalChar) -> Map<Point, TerminalChar> {
    Map::new(|p: Point| pts.contains(p), |p: Point| chr)
}


/// The character drawn for `c` in the foreground colour `fg`, if any.
pub open spec fn text_char(c: char, fg: Option<Color>) -> TerminalChar {
    TerminalChar { chr: c, fg_color: fg, bg_color: None }
}

/// The cursor (column, row) after laying out `chars` from `start`: a
/// newline moves to the next row and back to `start.x`, any other
/// character moves one column right.
pub open spec fn text_cursor(start: Point, chars: Seq<char>) -> (int, int)
    decreases chars.len(),
{
    if chars.len() == 0 {
        (start.x as int, start.y as int)
    } else {
        let (x, y) = text_cursor(start, chars.drop_last());
        if chars.last() == '\n' {
            (start.x as int, y + 1)
        } else {
            (x + 1, y)
        }
    }
}

/// The cells written when laying out `chars` from `start`: every
/// character but a newline is written at the cursor it finds.
pub open spec fn text_cells(start: Point, chars: Seq<char>, fg: Option<Color>) -> Map<Point, TerminalChar>
    decreases chars.len(),
{
    if chars.len() == 0 {
        Map::empty()
    } else {
        let m = text_cells(start, chars.drop_last(), fg);
        let (x, y) = text_cursor(start, chars.drop_last());
        if chars.last() == '\n' {
            m
        } else {
            m.insert(Point { x: x as i32, y: y as i32 }, text_char(chars.last(), fg))
        }
    }
}

/// The cursor stays within `i32` while `chars` is laid out from `start`.
pub open spec fn text_fits(start: Point, chars: Seq<char>) -> bool {
    forall|k: int| 0 <= k <= chars.len() ==> #[trigger] text_cursor(start, chars.take(k)).0 <= i32::MAX
        && text_cursor(start, chars.take(k)).1 <= i32::MAX
}

/// The cells of a horizontal bar of `len` cells starting at `pos`.
pub open spec fn hbar_map(pos: Point, len: int, t: TerminalChar) -> Map<Point, TerminalChar> {
    Map::new(|q: Point| q.y == pos.y && pos.x <= q.x < pos.x + len, |q: Point| t)
}


/// `r` is the smallest rectangle holding every position of `m`, with `p1`
/// its top-left and `p2` its bottom-right corner; all zeros when `m` is
/// empty.
pub open spec fn is_bounding_box(m: Map<Point, TerminalChar>, r: Rect) -> bool {
    if m.dom() =~= Set::<Point>::empty() {
        r == (Rect { p1: Point { x: 0, y: 0 }, p2: Point { x: 0, y: 0 } })
    } else {
        &&& forall|p: Point| #[trigger] m.dom().contains(p) ==> r.p1.x <= p.x <= r.p2.x && r.p1.y <= p.y <= r.p2.y
        &&& exists|p: Point| #[trigger] m.dom().contains(p) && p.x == r.p1.x
        &&& exists|p: Point| #[trigger] m.dom().contains(p) && p.y == r.p1.y
        &&& exists|p: Point| #[trigger] m.dom().contains(p) && p.x == r.p2.x
        &&& exists|p: Point| #[trigger] m.dom().contains(p) && p.y == r.p2.y
    }
}

/// The bounding box of the positions of `m` (see `is_bounding_box`).
pub open spec fn bounding_box_of(m: Map<Point, TerminalChar>) -> Rect {
    choose|r: Rect| is_bounding_box(m, r)
}

/// A map has at most one bounding box.
pub proof fn lemma_bounding_box_unique(m: Map<Point, TerminalChar>, r1: Rect, r2: Rect)
    requires
        is_bounding_box(m, r1),
        is_bounding_box(m, r2),
    ensures
        r1 == r2,
{
    if !(m.dom() =~= Set::<Point>::empty()) {
        let a = choose|p: Point| #[trigger] m.dom().contains(p) && p.x == r1.p1.x;
        let b = choose|p: Point| #[trigger] m.dom().contains(p) && p.x == r2.p1.x;
        assert(r1.p1.x == r2.p1.x);
        let a = choose|p: Point| #[trigger] m.dom().contains(p) && p.y == r1.p1.y;
        let b = choose|p: Point| #[trigger] m.dom().contains(p) && p.y == r2.p1.y;
        assert(r1.p1.y == r2.p1.y);
        let a = choose|p: Point| #[trigger] m.dom().contains(p) && p.x == r1.p2.x;
        let b = choose|p: Point| #[trigger] m.dom().contains(p) && p.x == r2.p2.x;
        assert(r1.p2.x == r2.p2.x);
        let a = choose|p: Point| #[trigger] m.dom().contains(p) && p.y == r1.p2.y;
        let b = choose|p: Point| #[trigger] m.dom().contains(p) && p.y == r2.p2.y;
        assert(r1.p2.y == r2.p2.y);
    }
}

/// `v` is a value of `i32`.
pub open spec fn in_i32(v: int) -> bool {
    i32::MIN <= v <= i32::MAX
}

/// `p` moved by `off`.
pub open spec fn shifted(p: Point, off: Point) -> Point {
    Point { x: (p.x + off.x) as i32, y: (p.y + off.y) as i32 }
}

/// Every position of `m` moved by `off` stays within `i32`.
pub open spec fn shift_fits(m: Map<Point, TerminalChar>, off: Point) -> bool {
    forall|p: Point| #[trigger] m.dom().contains(p) ==> in_i32(p.x + off.x) && in_i32(p.y + off.y)
}

/// `m` with every position moved by `off`.
pub open spec fn shift_map(m: Map<Point, TerminalChar>, off: Point) -> Map<Point, TerminalChar> {
    Map::new(
        |q: Point| in_i32(q.x - off.x) && in_i32(q.y - off.y) && m.dom().contains(Point { x: (q.x - off.x) as i32, y: (q.y - off.y) as i32 }),
        |q: Point| m[Point { x: (q.x - off.x) as i32, y: (q.y - off.y) as i32 }],
    )
}

/// Moving a map with one more entry moves that entry too.
pub proof fn lemma_shift_insert(m: Map<Point, TerminalChar>, p: Point, c: TerminalChar, off: Point)
    requires
        in_i32(p.x + off.x),
        in_i32(p.y + off.y),
    ensures
        shift_map(m.insert(p, c), off) == shift_map(m, off).insert(shifted(p, off), c),
{
    assert(shift_map(m.insert(p, c), off) =~= shift_map(m, off).insert(shifted(p, off), c));
}

/// Appending one draw at a new position to a list without repeats.
pub proof fn lemma_draws_map_take(s: Seq<BasicDraw>, i: int)
    requires
        distinct_pos(s),
        0 <= i < s.len(),
    ensures
        distinct_pos(s.take(i)),
        draws_map(s.take(i + 1)) == draws_map(s.take(i)).insert(s[i].pos, s[i].chr),
{
    let pre = s.take(i);
    assert(distinct_pos(pre)) by {
        assert forall|a: int, b: int| 0 <= a < pre.len() && 0 <= b < pre.len() && a != b implies #[trigger] pre[a].pos != #[trigger] pre[b].pos by {
            assert(pre[a] == s[a] && pre[b] == s[b]);
        }
    }
    if has_pos(pre, s[i].pos) {
        let k = choose|k: int| 0 <= k < pre.len() && (#[trigger] pre[k]).pos == s[i].pos;
        assert(pre[k] == s[k]);
    }
    lemma_draws_map_push(pre, s[i]);
    assert(s.take(i + 1) =~= pre.push(s[i]));
}


/// The positions of a list of draws are those of all but its last draw and
/// the last draw's.
proof fn lemma_draws_map_dom_push(s: Seq<BasicDraw>)
    requires
        s.len() > 0,
    ensures
        draws_map(s).dom() == draws_map(s.drop_last()).dom().insert(s.last().pos),
{
    let t = s.drop_last();
    assert forall|p: Point| #[trigger] draws_map(s).dom().contains(p) == (draws_map(t).dom().contains(p) || p == s.last().pos) by {
        if has_pos(s, p) {
            let k = choose|k: int| 0 <= k < s.len() && (#[trigger] s[k]).pos == p;
            if k < t.len() {
                assert(t[k] == s[k]);
                assert(has_pos(t, p));
            }
        }
        if has_pos(t, p) {
            let k = choose|k: int| 0 <= k < t.len() && (#[trigger] t[k]).pos == p;
            assert(t[k] == s[k]);
            assert(has_pos(s, p));
        }
        if p == s.last().pos {
            assert(s[s.len() - 1] == s.last());
            assert(has_pos(s, p));
        }
    }
    assert(draws_map(s).dom() =~= draws_map(t).dom().insert(s.last().pos));
}

/// Every list of draws has a bounding box.
pub proof fn lemma_has_bounding_box(s: Seq<BasicDraw>)
    ensures
        is_bounding_box(draws_map(s), bounding_box_of(draws_map(s))),
    decreases s.len(),
{
    let m = draws_map(s);
    if s.len() == 0 {
        assert(m.dom() =~= Set::<Point>::empty());
        let r0 = Rect { p1: Point { x: 0, y: 0 }, p2: Point { x: 0, y: 0 } };
        assert(is_bounding_box(m, r0));
    } else {
        let t = s.drop_last();
        let d = s.last().pos;
        lemma_has_bounding_box(t);
        lemma_draws_map_dom_push(s);
        let mt = draws_map(t);
        assert(m.dom().contains(d));
        assert(!(m.dom() =~= Set::<Point>::empty()));
        if mt.dom() =~= Set::<Point>::empty() {
            let r = Rect { p1: d, p2: d };
            assert forall|p: Point| #[trigger] m.dom().contains(p) implies r.p1.x <= p.x <= r.p2.x && r.p1.y <= p.y <= r.p2.y by {
                assert(!mt.dom().contains(p));
            }
            assert(is_bounding_box(m, r));
        } else {
            let b = bounding_box_of(mt);
            let r = Rect {
                p1: Point { x: if d.x < b.p1.x { d.x } else { b.p1.x }, y: if d.y < b.p1.y { d.y } else { b.p1.y } },
                p2: Point { x: if d.x > b.p2.x { d.x } else { b.p2.x }, y: if d.y > b.p2.y { d.y } else { b.p2.y } },
            };
            assert forall|p: Point| #[trigger] m.dom().contains(p) implies r.p1.x <= p.x <= r.p2.x && r.p1.y <= p.y <= r.p2.y by {
                if p != d {
                    assert(mt.dom().contains(p));
                }
            }
            let a1 = choose|p: Point| #[trigger] mt.dom().contains(p) && p.x == b.p1.x;
            let a2 = choose|p: Point| #[trigger] mt.dom().contains(p) && p.y == b.p1.y;
            let a3 = choose|p: Point| #[trigger] mt.dom().contains(p) && p.x == b.p2.x;
            let a4 = choose|p: Point| #[trigger] mt.dom().contains(p) && p.y == b.p2.y;
            assert(m.dom().contains(a1) && m.dom().contains(a2) && m.dom().contains(a3) && m.dom().contains(a4));
            assert(is_bounding_box(m, r));
        }
    }
}

/// Moving every position of a map by `off` moves its bounding box by
/// `off`.
pub proof fn shifted_bounding_box(m: Map<Point, TerminalChar>, r: Rect, off: Point)
    requires
        !(m.dom() =~= Set::<Point>::empty()),
        is_bounding_box(m, r),
        shift_fits(m, off),
    ensures
        is_bounding_box(shift_map(m, off), Rect { p1: shifted(r.p1, off), p2: shifted(r.p2, off) }),
        bounding_box_of(shift_map(m, off)) == (Rect { p1: shifted(r.p1, off), p2: shifted(r.p2, off) }),
{
    let sm = shift_map(m, off);
    let r2 = Rect { p1: shifted(r.p1, off), p2: shifted(r.p2, off) };
    let a = choose|p: Point| #[trigger] m.dom().contains(p) && p.x == r.p1.x;
    let b = choose|p: Point| #[trigger] m.dom().contains(p) && p.y == r.p1.y;
    let c = choose|p: Point| #[trigger] m.dom().contains(p) && p.x == r.p2.x;
    let d = choose|p: Point| #[trigger] m.dom().contains(p) && p.y == r.p2.y;
    assert(sm.dom().contains(shifted(a, off)));
    assert(sm.dom().contains(shifted(b, off)));
    assert(sm.dom().contains(shifted(c, off)));
    assert(sm.dom().contains(shifted(d, off)));
    assert(!(sm.dom() =~= Set::<Point>::empty()));
    assert forall|q: Point| #[trigger] sm.dom().contains(q) implies r2.p1.x <= q.x <= r2.p2.x && r2.p1.y <= q.y <= r2.p2.y by {
        let p = Point { x: (q.x - off.x) as i32, y: (q.y - off.y) as i32 };
        assert(m.dom().contains(p));
    }
    assert(is_bounding_box(sm, r2));
    assert(is_bounding_box(sm, bounding_box_of(sm)));
    lemma_bounding_box_unique(sm, r2, bounding_box_of(sm));
}

/// After `align_to_origin(origin)`, the top-left corner of the bounding
/// box of a creator that holds any draw is `origin`.
pub proof fn align_to_origin_puts_top_left_at_origin(c: BasicDrawCreator, origin: Point)
    requires
        c.wf(),
        !(c@.dom() =~= Set::<Point>::empty()),
        in_i32(origin.x - bounding_box_of(c@).p1.x),
        in_i32(origin.y - bounding_box_of(c@).p1.y),
        shift_fits(
            c@,
            Point { x: (origin.x - bounding_box_of(c@).p1.x) as i32, y: (origin.y - bounding_box_of(c@).p1.y) as i32 },
        ),
    ensures
        bounding_box_of(
            shift_map(
                c@,
                Point {
                    x: (origin.x - bounding_box_of(c@).p1.x) as i32,
                    y: (origin.y - bounding_box_of(c@).p1.y) as i32,
                },
            ),
        ).p1 == origin,
{
    lemma_has_bounding_box(c.draws@);
    let r = bounding_box_of(c@);
    let off = Point { x: (origin.x - r.p1.x) as i32, y: (origin.y - r.p1.y) as i32 };
    shifted_bounding_box(c@, r, off);
}


/// The cell of column `col` and row `row` of a grid with its first cell at
/// `origin` and cells `sx` columns and `sy` rows apart.
pub open spec fn grid_pos(origin: Point, sx: i32, sy: i32, col: int, row: int) -> Point {
    Point { x: (origin.x + col * sx) as i32, y: (origin.y + row * sy) as i32 }
}

/// `m` after drawing the first `vals.len()` grid cells, row by row, each
/// with its character, foreground and optional background; when cells are
/// at least two columns apart, the cell right of each is cleared to a
/// space in the same background.
pub open spec fn grid_cells(
    m: Map<Point, TerminalChar>,
    origin: Point,
    cols: int,
    sx: i32,
    sy: i32,
    vals: Seq<(char, Color, Option<Color>)>,
) -> Map<Point, TerminalChar>
    decreases vals.len(),
{
    if vals.len() == 0 {
        m
    } else {
        let k = vals.len() - 1;
        let m0 = grid_cells(m, origin, cols, sx, sy, vals.drop_last());
        let p = grid_pos(origin, sx, sy, k % cols, k / cols);
        let v = vals.last();
        let m1 = m0.insert(p, TerminalChar { chr: v.0, fg_color: Some(v.1), bg_color: v.2 });
        if sx >= 2 {
            m1.insert(Point { x: (p.x + 1) as i32, y: p.y }, TerminalChar { chr: ' ', fg_color: None, bg_color: v.2 })
        } else {
            m1
        }
    }
}

/// The grid's coordinates (and the cells right of its cells, when those
/// are drawn) stay within `i32`.
pub open spec fn grid_fits(origin: Point, cols: usize, rows: usize, sx: i32, sy: i32) -> bool {
    &&& rows > 0 ==> rows - 1 <= i32::MAX && in_i32((rows - 1) * sy) && in_i32(origin.y + (rows - 1) * sy)
    &&& rows > 0 && cols > 0 ==> cols - 1 <= i32::MAX && in_i32((cols - 1) * sx) && in_i32(origin.x + (cols - 1) * sx)
        && (sx >= 2 ==> origin.x + (cols - 1) * sx + 1 <= i32::MAX)
}

/// A multiple `k * s` with `0 <= k <= n` lies between `0` and `n * s`.
proof fn lemma_scaled_between(k: int, n: int, s: int)
    requires
        0 <= k <= n,
    ensures
        s >= 0 ==> 0 <= k * s <= n * s,
        s < 0 ==> n * s <= k * s <= 0,
{
    if s >= 0 {
        assert(0 <= k * s <= n * s) by (nonlinear_arith)
            requires
                0 <= k <= n,
                s >= 0,
        ;
    } else {
        assert(n * s <= k * s <= 0) by (nonlinear_arith)
            requires
                0 <= k <= n,
                s < 0,
        ;
    }
}

/// Collects draws by position; a later draw at a position replaces the
/// earlier one.
#[derive(Debug)]
pub struct BasicDrawCreator {
    draws: Vec<BasicDraw>,
}

impl View for BasicDrawCreator {
    type V = Map<Point, TerminalChar>;

    closed spec fn view(&self) -> Map<Point, TerminalChar> {
        draws_map(self.draws@)
    }
}

impl BasicDrawCreator {
    /// No position is held twice.
    pub closed spec fn wf(&self) -> bool {
        distinct_pos(self.draws@)
    }

    pub fn new() -> (c: Self)
        ensures
            c.wf(),
            c@ == Map::<Point, TerminalChar>::empty(),
    {
        let c = BasicDrawCreator { draws: Vec::new() };
        assert(c@ =~= Map::<Point, TerminalChar>::empty());
        c
    }

    /// An empty creator with room for `cap` draws.
    pub fn new_with_capacity(cap: usize) -> (c: Self)
        ensures
            c.wf(),
            c@ == Map::<Point, TerminalChar>::empty(),
    {
        let c = BasicDrawCreator { draws: Vec::with_capacity(cap) };
        assert(c@ =~= Map::<Point, TerminalChar>::empty());
        c
    }

    /// Draws `chr` at `pos`, replacing what was there.
    pub fn draw_char(&mut self, pos: Point, chr: TerminalChar)
        requires
            old(self).wf(),
        ensures
            final(self).wf(),
            final(self)@ == old(self)@.insert(pos, chr),
    {
        let mut i: usize = 0;
        while i < self.draws.len()
            invariant
                self.draws@ == old(self).draws@,
                distinct_pos(self.draws@),
                0 <= i <= self.draws@.len(),
                forall|j: int| 0 <= j < i ==> (#[trigger] self.draws@[j]).pos != pos,
            decreases self.draws@.len() - i,
        {
            if self.draws[i].pos == pos {
                proof {
                    lemma_draws_map_update(self.draws@, i as int, chr);
                }
                self.draws.set(i, BasicDraw { pos, chr });
                return;
            }
            i += 1;
        }
        proof {
            if has_pos(self.draws@, pos) {
                let k = choose|k: int| 0 <= k < self.draws@.len() && (#[trigger] self.draws@[k]).pos == pos;
                assert(self.draws@[k].pos != pos);
            }
            lemma_draws_map_push(self.draws@, BasicDraw { pos, chr });
        }
        self.draws.push(BasicDraw { pos, chr });
    }

    /// Draws `chr` at every point of `pts`.
    pub fn draw_points(&mut self, pts: &Vec<Point>, chr: TerminalChar)
        requires
            old(self).wf(),
        ensures
            final(self).wf(),
            final(self)@ == old(self)@.union_prefer_right(points_map(pts@, chr)),
    {
        let mut i: usize = 0;
        while i < pts.len()
            invariant
                self.wf(),
                0 <= i <= pts@.len(),
                self@ == old(self)@.union_prefer_right(points_map(pts@.take(i as int), chr)),
            decreases pts@.len() - i,
        {
            let ghost m0 = self@;
            self.draw_char(pts[i], chr);
            proof {
                assert(points_map(pts@.take(i + 1), chr) =~= points_map(pts@.take(i as int), chr).insert(pts@[i as int], chr)) by {
                    assert forall|p: Point| #[trigger] points_map(pts@.take(i + 1), chr).dom().contains(p) == points_map(pts@.take(i as int), chr).insert(pts@[i as int], chr).dom().contains(p) by {
                        if pts@.take(i + 1).contains(p) {
                            let k = choose|k: int| 0 <= k < i + 1 && #[trigger] pts@.take(i + 1)[k] == p;
                            if k < i {
                                assert(pts@.take(i as int)[k] == p);
                            }
                        }
                        if pts@.take(i as int).contains(p) {
                            let k = choose|k: int| 0 <= k < i && #[trigger] pts@.take(i as int)[k] == p;
                            assert(pts@.take(i + 1)[k] == p);
                        }
                        if p == pts@[i as int] {
                            assert(pts@.take(i + 1)[i as int] == p);
                        }
                    }
                }
                assert(self@ =~= old(self)@.union_prefer_right(points_map(pts@.take(i + 1), chr)));
            }
            i += 1;
        }
        assert(pts@.take(pts@.len() as int) =~= pts@);
    }

    /// Draws `chr` on every cell of the straight line from `p1` to `p2`,
    /// both ends included, as Bresenham's walk visits them
    /// (`bres_line`, which has the properties of `is_walk`).
    pub fn draw_line(&mut self, p1: Point, p2: Point, chr: TerminalChar)
        requires
            old(self).wf(),
            walk_fits(p1, p2),
        ensures
            final(self).wf(),
            final(self)@ == old(self)@.union_prefer_right(points_map(bres_line(p1, p2, true), chr)),
            is_walk(p1, p2, bres_line(p1, p2, true)),
    {
        let path = line_walk(p1, p2);
        self.draw_points(&path, chr);
    }

    /// Writes `text` starting at `pos`: each character goes one column
    /// right of the previous one, a newline moves to the next row and back
    /// to `pos.x`. Characters get the foreground colour `fg`, if any.
    pub fn draw_text(&mut self, pos: Point, text: &str, fg: Option<Color>)
        requires
            old(self).wf(),
            text_fits(pos, text@),
        ensures
            final(self).wf(),
            final(self)@ == old(self)@.union_prefer_right(text_cells(pos, text@, fg)),
    {
        let n = text.unicode_len();
        let mut x: i32 = pos.x;
        let mut y: i32 = pos.y;
        let mut i: usize = 0;
        assert(text@.take(0) =~= Seq::<char>::empty());
        assert(old(self)@.union_prefer_right(Map::empty()) =~= old(self)@);
        while i < n
            invariant
                n == text@.len(),
                0 <= i <= n,
                self.wf(),
                text_fits(pos, text@),
                (x as int, y as int) == text_cursor(pos, text@.take(i as int)),
                self@ == old(self)@.union_prefer_right(text_cells(pos, text@.take(i as int), fg)),
            decreases n - i,
        {
            let ch = text.get_char(i);
            let ghost pre = text@.take(i as int);
            let ghost cur = text@.take(i + 1);
            assert(cur.drop_last() =~= pre);
            assert(cur.last() == ch);
            assert(text_cursor(pos, text@.take(i + 1)).0 <= i32::MAX);
            if ch == '\n' {
                y += 1;
                x = pos.x;
            } else {
                let mut t = TerminalChar::from_char(ch);
                match fg {
                    Some(col) => {
                        t = t.set_fg(col);
                    },
                    None => {},
                }
                self.draw_char(Point::new(x, y), t);
                x += 1;
                assert(self@ =~= old(self)@.union_prefer_right(text_cells(pos, cur, fg)));
            }
            i += 1;
        }
        assert(text@.take(n as int) =~= text@);
    }

    /// The draws of `text` laid out from `pos` (see `draw_text`), in no
    /// particular order and with no position twice.
    pub fn string_to_basic_draws(pos: Point, text: &str, fg: Option<Color>) -> (out: Vec<BasicDraw>)
        requires
            text_fits(pos, text@),
        ensures
            distinct_pos(out@),
            draws_map(out@) == text_cells(pos, text@, fg),
    {
        let mut tmp = BasicDrawCreator::new_with_capacity(text.len());
        tmp.draw_text(pos, text, fg);
        assert(Map::<Point, TerminalChar>::empty().union_prefer_right(text_cells(pos, text@, fg)) =~= text_cells(pos, text@, fg));
        tmp.dump_draws()
    }

    /// Draws `ch` at `pos` in foreground `fg` and background `bg`, if any.
    pub fn draw_cell(&mut self, pos: Point, ch: char, fg: Color, bg: Option<Color>)
        requires
            old(self).wf(),
        ensures
            final(self).wf(),
            final(self)@ == old(self)@.insert(pos, TerminalChar { chr: ch, fg_color: Some(fg), bg_color: bg }),
    {
        let mut t = TerminalChar::from_char(ch).set_fg(fg);
        match bg {
            Some(bgcol) => {
                t = t.set_bg(bgcol);
            },
            None => {},
        }
        self.draw_char(pos, t);
    }

    /// Draws `len` cells of `chr` in colour `fg` to the right from `pos`
    /// (none when `len` is not positive).
    pub fn draw_horizontal_bar(&mut self, pos: Point, len: i32, chr: char, fg: Color)
        requires
            old(self).wf(),
            pos.x + len - 1 <= i32::MAX,
        ensures
            final(self).wf(),
            final(self)@ == old(self)@.union_prefer_right(
                hbar_map(pos, len as int, TerminalChar { chr, fg_color: Some(fg), bg_color: None }),
            ),
    {
        let t = TerminalChar::from_char(chr).set_fg(fg);
        let mut dx: i32 = 0;
        assert(old(self)@.union_prefer_right(hbar_map(pos, 0, t)) =~= old(self)@);
        while dx < len
            invariant
                self.wf(),
                0 <= dx,
                len > 0 ==> dx <= len,
                len <= 0 ==> dx == 0,
                pos.x + len - 1 <= i32::MAX,
                t == (TerminalChar { chr, fg_color: Some(fg), bg_color: None }),
                self@ == old(self)@.union_prefer_right(hbar_map(pos, dx as int, t)),
            decreases len - dx,
        {
            self.draw_char(Point::new(pos.x + dx, pos.y), t);
            assert(self@ =~= old(self)@.union_prefer_right(hbar_map(pos, dx + 1, t)));
            dx += 1;
        }
        if len <= 0 {
            assert(hbar_map(pos, len as int, t) =~= hbar_map(pos, 0, t));
        }
    }

    /// Hands out every draw, in no particular order, and leaves the
    /// creator empty.
    pub fn dump_draws(&mut self) -> (out: Vec<BasicDraw>)
        requires
            old(self).wf(),
        ensures
            final(self).wf(),
            final(self)@ == Map::<Point, TerminalChar>::empty(),
            distinct_pos(out@),
            draws_map(out@) == old(self)@,
    {
        let mut out: Vec<BasicDraw> = Vec::new();
        std::mem::swap(&mut out, &mut self.draws);
        assert(self@ =~= Map::<Point, TerminalChar>::empty());
        out
    }

    /// The smallest rectangle holding every drawn position (`p1` top-left,
    /// `p2` bottom-right); all zeros when nothing is drawn.
    pub fn get_bounding_box(&self) -> (r: Rect)
        requires
            self.wf(),
        ensures
            is_bounding_box(self@, r),
            r == bounding_box_of(self@),
    {
        let s = &self.draws;
        if s.len() == 0 {
            assert(self@.dom() =~= Set::<Point>::empty());
            let r = Rect::from_coords(0, 0, 0, 0);
            proof {
                lemma_bounding_box_unique(self@, r, bounding_box_of(self@));
            }
            return r;
        }
        let mut min_x: i32 = i32::MAX;
        let mut min_y: i32 = i32::MAX;
        let mut max_x: i32 = i32::MIN;
        let mut max_y: i32 = i32::MIN;
        let mut i: usize = 0;
        while i < s.len()
            invariant
                s@ == self.draws@,
                0 <= i <= s@.len(),
                forall|j: int| 0 <= j < i ==> min_x <= (#[trigger] s@[j]).pos.x <= max_x && min_y <= s@[j].pos.y <= max_y,
                i > 0 ==> exists|j: int| 0 <= j < i && (#[trigger] s@[j]).pos.x == min_x,
                i > 0 ==> exists|j: int| 0 <= j < i && (#[trigger] s@[j]).pos.y == min_y,
                i > 0 ==> exists|j: int| 0 <= j < i && (#[trigger] s@[j]).pos.x == max_x,
                i > 0 ==> exists|j: int| 0 <= j < i && (#[trigger] s@[j]).pos.y == max_y,
                i == 0 ==> min_x == i32::MAX && min_y == i32::MAX && max_x == i32::MIN && max_y == i32::MIN,
            decreases s@.len() - i,
        {
            let p = s[i].pos;
            if p.x < min_x {
                min_x = p.x;
            }
            if p.y < min_y {
                min_y = p.y;
            }
            if p.x > max_x {
                max_x = p.x;
            }
            if p.y > max_y {
                max_y = p.y;
            }
            assert(s@[i as int].pos == p);
            i += 1;
        }
        let r = Rect::from_coords(min_x, min_y, max_x, max_y);
        proof {
            let m = self@;
            assert(s@.len() > 0);
            assert(has_pos(s@, s@[0].pos));
            assert(m.dom().contains(s@[0].pos));
            assert(!(m.dom() =~= Set::<Point>::empty()));
            assert forall|p: Point| #[trigger] m.dom().contains(p) implies r.p1.x <= p.x <= r.p2.x && r.p1.y <= p.y <= r.p2.y by {
                let k = choose|k: int| 0 <= k < s@.len() && (#[trigger] s@[k]).pos == p;
            }
            let j = choose|j: int| 0 <= j < s@.len() && (#[trigger] s@[j]).pos.x == min_x;
            assert(has_pos(s@, s@[j].pos));
            assert(m.dom().contains(s@[j].pos));
            let j = choose|j: int| 0 <= j < s@.len() && (#[trigger] s@[j]).pos.y == min_y;
            assert(has_pos(s@, s@[j].pos));
            assert(m.dom().contains(s@[j].pos));
            let j = choose|j: int| 0 <= j < s@.len() && (#[trigger] s@[j]).pos.x == max_x;
            assert(has_pos(s@, s@[j].pos));
            assert(m.dom().contains(s@[j].pos));
            let j = choose|j: int| 0 <= j < s@.len() && (#[trigger] s@[j]).pos.y == max_y;
            assert(has_pos(s@, s@[j].pos));
            assert(m.dom().contains(s@[j].pos));
            assert(is_bounding_box(m, r));
            lemma_bounding_box_unique(m, r, bounding_box_of(m));
        }
        r
    }

    /// Adds every draw of `to_merge`; its draws replace ours where both
    /// hold a position.
    pub fn merge_creator(&mut self, to_merge: BasicDrawCreator)
        requires
            old(self).wf(),
            to_merge.wf(),
        ensures
            final(self).wf(),
            final(self)@ == old(self)@.union_prefer_right(to_merge@),
    {
        let s = &to_merge.draws;
        let mut i: usize = 0;
        assert(s@.take(0) =~= Seq::<BasicDraw>::empty());
        assert(old(self)@.union_prefer_right(draws_map(s@.take(0))) =~= old(self)@);
        while i < s.len()
            invariant
                s@ == to_merge.draws@,
                distinct_pos(s@),
                self.wf(),
                0 <= i <= s@.len(),
                self@ == old(self)@.union_prefer_right(draws_map(s@.take(i as int))),
            decreases s@.len() - i,
        {
            let d = s[i];
            proof {
                lemma_draws_map_take(s@, i as int);
            }
            self.draw_char(d.pos, d.chr);
            assert(self@ =~= old(self)@.union_prefer_right(draws_map(s@.take(i + 1))));
            i += 1;
        }
        assert(s@.take(s@.len() as int) =~= s@);
    }

    /// Adds every draw of `to_merge`, moved by `offset`; those replace ours
    /// where both hold a position.
    pub fn merge_creator_offset(&mut self, to_merge: BasicDrawCreator, offset: Point)
        requires
            old(self).wf(),
            to_merge.wf(),
            shift_fits(to_merge@, offset),
        ensures
            final(self).wf(),
            final(self)@ == old(self)@.union_prefer_right(shift_map(to_merge@, offset)),
    {
        let s = &to_merge.draws;
        let mut i: usize = 0;
        assert(s@.take(0) =~= Seq::<BasicDraw>::empty());
        assert(old(self)@.union_prefer_right(shift_map(draws_map(s@.take(0)), offset)) =~= old(self)@);
        while i < s.len()
            invariant
                s@ == to_merge.draws@,
                distinct_pos(s@),
                shift_fits(draws_map(s@), offset),
                self.wf(),
                0 <= i <= s@.len(),
                self@ == old(self)@.union_prefer_right(shift_map(draws_map(s@.take(i as int)), offset)),
            decreases s@.len() - i,
        {
            let d = s[i];
            proof {
                lemma_draws_map_take(s@, i as int);
                lemma_draws_map_index(s@, i as int);
                lemma_shift_insert(draws_map(s@.take(i as int)), d.pos, d.chr, offset);
            }
            self.draw_char(Point::new(d.pos.x + offset.x, d.pos.y + offset.y), d.chr);
            assert(self@ =~= old(self)@.union_prefer_right(shift_map(draws_map(s@.take(i + 1)), offset)));
            i += 1;
        }
        assert(s@.take(s@.len() as int) =~= s@);
    }

    /// Moves every draw so that the top-left corner of the bounding box
    /// lands on `origin`.
    pub fn align_to_origin(&mut self, origin: Point)
        requires
            old(self).wf(),
            in_i32(origin.x - bounding_box_of(old(self)@).p1.x),
            in_i32(origin.y - bounding_box_of(old(self)@).p1.y),
            shift_fits(
                old(self)@,
                Point {
                    x: (origin.x - bounding_box_of(old(self)@).p1.x) as i32,
                    y: (origin.y - bounding_box_of(old(self)@).p1.y) as i32,
                },
            ),
        ensures
            final(self).wf(),
            final(self)@ == shift_map(
                old(self)@,
                Point {
                    x: (origin.x - bounding_box_of(old(self)@).p1.x) as i32,
                    y: (origin.y - bounding_box_of(old(self)@).p1.y) as i32,
                },
            ),
    {
        let tl = self.get_bounding_box().p1;
        let offset = Point::new(origin.x - tl.x, origin.y - tl.y);
        let mut moved = BasicDrawCreator::new();
        std::mem::swap(self, &mut moved);
        self.merge_creator_offset(moved, offset);
        assert(self@ =~= shift_map(old(self)@, offset));
    }

    /// Draws a grid of `cols` by `rows` cells from `origin`, cells
    /// `stride_x` columns and `stride_y` rows apart, each with what
    /// `cell_fn(col, row)` gives (character, foreground, optional
    /// background), row by row. When cells are at least two columns apart,
    /// the cell right of each is cleared to a space in its background.
    pub fn draw_grid_from_fn<F: Fn(usize, usize) -> (char, Color, Option<Color>)>(
        &mut self,
        origin: Point,
        cols: usize,
        rows: usize,
        stride_x: i32,
        stride_y: i32,
        cell_fn: F,
    )
        requires
            old(self).wf(),
            grid_fits(origin, cols, rows, stride_x, stride_y),
            forall|c: usize, r: usize| c < cols && r < rows ==> call_requires(cell_fn, (c, r)),
        ensures
            final(self).wf(),
            exists|vals: Seq<(char, Color, Option<Color>)>|
                {
                    &&& vals.len() == rows * cols
                    &&& forall|k: int|
                        0 <= k < vals.len() ==> call_ensures(
                            cell_fn,
                            ((k % cols as int) as usize, (k / cols as int) as usize),
                            #[trigger] vals[k],
                        )
                    &&& final(self)@ == grid_cells(old(self)@, origin, cols as int, stride_x, stride_y, vals)
                },
    {
        let ghost mut vals: Seq<(char, Color, Option<Color>)> = Seq::empty();
        let mut row: usize = 0;
        while row < rows
            invariant
                self.wf(),
                grid_fits(origin, cols, rows, stride_x, stride_y),
                forall|c: usize, r: usize| c < cols && r < rows ==> call_requires(cell_fn, (c, r)),
                0 <= row <= rows,
                vals.len() == row * cols,
                forall|k: int|
                    0 <= k < vals.len() ==> call_ensures(
                        cell_fn,
                        ((k % cols as int) as usize, (k / cols as int) as usize),
                        #[trigger] vals[k],
                    ),
                self@ == grid_cells(old(self)@, origin, cols as int, stride_x, stride_y, vals),
            decreases rows - row,
        {
            proof {
                lemma_scaled_between(row as int, rows - 1, stride_y as int);
            }
            let y = origin.y + (row as i32) * stride_y;
            let mut col: usize = 0;
            while col < cols
                invariant
                    self.wf(),
                    grid_fits(origin, cols, rows, stride_x, stride_y),
                    forall|c: usize, r: usize| c < cols && r < rows ==> call_requires(cell_fn, (c, r)),
                    0 <= row < rows,
                    0 <= col <= cols,
                    y == origin.y + row * stride_y,
                    vals.len() == row * cols + col,
                    forall|k: int|
                        0 <= k < vals.len() ==> call_ensures(
                            cell_fn,
                            ((k % cols as int) as usize, (k / cols as int) as usize),
                            #[trigger] vals[k],
                        ),
                    self@ == grid_cells(old(self)@, origin, cols as int, stride_x, stride_y, vals),
                decreases cols - col,
            {
                proof {
                    lemma_scaled_between(col as int, cols - 1, stride_x as int);
                }
                let x = origin.x + (col as i32) * stride_x;
                let v = cell_fn(col, row);
                let (ch, fg, bg) = v;
                let ghost before = vals;
                proof {
                    vals = vals.push(v);
                    assert(vals.drop_last() =~= before);
                    vstd::arithmetic::div_mod::lemma_fundamental_div_mod_converse(
                        (row * cols + col) as int,
                        cols as int,
                        row as int,
                        col as int,
                    );
                    assert(row * cols + col == (row as int) * (cols as int) + (col as int));
                    assert forall|k: int|
                        0 <= k < vals.len() implies call_ensures(
                        cell_fn,
                        ((k % cols as int) as usize, (k / cols as int) as usize),
                        #[trigger] vals[k],
                    ) by {
                        if k < before.len() {
                            assert(vals[k] == before[k]);
                        }
                    }
                }
                self.draw_cell(Point::new(x, y), ch, fg, bg);
                if stride_x >= 2 {
                    let mut t = TerminalChar::from_char(' ');
                    match bg {
                        Some(bgcol) => {
                            t = t.set_bg(bgcol);
                        },
                        None => {},
                    }
                    self.draw_char(Point::new(x + 1, y), t);
                }
                col += 1;
                assert(vals.len() == row * cols + col) by (nonlinear_arith)
                    requires
                        vals.len() == before.len() + 1,
                        before.len() == row * cols + (col - 1),
                ;
            }
            row += 1;
            assert(vals.len() == row * cols) by (nonlinear_arith)
                requires
                    vals.len() == (row - 1) * cols + cols,
            ;
        }
    }
}

} // verus!
