//! The cell buffer of the terminal: per cell, the characters that objects
//! put there; the topmost one is shown. Dirty regions are collected as
//! intervals and turned into batches of same-coloured character runs.
use crate::cell::{same_color, BasicDraw, Color, TerminalChar};
use crate::drawables::{rows_view, Drawable};
use crate::errors::DrawError;
use crate::geometry::{Point, Rect};
use crate::objects::DrawObject;
use crate::shaders::Shader;
use crate::sprites::SpriteRegistry;
use crate::update_interval::{
    keyed_flat, lists_keys, map_keys, merge_result, region_rows, sat_add_usize, spec_row_interval, strictly_separated, UpdateInterval,
    UpdateIntervalHandler, UpdateIntervalType,
};
use std::collections::HashMap;
use vstd::prelude::*;
use vstd::std_specs::iter::IteratorSpec;

verus! {

/// What one object puts into one cell.
#[derive(Clone, Copy, Debug)]
pub struct CharacterInfo {
    pub display_id: usize,
    pub layer: usize,
    pub screen_layer: usize,
    pub chr: TerminalChar,
}

/// The characters put into one cell, by object id.
#[derive(Clone, Debug)]
pub struct CharacterInfoList {
    pub info: HashMap<usize, CharacterInfo>,
}

/// A run of characters in one pair of colours.
#[derive(Debug)]
pub struct BatchSegment {
    pub text: String,
    pub fg_color: Option<Color>,
    pub bg_color: Option<Color>,
}

/// Consecutive runs to be written from `(start_x, y)` on.
#[derive(Debug)]
pub struct BatchDrawInfo {
    pub start_x: u16,
    pub y: u16,
    pub segments: Vec<BatchSegment>,
}

/// What the terminal writer is asked to do.
#[derive(Debug)]
pub enum CellDrawerCommand {
    SetString(BatchDrawInfo),
    Flush,
}

/// `a` is drawn over `b`: compared by screen layer, then by layer.
pub open spec fn ci_above_or_eq(a: CharacterInfo, b: CharacterInfo) -> bool {
    a.screen_layer > b.screen_layer || (a.screen_layer == b.screen_layer && a.layer >= b.layer)
}

/// `c` is a topmost entry of the cell: it is in the cell and no entry is
/// above it (entries on the same layers tie; any of them may be shown).
pub open spec fn is_topmost(m: Map<usize, CharacterInfo>, c: CharacterInfo) -> bool {
    &&& exists|k: usize| m.contains_key(k) && m[k] == c
    &&& forall|k: usize| #[trigger] m.contains_key(k) ==> ci_above_or_eq(c, m[k])
}

/// `chr` is what the cell shows: a blank space for an empty cell, else
/// the character of a topmost entry.
pub open spec fn is_cell_char(m: Map<usize, CharacterInfo>, chr: TerminalChar) -> bool {
    if m.dom().len() == 0 && m.dom().finite() {
        chr == (TerminalChar { chr: ' ', fg_color: None, bg_color: None })
    } else {
        exists|c: CharacterInfo| is_topmost(m, c) && c.chr == chr
    }
}

/// A topmost entry is a maximum of the cell's entries under the order
/// of screen layer, then layer: it is one of them and no entry has a
/// higher screen layer, or the same screen layer and a higher layer.
pub proof fn topmost_is_highest(m: Map<usize, CharacterInfo>, c: CharacterInfo)
    requires
        is_topmost(m, c),
    ensures
        exists|k: usize| m.contains_key(k) && m[k] == c,
        forall|k: usize|
            #[trigger] m.contains_key(k) ==> !(m[k].screen_layer > c.screen_layer) && !(m[k].screen_layer == c.screen_layer
                && m[k].layer > c.layer),
{
    assert forall|k: usize| #[trigger] m.contains_key(k) implies !(m[k].screen_layer > c.screen_layer) && !(m[k].screen_layer
        == c.screen_layer && m[k].layer > c.layer) by {
        assert(ci_above_or_eq(c, m[k]));
    }
}

/// A cell whose entry under `k` lies strictly above every other entry
/// (higher screen layer, or the same screen layer and a higher layer)
/// shows that entry's character.
pub proof fn cell_shows_highest_entry(m: Map<usize, CharacterInfo>, k: usize, chr: TerminalChar)
    requires
        is_cell_char(m, chr),
        m.contains_key(k),
        forall|j: usize|
            #[trigger] m.contains_key(j) && j != k ==> m[j].screen_layer < m[k].screen_layer || (m[j].screen_layer
                == m[k].screen_layer && m[j].layer < m[k].layer),
    ensures
        chr == m[k].chr,
{
    assert(m.dom().contains(k));
    if m.dom().finite() {
        vstd::set_lib::lemma_set_empty_equivalency_len(m.dom());
    }
    let c = choose|c: CharacterInfo| is_topmost(m, c) && c.chr == chr;
    topmost_is_highest(m, c);
    let j = choose|j: usize| m.contains_key(j) && m[j] == c;
    if j != k {
        assert(!(m[k].screen_layer > c.screen_layer) && !(m[k].screen_layer == c.screen_layer && m[k].layer > c.layer));
    }
}

/// A topmost entry of the cell, if the cell is not empty.
pub fn topmost(list: &CharacterInfoList) -> (r: Option<CharacterInfo>)
    ensures
        r is None <==> list.info@.dom().len() == 0,
        r matches Some(c) ==> is_topmost(list.info@, c),
{
    broadcast use vstd::std_specs::hash::group_hash_axioms;

    let m = &list.info;
    let ghost s = vstd::std_specs::hash::spec_hash_map_iter(m).remaining();
    let mut best: Option<CharacterInfo> = None;
    for pair in it: m.iter()
        invariant
            s == it.seq(),
            best is None <==> it.index() == 0,
            best matches Some(c) ==> (exists|k: usize| m@.contains_key(k) && m@[k] == c),
            best matches Some(c) ==> forall|j: int| 0 <= j < it.index() ==> ci_above_or_eq(c, *(#[trigger] s[j]).1),
            forall|j: int| 0 <= j < s.len() ==> m@.contains_key(*(#[trigger] s[j]).0) && m@[*s[j].0] == *s[j].1,
    {
        let ghost idx = it.index();
        let (k, v) = pair;
        assert(pair == s[idx]);
        let take = match best {
            None => true,
            Some(b) => v.screen_layer > b.screen_layer || (v.screen_layer == b.screen_layer && v.layer >= b.layer),
        };
        if take {
            best = Some(*v);
        }
    }
    proof {
        if best is None {
            assert(s.len() == 0);
            if m@.dom().len() != 0 {
                let k = m@.dom().choose();
                assert(m@.contains_key(k));
                assert(s.contains((&k, &m@[k])));
            }
        } else {
            assert(m@.dom().len() != 0) by {
                let c = best->Some_0;
                let k = choose|k: usize| m@.contains_key(k) && m@[k] == c;
                assert(m@.dom().contains(k));
            }
            let c = best->Some_0;
            assert forall|k: usize| #[trigger] m@.contains_key(k) implies ci_above_or_eq(c, m@[k]) by {
                assert(s.contains((&k, &m@[k])));
                let j = choose|j: int| 0 <= j < s.len() && s[j] == (&k, &m@[k]);
                assert(ci_above_or_eq(c, *s[j].1));
            }
        }
    }
    best
}

/// The character the cell shows (see `is_cell_char`).
pub fn cell_char(list: &CharacterInfoList) -> (chr: TerminalChar)
    ensures
        is_cell_char(list.info@, chr),
{
    broadcast use vstd::std_specs::hash::group_hash_axioms;

    match topmost(list) {
        Some(c) => c.chr,
        None => TerminalChar::blank(),
    }
}

/// `String::push`: appends one character.
#[verifier::external_body]
fn push_char(s: &mut String, c: char)
    ensures
        final(s)@ == old(s)@.push(c),
{
    s.push(c);
}

/// A run: its characters and its two colours.
pub type Run = (Seq<char>, Option<Color>, Option<Color>);

/// The runs of equal colours of a sequence of characters, in order.
pub open spec fn runs(chs: Seq<TerminalChar>) -> Seq<Run>
    decreases chs.len(),
{
    if chs.len() == 0 {
        Seq::empty()
    } else {
        let r = runs(chs.drop_last());
        let c = chs.last();
        if r.len() > 0 && r.last().1 == c.fg_color && r.last().2 == c.bg_color {
            r.update(r.len() - 1, (r.last().0.push(c.chr), c.fg_color, c.bg_color))
        } else {
            r.push((seq![c.chr], c.fg_color, c.bg_color))
        }
    }
}

pub open spec fn seg_view(s: BatchSegment) -> Run {
    (s.text@, s.fg_color, s.bg_color)
}

pub open spec fn segs_view(s: Seq<BatchSegment>) -> Seq<Run> {
    s.map_values(|x: BatchSegment| seg_view(x))
}

/// `b` is the batch of cells `[start, end)` of a buffer with rows of
/// `cols` cells, for some choice of shown characters: it starts at the
/// first cell (or at `(0, 0)` when there is none) and holds the runs of
/// equal colours of the shown characters.
pub open spec fn is_batch_of(cells: Seq<CharacterInfoList>, cols: int, start: int, end: int, b: BatchDrawInfo) -> bool {
    exists|chs: Seq<TerminalChar>|
        {
            &&& chs.len() == (if end > start { end - start } else { 0 })
            &&& forall|i: int| 0 <= i < chs.len() ==> is_cell_char(cells[start + i].info@, #[trigger] chs[i])
            &&& segs_view(b.segments@) == runs(chs)
        }
        && (end > start ==> b.start_x == (start % cols) as u16 && b.y == (start / cols) as u16)
        && (end <= start ==> b.start_x == 0 && b.y == 0)
}

/// Collects the cells `[start, end)` into runs of equal colours.
pub fn batch_for_range(cells: &Vec<CharacterInfoList>, cols: u16, start: usize, end: usize) -> (b: BatchDrawInfo)
    requires
        end <= cells@.len(),
        cols > 0,
    ensures
        is_batch_of(cells@, cols as int, start as int, end as int, b),
{
    let mut batch = BatchDrawInfo { start_x: 0, y: 0, segments: Vec::new() };
    let mut current: Option<BatchSegment> = None;
    let ghost mut chs: Seq<TerminalChar> = Seq::empty();
    let mut idx = start;
    while idx < end
        invariant
            end <= cells@.len(),
            cols > 0,
            start <= idx || idx >= end,
            idx <= end || idx == start,
            idx >= start ==> chs.len() == idx - start,
            idx < start ==> chs.len() == 0 && idx == start,
            forall|i: int| 0 <= i < chs.len() ==> is_cell_char(cells@[start + i].info@, #[trigger] chs[i]),
            current is None <==> chs.len() == 0,
            current is None ==> segs_view(batch.segments@) == runs(chs),
            current matches Some(c) ==> segs_view(batch.segments@).push(seg_view(c)) == runs(chs),
            chs.len() > 0 ==> batch.start_x == (start as int % cols as int) as u16 && batch.y == (start as int / cols as int) as u16,
            chs.len() == 0 ==> batch.start_x == 0 && batch.y == 0,
        decreases end - idx,
    {
        let y: u16 = #[verifier::truncate] ((idx / cols as usize) as u16);
        let x: u16 = #[verifier::truncate] ((idx % cols as usize) as u16);
        let chr = cell_char(&cells[idx]);
        let ghost old_chs = chs;
        let ghost old_segs = segs_view(batch.segments@);
        proof {
            chs = chs.push(chr);
            assert(chs.drop_last() =~= old_chs);
            assert forall|i: int| 0 <= i < chs.len() implies is_cell_char(cells@[start + i].info@, #[trigger] chs[i]) by {
                if i < old_chs.len() {
                    assert(chs[i] == old_chs[i]);
                }
            }
        }
        match current {
            None => {
                let mut text = String::new();
                push_char(&mut text, chr.chr);
                current = Some(BatchSegment { text, fg_color: chr.fg_color, bg_color: chr.bg_color });
                batch.start_x = x;
                batch.y = y;
                proof {
                    assert(runs(old_chs).len() == 0);
                    assert(text@ =~= seq![chr.chr]);
                    assert(old_segs.push(seg_view(current->Some_0)) =~= runs(chs));
                }
            },
            Some(seg) => {
                if same_color(seg.fg_color, chr.fg_color) && same_color(seg.bg_color, chr.bg_color) {
                    let mut seg = seg;
                    push_char(&mut seg.text, chr.chr);
                    proof {
                        let r = runs(old_chs);
                        assert(r.len() > 0 && r.last() == seg_view(current->Some_0)) by {
                            assert(old_segs.push(seg_view(current->Some_0)).last() == seg_view(current->Some_0));
                        }
                        assert(old_segs.push(seg_view(seg)) =~= runs(chs));
                    }
                    current = Some(seg);
                } else {
                    let ghost prev = seg_view(seg);
                    batch.segments.push(seg);
                    let mut text = String::new();
                    push_char(&mut text, chr.chr);
                    let ns = BatchSegment { text, fg_color: chr.fg_color, bg_color: chr.bg_color };
                    proof {
                        let r = runs(old_chs);
                        assert(old_segs.push(prev) == r);
                        assert(segs_view(batch.segments@) =~= old_segs.push(prev));
                        assert(text@ =~= seq![chr.chr]);
                        assert(segs_view(batch.segments@).push(seg_view(ns)) =~= runs(chs));
                    }
                    current = Some(ns);
                }
            },
        }
        idx += 1;
    }
    match current {
        Some(seg) => {
            let ghost before = segs_view(batch.segments@);
            batch.segments.push(seg);
            assert(segs_view(batch.segments@) =~= before.push(seg_view(seg)));
        },
        None => {},
    }
    assert(is_batch_of(cells@, cols as int, start as int, end as int, batch)) by {
        assert(chs.len() == (if end > start { end - start } else { 0 }));
    }
    batch
}

/// The intervals that a row map (rows as sequences) contributes to a
/// screen of the given size.
pub open spec fn regions_of(width: u16, height: u16, m: Map<u16, Seq<UpdateInterval>>) -> Set<UpdateInterval> {
    Set::new(
        |v: UpdateInterval|
            exists|y: u16, i: int|
                m.contains_key(y) && 0 <= i < m[y].len() && spec_row_interval(width, height, y, m[y][i]) == Some(v),
    )
}

/// A list of the keys of a map of rows lists the keys of its view.
proof fn lemma_lists_keys_rows_view(ks: Seq<u16>, m: Map<u16, Vec<UpdateInterval>>)
    requires
        lists_keys(ks, m),
    ensures
        lists_keys(ks, rows_view(m)),
{
    assert(rows_view(m).dom() =~= m.dom());
}

proof fn lemma_regions_of_rows_view(width: u16, height: u16, m: Map<u16, Vec<UpdateInterval>>)
    ensures
        region_rows(width, height, m) == regions_of(width, height, rows_view(m)),
{
    let l = region_rows(width, height, m);
    let r = regions_of(width, height, rows_view(m));
    assert forall|v: UpdateInterval| l.contains(v) implies r.contains(v) by {
        let (y, i) = choose|y: u16, i: int|
            m.contains_key(y) && 0 <= i < m[y]@.len() && spec_row_interval(width, height, y, m[y]@[i]) == Some(v);
        assert(rows_view(m)[y] == m[y]@);
    }
    assert forall|v: UpdateInterval| r.contains(v) implies l.contains(v) by {
        let (y, i) = choose|y: u16, i: int|
            rows_view(m).contains_key(y) && 0 <= i < rows_view(m)[y].len() && spec_row_interval(
                width,
                height,
                y,
                rows_view(m)[y][i],
            ) == Some(v);
        assert(rows_view(m)[y] == m[y]@);
    }
    assert(l =~= r);
}

/// The draw after all shaders, in order; `None` when a shader cannot map
/// it (see `Shader::applicable`).
pub open spec fn shade(shaders: Seq<Shader>, d: BasicDraw, fs: (usize, usize)) -> Option<BasicDraw>
    decreases shaders.len(),
{
    if shaders.len() == 0 {
        Some(d)
    } else {
        match shade(shaders.drop_last(), d, fs) {
            None => None,
            Some(d1) => if shaders.last().applicable(d1, fs) {
                Some(shaders.last().spec_apply(d1, fs))
            } else {
                None
            },
        }
    }
}

/// Runs the shaders over a draw (see `shade`).
pub fn apply_shaders(shaders: &Vec<Shader>, d: BasicDraw, fs: (usize, usize)) -> (r: Option<BasicDraw>)
    ensures
        r == shade(shaders@, d, fs),
{
    let mut cur = d;
    let mut i: usize = 0;
    assert(shaders@.take(0) =~= Seq::<Shader>::empty());
    while i < shaders.len()
        invariant
            0 <= i <= shaders@.len(),
            shade(shaders@.take(i as int), d, fs) == Some(cur),
        decreases shaders@.len() - i,
    {
        assert(shaders@.take(i + 1).drop_last() =~= shaders@.take(i as int));
        if !shaders[i].can_apply(&cur, fs) {
            proof {
                lemma_shade_stuck(shaders@, i as int, d, fs);
            }
            return None;
        }
        shaders[i].apply(&mut cur, fs);
        i += 1;
    }
    assert(shaders@.take(shaders@.len() as int) =~= shaders@);
    Some(cur)
}

/// Once a shader cannot map a draw, the whole chain gives `None`.
proof fn lemma_shade_stuck(shaders: Seq<Shader>, i: int, d: BasicDraw, fs: (usize, usize))
    requires
        0 <= i < shaders.len(),
        shade(shaders.take(i), d, fs) matches Some(c) && !shaders[i].applicable(c, fs),
    ensures
        shade(shaders, d, fs) is None,
    decreases shaders.len() - i,
{
    lemma_shade_none_extends(shaders, i + 1, d, fs);
    assert(shaders.take(i + 1).drop_last() =~= shaders.take(i));
    assert(shaders.take(shaders.len() as int) =~= shaders);
}

proof fn lemma_shade_none_extends(shaders: Seq<Shader>, k: int, d: BasicDraw, fs: (usize, usize))
    requires
        0 < k <= shaders.len(),
        shade(shaders.take(k - 1), d, fs) matches Some(c) && !shaders[k - 1].applicable(c, fs),
    ensures
        forall|j: int| k <= j <= shaders.len() ==> shade(#[trigger] shaders.take(j), d, fs) is None,
    decreases shaders.len() - k,
{
    assert(shaders.take(k).drop_last() =~= shaders.take(k - 1));
    assert forall|j: int| k <= j <= shaders.len() implies shade(#[trigger] shaders.take(j), d, fs) is None by {
        lemma_shade_none_upto(shaders, k, j, d, fs);
    }
}

proof fn lemma_shade_none_upto(shaders: Seq<Shader>, k: int, j: int, d: BasicDraw, fs: (usize, usize))
    requires
        0 < k <= j <= shaders.len(),
        shade(shaders.take(k), d, fs) is None,
    ensures
        shade(shaders.take(j), d, fs) is None,
    decreases j - k,
{
    if j > k {
        lemma_shade_none_upto(shaders, k, j - 1, d, fs);
        assert(shaders.take(j).drop_last() =~= shaders.take(j - 1));
    }
}

/// The draw lands in the screen's bounds and in the buffer.
pub open spec fn visible(d: BasicDraw, bounds: Rect, cols: int, rows: int) -> bool {
    bounds.spec_contains(d.pos) && 0 <= d.pos.x < cols && 0 <= d.pos.y < rows
}

/// The cells after placing the draws of object `obj_id` in order: each
/// draw is shaded and, when it stays visible, becomes the object's entry
/// of its cell (later draws overwrite earlier ones).
pub open spec fn place(
    cells: Seq<Map<usize, CharacterInfo>>,
    ds: Seq<BasicDraw>,
    shaders: Seq<Shader>,
    fs: (usize, usize),
    bounds: Rect,
    cols: int,
    rows: int,
    obj_id: usize,
    layer: usize,
    screen_layer: usize,
) -> Seq<Map<usize, CharacterInfo>>
    decreases ds.len(),
{
    if ds.len() == 0 {
        cells
    } else {
        let c = place(cells, ds.drop_last(), shaders, fs, bounds, cols, rows, obj_id, layer, screen_layer);
        match shade(shaders, ds.last(), fs) {
            Some(d) => if visible(d, bounds, cols, rows) {
                let idx = d.pos.y * cols + d.pos.x;
                c.update(
                    idx,
                    c[idx].insert(obj_id, CharacterInfo { display_id: obj_id, layer, screen_layer, chr: d.chr }),
                )
            } else {
                c
            },
            None => c,
        }
    }
}

pub open spec fn cells_view(cells: Seq<CharacterInfoList>) -> Seq<Map<usize, CharacterInfo>> {
    cells.map_values(|c: CharacterInfoList| c.info@)
}

/// The intervals an update starts from: the held ones plus the whole
/// screen as `Forced`, each end grown by `expand` (saturating).
pub open spec fn prepared_intervals(ivs: Seq<UpdateInterval>, w: u16, h: u16, expand: usize) -> Seq<UpdateInterval> {
    let all = ivs.push(UpdateInterval { interval: (0, (w * h) as usize), iv_type: UpdateIntervalType::Forced });
    Seq::new(
        all.len(),
        |i: int| UpdateInterval { interval: (all[i].interval.0, sat_add_usize(all[i].interval.1, expand)), iv_type: all[i].iv_type },
    )
}

pub open spec fn min_int(a: int, b: int) -> int {
    if a <= b { a } else { b }
}

/// What `add_to_buffer` does, given what drawing gave (`dr`) and the
/// drawable after drawing.
pub open spec fn spec_added(
    before: ScreenBuffer,
    after: ScreenBuffer,
    drawable: Drawable,
    shaders: Seq<Shader>,
    layer: usize,
    obj_id: usize,
    screen_layer: usize,
    bounds: Rect,
    sprites: SpriteRegistry,
    dr: Result<Vec<BasicDraw>, DrawError>,
    r: Result<(), DrawError>,
) -> bool {
    match dr {
        Err(e) => r == Err::<(), DrawError>(e) && after == before,
        Ok(ds) => {
            let n0 = before.spec_intervals().len();
            let w = before.spec_size().0;
            let h = before.spec_size().1;
            &&& after.spec_intervals().len() >= n0
            &&& after.spec_intervals().subrange(0, n0 as int) == before.spec_intervals()
            &&& after.spec_intervals().subrange(n0 as int, after.spec_intervals().len() as int).to_set()
                == regions_of(w, h, drawable.spec_bounding(sprites))
            &&& exists|ks: Seq<u16>|
                #[trigger] lists_keys(ks, drawable.spec_bounding(sprites)) && after.spec_intervals().subrange(
                    n0 as int,
                    after.spec_intervals().len() as int,
                ) == keyed_flat(w, h, drawable.spec_bounding(sprites), ks)
            &&& match drawable.spec_size(sprites) {
                Err(e) => r == Err::<(), DrawError>(e) && after.spec_cells() == before.spec_cells(),
                Ok(sz) => r is Ok && after.spec_cells() == place(
                    before.spec_cells(),
                    ds@,
                    shaders,
                    (sz.0 as usize, sz.1 as usize),
                    bounds,
                    w as int,
                    h as int,
                    obj_id,
                    layer,
                    screen_layer,
                ),
            }
        },
    }
}


/// Cell `idx` of a buffer with rows of `cols` cells lies in row `y`,
/// within `[start, end)` and within the buffer's columns and rows.
pub open spec fn span_covers(idx: int, cols: int, rows: int, y: u16, start: int, end: int) -> bool {
    &&& y < rows
    &&& idx / cols == y
    &&& start <= idx % cols < end
    &&& idx % cols < cols
}

/// Cell `idx` lies in an interval of a row of the map.
pub open spec fn map_covers(rv: Map<u16, Seq<UpdateInterval>>, idx: int, cols: int, rows: int) -> bool {
    exists|y: u16, j: int|
        rv.contains_key(y) && 0 <= j < rv[y].len() && span_covers(
            idx,
            cols,
            rows,
            y,
            rv[y][j].interval.0 as int,
            rv[y][j].interval.1 as int,
        )
}

/// Cell `idx` lies in an interval of a row among `ks[..q]`, or of the
/// first `j` intervals of row `ks[q]`.
pub open spec fn done_covers(
    rv: Map<u16, Seq<UpdateInterval>>,
    ks: Seq<u16>,
    q: int,
    j: int,
    idx: int,
    cols: int,
    rows: int,
) -> bool {
    ||| exists|qq: int, jj: int|
        0 <= qq < q && rv.contains_key(ks[qq]) && 0 <= jj < rv[ks[qq]].len() && #[trigger] span_covers(
            idx,
            cols,
            rows,
            ks[qq],
            rv[ks[qq]][jj].interval.0 as int,
            rv[ks[qq]][jj].interval.1 as int,
        )
    ||| (0 <= q < ks.len() && rv.contains_key(ks[q]) && exists|jj: int|
        0 <= jj < j && jj < rv[ks[q]].len() && #[trigger] span_covers(
            idx,
            cols,
            rows,
            ks[q],
            rv[ks[q]][jj].interval.0 as int,
            rv[ks[q]][jj].interval.1 as int,
        ))
}

/// The cells with the object's entry removed where `cover` holds.
pub open spec fn removed_where(
    cells: Seq<Map<usize, CharacterInfo>>,
    after: Seq<Map<usize, CharacterInfo>>,
    obj_id: usize,
    cover: spec_fn(int) -> bool,
) -> bool {
    &&& after.len() == cells.len()
    &&& forall|idx: int|
        0 <= idx < cells.len() ==> #[trigger] after[idx] == (if cover(idx) {
            cells[idx].remove(obj_id)
        } else {
            cells[idx]
        })
}


proof fn lemma_removed_compose(
    c0: Seq<Map<usize, CharacterInfo>>,
    c1: Seq<Map<usize, CharacterInfo>>,
    c2: Seq<Map<usize, CharacterInfo>>,
    obj_id: usize,
    a: spec_fn(int) -> bool,
    b: spec_fn(int) -> bool,
    c: spec_fn(int) -> bool,
)
    requires
        removed_where(c0, c1, obj_id, a),
        removed_where(c1, c2, obj_id, b),
        forall|idx: int| 0 <= idx < c0.len() ==> #[trigger] c(idx) == (a(idx) || b(idx)),
    ensures
        removed_where(c0, c2, obj_id, c),
{
    assert forall|idx: int| 0 <= idx < c0.len() implies #[trigger] c2[idx] == (if c(idx) {
        c0[idx].remove(obj_id)
    } else {
        c0[idx]
    }) by {
        assert(c0[idx].remove(obj_id).remove(obj_id) =~= c0[idx].remove(obj_id));
        assert(c(idx) == (a(idx) || b(idx)));
    }
}


/// What `ScreenBuffer::update_terminal` does (see there): `out` holds one
/// batch per merged interval of the prepared intervals, then `Flush`; the
/// cells stay and the dirty regions are emptied.
pub open spec fn spec_update(before: ScreenBuffer, after: ScreenBuffer, expand: usize, out: Seq<CellDrawerCommand>) -> bool {
    &&& after.wf()
    &&& after.spec_size() == before.spec_size()
    &&& after.spec_cell_lists() == before.spec_cell_lists()
    &&& after.spec_intervals() == Seq::<UpdateInterval>::empty()
    &&& exists|merged: Seq<UpdateInterval>|
        {
            &&& merge_result(
                prepared_intervals(before.spec_intervals(), before.spec_size().0, before.spec_size().1, expand),
                merged,
            )
            &&& strictly_separated(merged)
            &&& out.len() == merged.len() + 1
            &&& out.last() is Flush
            &&& forall|i: int|
                0 <= i < merged.len() ==> (#[trigger] out[i]) is SetString && is_batch_of(
                    before.spec_cell_lists(),
                    before.spec_size().0 as int,
                    min_int(merged[i].interval.0 as int, before.spec_size().0 * before.spec_size().1),
                    min_int(merged[i].interval.1 as int, before.spec_size().0 * before.spec_size().1),
                    out[i]->SetString_0,
                )
        }
}

/// The cell buffer of a terminal of `size.0` columns and `size.1` rows.
#[derive(Debug)]
pub struct ScreenBuffer {
    cells: Vec<CharacterInfoList>,
    intervals: UpdateIntervalHandler,
    size: (u16, u16),
}

impl ScreenBuffer {
    pub closed spec fn spec_cell_lists(&self) -> Seq<CharacterInfoList> {
        self.cells@
    }

    /// The entries of every cell, row-major.
    pub open spec fn spec_cells(&self) -> Seq<Map<usize, CharacterInfo>> {
        cells_view(self.spec_cell_lists())
    }

    pub closed spec fn spec_size(&self) -> (u16, u16) {
        self.size
    }

    /// The dirty intervals collected so far.
    pub closed spec fn spec_intervals(&self) -> Seq<UpdateInterval> {
        self.intervals.spec_intervals()
    }

    /// There is one cell per position, and the intervals are over a
    /// screen of this size.
    pub closed spec fn wf(&self) -> bool {
        &&& self.cells@.len() == self.size.0 * self.size.1
        &&& self.intervals.wf()
        &&& self.intervals.spec_width() == self.size.0
        &&& self.intervals.spec_height() == self.size.1
    }

    /// An empty buffer: every cell without entries, nothing dirty.
    pub fn new(size: (u16, u16)) -> (b: Self)
        ensures
            b.wf(),
            b.spec_size() == size,
            b.spec_cells().len() == size.0 * size.1,
            forall|i: int| 0 <= i < b.spec_cells().len() ==> (#[trigger] b.spec_cells()[i]).dom().len() == 0,
            b.spec_intervals() == Seq::<UpdateInterval>::empty(),
    {
        assert(size.0 * size.1 <= 65535 * 65535) by (nonlinear_arith)
            requires
                size.0 <= 65535,
                size.1 <= 65535,
        ;
        let capacity = size.0 as usize * size.1 as usize;
        let mut cells: Vec<CharacterInfoList> = Vec::new();
        let mut i: usize = 0;
        while i < capacity
            invariant
                0 <= i <= capacity,
                cells@.len() == i,
                forall|j: int| 0 <= j < i ==> (#[trigger] cells@[j]).info@.dom().len() == 0,
            decreases capacity - i,
        {
            let m: HashMap<usize, CharacterInfo> = HashMap::new();
            assert(m@.dom() =~= Set::<usize>::empty());
            cells.push(CharacterInfoList { info: m });
            i += 1;
        }
        ScreenBuffer { cells, intervals: UpdateIntervalHandler::new(size.0, size.1), size }
    }

    /// `(columns, rows)`.
    pub fn size(&self) -> (s: (u16, u16))
        ensures
            s == self.spec_size(),
    {
        self.size
    }

    /// The index of a position in the row-major cell buffer.
    pub fn idx_of(&self, pos: Point) -> (idx: usize)
        requires
            0 <= pos.x < self.spec_size().0,
            0 <= pos.y < self.spec_size().1,
        ensures
            idx == pos.y * self.spec_size().0 + pos.x,
            idx < self.spec_size().0 * self.spec_size().1,
    {
        let cols = self.size.0 as usize;
        assert(pos.y * cols + pos.x < self.size.0 * self.size.1 && self.size.0 * self.size.1 <= 65535 * 65535) by (nonlinear_arith)
            requires
                0 <= pos.x < cols,
                0 <= pos.y < self.size.1,
                cols == self.size.0,
                self.size.0 <= 65535,
                self.size.1 <= 65535,
        ;
        (pos.y as usize) * cols + pos.x as usize
    }

    /// Marks the whole screen as dirty and makes the buffer hold one cell
    /// per position of `new_size` (new cells are empty, kept cells keep
    /// their entries). The size the buffer reports is not changed.
    pub fn mark_all_dirty(&mut self, new_size: (u16, u16))
        requires
            old(self).wf(),
        ensures
            new_size == old(self).spec_size() ==> final(self).wf(),
            final(self).spec_size() == old(self).spec_size(),
            final(self).spec_intervals() == old(self).spec_intervals().push(
                UpdateInterval {
                    interval: (0, (old(self).spec_size().0 * old(self).spec_size().1) as usize),
                    iv_type: UpdateIntervalType::Forced,
                },
            ),
            final(self).spec_cells().len() == new_size.0 * new_size.1,
            forall|i: int|
                0 <= i < final(self).spec_cells().len() ==> #[trigger] final(self).spec_cells()[i] == (if i
                    < old(self).spec_cells().len() {
                    old(self).spec_cells()[i]
                } else {
                    Map::<usize, CharacterInfo>::empty()
                }),
    {
        broadcast use vstd::std_specs::hash::group_hash_axioms;

        self.intervals.invalidate_entire_screen();
        assert(new_size.0 * new_size.1 <= 65535 * 65535) by (nonlinear_arith)
            requires
                new_size.0 <= 65535,
                new_size.1 <= 65535,
        ;
        let capacity = new_size.0 as usize * new_size.1 as usize;
        let ghost old_cells = cells_view(self.cells@);
        let ghost ivs = self.intervals;
        if self.cells.len() > capacity {
            self.cells.truncate(capacity);
        }
        while self.cells.len() < capacity
            invariant
                self.cells@.len() <= capacity,
                self.cells@.len() >= old_cells.len() || self.cells@.len() == capacity,
                capacity == new_size.0 * new_size.1,
                self.size == old(self).size,
                self.intervals == ivs,
                forall|i: int|
                    0 <= i < self.cells@.len() ==> #[trigger] self.cells@[i].info@ == (if i < old_cells.len() {
                        old_cells[i]
                    } else {
                        Map::<usize, CharacterInfo>::empty()
                    }),
            decreases capacity - self.cells@.len(),
        {
            let m: HashMap<usize, CharacterInfo> = HashMap::new();
            let ghost before = self.cells@;
            self.cells.push(CharacterInfoList { info: m });
            proof {
                assert forall|i: int|
                    0 <= i < self.cells@.len() implies #[trigger] self.cells@[i].info@ == (if i < old_cells.len() {
                        old_cells[i]
                    } else {
                        Map::<usize, CharacterInfo>::empty()
                    }) by {
                    if i < before.len() {
                        assert(self.cells@[i] == before[i]);
                    } else {
                        assert(m@ == Map::<usize, CharacterInfo>::empty());
                    }
                }
            }
        }
        proof {
            assert(self.cells@.len() == capacity);
        }
    }

    /// Puts the draws of an object into the buffer. The drawable is drawn
    /// (a drawing error is returned and nothing changes); the rows it may
    /// cover become dirty; its size is taken (an error is returned, the
    /// cells unchanged); then every draw is shaded and, when visible inside
    /// `bounds` and the buffer, stored as the object's entry of its cell
    /// (see `place`). Draws that a shader cannot map are left out.
    pub fn add_to_buffer(
        &mut self,
        obj: &mut DrawObject,
        obj_id: usize,
        screen_layer: usize,
        bounds: &Rect,
        sprites: &SpriteRegistry,
    ) -> (r: Result<(), DrawError>)
        requires
            old(self).wf(),
            old(obj).drawable.draw_ok(*sprites),
            old(obj).drawable.bounding_ok(),
            old(obj).drawable.size_ok(),
        ensures
            final(obj).layer == old(obj).layer,
            final(obj).shaders == old(obj).shaders,
            final(obj).lifetime == old(obj).lifetime,
            final(obj).creation_time == old(obj).creation_time,
            final(self).wf(),
            final(self).spec_size() == old(self).spec_size(),
            exists|dr: Result<Vec<BasicDraw>, DrawError>|
                #[trigger] old(obj).drawable.draw_result(final(obj).drawable, *sprites, dr) && spec_added(
                    *old(self),
                    *final(self),
                    final(obj).drawable,
                    old(obj).shaders@,
                    old(obj).layer,
                    obj_id,
                    screen_layer,
                    *bounds,
                    *sprites,
                    dr,
                    r,
                ),
    {
        let draws = match obj.drawable.draw(sprites) {
            Ok(d) => d,
            Err(e) => {
                return Err(e);
            },
        };
        let ghost dr: Result<Vec<BasicDraw>, DrawError> = Ok(draws);
        let map = obj.drawable.bounding_iv(sprites);
        proof {
            lemma_regions_of_rows_view(self.size.0, self.size.1, map@);
        }
        let ghost map_v = map@;
        let ghost ivs0 = self.intervals;
        self.intervals.merge_redraw_regions(map);
        proof {
            let ks = choose|ks: Seq<u16>|
                #[trigger] lists_keys(ks, map_v) && self.intervals.spec_intervals().subrange(
                    ivs0.spec_intervals().len() as int,
                    self.intervals.spec_intervals().len() as int,
                ) == keyed_flat(ivs0.spec_width(), ivs0.spec_height(), rows_view(map_v), ks);
            lemma_lists_keys_rows_view(ks, map_v);
        }
        let size = match obj.drawable.size(sprites) {
            Ok(s) => s,
            Err(e) => {
                return Err(e);
            },
        };
        let fs = (size.0 as usize, size.1 as usize);
        let cols = self.size.0;
        let rows = self.size.1;
        let ghost cells0 = cells_view(self.cells@);
        let ghost ivs1 = self.intervals;
        let mut i: usize = 0;
        assert(draws@.take(0) =~= Seq::<BasicDraw>::empty());
        while i < draws.len()
            invariant
                self.wf(),
                self.size == old(self).size,
                self.intervals == ivs1,
                cols == self.size.0,
                rows == self.size.1,
                0 <= i <= draws@.len(),
                cells_view(self.cells@) == place(
                    cells0,
                    draws@.take(i as int),
                    obj.shaders@,
                    fs,
                    *bounds,
                    cols as int,
                    rows as int,
                    obj_id,
                    obj.layer,
                    screen_layer,
                ),
            decreases draws@.len() - i,
        {
            let ghost before = cells_view(self.cells@);
            assert(draws@.take(i + 1).drop_last() =~= draws@.take(i as int));
            match apply_shaders(&obj.shaders, draws[i], fs) {
                None => {},
                Some(rd) => {
                    if bounds.contains(rd.pos) && rd.pos.x >= 0 && rd.pos.y >= 0 && rd.pos.x < cols as i32
                        && rd.pos.y < rows as i32 {
                        let idx = self.idx_of(rd.pos);
                        let ci = CharacterInfo { display_id: obj_id, layer: obj.layer, screen_layer, chr: rd.chr };
                        self.cells[idx].info.insert(obj_id, ci);
                        proof {
                            broadcast use vstd::std_specs::hash::group_hash_axioms;

                            assert(cells_view(self.cells@) =~= before.update(
                                idx as int,
                                before[idx as int].insert(obj_id, ci),
                            ));
                        }
                    }
                },
            }
            i += 1;
        }
        assert(draws@.take(draws@.len() as int) =~= draws@);
        Ok(())
    }

    /// Takes an object out of the buffer: the rows its drawable may cover
    /// become dirty, and its entry is removed from every cell those rows'
    /// intervals cover inside the buffer (see `map_covers`).
    pub fn remove_from_buffer(&mut self, obj: &DrawObject, obj_id: usize, sprites: &SpriteRegistry)
        requires
            old(self).wf(),
            obj.drawable.bounding_ok(),
        ensures
            final(self).wf(),
            final(self).spec_size() == old(self).spec_size(),
            final(self).spec_intervals().len() >= old(self).spec_intervals().len(),
            final(self).spec_intervals().subrange(0, old(self).spec_intervals().len() as int)
                == old(self).spec_intervals(),
            final(self).spec_intervals().subrange(
                old(self).spec_intervals().len() as int,
                final(self).spec_intervals().len() as int,
            ).to_set() == regions_of(
                old(self).spec_size().0,
                old(self).spec_size().1,
                obj.drawable.spec_bounding(*sprites),
            ),
            exists|ks: Seq<u16>|
                #[trigger] lists_keys(ks, obj.drawable.spec_bounding(*sprites)) && final(self).spec_intervals().subrange(
                    old(self).spec_intervals().len() as int,
                    final(self).spec_intervals().len() as int,
                ) == keyed_flat(old(self).spec_size().0, old(self).spec_size().1, obj.drawable.spec_bounding(*sprites), ks),
            removed_where(
                old(self).spec_cells(),
                final(self).spec_cells(),
                obj_id,
                |idx: int|
                    map_covers(
                        obj.drawable.spec_bounding(*sprites),
                        idx,
                        old(self).spec_size().0 as int,
                        old(self).spec_size().1 as int,
                    ),
            ),
    {
        broadcast use vstd::std_specs::hash::group_hash_axioms;

        let map = obj.drawable.bounding_iv(sprites);
        let keys = map_keys(&map);
        let ghost rv = rows_view(map@);
        let ghost c0 = self.spec_cells();
        let ghost cols = self.size.0 as int;
        let ghost rows = self.size.1 as int;
        let mut q: usize = 0;
        assert(removed_where(c0, self.spec_cells(), obj_id, |idx: int| done_covers(rv, keys@, 0, 0, idx, cols, rows))) by {
            assert forall|idx: int| 0 <= idx < c0.len() implies #[trigger] self.spec_cells()[idx] == (if done_covers(
                rv,
                keys@,
                0,
                0,
                idx,
                cols,
                rows,
            ) {
                c0[idx].remove(obj_id)
            } else {
                c0[idx]
            }) by {
            }
        }
        while q < keys.len()
            invariant
                self.wf(),
                self.size == old(self).size,
                self.intervals == old(self).intervals,
                cols == self.size.0,
                rows == self.size.1,
                c0 == old(self).spec_cells(),
                rv == rows_view(map@),
                forall|j: int| 0 <= j < keys@.len() ==> map@.contains_key(#[trigger] keys@[j]),
                0 <= q <= keys@.len(),
                removed_where(c0, self.spec_cells(), obj_id, |idx: int| done_covers(rv, keys@, q as int, 0, idx, cols, rows)),
            decreases keys@.len() - q,
        {
            let y = keys[q];
            let ivs = map.get(&y).unwrap();
            assert(rv[y] == ivs@);
            let mut j: usize = 0;
            while j < ivs.len()
                invariant
                    self.wf(),
                    self.size == old(self).size,
                    self.intervals == old(self).intervals,
                    cols == self.size.0,
                    rows == self.size.1,
                    c0 == old(self).spec_cells(),
                    rv == rows_view(map@),
                    0 <= q < keys@.len(),
                    y == keys@[q as int],
                    rv.contains_key(y),
                    rv[y] == ivs@,
                    0 <= j <= ivs@.len(),
                    removed_where(
                        c0,
                        self.spec_cells(),
                        obj_id,
                        |idx: int| done_covers(rv, keys@, q as int, j as int, idx, cols, rows),
                    ),
                decreases ivs@.len() - j,
            {
                let (start, end) = ivs[j].interval;
                let ghost c1 = self.spec_cells();
                self.clear_span(y, start, end, obj_id);
                proof {
                    lemma_removed_compose(
                        c0,
                        c1,
                        self.spec_cells(),
                        obj_id,
                        |idx: int| done_covers(rv, keys@, q as int, j as int, idx, cols, rows),
                        |idx: int| span_covers(idx, cols, rows, y, start as int, end as int),
                        |idx: int| done_covers(rv, keys@, q as int, j + 1, idx, cols, rows),
                    );
                }
                j += 1;
            }
            proof {
                let ghost c1 = self.spec_cells();
                assert forall|idx: int| 0 <= idx < c0.len() implies #[trigger] c1[idx] == (if done_covers(
                    rv,
                    keys@,
                    q + 1,
                    0,
                    idx,
                    cols,
                    rows,
                ) {
                    c0[idx].remove(obj_id)
                } else {
                    c0[idx]
                }) by {
                    assert(done_covers(rv, keys@, q + 1, 0, idx, cols, rows) == done_covers(
                        rv,
                        keys@,
                        q as int,
                        ivs@.len() as int,
                        idx,
                        cols,
                        rows,
                    )) by {
                        if done_covers(rv, keys@, q + 1, 0, idx, cols, rows) {
                            let (qq, jj) = choose|qq: int, jj: int|
                                0 <= qq < q + 1 && rv.contains_key(keys@[qq]) && 0 <= jj < rv[keys@[qq]].len()
                                    && #[trigger] span_covers(
                                    idx,
                                    cols,
                                    rows,
                                    keys@[qq],
                                    rv[keys@[qq]][jj].interval.0 as int,
                                    rv[keys@[qq]][jj].interval.1 as int,
                                );
                            if qq == q {
                                assert(0 <= jj < ivs@.len());
                            }
                        }
                    }
                }
            }
            q += 1;
        }
        proof {
            assert forall|idx: int| 0 <= idx < c0.len() implies #[trigger] self.spec_cells()[idx] == (if map_covers(
                rv,
                idx,
                cols,
                rows,
            ) {
                c0[idx].remove(obj_id)
            } else {
                c0[idx]
            }) by {
                assert(map_covers(rv, idx, cols, rows) == done_covers(rv, keys@, keys@.len() as int, 0, idx, cols, rows)) by {
                    if map_covers(rv, idx, cols, rows) {
                        let (y, j) = choose|y: u16, j: int|
                            rv.contains_key(y) && 0 <= j < rv[y].len() && span_covers(
                                idx,
                                cols,
                                rows,
                                y,
                                rv[y][j].interval.0 as int,
                                rv[y][j].interval.1 as int,
                            );
                        assert(keys@.contains(y));
                        let qq = choose|qq: int| 0 <= qq < keys@.len() && keys@[qq] == y;
                        assert(span_covers(
                            idx,
                            cols,
                            rows,
                            keys@[qq],
                            rv[keys@[qq]][j].interval.0 as int,
                            rv[keys@[qq]][j].interval.1 as int,
                        ));
                    }
                }
            }
            lemma_regions_of_rows_view(self.size.0, self.size.1, map@);
        }
        let ghost map_v = map@;
        self.intervals.merge_redraw_regions(map);
        proof {
            let ks = choose|ks: Seq<u16>|
                #[trigger] lists_keys(ks, map_v) && self.intervals.spec_intervals().subrange(
                    old(self).intervals.spec_intervals().len() as int,
                    self.intervals.spec_intervals().len() as int,
                ) == keyed_flat(old(self).size.0, old(self).size.1, rows_view(map_v), ks);
            lemma_lists_keys_rows_view(ks, map_v);
        }
    }

    /// Removes the object's entry from the cells of row `y` in columns
    /// `[start, end)`, as far as they lie in the buffer.
    fn clear_span(&mut self, y: u16, start: usize, end: usize, obj_id: usize)
        requires
            old(self).wf(),
        ensures
            final(self).wf(),
            final(self).size == old(self).size,
            final(self).intervals == old(self).intervals,
            removed_where(
                old(self).spec_cells(),
                final(self).spec_cells(),
                obj_id,
                |idx: int| span_covers(idx, old(self).size.0 as int, old(self).size.1 as int, y, start as int, end as int),
            ),
    {
        broadcast use vstd::std_specs::hash::group_hash_axioms;

        let cols = self.size.0;
        let rows = self.size.1;
        let ghost c0 = self.spec_cells();
        if y >= rows {
            return ;
        }
        let clamped_end: usize = if end <= cols as usize { end } else { cols as usize };
        let mut x: usize = start;
        while x < clamped_end
            invariant
                self.wf(),
                self.size == old(self).size,
                self.intervals == old(self).intervals,
                cols == self.size.0,
                rows == self.size.1,
                y < rows,
                clamped_end <= cols,
                start <= x || x >= clamped_end,
                x <= clamped_end || x == start,
                c0 == old(self).spec_cells(),
                removed_where(
                    c0,
                    self.spec_cells(),
                    obj_id,
                    |idx: int| span_covers(idx, cols as int, rows as int, y, start as int, x as int),
                ),
            decreases clamped_end - x,
        {
            let idx = self.idx_of(Point { x: x as i32, y: y as i32 });
            let ghost before = self.spec_cells();
            self.cells[idx].info.remove(&obj_id);
            proof {
                vstd::arithmetic::div_mod::lemma_fundamental_div_mod_converse(idx as int, cols as int, y as int, x as int);
                assert forall|k: int| 0 <= k < c0.len() implies #[trigger] self.spec_cells()[k] == (if span_covers(
                    k,
                    cols as int,
                    rows as int,
                    y,
                    start as int,
                    x + 1,
                ) {
                    c0[k].remove(obj_id)
                } else {
                    c0[k]
                }) by {
                    if k == idx {
                        assert(self.spec_cells()[k] == before[k].remove(obj_id));
                        assert(before[k].remove(obj_id).remove(obj_id) =~= before[k].remove(obj_id));
                        assert(c0[k].remove(obj_id).remove(obj_id) =~= c0[k].remove(obj_id));
                    } else {
                        assert(self.spec_cells()[k] == before[k]);
                        if span_covers(k, cols as int, rows as int, y, start as int, x + 1) {
                            assert(k % (cols as int) != x) by {
                                if k % (cols as int) == x {
                                    vstd::arithmetic::div_mod::lemma_fundamental_div_mod(k, cols as int);
                                    assert(k == (cols as int) * (k / (cols as int)) + k % (cols as int));
                                    assert((cols as int) * (y as int) == (y as int) * (cols as int)) by (nonlinear_arith);
                                    assert(k == idx);
                                }
                            }
                        }
                    }
                }
            }
            x += 1;
        }
        proof {
            assert forall|k: int| 0 <= k < c0.len() implies #[trigger] self.spec_cells()[k] == (if span_covers(
                k,
                cols as int,
                rows as int,
                y,
                start as int,
                end as int,
            ) {
                c0[k].remove(obj_id)
            } else {
                c0[k]
            }) by {
                if span_covers(k, cols as int, rows as int, y, start as int, end as int) != span_covers(
                    k,
                    cols as int,
                    rows as int,
                    y,
                    start as int,
                    x as int,
                ) {
                    assert(k % (cols as int) < cols);
                }
            }
        }
    }

    /// Turns the dirty regions into draw commands: the whole screen is
    /// marked dirty, every interval's end is grown by `expand`, the
    /// intervals are merged (see `UpdateIntervalHandler::merge_intervals`),
    /// and each merged interval, clamped to the buffer, becomes one batch of
    /// colour runs of the characters the cells show (see `is_batch_of`);
    /// a `Flush` ends the commands. The dirty regions are emptied.
    pub fn update_terminal(&mut self, expand: usize) -> (out: Vec<CellDrawerCommand>)
        requires
            old(self).wf(),
        ensures
            spec_update(*old(self), *final(self), expand, out@),
    {
        let ghost old_ivs = self.intervals.spec_intervals();
        self.intervals.invalidate_entire_screen();
        self.intervals.expand_regions(expand);
        let ghost prepared = self.intervals.spec_intervals();
        assert(prepared =~= prepared_intervals(old_ivs, self.size.0, self.size.1, expand));
        self.intervals.merge_intervals();
        let intervals = self.intervals.dump_intervals();
        let ghost merged = intervals@;
        let cols = self.size.0;
        let rows = self.size.1;
        assert(cols * rows <= 65535 * 65535) by (nonlinear_arith)
            requires
                cols <= 65535,
                rows <= 65535,
        ;
        let max_idx: usize = cols as usize * rows as usize;
        let mut out: Vec<CellDrawerCommand> = Vec::new();
        let mut i: usize = 0;
        while i < intervals.len()
            invariant
                self.wf(),
                self.size == old(self).size,
                self.cells@ == old(self).cells@,
                cols == self.size.0,
                rows == self.size.1,
                max_idx == cols * rows,
                merged == intervals@,
                0 <= i <= intervals@.len(),
                out@.len() == i,
                forall|j: int|
                    0 <= j < i ==> (#[trigger] out@[j]) is SetString && is_batch_of(
                        self.cells@,
                        cols as int,
                        min_int(merged[j].interval.0 as int, max_idx as int),
                        min_int(merged[j].interval.1 as int, max_idx as int),
                        out@[j]->SetString_0,
                    ),
            decreases intervals@.len() - i,
        {
            let (s0, e0) = intervals[i].interval;
            let start = if s0 <= max_idx { s0 } else { max_idx };
            let end = if e0 <= max_idx { e0 } else { max_idx };
            let batch = if start < end {
                batch_for_range(&self.cells, cols, start, end)
            } else {
                let b = BatchDrawInfo { start_x: 0, y: 0, segments: Vec::new() };
                assert(is_batch_of(self.cells@, cols as int, start as int, end as int, b)) by {
                    let chs = Seq::<TerminalChar>::empty();
                    assert(segs_view(b.segments@) =~= runs(chs));
                    assert(chs.len() == (if end > start { end - start } else { 0 }));
                }
                b
            };
            let ghost before = out@;
            out.push(CellDrawerCommand::SetString(batch));
            proof {
                assert forall|j: int|
                    0 <= j < i + 1 implies (#[trigger] out@[j]) is SetString && is_batch_of(
                        self.cells@,
                        cols as int,
                        min_int(merged[j].interval.0 as int, max_idx as int),
                        min_int(merged[j].interval.1 as int, max_idx as int),
                        out@[j]->SetString_0,
                    ) by {
                    if j < i {
                        assert(out@[j] == before[j]);
                    }
                }
            }
            i += 1;
        }
        out.push(CellDrawerCommand::Flush);
        assert forall|j: int| 0 <= j < merged.len() implies (#[trigger] out@[j]) is SetString && is_batch_of(
            old(self).spec_cell_lists(),
            old(self).spec_size().0 as int,
            min_int(merged[j].interval.0 as int, old(self).spec_size().0 * old(self).spec_size().1),
            min_int(merged[j].interval.1 as int, old(self).spec_size().0 * old(self).spec_size().1),
            out@[j]->SetString_0,
        ) by {
            assert(out@[j] == out@.drop_last()[j]);
        }
        out
    }
}

} // verus!
