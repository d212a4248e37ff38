//! Dirty-region bookkeeping.
//!
//! An `UpdateIntervalCreator` collects, per terminal row, one column range
//! that has to be redrawn. An `UpdateIntervalHandler` flattens those rows
//! into half-open index ranges over the row-major cell buffer of a screen
//! of `width * height` cells, and can merge overlapping ranges.
use crate::geometry::{clamp_to_u16, spec_clamp_to_u16, Rect};
use std::collections::HashMap;
use vstd::prelude::*;
use vstd::std_specs::iter::IteratorSpec;

verus! {

/// Whether a region must be redrawn unconditionally or may be optimised.
#[derive(Debug, Clone, Copy, PartialEq, Eq, Structural, Hash, PartialOrd, Ord)]
pub enum UpdateIntervalType {
    Forced,
    Optimized,
}

/// A half-open range `[interval.0, interval.1)` of cells to redraw.
#[derive(Debug, Clone, Copy, PartialEq, Eq)]
pub struct UpdateInterval {
    pub interval: (usize, usize),
    pub iv_type: UpdateIntervalType,
}

pub open spec fn min_usize(a: usize, b: usize) -> usize {
    if a <= b {
        a
    } else {
        b
    }
}

pub open spec fn max_usize(a: usize, b: usize) -> usize {
    if a >= b {
        a
    } else {
        b
    }
}

/// `a + b`, saturating at `usize::MAX`.
pub open spec fn sat_add_usize(a: usize, b: usize) -> usize {
    if a + b > usize::MAX {
        usize::MAX
    } else {
        (a + b) as usize
    }
}

/// Start of an interval.
pub open spec fn iv_start(iv: UpdateInterval) -> int {
    iv.interval.0 as int
}

/// End (exclusive) of an interval.
pub open spec fn iv_end(iv: UpdateInterval) -> int {
    iv.interval.1 as int
}

/// The interval does not run backwards.
pub open spec fn iv_wf(iv: UpdateInterval) -> bool {
    iv.interval.0 <= iv.interval.1
}

/// Cell index `p` lies in the half-open interval.
pub open spec fn iv_covers(iv: UpdateInterval, p: int) -> bool {
    iv_start(iv) <= p < iv_end(iv)
}

/// `inner` lies inside `outer`.
pub open spec fn iv_within(inner: UpdateInterval, outer: UpdateInterval) -> bool {
    iv_start(outer) <= iv_start(inner) && iv_end(inner) <= iv_end(outer)
}

/// All intervals of `s` run forwards.
pub open spec fn all_wf(s: Seq<UpdateInterval>) -> bool {
    forall|i: int| 0 <= i < s.len() ==> iv_wf(#[trigger] s[i])
}

/// `s` is sorted and consecutive intervals are strictly apart: each one
/// ends before the next one starts.
pub open spec fn strictly_separated(s: Seq<UpdateInterval>) -> bool {
    forall|i: int, j: int| 0 <= i < j < s.len() ==> iv_end(#[trigger] s[i]) < iv_start(#[trigger] s[j])
}

/// Some interval of `s` covers cell index `p`.
pub open spec fn seq_covers(s: Seq<UpdateInterval>, p: int) -> bool {
    exists|i: int| 0 <= i < s.len() && iv_covers(#[trigger] s[i], p)
}

/// The interval that row `y` of a creator contributes to a screen of the
/// given size: the column range is clipped to the width, rows at or below
/// the height and ranges that are empty after clipping contribute nothing.
#[verifier::opaque]
pub open spec fn spec_row_interval(width: u16, height: u16, y: u16, iv: UpdateInterval) -> Option<
    UpdateInterval,
> {
    let sx = min_usize(iv.interval.0, width as usize);
    let ex = min_usize(iv.interval.1, width as usize);
    if y >= height || sx >= ex {
        None
    } else {
        Some(
            UpdateInterval {
                interval: ((y * width + sx) as usize, (y * width + ex) as usize),
                iv_type: iv.iv_type,
            },
        )
    }
}

/// Row `y`'s interval, on a screen of the given size, covers the cell of
/// column `x` (a column of the screen) exactly when the row is on the
/// screen and `x` lies in the row's columns; the result stays within the
/// row and keeps the interval's type.
pub proof fn row_interval_covers_its_columns(width: u16, height: u16, y: u16, iv: UpdateInterval, x: int)
    requires
        0 <= x < width,
    ensures
        (spec_row_interval(width, height, y, iv) matches Some(v) && v.interval.0 <= (y as int) * (width as int) + x
            < v.interval.1) <==> (y < height && iv.interval.0 <= x < iv.interval.1),
        spec_row_interval(width, height, y, iv) matches Some(v) ==> (y as int) * (width as int) <= v.interval.0
            && v.interval.1 <= (y as int) * (width as int) + width && v.iv_type == iv.iv_type,
{
    reveal(spec_row_interval);
    assert((y as int) * (width as int) <= 65535 * 65535) by (nonlinear_arith)
        requires
            y <= 65535,
            width <= 65535,
    ;
}

fn row_interval(width: u16, height: u16, y: u16, iv: &UpdateInterval) -> (r: Option<UpdateInterval>)
    ensures
        r == spec_row_interval(width, height, y, *iv),
        r matches Some(v) ==> iv_wf(v) && v.interval.1 <= (width as int) * (height as int),
{
    reveal(spec_row_interval);
    let w = width as usize;
    if y >= height {
        return None;
    }
    let (x1, x2) = iv.interval;
    let sx = if x1 <= w {
        x1
    } else {
        w
    };
    let ex = if x2 <= w {
        x2
    } else {
        w
    };
    if sx >= ex {
        return None;
    }
    assert((y as int) * (width as int) + (width as int) <= (width as int) * (height as int))
        by (nonlinear_arith)
        requires
            y < height,
    ;
    assert((y as int) * (width as int) <= 65535 * 65535) by (nonlinear_arith)
        requires
            y <= 65535,
            width <= 65535,
    ;
    let off = (y as usize) * w;
    Some(UpdateInterval { interval: (off + sx, off + ex), iv_type: iv.iv_type })
}

/// All entries of a map keyed by row, in the map's iteration order.
fn map_entries<V: Copy>(m: &HashMap<u16, V>) -> (r: Vec<(u16, V)>)
    ensures
        forall|j: int|
            0 <= j < r@.len() ==> m@.contains_key((#[trigger] r@[j]).0) && m@[r@[j].0] == r@[j].1,
        forall|y: u16| #[trigger] m@.contains_key(y) ==> exists|j: int| 0 <= j < r@.len() && #[trigger] r@[j] == (y, m@[y]),
        lists_keys(r@.map_values(|e: (u16, V)| e.0), m@),
{
    broadcast use vstd::std_specs::hash::group_hash_axioms;

    let mut out: Vec<(u16, V)> = Vec::new();
    let ghost s = vstd::std_specs::hash::spec_hash_map_iter(m).remaining();
    let iter0 = m.iter();
    proof {
        assert(iter0 == vstd::std_specs::hash::spec_hash_map_iter(m));
        assert(s.no_duplicates());
    }
    for pair in it: iter0
        invariant
            s == it.seq(),
            out@.len() == it.index(),
            forall|j: int|
                0 <= j < it.index() ==> #[trigger] out@[j] == (*s[j].0, *s[j].1),
    {
        let ghost idx = it.index();
        let (k, v) = pair;
        assert(pair == s[idx]);
        out.push((*k, *v));
    }
    proof {
        assert(out@.len() == s.len());
        assert forall|j: int| 0 <= j < out@.len() implies m@.contains_key((#[trigger] out@[j]).0)
            && m@[out@[j].0] == out@[j].1 by {
            assert(out@[j] == (*s[j].0, *s[j].1));
        }
        assert forall|y: u16| #[trigger] m@.contains_key(y) implies exists|j: int|
            0 <= j < out@.len() && #[trigger] out@[j] == (y, m@[y]) by {
            assert(s.contains((&y, &m@[y])));
            let j = choose|j: int| 0 <= j < s.len() && s[j] == (&y, &m@[y]);
            assert(out@[j] == (y, m@[y]));
        }
        let ks = out@.map_values(|e: (u16, V)| e.0);
        assert forall|i: int, j: int| 0 <= i < ks.len() && 0 <= j < ks.len() && i != j implies ks[i] != ks[j] by {
            assert(out@[i] == (*s[i].0, *s[i].1) && out@[j] == (*s[j].0, *s[j].1));
            assert(m@.contains_key(*s[i].0) && m@[*s[i].0] == *s[i].1);
            assert(m@.contains_key(*s[j].0) && m@[*s[j].0] == *s[j].1);
            if ks[i] == ks[j] {
                assert(s[i] == s[j]);
            }
        }
        assert forall|j: int| 0 <= j < ks.len() implies m@.contains_key(#[trigger] ks[j]) by {
            assert(m@.contains_key(out@[j].0));
        }
        assert forall|y: u16| #[trigger] m@.contains_key(y) implies ks.contains(y) by {
            let j = choose|j: int| 0 <= j < out@.len() && #[trigger] out@[j] == (y, m@[y]);
            assert(ks[j] == y);
        }
    }
    out
}

/// The flattened intervals of `(row, interval)` entries, in order,
/// leaving out the entries that contribute nothing (see
/// `spec_row_interval`).
pub open spec fn rows_flat(width: u16, height: u16, es: Seq<(u16, UpdateInterval)>) -> Seq<UpdateInterval>
    decreases es.len(),
{
    if es.len() == 0 {
        Seq::empty()
    } else {
        let r = rows_flat(width, height, es.drop_last());
        match spec_row_interval(width, height, es.last().0, es.last().1) {
            Some(v) => r.push(v),
            None => r,
        }
    }
}

/// `ks` lists every key of `m`, each once.
pub open spec fn lists_keys<V>(ks: Seq<u16>, m: Map<u16, V>) -> bool {
    &&& ks.no_duplicates()
    &&& forall|j: int| 0 <= j < ks.len() ==> m.contains_key(#[trigger] ks[j])
    &&& forall|y: u16| #[trigger] m.contains_key(y) ==> ks.contains(y)
}

/// The `(row, interval)` entry of each listed row of a creator's map.
pub open spec fn creator_entries(ks: Seq<u16>, m: Map<u16, UpdateInterval>) -> Seq<(u16, UpdateInterval)> {
    ks.map_values(|y: u16| (y, m[y]))
}

/// The entries of row `y` holding the intervals `ivs`.
pub open spec fn row_pairs(y: u16, ivs: Seq<UpdateInterval>) -> Seq<(u16, UpdateInterval)> {
    ivs.map_values(|iv: UpdateInterval| (y, iv))
}

/// The flattened intervals of the rows `ks` of `m`, row after row, each
/// row's intervals in order.
pub open spec fn keyed_flat(width: u16, height: u16, m: Map<u16, Seq<UpdateInterval>>, ks: Seq<u16>) -> Seq<UpdateInterval>
    decreases ks.len(),
{
    if ks.len() == 0 {
        Seq::empty()
    } else {
        keyed_flat(width, height, m, ks.drop_last()) + rows_flat(width, height, row_pairs(ks.last(), m[ks.last()]))
    }
}

/// Flattening a concatenation flattens each part.
proof fn lemma_rows_flat_concat(width: u16, height: u16, a: Seq<(u16, UpdateInterval)>, b: Seq<(u16, UpdateInterval)>)
    ensures
        rows_flat(width, height, a + b) == rows_flat(width, height, a) + rows_flat(width, height, b),
    decreases b.len(),
{
    if b.len() == 0 {
        assert(a + b =~= a);
        assert(rows_flat(width, height, a) + rows_flat(width, height, b) =~= rows_flat(width, height, a));
    } else {
        lemma_rows_flat_concat(width, height, a, b.drop_last());
        assert((a + b).drop_last() =~= a + b.drop_last());
        assert((a + b).last() == b.last());
        match spec_row_interval(width, height, b.last().0, b.last().1) {
            Some(v) => {
                assert(rows_flat(width, height, a) + rows_flat(width, height, b) =~= (rows_flat(width, height, a)
                    + rows_flat(width, height, b.drop_last())).push(v));
            },
            None => {},
        }
    }
}

/// The rows of a creator's map give the same intervals, counted with
/// multiplicity, whatever order the rows are listed in.
proof fn lemma_creator_flat_any_order(width: u16, height: u16, m: Map<u16, UpdateInterval>, ks1: Seq<u16>, ks2: Seq<u16>)
    requires
        ks1.no_duplicates(),
        ks2.no_duplicates(),
        ks1.to_set() == ks2.to_set(),
    ensures
        rows_flat(width, height, creator_entries(ks1, m)).to_multiset() == rows_flat(
            width,
            height,
            creator_entries(ks2, m),
        ).to_multiset(),
    decreases ks1.len(),
{
    broadcast use vstd::seq_lib::group_to_multiset_ensures;

    if ks1.len() == 0 {
        if ks2.len() > 0 {
            assert(ks2.to_set().contains(ks2[0]));
        }
        assert(ks2 =~= ks1);
    } else {
        let y = ks1.last();
        assert(ks1.to_set().contains(y)) by {
            assert(ks1[ks1.len() - 1] == y);
        }
        assert(ks2.contains(y));
        let idx = ks2.index_of(y);
        let a = ks2.take(idx);
        let b = ks2.skip(idx + 1);
        assert(ks2 =~= a + seq![y] + b);
        let rest = a + b;
        let k1 = ks1.drop_last();
        assert(rest.no_duplicates()) by {
            assert forall|i: int, j: int| 0 <= i < rest.len() && 0 <= j < rest.len() && i != j implies rest[i] != rest[j] by {
                let ii = if i < idx { i } else { i + 1 };
                let jj = if j < idx { j } else { j + 1 };
                assert(rest[i] == ks2[ii] && rest[j] == ks2[jj]);
            }
        }
        assert(k1.no_duplicates()) by {
            assert forall|i: int, j: int| 0 <= i < k1.len() && 0 <= j < k1.len() && i != j implies k1[i] != k1[j] by {
                assert(k1[i] == ks1[i] && k1[j] == ks1[j]);
            }
        }
        assert(k1.to_set() =~= rest.to_set()) by {
            assert forall|z: u16| k1.to_set().contains(z) implies rest.to_set().contains(z) by {
                let i = choose|i: int| 0 <= i < k1.len() && k1[i] == z;
                assert(ks1[i] == z);
                assert(ks1.to_set().contains(z));
                assert(z != y) by {
                    assert(ks1[ks1.len() - 1] == y);
                }
                let j = choose|j: int| 0 <= j < ks2.len() && ks2[j] == z;
                assert(j != idx);
                if j < idx {
                    assert(rest[j] == z);
                } else {
                    assert(rest[j - 1] == z);
                }
            }
            assert forall|z: u16| rest.to_set().contains(z) implies k1.to_set().contains(z) by {
                let j = choose|j: int| 0 <= j < rest.len() && rest[j] == z;
                let jj = if j < idx { j } else { j + 1 };
                assert(ks2[jj] == z);
                assert(jj != idx);
                assert(z != y);
                assert(ks2.to_set().contains(z));
                let i = choose|i: int| 0 <= i < ks1.len() && ks1[i] == z;
                assert(i != ks1.len() - 1);
                assert(k1[i] == z);
            }
        }
        lemma_creator_flat_any_order(width, height, m, k1, rest);
        let ey = creator_entries(seq![y], m);
        assert(creator_entries(ks1, m) =~= creator_entries(k1, m) + ey);
        assert(creator_entries(ks2, m) =~= creator_entries(a, m) + ey + creator_entries(b, m));
        assert(creator_entries(rest, m) =~= creator_entries(a, m) + creator_entries(b, m));
        let fa = rows_flat(width, height, creator_entries(a, m));
        let fb = rows_flat(width, height, creator_entries(b, m));
        let fy = rows_flat(width, height, ey);
        let fk = rows_flat(width, height, creator_entries(k1, m));
        lemma_rows_flat_concat(width, height, creator_entries(k1, m), ey);
        lemma_rows_flat_concat(width, height, creator_entries(a, m) + ey, creator_entries(b, m));
        lemma_rows_flat_concat(width, height, creator_entries(a, m), ey);
        lemma_rows_flat_concat(width, height, creator_entries(a, m), creator_entries(b, m));
        vstd::seq_lib::lemma_multiset_commutative(fk, fy);
        vstd::seq_lib::lemma_multiset_commutative(fa + fy, fb);
        vstd::seq_lib::lemma_multiset_commutative(fa, fy);
        vstd::seq_lib::lemma_multiset_commutative(fa, fb);
        assert(fa.to_multiset().add(fy.to_multiset()).add(fb.to_multiset()) =~= fa.to_multiset().add(fb.to_multiset()).add(
            fy.to_multiset(),
        ));
    }
}

/// A map that holds, for each row of a creator's map, that row's interval
/// alone flattens, row by row, as the creator's entries do.
proof fn lemma_single_rows_flat(width: u16, height: u16, m: Map<u16, UpdateInterval>, ks: Seq<u16>)
    requires
        forall|j: int| 0 <= j < ks.len() ==> m.contains_key(#[trigger] ks[j]),
    ensures
        keyed_flat(width, height, m.map_values(|iv: UpdateInterval| seq![iv]), ks) == rows_flat(
            width,
            height,
            creator_entries(ks, m),
        ),
    decreases ks.len(),
{
    if ks.len() > 0 {
        let k1 = ks.drop_last();
        let y = ks.last();
        lemma_single_rows_flat(width, height, m, k1);
        assert(ks[ks.len() - 1] == y);
        assert(creator_entries(ks, m) =~= creator_entries(k1, m).push((y, m[y])));
        assert(creator_entries(ks, m).drop_last() =~= creator_entries(k1, m));
        let pairs = row_pairs(y, m.map_values(|iv: UpdateInterval| seq![iv])[y]);
        assert(pairs =~= seq![(y, m[y])]);
        assert(pairs.drop_last() =~= Seq::<(u16, UpdateInterval)>::empty());
        assert(pairs.last() == (y, m[y]));
        assert(rows_flat(width, height, pairs.drop_last()) =~= Seq::<UpdateInterval>::empty());
        match spec_row_interval(width, height, y, m[y]) {
            Some(v) => {
                assert(rows_flat(width, height, pairs) =~= seq![v]);
            },
            None => {
                assert(rows_flat(width, height, pairs) =~= Seq::<UpdateInterval>::empty());
            },
        }
    } else {
        assert(creator_entries(ks, m) =~= Seq::<(u16, UpdateInterval)>::empty());
    }
}

/// Merging a creator and merging the map that holds each of the creator's
/// rows' interval alone append the same intervals, counted with
/// multiplicity, whatever order each visits the rows in.
pub proof fn merge_paths_agree(width: u16, height: u16, m: Map<u16, UpdateInterval>, ks1: Seq<u16>, ks2: Seq<u16>)
    requires
        lists_keys(ks1, m),
        lists_keys(ks2, m.map_values(|iv: UpdateInterval| seq![iv])),
    ensures
        rows_flat(width, height, creator_entries(ks1, m)).to_multiset() == keyed_flat(
            width,
            height,
            m.map_values(|iv: UpdateInterval| seq![iv]),
            ks2,
        ).to_multiset(),
{
    let mv = m.map_values(|iv: UpdateInterval| seq![iv]);
    assert forall|j: int| 0 <= j < ks2.len() implies m.contains_key(#[trigger] ks2[j]) by {
        assert(mv.contains_key(ks2[j]));
    }
    lemma_single_rows_flat(width, height, m, ks2);
    assert(ks1.to_set() =~= ks2.to_set()) by {
        assert forall|z: u16| ks1.to_set().contains(z) implies ks2.to_set().contains(z) by {
            let i = choose|i: int| 0 <= i < ks1.len() && ks1[i] == z;
            assert(m.contains_key(ks1[i]));
            assert(mv.contains_key(z));
        }
        assert forall|z: u16| ks2.to_set().contains(z) implies ks1.to_set().contains(z) by {
            let i = choose|i: int| 0 <= i < ks2.len() && ks2[i] == z;
            assert(m.contains_key(ks2[i]));
        }
    }
    lemma_creator_flat_any_order(width, height, m, ks1, ks2);
}

/// The intervals that a list of `(row, interval)` entries contributes.
pub open spec fn entries_rows(width: u16, height: u16, es: Seq<(u16, UpdateInterval)>) -> Set<
    UpdateInterval,
> {
    Set::new(
        |v: UpdateInterval|
            exists|j: int|
                0 <= j < es.len() && spec_row_interval(width, height, es[j].0, es[j].1) == Some(v),
    )
}

/// The intervals that the rows of a creator contribute to a screen of the
/// given size.
pub open spec fn creator_rows(width: u16, height: u16, m: Map<u16, UpdateInterval>) -> Set<
    UpdateInterval,
> {
    Set::new(
        |v: UpdateInterval|
            exists|y: u16| m.contains_key(y) && spec_row_interval(width, height, y, m[y]) == Some(v),
    )
}

proof fn lemma_push_to_set(s: Seq<UpdateInterval>, v: UpdateInterval)
    ensures
        s.push(v).to_set() == s.to_set().insert(v),
{
    assert forall|x: UpdateInterval| s.push(v).to_set().contains(x) implies s.to_set().insert(v).contains(x) by {
        let j = choose|j: int| 0 <= j < s.push(v).len() && s.push(v)[j] == x;
        if j < s.len() {
            assert(s[j] == x);
        }
    }
    assert forall|x: UpdateInterval| s.to_set().insert(v).contains(x) implies s.push(v).to_set().contains(x) by {
        if x == v {
            assert(s.push(v)[s.len() as int] == v);
        } else {
            let j = choose|j: int| 0 <= j < s.len() && s[j] == x;
            assert(s.push(v)[j] == x);
        }
    }
    assert(s.push(v).to_set() =~= s.to_set().insert(v));
}

proof fn lemma_entries_rows_push(
    width: u16,
    height: u16,
    es: Seq<(u16, UpdateInterval)>,
    x: (u16, UpdateInterval),
)
    ensures
        entries_rows(width, height, es.push(x)) == match spec_row_interval(width, height, x.0, x.1) {
            Some(v) => entries_rows(width, height, es).insert(v),
            None => entries_rows(width, height, es),
        },
{
    let l = entries_rows(width, height, es.push(x));
    let r = match spec_row_interval(width, height, x.0, x.1) {
        Some(v) => entries_rows(width, height, es).insert(v),
        None => entries_rows(width, height, es),
    };
    assert forall|v: UpdateInterval| l.contains(v) implies r.contains(v) by {
        let j = choose|j: int|
            0 <= j < es.push(x).len() && spec_row_interval(width, height, es.push(x)[j].0, es.push(x)[j].1)
                == Some(v);
        if j < es.len() {
            assert(es.push(x)[j] == es[j]);
        }
    }
    assert forall|v: UpdateInterval| r.contains(v) implies l.contains(v) by {
        if spec_row_interval(width, height, x.0, x.1) == Some(v) {
            assert(es.push(x)[es.len() as int] == x);
        } else {
            let j = choose|j: int|
                0 <= j < es.len() && spec_row_interval(width, height, es[j].0, es[j].1) == Some(v);
            assert(es.push(x)[j] == es[j]);
        }
    }
    assert(l =~= r);
}

proof fn lemma_entries_rows_of_map(
    width: u16,
    height: u16,
    es: Seq<(u16, UpdateInterval)>,
    m: Map<u16, UpdateInterval>,
)
    requires
        forall|j: int|
            0 <= j < es.len() ==> m.contains_key((#[trigger] es[j]).0) && m[es[j].0] == es[j].1,
        forall|y: u16| #[trigger] m.contains_key(y) ==> exists|j: int| 0 <= j < es.len() && #[trigger] es[j] == (y, m[y]),
    ensures
        entries_rows(width, height, es) == creator_rows(width, height, m),
{
    let l = entries_rows(width, height, es);
    let r = creator_rows(width, height, m);
    assert forall|v: UpdateInterval| l.contains(v) implies r.contains(v) by {
        let j = choose|j: int|
            0 <= j < es.len() && spec_row_interval(width, height, es[j].0, es[j].1) == Some(v);
        assert(m.contains_key(es[j].0));
    }
    assert forall|v: UpdateInterval| r.contains(v) implies l.contains(v) by {
        let y = choose|y: u16| m.contains_key(y) && spec_row_interval(width, height, y, m[y]) == Some(v);
        let j = choose|j: int| 0 <= j < es.len() && #[trigger] es[j] == (y, m[y]);
    }
    assert(l =~= r);
}

/// The intervals that a map from rows to interval lists contributes.
pub open spec fn region_rows(width: u16, height: u16, m: Map<u16, Vec<UpdateInterval>>) -> Set<
    UpdateInterval,
> {
    Set::new(
        |v: UpdateInterval|
            exists|y: u16, i: int|
                m.contains_key(y) && 0 <= i < m[y]@.len() && spec_row_interval(
                    width,
                    height,
                    y,
                    m[y]@[i],
                ) == Some(v),
    )
}

/// The keys of a map, in the map's iteration order.
pub(crate) fn map_keys<V>(m: &HashMap<u16, V>) -> (r: Vec<u16>)
    ensures
        forall|j: int| 0 <= j < r@.len() ==> m@.contains_key(#[trigger] r@[j]),
        forall|y: u16| #[trigger] m@.contains_key(y) ==> r@.contains(y),
        lists_keys(r@, m@),
{
    broadcast use vstd::std_specs::hash::group_hash_axioms;

    let mut out: Vec<u16> = Vec::new();
    let ghost s = vstd::std_specs::hash::spec_hash_map_iter(m).remaining();
    let iter0 = m.iter();
    proof {
        assert(iter0 == vstd::std_specs::hash::spec_hash_map_iter(m));
        assert(s.no_duplicates());
    }
    for pair in it: iter0
        invariant
            s == it.seq(),
            out@.len() == it.index(),
            forall|j: int| 0 <= j < it.index() ==> #[trigger] out@[j] == *s[j].0,
    {
        let ghost idx = it.index();
        let (k, _v) = pair;
        assert(pair == s[idx]);
        out.push(*k);
    }
    proof {
        assert(out@.len() == s.len());
        assert forall|j: int| 0 <= j < out@.len() implies m@.contains_key(#[trigger] out@[j]) by {
            assert(out@[j] == *s[j].0);
        }
        assert forall|y: u16| #[trigger] m@.contains_key(y) implies out@.contains(y) by {
            assert(s.contains((&y, &m@[y])));
            let j = choose|j: int| 0 <= j < s.len() && s[j] == (&y, &m@[y]);
            assert(out@[j] == y);
        }
        assert forall|i: int, j: int| 0 <= i < out@.len() && 0 <= j < out@.len() && i != j implies out@[i] != out@[j] by {
            assert(out@[i] == *s[i].0 && out@[j] == *s[j].0);
            assert(m@.contains_key(*s[i].0) && m@[*s[i].0] == *s[i].1);
            assert(m@.contains_key(*s[j].0) && m@[*s[j].0] == *s[j].1);
            if out@[i] == out@[j] {
                assert(s[i] == s[j]);
            }
        }
    }
    out
}

/// The intervals that the rows `ks` of `m` contribute.
pub open spec fn keyed_rows(
    width: u16,
    height: u16,
    m: Map<u16, Vec<UpdateInterval>>,
    ks: Seq<u16>,
) -> Set<UpdateInterval> {
    Set::new(
        |v: UpdateInterval|
            exists|q: int, i: int|
                0 <= q < ks.len() && m.contains_key(ks[q]) && 0 <= i < m[ks[q]]@.len()
                    && spec_row_interval(width, height, ks[q], m[ks[q]]@[i]) == Some(v),
    )
}

/// The `(row, interval)` entries of one row of a region map.
fn row_entries(y: u16, ivs: &Vec<UpdateInterval>) -> (r: Vec<(u16, UpdateInterval)>)
    ensures
        r@.len() == ivs@.len(),
        forall|i: int| 0 <= i < ivs@.len() ==> #[trigger] r@[i] == (y, ivs@[i]),
{
    let mut out: Vec<(u16, UpdateInterval)> = Vec::new();
    let mut i: usize = 0;
    while i < ivs.len()
        invariant
            0 <= i <= ivs@.len(),
            out@.len() == i,
            forall|k: int| 0 <= k < i ==> #[trigger] out@[k] == (y, ivs@[k]),
        decreases ivs@.len() - i,
    {
        out.push((y, ivs[i]));
        i += 1;
    }
    out
}

proof fn lemma_seq_concat_to_set(a: Seq<UpdateInterval>, b: Seq<UpdateInterval>)
    ensures
        (a + b).to_set() == a.to_set().union(b.to_set()),
{
    assert forall|x: UpdateInterval| (a + b).to_set().contains(x) implies a.to_set().union(b.to_set()).contains(x) by {
        let j = choose|j: int| 0 <= j < (a + b).len() && (a + b)[j] == x;
        if j < a.len() {
            assert(a[j] == x);
        } else {
            assert(b[j - a.len()] == x);
        }
    }
    assert forall|x: UpdateInterval| a.to_set().union(b.to_set()).contains(x) implies (a + b).to_set().contains(x) by {
        if a.to_set().contains(x) {
            let j = choose|j: int| 0 <= j < a.len() && a[j] == x;
            assert((a + b)[j] == x);
        } else {
            let j = choose|j: int| 0 <= j < b.len() && b[j] == x;
            assert((a + b)[a.len() + j] == x);
        }
    }
    assert((a + b).to_set() =~= a.to_set().union(b.to_set()));
}

proof fn lemma_keyed_rows_push(
    width: u16,
    height: u16,
    m: Map<u16, Vec<UpdateInterval>>,
    ks: Seq<u16>,
    y: u16,
    es: Seq<(u16, UpdateInterval)>,
)
    requires
        m.contains_key(y),
        es.len() == m[y]@.len(),
        forall|i: int| 0 <= i < es.len() ==> #[trigger] es[i] == (y, m[y]@[i]),
    ensures
        keyed_rows(width, height, m, ks.push(y)) == keyed_rows(width, height, m, ks).union(
            entries_rows(width, height, es),
        ),
{
    let l = keyed_rows(width, height, m, ks.push(y));
    let r = keyed_rows(width, height, m, ks).union(entries_rows(width, height, es));
    assert forall|v: UpdateInterval| l.contains(v) implies r.contains(v) by {
        let (q, i) = choose|q: int, i: int|
            0 <= q < ks.push(y).len() && m.contains_key(ks.push(y)[q]) && 0 <= i < m[ks.push(y)[q]]@.len()
                && spec_row_interval(width, height, ks.push(y)[q], m[ks.push(y)[q]]@[i]) == Some(v);
        if q < ks.len() {
            assert(ks.push(y)[q] == ks[q]);
        } else {
            assert(es[i] == (y, m[y]@[i]));
        }
    }
    assert forall|v: UpdateInterval| r.contains(v) implies l.contains(v) by {
        if keyed_rows(width, height, m, ks).contains(v) {
            let (q, i) = choose|q: int, i: int|
                0 <= q < ks.len() && m.contains_key(ks[q]) && 0 <= i < m[ks[q]]@.len()
                    && spec_row_interval(width, height, ks[q], m[ks[q]]@[i]) == Some(v);
            assert(ks.push(y)[q] == ks[q]);
        } else {
            let i = choose|i: int|
                0 <= i < es.len() && spec_row_interval(width, height, es[i].0, es[i].1) == Some(v);
            assert(es[i] == (y, m[y]@[i]));
            assert(ks.push(y)[ks.len() as int] == y);
        }
    }
    assert(l =~= r);
}

/// Sorts intervals by their start (`slice::sort_by_key`).
#[verifier::external_body]
fn sort_by_start(v: &mut Vec<UpdateInterval>)
    ensures
        final(v)@.len() == old(v)@.len(),
        final(v)@.to_multiset() == old(v)@.to_multiset(),
        forall|a: int, b: int|
            0 <= a <= b < final(v)@.len() ==> iv_start(#[trigger] final(v)@[a]) <= iv_start(
                #[trigger] final(v)@[b],
            ),
{
    v.sort_by_key(|iv| iv.interval.0);
}

/// How `merged` relates to the intervals `old` it was merged from: every
/// old interval lies inside some merged one; every merged one starts at
/// some old start, ends at some old end, and only covers cells that old
/// intervals cover; and a merged interval is `Forced` exactly when an old
/// `Forced` interval starts within it (its end included).
#[verifier::opaque]
pub open spec fn merge_result(old: Seq<UpdateInterval>, merged: Seq<UpdateInterval>) -> bool {
    &&& merged_contains_all(old, merged)
    &&& merged_bounds_from(old, merged)
    &&& merged_covers_only(old, merged)
    &&& merged_forced_exactly(old, merged)
}

/// Some interval of `s` contains `iv`.
pub open spec fn some_contains(s: Seq<UpdateInterval>, iv: UpdateInterval) -> bool {
    exists|k: int| 0 <= k < s.len() && iv_within(iv, #[trigger] s[k])
}

/// Some interval of `s` starts at `x`.
pub open spec fn some_starts_at(s: Seq<UpdateInterval>, x: int) -> bool {
    exists|j: int| 0 <= j < s.len() && iv_start(#[trigger] s[j]) == x
}

/// Some interval of `s` ends at `x`.
pub open spec fn some_ends_at(s: Seq<UpdateInterval>, x: int) -> bool {
    exists|j: int| 0 <= j < s.len() && iv_end(#[trigger] s[j]) == x
}

/// Some `Forced` interval of `s` starts within `[lo, hi]`.
pub open spec fn some_forced_start_in(s: Seq<UpdateInterval>, lo: int, hi: int) -> bool {
    exists|j: int|
        0 <= j < s.len() && (#[trigger] s[j]).iv_type == UpdateIntervalType::Forced && lo <= iv_start(
            s[j],
        ) <= hi
}

/// Every old interval lies inside some merged interval.
pub open spec fn merged_contains_all(old: Seq<UpdateInterval>, merged: Seq<UpdateInterval>) -> bool {
    forall|j: int| 0 <= j < old.len() ==> some_contains(merged, #[trigger] old[j])
}

/// Every merged interval starts at some old start and ends at some old end.
pub open spec fn merged_bounds_from(old: Seq<UpdateInterval>, merged: Seq<UpdateInterval>) -> bool {
    forall|k: int|
        0 <= k < merged.len() ==> some_starts_at(old, iv_start(#[trigger] merged[k])) && some_ends_at(
            old,
            iv_end(merged[k]),
        )
}

/// Merged intervals only cover cells that some old interval covers.
pub open spec fn merged_covers_only(old: Seq<UpdateInterval>, merged: Seq<UpdateInterval>) -> bool {
    forall|k: int, p: int|
        #![trigger iv_covers(merged[k], p)]
        0 <= k < merged.len() && iv_covers(merged[k], p) ==> seq_covers(old, p)
}

/// A merged interval is `Forced` exactly when an old `Forced` interval
/// starts within it (its end included).
pub open spec fn merged_forced_exactly(old: Seq<UpdateInterval>, merged: Seq<UpdateInterval>) -> bool {
    forall|k: int|
        0 <= k < merged.len() ==> ((#[trigger] merged[k]).iv_type == UpdateIntervalType::Forced
            <==> some_forced_start_in(old, iv_start(merged[k]), iv_end(merged[k])))
}

proof fn lemma_merge_result_trivial(s: Seq<UpdateInterval>)
    requires
        s.len() <= 1,
        all_wf(s),
    ensures
        merge_result(s, s),
        strictly_separated(s),
{
    reveal(merge_result);
    if s.len() == 1 {
        let x = s[0];
        assert(iv_wf(x));
        assert(iv_within(x, s[0]));
        assert(some_contains(s, x));
        assert(some_starts_at(s, iv_start(x)));
        assert(some_ends_at(s, iv_end(x)));
        assert(merged_covers_only(s, s)) by {
            assert forall|k: int, p: int|
                #![trigger iv_covers(s[k], p)]
                0 <= k < s.len() && iv_covers(s[k], p) implies seq_covers(s, p) by {
                assert(iv_covers(s[k], p));
            }
        }
        assert(x.iv_type == UpdateIntervalType::Forced ==> some_forced_start_in(s, iv_start(x), iv_end(x)));
    }
}

/// The bookkeeping of `merge_intervals` after processing `s[0..i)`:
/// `merged` holds the closed runs, each with the index of its first
/// element (`lo`), of an element ending where it ends (`ew`) and, when it
/// is `Forced`, of a `Forced` element (`fw`); `grp` gives the run of each
/// element of `s[0..g)`; `cur` is the open run `s[g..i)`.
#[verifier::opaque]
spec fn merge_state_ok(
    s: Seq<UpdateInterval>,
    merged: Seq<UpdateInterval>,
    g: int,
    i: int,
    grp: Seq<int>,
    lo: Seq<int>,
    ew: Seq<int>,
    fw: Seq<int>,
    cur: UpdateInterval,
    cew: int,
    cfw: int,
) -> bool {
    &&& 0 <= g < i <= s.len()
    &&& merged.len() <= g
    &&& grp.len() == g
    &&& lo.len() == merged.len()
    &&& ew.len() == merged.len()
    &&& fw.len() == merged.len()
    &&& all_wf(merged)
    &&& strictly_separated(merged)
    &&& forall|k: int| 0 <= k < merged.len() ==> iv_end(#[trigger] merged[k]) < iv_start(cur)
    &&& forall|j: int|
        #![trigger grp[j]]
        0 <= j < g ==> 0 <= grp[j] < merged.len() && iv_within(s[j], merged[grp[j]])
    &&& forall|k: int|
        #![trigger lo[k]]
        0 <= k < merged.len() ==> 0 <= lo[k] < g && iv_start(merged[k]) == iv_start(s[lo[k]])
    &&& forall|k: int|
        #![trigger ew[k]]
        0 <= k < merged.len() ==> 0 <= ew[k] < g && iv_end(merged[k]) == iv_end(s[ew[k]])
    &&& forall|k: int|
        #![trigger fw[k]]
        0 <= k < merged.len() && merged[k].iv_type == UpdateIntervalType::Forced ==> 0 <= fw[k] < g
            && s[fw[k]].iv_type == UpdateIntervalType::Forced && iv_within(s[fw[k]], merged[k])
    &&& forall|j: int|
        #![trigger grp[j]]
        0 <= j < g && s[j].iv_type == UpdateIntervalType::Forced ==> merged[grp[j]].iv_type
            == UpdateIntervalType::Forced
    &&& forall|k: int, p: int|
        #![trigger iv_covers(merged[k], p)] 0 <= k < merged.len() && iv_covers(merged[k], p) ==> seq_covers(s, p)
    &&& iv_wf(cur)
    &&& iv_start(cur) == iv_start(s[g])
    &&& g <= cew < i && iv_end(cur) == iv_end(s[cew])
    &&& forall|j: int| g <= j < i ==> iv_within(#[trigger] s[j], cur)
    &&& (cur.iv_type == UpdateIntervalType::Forced ==> g <= cfw < i && s[cfw].iv_type
        == UpdateIntervalType::Forced)
    &&& forall|j: int|
        g <= j < i && (#[trigger] s[j]).iv_type == UpdateIntervalType::Forced ==> cur.iv_type
            == UpdateIntervalType::Forced
    &&& forall|p: int| iv_covers(cur, p) ==> seq_covers(s, p)
}

proof fn lemma_merge_init(s: Seq<UpdateInterval>)
    requires
        all_wf(s),
        s.len() > 0,
    ensures
        merge_state_ok(s, Seq::empty(), 0, 1, Seq::empty(), Seq::empty(), Seq::empty(), Seq::empty(), s[0], 0, 0),
{
    reveal(merge_state_ok);
    assert(iv_wf(s[0]));
    assert forall|p: int| iv_covers(s[0], p) implies seq_covers(s, p) by {
        assert(iv_covers(s[0], p));
    }
}

proof fn lemma_merge_extend(
    s: Seq<UpdateInterval>,
    merged: Seq<UpdateInterval>,
    g: int,
    i: int,
    grp: Seq<int>,
    lo: Seq<int>,
    ew: Seq<int>,
    fw: Seq<int>,
    old_cur: UpdateInterval,
    cur: UpdateInterval,
    cew: int,
    cfw: int,
)
    requires
        all_wf(s),
        forall|a: int, b: int| 0 <= a <= b < s.len() ==> iv_start(#[trigger] s[a]) <= iv_start(#[trigger] s[b]),
        i < s.len(),
        iv_start(s[i]) <= iv_end(old_cur),
        exists|ocew: int, ocfw: int| merge_state_ok(s, merged, g, i, grp, lo, ew, fw, old_cur, ocew, ocfw)
            && (if iv_end(s[i]) > iv_end(old_cur) { cew == i } else { cew == ocew })
            && (if s[i].iv_type == UpdateIntervalType::Forced { cfw == i } else { cfw == ocfw }),
        cur.interval.0 == old_cur.interval.0,
        cur.interval.1 == max_usize(old_cur.interval.1, s[i].interval.1),
        cur.iv_type == (if s[i].iv_type == UpdateIntervalType::Forced {
            UpdateIntervalType::Forced
        } else {
            old_cur.iv_type
        }),
    ensures
        merge_state_ok(s, merged, g, i + 1, grp, lo, ew, fw, cur, cew, cfw),
{
    reveal(merge_state_ok);    let (ocew, ocfw) = choose|ocew: int, ocfw: int| merge_state_ok(s, merged, g, i, grp, lo, ew, fw, old_cur, ocew, ocfw)
            && (if iv_end(s[i]) > iv_end(old_cur) { cew == i } else { cew == ocew })
            && (if s[i].iv_type == UpdateIntervalType::Forced { cfw == i } else { cfw == ocfw });
    assert(iv_wf(s[i]));
    assert(iv_start(s[g]) <= iv_start(s[i]));
    assert forall|j: int| g <= j < i + 1 implies iv_within(#[trigger] s[j], cur) by {
        if j < i {
            assert(iv_within(s[j], old_cur));
        }
    }
    assert forall|p: int| iv_covers(cur, p) implies seq_covers(s, p) by {
        if p < iv_end(old_cur) {
            assert(iv_covers(old_cur, p));
        } else {
            assert(iv_covers(s[i], p));
        }
    }
    assert forall|k: int| 0 <= k < merged.len() implies iv_end(#[trigger] merged[k]) < iv_start(cur) by {
        assert(iv_end(merged[k]) < iv_start(old_cur));
    }
}

proof fn lemma_merge_close(
    s: Seq<UpdateInterval>,
    merged: Seq<UpdateInterval>,
    g: int,
    i: int,
    grp: Seq<int>,
    lo: Seq<int>,
    ew: Seq<int>,
    fw: Seq<int>,
    cur: UpdateInterval,
    cew: int,
    cfw: int,
)
    requires
        all_wf(s),
        forall|a: int, b: int| 0 <= a <= b < s.len() ==> iv_start(#[trigger] s[a]) <= iv_start(#[trigger] s[b]),
        merge_state_ok(s, merged, g, i, grp, lo, ew, fw, cur, cew, cfw),
    ensures
        ({
            let mlen = merged.len() as int;
            let m2 = merged.push(cur);
            let grp2 = grp + Seq::new((i - g) as nat, |_j: int| mlen);
            let lo2 = lo.push(g);
            let ew2 = ew.push(cew);
            let fw2 = fw.push(cfw);
            &&& grp2.len() == i
            &&& m2.len() <= i
            &&& lo2.len() == m2.len()
            &&& ew2.len() == m2.len()
            &&& fw2.len() == m2.len()
            &&& all_wf(m2)
            &&& strictly_separated(m2)
            &&& forall|j: int|
                #![trigger grp2[j]]
                0 <= j < i ==> 0 <= grp2[j] < m2.len() && iv_within(s[j], m2[grp2[j]])
            &&& forall|k: int|
                #![trigger lo2[k]]
                0 <= k < m2.len() ==> 0 <= lo2[k] < i && iv_start(m2[k]) == iv_start(s[lo2[k]])
            &&& forall|k: int|
                #![trigger ew2[k]]
                0 <= k < m2.len() ==> 0 <= ew2[k] < i && iv_end(m2[k]) == iv_end(s[ew2[k]])
            &&& forall|k: int|
                #![trigger fw2[k]]
                0 <= k < m2.len() && m2[k].iv_type == UpdateIntervalType::Forced ==> 0 <= fw2[k] < i
                    && s[fw2[k]].iv_type == UpdateIntervalType::Forced && iv_within(s[fw2[k]], m2[k])
            &&& forall|j: int|
                #![trigger grp2[j]]
                0 <= j < i && s[j].iv_type == UpdateIntervalType::Forced ==> m2[grp2[j]].iv_type
                    == UpdateIntervalType::Forced
            &&& forall|k: int, p: int|
                #![trigger iv_covers(m2[k], p)] 0 <= k < m2.len() && iv_covers(m2[k], p) ==> seq_covers(s, p)
        }),
{
    reveal(merge_state_ok);    let mlen = merged.len() as int;
    let m2 = merged.push(cur);
    let grp2 = grp + Seq::new((i - g) as nat, |_j: int| mlen);
    let lo2 = lo.push(g);
    let ew2 = ew.push(cew);
    let fw2 = fw.push(cfw);
    assert forall|a: int, b: int| 0 <= a < b < m2.len() implies iv_end(#[trigger] m2[a]) < iv_start(#[trigger] m2[b]) by {
        if b == mlen {
            assert(m2[b] == cur);
            assert(m2[a] == merged[a]);
        } else {
            assert(m2[a] == merged[a]);
            assert(m2[b] == merged[b]);
        }
    }
    assert forall|j: int| #![trigger grp2[j]] 0 <= j < i implies 0 <= grp2[j] < m2.len() && iv_within(s[j], m2[grp2[j]]) by {
        if j < g {
            assert(grp2[j] == grp[j]);
            assert(m2[grp[j]] == merged[grp[j]]);
        } else {
            assert(grp2[j] == mlen);
            assert(iv_within(s[j], cur));
        }
    }
    assert forall|k: int| #![trigger lo2[k]] 0 <= k < m2.len() implies 0 <= lo2[k] < i && iv_start(m2[k]) == iv_start(s[lo2[k]]) by {
        if k < mlen {
            assert(lo2[k] == lo[k]);
        }
    }
    assert forall|k: int| #![trigger ew2[k]] 0 <= k < m2.len() implies 0 <= ew2[k] < i && iv_end(m2[k]) == iv_end(s[ew2[k]]) by {
        if k < mlen {
            assert(ew2[k] == ew[k]);
        }
    }
    assert forall|k: int| #![trigger fw2[k]] 0 <= k < m2.len() && m2[k].iv_type == UpdateIntervalType::Forced implies 0 <= fw2[k] < i
                    && s[fw2[k]].iv_type == UpdateIntervalType::Forced && iv_within(s[fw2[k]], m2[k]) by {
        if k < mlen {
            assert(fw2[k] == fw[k]);
        } else {
            assert(iv_within(s[cfw], cur));
        }
    }
    assert forall|j: int| #![trigger grp2[j]] 0 <= j < i && s[j].iv_type == UpdateIntervalType::Forced implies m2[grp2[j]].iv_type
                    == UpdateIntervalType::Forced by {
        if j < g {
            assert(grp2[j] == grp[j]);
        } else {
            assert(grp2[j] == mlen);
        }
    }
    assert forall|k: int, p: int| #![trigger iv_covers(m2[k], p)] 0 <= k < m2.len() && iv_covers(m2[k], p) implies seq_covers(s, p) by {
        if k < mlen {
            assert(m2[k] == merged[k]);
        }
    }
    assert forall|k: int| 0 <= k < m2.len() implies iv_wf(#[trigger] m2[k]) by {
        if k < mlen {
            assert(m2[k] == merged[k]);
        }
    }
}

proof fn lemma_merge_open(
    s: Seq<UpdateInterval>,
    merged: Seq<UpdateInterval>,
    g: int,
    grp: Seq<int>,
    lo: Seq<int>,
    ew: Seq<int>,
    fw: Seq<int>,
    cur: UpdateInterval,
)
    requires
        all_wf(s),
        forall|a: int, b: int| 0 <= a <= b < s.len() ==> iv_start(#[trigger] s[a]) <= iv_start(#[trigger] s[b]),
        0 < g < s.len(),
        cur == s[g],
        merged.len() > 0,
        merged.len() <= g,
        iv_end(merged[merged.len() - 1]) < iv_start(cur),
        grp.len() == g,
        lo.len() == merged.len(),
        ew.len() == merged.len(),
        fw.len() == merged.len(),
        all_wf(merged),
        strictly_separated(merged),
        forall|j: int|
            #![trigger grp[j]]
            0 <= j < g ==> 0 <= grp[j] < merged.len() && iv_within(s[j], merged[grp[j]]),
        forall|k: int|
            #![trigger lo[k]]
            0 <= k < merged.len() ==> 0 <= lo[k] < g && iv_start(merged[k]) == iv_start(s[lo[k]]),
        forall|k: int|
            #![trigger ew[k]]
            0 <= k < merged.len() ==> 0 <= ew[k] < g && iv_end(merged[k]) == iv_end(s[ew[k]]),
        forall|k: int|
            #![trigger fw[k]]
            0 <= k < merged.len() && merged[k].iv_type == UpdateIntervalType::Forced ==> 0 <= fw[k] < g
                && s[fw[k]].iv_type == UpdateIntervalType::Forced && iv_within(s[fw[k]], merged[k]),
        forall|j: int|
            #![trigger grp[j]]
            0 <= j < g && s[j].iv_type == UpdateIntervalType::Forced ==> merged[grp[j]].iv_type
                == UpdateIntervalType::Forced,
        forall|k: int, p: int|
            #![trigger iv_covers(merged[k], p)] 0 <= k < merged.len() && iv_covers(merged[k], p) ==> seq_covers(s, p),
    ensures
        merge_state_ok(s, merged, g, g + 1, grp, lo, ew, fw, cur, g, g),
{
    reveal(merge_state_ok);    assert forall|k: int| 0 <= k < merged.len() implies iv_end(#[trigger] merged[k]) < iv_start(cur) by {
        if k < merged.len() - 1 {
            assert(iv_end(merged[k]) < iv_start(merged[merged.len() - 1]));
            assert(iv_wf(merged[merged.len() - 1]));
        }
    }
    assert(iv_wf(s[g]));
    assert forall|p: int| iv_covers(cur, p) implies seq_covers(s, p) by {
        assert(iv_covers(s[g], p));
    }
}

proof fn lemma_merge_final_within(
    s: Seq<UpdateInterval>,
    orig: Seq<UpdateInterval>,
    perm: Seq<int>,
    inv: Seq<int>,
    merged: Seq<UpdateInterval>,
    grp: Seq<int>,
    lo: Seq<int>,
    ew: Seq<int>,
    fw: Seq<int>,
)
    requires
        all_wf(s),
        perm.len() == s.len(),
        inv.len() == orig.len(),
        forall|j: int| #![trigger perm[j]] 0 <= j < s.len() ==> 0 <= perm[j] < orig.len() && orig[perm[j]] == s[j],
        forall|j: int| #![trigger inv[j]] 0 <= j < orig.len() ==> 0 <= inv[j] < s.len() && s[inv[j]] == orig[j],
        grp.len() == s.len(),
        lo.len() == merged.len(),
        ew.len() == merged.len(),
        fw.len() == merged.len(),
        all_wf(merged),
        strictly_separated(merged),
        forall|j: int|
            #![trigger grp[j]]
            0 <= j < s.len() ==> 0 <= grp[j] < merged.len() && iv_within(s[j], merged[grp[j]]),
        forall|k: int|
            #![trigger lo[k]]
            0 <= k < merged.len() ==> 0 <= lo[k] < s.len() && iv_start(merged[k]) == iv_start(s[lo[k]]),
        forall|k: int|
            #![trigger ew[k]]
            0 <= k < merged.len() ==> 0 <= ew[k] < s.len() && iv_end(merged[k]) == iv_end(s[ew[k]]),
        forall|k: int|
            #![trigger fw[k]]
            0 <= k < merged.len() && merged[k].iv_type == UpdateIntervalType::Forced ==> 0 <= fw[k] < s.len()
                && s[fw[k]].iv_type == UpdateIntervalType::Forced && iv_within(s[fw[k]], merged[k]),
        forall|j: int|
            #![trigger grp[j]]
            0 <= j < s.len() && s[j].iv_type == UpdateIntervalType::Forced ==> merged[grp[j]].iv_type
                == UpdateIntervalType::Forced,
        forall|k: int, p: int|
            #![trigger iv_covers(merged[k], p)]
            0 <= k < merged.len() && iv_covers(merged[k], p) ==> seq_covers(s, p),
    ensures
        merged_contains_all(orig, merged),
        forall|p: int| seq_covers(orig, p) ==> seq_covers(merged, p),
{
    assert forall|j: int| 0 <= j < orig.len() implies some_contains(merged, #[trigger] orig[j]) by {
        let jj = inv[j];
        assert(iv_within(s[jj], merged[grp[jj]]));
    }
    assert forall|p: int| seq_covers(orig, p) implies seq_covers(merged, p) by {
        let jj = choose|jj: int| 0 <= jj < orig.len() && iv_covers(#[trigger] orig[jj], p);
        let j = inv[jj];
        assert(iv_covers(merged[grp[j]], p));
    }
}

proof fn lemma_merge_final_bounds(
    s: Seq<UpdateInterval>,
    orig: Seq<UpdateInterval>,
    perm: Seq<int>,
    inv: Seq<int>,
    merged: Seq<UpdateInterval>,
    grp: Seq<int>,
    lo: Seq<int>,
    ew: Seq<int>,
    fw: Seq<int>,
)
    requires
        all_wf(s),
        perm.len() == s.len(),
        inv.len() == orig.len(),
        forall|j: int| #![trigger perm[j]] 0 <= j < s.len() ==> 0 <= perm[j] < orig.len() && orig[perm[j]] == s[j],
        forall|j: int| #![trigger inv[j]] 0 <= j < orig.len() ==> 0 <= inv[j] < s.len() && s[inv[j]] == orig[j],
        grp.len() == s.len(),
        lo.len() == merged.len(),
        ew.len() == merged.len(),
        fw.len() == merged.len(),
        all_wf(merged),
        strictly_separated(merged),
        forall|j: int|
            #![trigger grp[j]]
            0 <= j < s.len() ==> 0 <= grp[j] < merged.len() && iv_within(s[j], merged[grp[j]]),
        forall|k: int|
            #![trigger lo[k]]
            0 <= k < merged.len() ==> 0 <= lo[k] < s.len() && iv_start(merged[k]) == iv_start(s[lo[k]]),
        forall|k: int|
            #![trigger ew[k]]
            0 <= k < merged.len() ==> 0 <= ew[k] < s.len() && iv_end(merged[k]) == iv_end(s[ew[k]]),
        forall|k: int|
            #![trigger fw[k]]
            0 <= k < merged.len() && merged[k].iv_type == UpdateIntervalType::Forced ==> 0 <= fw[k] < s.len()
                && s[fw[k]].iv_type == UpdateIntervalType::Forced && iv_within(s[fw[k]], merged[k]),
        forall|j: int|
            #![trigger grp[j]]
            0 <= j < s.len() && s[j].iv_type == UpdateIntervalType::Forced ==> merged[grp[j]].iv_type
                == UpdateIntervalType::Forced,
        forall|k: int, p: int|
            #![trigger iv_covers(merged[k], p)]
            0 <= k < merged.len() && iv_covers(merged[k], p) ==> seq_covers(s, p),
    ensures
        merged_bounds_from(orig, merged),
        merged_covers_only(orig, merged),
        forall|p: int| seq_covers(merged, p) ==> seq_covers(orig, p),
{
    assert forall|k: int| 0 <= k < merged.len() implies some_starts_at(orig, iv_start(#[trigger] merged[k]))
        && some_ends_at(orig, iv_end(merged[k])) by {
        let j = perm[lo[k]];
        assert(orig[j] == s[lo[k]]);
        let j2 = perm[ew[k]];
        assert(orig[j2] == s[ew[k]]);
    }
    assert forall|k: int, p: int|
        #![trigger iv_covers(merged[k], p)]
        0 <= k < merged.len() && iv_covers(merged[k], p) implies seq_covers(orig, p) by {
        assert(seq_covers(s, p));
        let j = choose|j: int| 0 <= j < s.len() && iv_covers(#[trigger] s[j], p);
        let jj = perm[j];
        assert(iv_covers(orig[jj], p));
    }
    assert forall|p: int| seq_covers(merged, p) implies seq_covers(orig, p) by {
        let k = choose|k: int| 0 <= k < merged.len() && iv_covers(#[trigger] merged[k], p);
        assert(iv_covers(merged[k], p));
    }
}

proof fn lemma_merge_final_forced(
    s: Seq<UpdateInterval>,
    orig: Seq<UpdateInterval>,
    perm: Seq<int>,
    inv: Seq<int>,
    merged: Seq<UpdateInterval>,
    grp: Seq<int>,
    lo: Seq<int>,
    ew: Seq<int>,
    fw: Seq<int>,
)
    requires
        all_wf(s),
        perm.len() == s.len(),
        inv.len() == orig.len(),
        forall|j: int| #![trigger perm[j]] 0 <= j < s.len() ==> 0 <= perm[j] < orig.len() && orig[perm[j]] == s[j],
        forall|j: int| #![trigger inv[j]] 0 <= j < orig.len() ==> 0 <= inv[j] < s.len() && s[inv[j]] == orig[j],
        grp.len() == s.len(),
        lo.len() == merged.len(),
        ew.len() == merged.len(),
        fw.len() == merged.len(),
        all_wf(merged),
        strictly_separated(merged),
        forall|j: int|
            #![trigger grp[j]]
            0 <= j < s.len() ==> 0 <= grp[j] < merged.len() && iv_within(s[j], merged[grp[j]]),
        forall|k: int|
            #![trigger lo[k]]
            0 <= k < merged.len() ==> 0 <= lo[k] < s.len() && iv_start(merged[k]) == iv_start(s[lo[k]]),
        forall|k: int|
            #![trigger ew[k]]
            0 <= k < merged.len() ==> 0 <= ew[k] < s.len() && iv_end(merged[k]) == iv_end(s[ew[k]]),
        forall|k: int|
            #![trigger fw[k]]
            0 <= k < merged.len() && merged[k].iv_type == UpdateIntervalType::Forced ==> 0 <= fw[k] < s.len()
                && s[fw[k]].iv_type == UpdateIntervalType::Forced && iv_within(s[fw[k]], merged[k]),
        forall|j: int|
            #![trigger grp[j]]
            0 <= j < s.len() && s[j].iv_type == UpdateIntervalType::Forced ==> merged[grp[j]].iv_type
                == UpdateIntervalType::Forced,
        forall|k: int, p: int|
            #![trigger iv_covers(merged[k], p)]
            0 <= k < merged.len() && iv_covers(merged[k], p) ==> seq_covers(s, p),
    ensures
        merged_forced_exactly(orig, merged),
{
    assert forall|k: int| 0 <= k < merged.len() implies ((#[trigger] merged[k]).iv_type
        == UpdateIntervalType::Forced <==> some_forced_start_in(orig, iv_start(merged[k]), iv_end(merged[k]))) by {
        if merged[k].iv_type == UpdateIntervalType::Forced {
            let j = perm[fw[k]];
            assert(orig[j] == s[fw[k]]);
            assert(iv_wf(s[fw[k]]));
        }
        if some_forced_start_in(orig, iv_start(merged[k]), iv_end(merged[k])) {
            let j = choose|j: int|
                0 <= j < orig.len() && (#[trigger] orig[j]).iv_type == UpdateIntervalType::Forced && iv_start(merged[k])
                    <= iv_start(orig[j]) <= iv_end(merged[k]);
            let js = inv[j];
            let kk = grp[js];
            assert(iv_within(s[js], merged[kk]));
            assert(iv_wf(s[js]));
            if kk < k {
                assert(iv_end(merged[kk]) < iv_start(merged[k]));
                assert(iv_wf(merged[kk]));
            } else if kk > k {
                assert(iv_end(merged[k]) < iv_start(merged[kk]));
            }
        }
    }
}

proof fn lemma_merge_final(
    s: Seq<UpdateInterval>,
    orig: Seq<UpdateInterval>,
    perm: Seq<int>,
    inv: Seq<int>,
    merged: Seq<UpdateInterval>,
    grp: Seq<int>,
    lo: Seq<int>,
    ew: Seq<int>,
    fw: Seq<int>,
)
    requires
        all_wf(s),
        perm.len() == s.len(),
        inv.len() == orig.len(),
        forall|j: int| #![trigger perm[j]] 0 <= j < s.len() ==> 0 <= perm[j] < orig.len() && orig[perm[j]] == s[j],
        forall|j: int| #![trigger inv[j]] 0 <= j < orig.len() ==> 0 <= inv[j] < s.len() && s[inv[j]] == orig[j],
        grp.len() == s.len(),
        lo.len() == merged.len(),
        ew.len() == merged.len(),
        fw.len() == merged.len(),
        all_wf(merged),
        strictly_separated(merged),
        forall|j: int|
            #![trigger grp[j]]
            0 <= j < s.len() ==> 0 <= grp[j] < merged.len() && iv_within(s[j], merged[grp[j]]),
        forall|k: int|
            #![trigger lo[k]]
            0 <= k < merged.len() ==> 0 <= lo[k] < s.len() && iv_start(merged[k]) == iv_start(s[lo[k]]),
        forall|k: int|
            #![trigger ew[k]]
            0 <= k < merged.len() ==> 0 <= ew[k] < s.len() && iv_end(merged[k]) == iv_end(s[ew[k]]),
        forall|k: int|
            #![trigger fw[k]]
            0 <= k < merged.len() && merged[k].iv_type == UpdateIntervalType::Forced ==> 0 <= fw[k] < s.len()
                && s[fw[k]].iv_type == UpdateIntervalType::Forced && iv_within(s[fw[k]], merged[k]),
        forall|j: int|
            #![trigger grp[j]]
            0 <= j < s.len() && s[j].iv_type == UpdateIntervalType::Forced ==> merged[grp[j]].iv_type
                == UpdateIntervalType::Forced,
        forall|k: int, p: int|
            #![trigger iv_covers(merged[k], p)]
            0 <= k < merged.len() && iv_covers(merged[k], p) ==> seq_covers(s, p),
    ensures
        merge_result(orig, merged),
        forall|p: int| seq_covers(merged, p) <==> seq_covers(orig, p),
{
    reveal(merge_result);
    lemma_merge_final_within(s, orig, perm, inv, merged, grp, lo, ew, fw);
    lemma_merge_final_bounds(s, orig, perm, inv, merged, grp, lo, ew, fw);
    lemma_merge_final_forced(s, orig, perm, inv, merged, grp, lo, ew, fw);
}

/// Indices that strictly increase along a sequence never fall behind their
/// own position.
proof fn lemma_increasing_indices(f: Seq<int>)
    requires
        forall|i: int, j: int| 0 <= i < j < f.len() ==> #[trigger] f[i] < #[trigger] f[j],
        forall|i: int| 0 <= i < f.len() ==> #[trigger] f[i] >= 0,
    ensures
        forall|k: int| 0 <= k < f.len() ==> #[trigger] f[k] >= k,
    decreases f.len(),
{
    if f.len() > 0 {
        let g = f.drop_last();
        assert forall|i: int, j: int| 0 <= i < j < g.len() implies #[trigger] g[i] < #[trigger] g[j] by {
            assert(f[i] < f[j]);
        }
        lemma_increasing_indices(g);
        assert forall|k: int| 0 <= k < f.len() implies #[trigger] f[k] >= k by {
            if k < f.len() - 1 {
                assert(g[k] == f[k]);
            } else if k > 0 {
                assert(g[k - 1] == f[k - 1]);
                assert(f[k - 1] < f[k]);
            }
        }
    }
}

/// In a forward-running, strictly separated list, equal entries sit at
/// equal positions.
proof fn lemma_separated_distinct(s: Seq<UpdateInterval>, i: int, j: int)
    requires
        all_wf(s),
        strictly_separated(s),
        0 <= i < s.len(),
        0 <= j < s.len(),
        s[i] == s[j],
    ensures
        i == j,
{
    if i < j {
        assert(iv_end(s[i]) < iv_start(s[j]));
        assert(iv_wf(s[i]));
    } else if j < i {
        assert(iv_end(s[j]) < iv_start(s[i]));
        assert(iv_wf(s[j]));
    }
}

/// Each interval of a merge of a forward-running, strictly separated list
/// is one of that list's own intervals.
proof fn lemma_merged_entry_is_old(old: Seq<UpdateInterval>, merged: Seq<UpdateInterval>, k: int) -> (a: int)
    requires
        all_wf(old),
        strictly_separated(old),
        all_wf(merged),
        merged_bounds_from(old, merged),
        merged_covers_only(old, merged),
        merged_forced_exactly(old, merged),
        0 <= k < merged.len(),
    ensures
        0 <= a < old.len(),
        merged[k] == old[a],
{
    let m = merged[k];
    assert(some_starts_at(old, iv_start(m)) && some_ends_at(old, iv_end(m)));
    let a = choose|a: int| 0 <= a < old.len() && iv_start(#[trigger] old[a]) == iv_start(m);
    let b = choose|b: int| 0 <= b < old.len() && iv_end(#[trigger] old[b]) == iv_end(m);
    assert(iv_wf(m));
    assert(iv_wf(old[a]));
    assert(iv_wf(old[b]));
    if a < b {
        let p = iv_end(old[a]);
        assert(iv_end(old[a]) < iv_start(old[b]));
        assert(iv_covers(merged[k], p));
        assert(seq_covers(old, p));
        let j = choose|j: int| 0 <= j < old.len() && iv_covers(#[trigger] old[j], p);
        if j < a {
            assert(iv_end(old[j]) < iv_start(old[a]));
        } else if j > a {
            assert(iv_end(old[a]) < iv_start(old[j]));
        }
        assert(false);
    } else if b < a {
        assert(iv_end(old[b]) < iv_start(old[a]));
        assert(false);
    }
    assert(m.interval == old[a].interval);
    assert(some_forced_start_in(old, iv_start(m), iv_end(m)) <==> old[a].iv_type
        == UpdateIntervalType::Forced) by {
        if some_forced_start_in(old, iv_start(m), iv_end(m)) {
            let j = choose|j: int|
                0 <= j < old.len() && (#[trigger] old[j]).iv_type == UpdateIntervalType::Forced
                    && iv_start(m) <= iv_start(old[j]) <= iv_end(m);
            assert(iv_wf(old[j]));
            if j < a {
                assert(iv_end(old[j]) < iv_start(old[a]));
            } else if j > a {
                assert(iv_end(old[a]) < iv_start(old[j]));
            }
        }
        if old[a].iv_type == UpdateIntervalType::Forced {
            assert(iv_start(m) <= iv_start(old[a]) <= iv_end(m));
        }
    }
    assert(merged[k].iv_type == UpdateIntervalType::Forced <==> some_forced_start_in(
        old,
        iv_start(merged[k]),
        iv_end(merged[k]),
    ));
    assert(m.iv_type == old[a].iv_type);
    assert(merged[k] == old[a]);
    a
}

/// `f` sends each position of `t` to a position of `s` holding the same
/// interval.
spec fn index_map(t: Seq<UpdateInterval>, s: Seq<UpdateInterval>, f: Seq<int>) -> bool {
    &&& f.len() == t.len()
    &&& forall|k: int| 0 <= k < t.len() ==> 0 <= #[trigger] f[k] < s.len() && t[k] == s[f[k]]
}

/// Two forward-running, strictly separated lists whose entries each occur
/// in the other are the same list.
proof fn lemma_mutual_entries_equal(s: Seq<UpdateInterval>, t: Seq<UpdateInterval>, f: Seq<int>, g: Seq<int>)
    requires
        all_wf(s),
        strictly_separated(s),
        all_wf(t),
        strictly_separated(t),
        index_map(t, s, f),
        index_map(s, t, g),
    ensures
        t == s,
{
    assert forall|i: int, j: int| 0 <= i < j < f.len() implies #[trigger] f[i] < #[trigger] f[j] by {
        assert(iv_end(t[i]) < iv_start(t[j]));
        assert(iv_wf(t[i]));
        assert(iv_wf(t[j]));
        if f[j] < f[i] {
            assert(iv_end(s[f[j]]) < iv_start(s[f[i]]));
        } else if f[j] == f[i] {
            assert(t[i] == t[j]);
        }
    }
    assert forall|i: int, j: int| 0 <= i < j < g.len() implies #[trigger] g[i] < #[trigger] g[j] by {
        assert(iv_end(s[i]) < iv_start(s[j]));
        assert(iv_wf(s[i]));
        assert(iv_wf(s[j]));
        if g[j] < g[i] {
            assert(iv_end(t[g[j]]) < iv_start(t[g[i]]));
        } else if g[j] == g[i] {
            assert(s[i] == s[j]);
        }
    }
    lemma_increasing_indices(f);
    lemma_increasing_indices(g);
    if s.len() > 0 {
        assert(g[s.len() - 1] >= s.len() - 1);
    }
    if t.len() > 0 {
        assert(f[t.len() - 1] >= t.len() - 1);
    }
    assert(t.len() == s.len());
    assert forall|k: int| 0 <= k < t.len() implies t[k] == s[k] by {
        let a = f[k];
        let k2 = g[a];
        lemma_separated_distinct(t, k, k2);
        assert(g[a] >= a);
        assert(f[k] >= k);
    }
    assert(t =~= s);
}

/// Merging intervals that are already merged changes nothing: when the old
/// intervals run forwards and are strictly separated, the only forward-running,
/// strictly separated list that `merge_result` admits as their merge is the
/// old list itself, in the same order.
pub proof fn merge_of_merged_is_identity(old: Seq<UpdateInterval>, merged: Seq<UpdateInterval>)
    requires
        all_wf(old),
        strictly_separated(old),
        all_wf(merged),
        strictly_separated(merged),
        merge_result(old, merged),
    ensures
        merged == old,
{
    let f: Seq<int> = Seq::new(
        merged.len(),
        |k: int| choose|a: int| 0 <= a < old.len() && merged[k] == old[a],
    );
    let g: Seq<int> = Seq::new(
        old.len(),
        |j: int| choose|k: int| 0 <= k < merged.len() && old[j] == merged[k],
    );
    assert forall|k: int| 0 <= k < merged.len() implies 0 <= #[trigger] f[k] < old.len() && merged[k] == old[f[k]] by {
        let a = lemma_merge_entry_of_old(old, merged, k);
        assert(0 <= a < old.len() && merged[k] == old[a]);
    }
    assert forall|j: int| 0 <= j < old.len() implies 0 <= #[trigger] g[j] < merged.len() && old[j] == merged[g[j]] by {
        let k = lemma_old_entry_kept(old, merged, j);
        assert(0 <= k < merged.len() && old[j] == merged[k]);
    }
    lemma_mutual_entries_equal(old, merged, f, g);
}

/// Each interval of such a merge is one of the old intervals.
proof fn lemma_merge_entry_of_old(old: Seq<UpdateInterval>, merged: Seq<UpdateInterval>, k: int) -> (a: int)
    requires
        all_wf(old),
        strictly_separated(old),
        all_wf(merged),
        merge_result(old, merged),
        0 <= k < merged.len(),
    ensures
        0 <= a < old.len(),
        merged[k] == old[a],
{
    reveal(merge_result);
    lemma_merged_entry_is_old(old, merged, k)
}

/// Each old interval survives such a merge unchanged.
proof fn lemma_old_entry_kept(old: Seq<UpdateInterval>, merged: Seq<UpdateInterval>, j: int) -> (k: int)
    requires
        all_wf(old),
        strictly_separated(old),
        all_wf(merged),
        merge_result(old, merged),
        0 <= j < old.len(),
    ensures
        0 <= k < merged.len(),
        old[j] == merged[k],
{
    assert(some_contains(merged, old[j])) by {
        reveal(merge_result);
    }
    let k = choose|k: int| 0 <= k < merged.len() && iv_within(old[j], #[trigger] merged[k]);
    let a = lemma_merge_entry_of_old(old, merged, k);
    lemma_separated_within(old, j, a);
    k
}

/// In a forward-running, strictly separated list, an entry lies inside
/// another only when the two are the same entry.
proof fn lemma_separated_within(s: Seq<UpdateInterval>, j: int, a: int)
    requires
        all_wf(s),
        strictly_separated(s),
        0 <= j < s.len(),
        0 <= a < s.len(),
        iv_within(s[j], s[a]),
    ensures
        j == a,
{
    assert(iv_wf(s[j]));
    assert(iv_wf(s[a]));
    if a < j {
        assert(iv_end(s[a]) < iv_start(s[j]));
    } else if j < a {
        assert(iv_end(s[j]) < iv_start(s[a]));
    }
}

/// The collected intervals of a screen of `width * height` cells.
#[derive(Debug)]
pub struct UpdateIntervalHandler {
    width: u16,
    height: u16,
    intervals: Vec<UpdateInterval>,
}

impl UpdateIntervalHandler {
    pub closed spec fn spec_width(&self) -> u16 {
        self.width
    }

    pub closed spec fn spec_height(&self) -> u16 {
        self.height
    }

    /// The intervals currently held, in insertion (or merged) order.
    pub closed spec fn spec_intervals(&self) -> Seq<UpdateInterval> {
        self.intervals@
    }

    /// Every held interval runs forwards.
    pub open spec fn wf(&self) -> bool {
        all_wf(self.spec_intervals())
    }

    pub fn new(width: u16, height: u16) -> (h: Self)
        ensures
            h.spec_width() == width,
            h.spec_height() == height,
            h.spec_intervals() == Seq::<UpdateInterval>::empty(),
            h.wf(),
    {
        UpdateIntervalHandler { width, height, intervals: Vec::new() }
    }

    pub fn width(&self) -> (w: u16)
        ensures
            w == self.spec_width(),
    {
        self.width
    }

    pub fn height(&self) -> (h: u16)
        ensures
            h == self.spec_height(),
    {
        self.height
    }

    /// A copy of the held intervals.
    pub fn intervals(&self) -> (v: Vec<UpdateInterval>)
        ensures
            v@ == self.spec_intervals(),
    {
        self.intervals.clone()
    }

    /// Appends, for every row of the creator, the flattened interval that
    /// the row contributes (see `spec_row_interval`), each row once, in the
    /// map's order of rows (see `rows_flat`); only that order is left open.
    pub fn merge_creator(&mut self, creator: UpdateIntervalCreator)
        requires
            old(self).wf(),
        ensures
            final(self).wf(),
            final(self).spec_width() == old(self).spec_width(),
            final(self).spec_height() == old(self).spec_height(),
            final(self).spec_intervals().len() >= old(self).spec_intervals().len(),
            final(self).spec_intervals().subrange(0, old(self).spec_intervals().len() as int)
                == old(self).spec_intervals(),
            final(self).spec_intervals().subrange(
                old(self).spec_intervals().len() as int,
                final(self).spec_intervals().len() as int,
            ).to_set() == creator_rows(old(self).spec_width(), old(self).spec_height(), creator@),
            exists|ks: Seq<u16>|
                #[trigger] lists_keys(ks, creator@) && final(self).spec_intervals().subrange(
                    old(self).spec_intervals().len() as int,
                    final(self).spec_intervals().len() as int,
                ) == rows_flat(old(self).spec_width(), old(self).spec_height(), creator_entries(ks, creator@)),
    {
        self.merge_creator_ref(&creator);
    }

    fn merge_creator_ref(&mut self, creator: &UpdateIntervalCreator)
        requires
            old(self).wf(),
        ensures
            final(self).wf(),
            final(self).spec_width() == old(self).spec_width(),
            final(self).spec_height() == old(self).spec_height(),
            final(self).spec_intervals().len() >= old(self).spec_intervals().len(),
            final(self).spec_intervals().subrange(0, old(self).spec_intervals().len() as int)
                == old(self).spec_intervals(),
            final(self).spec_intervals().subrange(
                old(self).spec_intervals().len() as int,
                final(self).spec_intervals().len() as int,
            ).to_set() == creator_rows(old(self).spec_width(), old(self).spec_height(), creator@),
            exists|ks: Seq<u16>|
                #[trigger] lists_keys(ks, creator@) && final(self).spec_intervals().subrange(
                    old(self).spec_intervals().len() as int,
                    final(self).spec_intervals().len() as int,
                ) == rows_flat(old(self).spec_width(), old(self).spec_height(), creator_entries(ks, creator@)),
    {
        let entries = map_entries(&creator.intervals);
        self.append_rows(&entries);
        proof {
            lemma_entries_rows_of_map(self.width, self.height, entries@, creator@);
            let ks = entries@.map_values(|e: (u16, UpdateInterval)| e.0);
            assert(creator_entries(ks, creator@) =~= entries@) by {
                assert forall|j: int| 0 <= j < entries@.len() implies #[trigger] creator_entries(ks, creator@)[j] == entries@[j] by {
                    assert(creator@.contains_key(entries@[j].0) && creator@[entries@[j].0] == entries@[j].1);
                }
            }
            assert(lists_keys(ks, creator@));
        }
    }

    /// Appends the flattened interval of every `(row, interval)` entry.
    fn append_rows(&mut self, entries: &Vec<(u16, UpdateInterval)>)
        requires
            old(self).wf(),
        ensures
            final(self).wf(),
            final(self).width == old(self).width,
            final(self).height == old(self).height,
            final(self).intervals@.len() >= old(self).intervals@.len(),
            final(self).intervals@.subrange(0, old(self).intervals@.len() as int)
                == old(self).intervals@,
            final(self).intervals@.subrange(
                old(self).intervals@.len() as int,
                final(self).intervals@.len() as int,
            ).to_set() == entries_rows(old(self).width, old(self).height, entries@),
            final(self).intervals@.subrange(
                old(self).intervals@.len() as int,
                final(self).intervals@.len() as int,
            ) == rows_flat(old(self).width, old(self).height, entries@),
    {
        let ghost old_ivs = self.intervals@;
        let ghost e = entries@;
        let w = self.width;
        let h = self.height;
        let mut i: usize = 0;
        while i < entries.len()
            invariant
                e == entries@,
                self.width == w,
                self.height == h,
                w == old(self).width,
                h == old(self).height,
                old_ivs == old(self).intervals@,
                0 <= i <= e.len(),
                all_wf(self.intervals@),
                self.intervals@.len() >= old_ivs.len(),
                self.intervals@.subrange(0, old_ivs.len() as int) == old_ivs,
                self.intervals@.subrange(old_ivs.len() as int, self.intervals@.len() as int).to_set()
                    == entries_rows(w, h, e.take(i as int)),
                self.intervals@.subrange(old_ivs.len() as int, self.intervals@.len() as int) == rows_flat(w, h, e.take(i as int)),
            decreases e.len() - i,
        {
            let (y, iv) = entries[i];
            let ghost prev = self.intervals@;
            let r = row_interval(w, h, y, &iv);
            proof {
                assert(e.take(i + 1) =~= e.take(i as int).push(e[i as int]));
                assert(e.take(i + 1).drop_last() =~= e.take(i as int));
                lemma_entries_rows_push(w, h, e.take(i as int), e[i as int]);
            }
            if let Some(v) = r {
                self.intervals.push(v);
                assert(self.intervals@.subrange(0, old_ivs.len() as int) =~= old_ivs) by {
                    assert(prev.subrange(0, old_ivs.len() as int) == old_ivs);
                }
                proof {
                    let pa = prev.subrange(old_ivs.len() as int, prev.len() as int);
                    assert(self.intervals@.subrange(old_ivs.len() as int, self.intervals@.len() as int)
                        =~= pa.push(v));
                    lemma_push_to_set(pa, v);
                }
            } else {
                assert(self.intervals@ == prev);
            }
            i += 1;
        }
        proof {
            assert(e.take(e.len() as int) =~= e);
        }
    }

    /// Appends, for every interval listed under every row of the map, the
    /// flattened interval it contributes (see `spec_row_interval`): row
    /// after row in the map's order, each row's intervals in order (see
    /// `keyed_flat`). Only the order of the rows is left open.
    pub fn merge_redraw_regions(&mut self, hash: HashMap<u16, Vec<UpdateInterval>>)
        requires
            old(self).wf(),
        ensures
            final(self).wf(),
            final(self).spec_width() == old(self).spec_width(),
            final(self).spec_height() == old(self).spec_height(),
            final(self).spec_intervals().len() >= old(self).spec_intervals().len(),
            final(self).spec_intervals().subrange(0, old(self).spec_intervals().len() as int)
                == old(self).spec_intervals(),
            final(self).spec_intervals().subrange(
                old(self).spec_intervals().len() as int,
                final(self).spec_intervals().len() as int,
            ).to_set() == region_rows(old(self).spec_width(), old(self).spec_height(), hash@),
            exists|ks: Seq<u16>|
                #[trigger] lists_keys(ks, hash@) && final(self).spec_intervals().subrange(
                    old(self).spec_intervals().len() as int,
                    final(self).spec_intervals().len() as int,
                ) == keyed_flat(
                    old(self).spec_width(),
                    old(self).spec_height(),
                    crate::drawables::rows_view(hash@),
                    ks,
                ),
    {
        broadcast use vstd::std_specs::hash::group_hash_axioms;

        let keys = map_keys(&hash);
        let ghost m = hash@;
        let ghost l0 = self.intervals@.len() as int;
        let ghost (w, h) = (self.width, self.height);
        let mut q: usize = 0;
        while q < keys.len()
            invariant
                0 <= q <= keys@.len(),
                m == hash@,
                w == self.width,
                h == self.height,
                w == old(self).width,
                h == old(self).height,
                l0 == old(self).intervals@.len(),
                forall|j: int| 0 <= j < keys@.len() ==> m.contains_key(#[trigger] keys@[j]),
                all_wf(self.intervals@),
                self.intervals@.len() >= l0,
                self.intervals@.subrange(0, l0) == old(self).intervals@,
                self.intervals@.subrange(l0, self.intervals@.len() as int).to_set() == keyed_rows(
                    w,
                    h,
                    m,
                    keys@.take(q as int),
                ),
                self.intervals@.subrange(l0, self.intervals@.len() as int) == keyed_flat(
                    w,
                    h,
                    crate::drawables::rows_view(m),
                    keys@.take(q as int),
                ),
            decreases keys@.len() - q,
        {
            let y = keys[q];
            let opt = hash.get(&y);
            assert(opt.is_some());
            let ivs = opt.unwrap();
            let es = row_entries(y, ivs);
            let ghost prev = self.intervals@;
            self.append_rows(&es);
            proof {
                let l1 = prev.len() as int;
                let cur = self.intervals@;
                assert(cur.subrange(0, l0) =~= old(self).intervals@) by {
                    assert(cur.subrange(0, l1) == prev);
                    assert(prev.subrange(0, l0) == old(self).intervals@);
                }
                assert(cur.subrange(l0, cur.len() as int) =~= prev.subrange(l0, l1) + cur.subrange(
                    l1,
                    cur.len() as int,
                )) by {
                    assert(cur.subrange(0, l1) == prev);
                }
                lemma_seq_concat_to_set(prev.subrange(l0, l1), cur.subrange(l1, cur.len() as int));
                assert(keys@.take(q + 1) =~= keys@.take(q as int).push(y));
                lemma_keyed_rows_push(w, h, m, keys@.take(q as int), y, es@);
                let mv = crate::drawables::rows_view(m);
                assert(keys@.take(q + 1).drop_last() =~= keys@.take(q as int));
                assert(mv[y] == m[y]@);
                assert(es@ =~= row_pairs(y, mv[y]));
                assert(cur.subrange(l1, cur.len() as int) == rows_flat(w, h, es@));
                assert(cur.subrange(l0, cur.len() as int) =~= keyed_flat(w, h, mv, keys@.take(q + 1)));
            }
            q += 1;
        }
        proof {
            assert(keys@.take(keys@.len() as int) =~= keys@);
            assert(lists_keys(keys@, hash@));
            let l = keyed_rows(w, h, m, keys@);
            let r = region_rows(w, h, m);
            assert forall|v: UpdateInterval| l.contains(v) implies r.contains(v) by {
                let (qq, i) = choose|qq: int, i: int|
                    0 <= qq < keys@.len() && m.contains_key(keys@[qq]) && 0 <= i < m[keys@[qq]]@.len()
                        && spec_row_interval(w, h, keys@[qq], m[keys@[qq]]@[i]) == Some(v);
            }
            assert forall|v: UpdateInterval| r.contains(v) implies l.contains(v) by {
                let (y, i) = choose|y: u16, i: int|
                    m.contains_key(y) && 0 <= i < m[y]@.len() && spec_row_interval(w, h, y, m[y]@[i])
                        == Some(v);
                assert(keys@.contains(y));
                let qq = choose|qq: int| 0 <= qq < keys@.len() && keys@[qq] == y;
            }
            assert(l =~= r);
        }
    }

    /// Marks the whole screen `[0, width * height)` as to be redrawn,
    /// unconditionally.
    pub fn invalidate_entire_screen(&mut self)
        requires
            old(self).wf(),
        ensures
            final(self).wf(),
            final(self).spec_width() == old(self).spec_width(),
            final(self).spec_height() == old(self).spec_height(),
            final(self).spec_intervals() == old(self).spec_intervals().push(
                UpdateInterval {
                    interval: (
                        0,
                        (old(self).spec_width() as int * old(self).spec_height() as int) as usize,
                    ),
                    iv_type: UpdateIntervalType::Forced,
                },
            ),
    {
        assert((self.width as int) * (self.height as int) <= 65535 * 65535) by (nonlinear_arith)
            requires
                self.width <= 65535,
                self.height <= 65535,
        ;
        let total = self.width as usize * self.height as usize;
        self.intervals.push(
            UpdateInterval { interval: (0, total), iv_type: UpdateIntervalType::Forced },
        );
    }

    /// Grows every interval by `amount` cells at its end (saturating), so
    /// that draw calls cover bigger regions and merge more eagerly.
    pub fn expand_regions(&mut self, amount: usize)
        requires
            old(self).wf(),
        ensures
            final(self).wf(),
            final(self).spec_width() == old(self).spec_width(),
            final(self).spec_height() == old(self).spec_height(),
            final(self).spec_intervals().len() == old(self).spec_intervals().len(),
            forall|i: int|
                0 <= i < old(self).spec_intervals().len() ==> #[trigger] final(self).spec_intervals()[i]
                    == (UpdateInterval {
                    interval: (
                        old(self).spec_intervals()[i].interval.0,
                        sat_add_usize(old(self).spec_intervals()[i].interval.1, amount),
                    ),
                    iv_type: old(self).spec_intervals()[i].iv_type,
                }),
    {
        let n = self.intervals.len();
        let ghost old_ivs = self.intervals@;
        let mut i: usize = 0;
        while i < n
            invariant
                n == old_ivs.len(),
                self.intervals@.len() == n,
                self.width == old(self).width,
                self.height == old(self).height,
                old_ivs == old(self).intervals@,
                0 <= i <= n,
                forall|j: int|
                    0 <= j < i ==> #[trigger] self.intervals@[j] == (UpdateInterval {
                        interval: (
                            old_ivs[j].interval.0,
                            sat_add_usize(old_ivs[j].interval.1, amount),
                        ),
                        iv_type: old_ivs[j].iv_type,
                    }),
                forall|j: int| i <= j < n ==> #[trigger] self.intervals@[j] == old_ivs[j],
                all_wf(old_ivs),
            decreases n - i,
        {
            let iv = self.intervals[i];
            let new_end = iv.interval.1.saturating_add(amount);
            self.intervals.set(
                i,
                UpdateInterval { interval: (iv.interval.0, new_end), iv_type: iv.iv_type },
            );
            i += 1;
        }
        proof {
            assert forall|j: int| 0 <= j < n implies iv_wf(#[trigger] self.intervals@[j]) by {
                assert(iv_wf(old_ivs[j]));
            }
        }
    }

    /// Sorts the intervals by start and merges every run of intervals that
    /// overlap or touch (a start at or before the running end) into one
    /// interval, which is `Forced` when any interval of the run is.
    /// The result is sorted and strictly separated, covers exactly the
    /// cells the old intervals covered, and every merged interval starts
    /// at some old start and ends at some old end. Intervals that are
    /// already sorted and strictly separated are left exactly as they are,
    /// so merging twice gives what merging once gave.
    #[verifier::rlimit(80)]
    pub fn merge_intervals(&mut self)
        requires
            old(self).wf(),
        ensures
            final(self).wf(),
            final(self).spec_width() == old(self).spec_width(),
            final(self).spec_height() == old(self).spec_height(),
            old(self).spec_intervals().len() <= 1 ==> final(self).spec_intervals() == old(
                self,
            ).spec_intervals(),
            final(self).spec_intervals().len() <= old(self).spec_intervals().len(),
            old(self).spec_intervals().len() > 0 ==> final(self).spec_intervals().len() > 0,
            strictly_separated(final(self).spec_intervals()),
            forall|p: int|
                seq_covers(final(self).spec_intervals(), p) <==> seq_covers(
                    old(self).spec_intervals(),
                    p,
                ),
            merge_result(old(self).spec_intervals(), final(self).spec_intervals()),
            strictly_separated(old(self).spec_intervals()) ==> final(self).spec_intervals() == old(
                self,
            ).spec_intervals(),
    {
        let n = self.intervals.len();
        if n <= 1 {
            proof {
                lemma_merge_result_trivial(self.intervals@);
            }
            return ;
        }
        let ghost orig = self.intervals@;
        sort_by_start(&mut self.intervals);
        let ghost s = self.intervals@;
        let ghost perm: Seq<int> = Seq::new(s.len(), |j: int| choose|jj: int| 0 <= jj < orig.len() && orig[jj] == s[j]);
        let ghost inv: Seq<int> = Seq::new(orig.len(), |j: int| choose|jj: int| 0 <= jj < s.len() && s[jj] == orig[j]);
        proof {
            broadcast use vstd::seq_lib::group_to_multiset_ensures;

            assert forall|j: int| #![trigger perm[j]] 0 <= j < s.len() implies 0 <= perm[j] < orig.len() && orig[perm[j]] == s[j] by {
                assert(s.contains(s[j]));
                assert(s.to_multiset().count(s[j]) > 0);
                assert(orig.contains(s[j]));
            }
            assert forall|j: int| #![trigger inv[j]] 0 <= j < orig.len() implies 0 <= inv[j] < s.len() && s[inv[j]] == orig[j] by {
                assert(orig.contains(orig[j]));
                assert(orig.to_multiset().count(orig[j]) > 0);
                assert(s.contains(orig[j]));
            }
            assert forall|j: int| 0 <= j < s.len() implies iv_wf(#[trigger] s[j]) by {
                assert(orig[perm[j]] == s[j]);
            }
        }
        let mut merged: Vec<UpdateInterval> = Vec::new();
        let mut current = self.intervals[0];
        let ghost mut g: int = 0;
        let ghost mut cew: int = 0;
        let ghost mut cfw: int = 0;
        let ghost mut grp: Seq<int> = Seq::empty();
        let ghost mut lo: Seq<int> = Seq::empty();
        let ghost mut ew: Seq<int> = Seq::empty();
        let ghost mut fw: Seq<int> = Seq::empty();
        let mut i: usize = 1;
        proof {
            lemma_merge_init(s);
        }
        while i < n
            invariant
                n == s.len(),
                s == self.intervals@,
                all_wf(s),
                forall|a: int, b: int| 0 <= a <= b < s.len() ==> iv_start(#[trigger] s[a]) <= iv_start(#[trigger] s[b]),
                1 <= i <= n,
                0 <= g < i,
                merge_state_ok(s, merged@, g, i as int, grp, lo, ew, fw, current, cew, cfw),
            decreases n - i,
        {
            let iv = self.intervals[i];
            let cur_end = current.interval.1;
            if iv.interval.0 <= cur_end {
                let new_end = if iv.interval.1 > cur_end {
                    iv.interval.1
                } else {
                    cur_end
                };
                let ghost old_cur = current;
                let new_type = if iv.iv_type == UpdateIntervalType::Forced {
                    UpdateIntervalType::Forced
                } else {
                    current.iv_type
                };
                current = UpdateInterval { interval: (current.interval.0, new_end), iv_type: new_type };
                proof {
                    if iv.interval.1 > cur_end {
                        cew = i as int;
                    }
                    if iv.iv_type == UpdateIntervalType::Forced {
                        cfw = i as int;
                    }
                    lemma_merge_extend(s, merged@, g, i as int, grp, lo, ew, fw, old_cur, current, cew, cfw);
                }
            } else {
                let ghost old_merged = merged@;
                let ghost old_cur = current;
                merged.push(current);
                current = iv;
                proof {
                    let mlen = old_merged.len() as int;
                    let ng = grp + Seq::new((i - g) as nat, |_j: int| mlen);
                    lemma_merge_close(s, old_merged, g, i as int, grp, lo, ew, fw, old_cur, cew, cfw);
                    grp = ng;
                    lo = lo.push(g);
                    ew = ew.push(cew);
                    fw = fw.push(cfw);
                    g = i as int;
                    cew = i as int;
                    cfw = i as int;
                    assert(merged@ == old_merged.push(old_cur));
                    lemma_merge_open(s, merged@, g, grp, lo, ew, fw, current);
                }
            }
            i += 1;
        }
        let ghost old_merged = merged@;
        merged.push(current);
        proof {
            let mlen = old_merged.len() as int;
            lemma_merge_close(s, old_merged, g, n as int, grp, lo, ew, fw, current, cew, cfw);
            let ng = grp + Seq::new((n - g) as nat, |_j: int| mlen);
            assert(merged@ == old_merged.push(current));
            lemma_merge_final(s, orig, perm, inv, merged@, ng, lo.push(g), ew.push(cew), fw.push(cfw));
        }
        self.intervals = merged;
        proof {
            if strictly_separated(orig) {
                merge_of_merged_is_identity(orig, self.intervals@);
            }
        }
    }

    /// Hands out all held intervals and leaves the handler empty.
    pub fn dump_intervals(&mut self) -> (v: Vec<UpdateInterval>)
        ensures
            v@ == old(self).spec_intervals(),
            final(self).spec_intervals() == Seq::<UpdateInterval>::empty(),
            final(self).spec_width() == old(self).spec_width(),
            final(self).spec_height() == old(self).spec_height(),
            final(self).wf(),
    {
        let mut v: Vec<UpdateInterval> = Vec::new();
        std::mem::swap(&mut v, &mut self.intervals);
        v
    }
}

impl Default for UpdateIntervalHandler {
    fn default() -> (h: Self)
        ensures
            h.spec_width() == 0,
            h.spec_height() == 0,
            h.spec_intervals() == Seq::<UpdateInterval>::empty(),
    {
        UpdateIntervalHandler { width: 0, height: 0, intervals: Vec::new() }
    }
}

/// The interval that results from widening the interval already held for
/// a row (if any) so that it also spans `[start, end)`. A new row starts
/// out as `Optimized`; an existing row keeps its type.
pub open spec fn spec_widen(prev: Option<UpdateInterval>, start: usize, end: usize) -> UpdateInterval {
    match prev {
        Some(o) => UpdateInterval {
            interval: (min_usize(o.interval.0, start), max_usize(o.interval.1, end)),
            iv_type: o.iv_type,
        },
        None => UpdateInterval { interval: (start, end), iv_type: UpdateIntervalType::Optimized },
    }
}

/// Adding the columns `[start, end)` to a row (see `add_interval`) gives
/// the smallest interval that covers them and everything the row covered
/// before: it starts at the smaller of the two starts and ends at the
/// larger of the two ends; a row that had nothing gets exactly
/// `[start, end)`, to be optimised.
pub proof fn widened_row_covers_both(prev: Option<UpdateInterval>, start: usize, end: usize)
    ensures
        spec_widen(prev, start, end).interval.0 <= start,
        spec_widen(prev, start, end).interval.1 >= end,
        prev matches Some(o) ==> spec_widen(prev, start, end).interval.0 <= o.interval.0 && spec_widen(prev, start, end).interval.1
            >= o.interval.1,
        prev matches Some(o) ==> (spec_widen(prev, start, end).interval.0 == start || spec_widen(prev, start, end).interval.0
            == o.interval.0) && (spec_widen(prev, start, end).interval.1 == end || spec_widen(prev, start, end).interval.1
            == o.interval.1) && spec_widen(prev, start, end).iv_type == o.iv_type,
        prev is None ==> spec_widen(prev, start, end) == (UpdateInterval { interval: (start, end), iv_type: UpdateIntervalType::Optimized }),
{
}

/// The entry of a map as an `Option`.
pub open spec fn map_get(m: Map<u16, UpdateInterval>, y: u16) -> Option<UpdateInterval> {
    if m.contains_key(y) {
        Some(m[y])
    } else {
        None
    }
}

/// `m` with every row in `[lo, hi]` widened to span `[start, end)`.
pub open spec fn spec_widen_rows(
    m: Map<u16, UpdateInterval>,
    lo: u16,
    hi: u16,
    start: usize,
    end: usize,
) -> Map<u16, UpdateInterval> {
    Map::new(
        |y: u16| m.contains_key(y) || (lo <= y <= hi),
        |y: u16|
            if lo <= y <= hi {
                spec_widen(map_get(m, y), start, end)
            } else {
                m[y]
            },
    )
}

/// Clamps an `i32` to a `usize`: negatives become 0.
pub open spec fn spec_i32_to_usize_clamped(x: i32) -> usize {
    if x <= 0 {
        0
    } else {
        x as usize
    }
}

fn i32_to_usize_clamped(x: i32) -> (r: usize)
    ensures
        r == spec_i32_to_usize_clamped(x),
{
    if x <= 0 {
        0
    } else {
        x as usize
    }
}

/// Collects, per terminal row, one column range to redraw, to be merged
/// into an `UpdateIntervalHandler` later.
#[derive(Debug, Clone)]
pub struct UpdateIntervalCreator {
    pub intervals: HashMap<u16, UpdateInterval>,
}

impl View for UpdateIntervalCreator {
    type V = Map<u16, UpdateInterval>;

    open spec fn view(&self) -> Map<u16, UpdateInterval> {
        self.intervals@
    }
}

impl UpdateIntervalCreator {
    pub fn new() -> (c: Self)
        ensures
            c@ == Map::<u16, UpdateInterval>::empty(),
    {
        UpdateIntervalCreator { intervals: HashMap::new() }
    }

    fn widen_row(&mut self, y: u16, start: usize, end: usize)
        ensures
            final(self)@ == old(self)@.insert(y, spec_widen(map_get(old(self)@, y), start, end)),
    {
        broadcast use vstd::std_specs::hash::group_hash_axioms;

        let prev = match self.intervals.get(&y) {
            Some(e) => Some(*e),
            None => None,
        };
        let v = match prev {
            Some(o) => {
                let s = if o.interval.0 <= start {
                    o.interval.0
                } else {
                    start
                };
                let e = if o.interval.1 >= end {
                    o.interval.1
                } else {
                    end
                };
                UpdateInterval { interval: (s, e), iv_type: o.iv_type }
            },
            None => UpdateInterval {
                interval: (start, end),
                iv_type: UpdateIntervalType::Optimized,
            },
        };
        self.intervals.insert(y, v);
    }

    /// Marks the cells of the (normalised, closed) rectangle as to be
    /// redrawn: every row from its top to its bottom edge, with coordinates
    /// clamped to `u16`, is widened to span the rectangle's columns.
    pub fn register_redraw_region(&mut self, rect: Rect)
        ensures
            ({
                let r = rect.spec_normalized();
                let lo = spec_clamp_to_u16(r.p1.y);
                let hi = spec_clamp_to_u16(r.p2.y);
                let start = spec_clamp_to_u16(r.p1.x) as usize;
                let end = if spec_clamp_to_u16(r.p2.x) == 65535 {
                    65535usize
                } else {
                    (spec_clamp_to_u16(r.p2.x) + 1) as usize
                };
                final(self)@ == spec_widen_rows(old(self)@, lo, hi, start, end)
            }),
    {
        let r = rect.normalized();
        let p1_x = clamp_to_u16(r.p1.x);
        let p1_y = clamp_to_u16(r.p1.y);
        let p2_x = clamp_to_u16(r.p2.x);
        let p2_y = clamp_to_u16(r.p2.y);
        let ghost old_m = self.intervals@;
        if p1_y > p2_y {
            assert(self.intervals@ =~= spec_widen_rows(old_m, p1_y, p2_y, 0, 0));
            return ;
        }
        let start_x = p1_x as usize;
        let end_x = p2_x.saturating_add(1) as usize;
        let mut y: u32 = p1_y as u32;
        while y <= p2_y as u32
            invariant
                p1_y <= y <= p2_y as u32 + 1,
                p1_y <= p2_y,
                forall|k: u16|
                    #[trigger] self.intervals@.contains_key(k) <==> (old_m.contains_key(k) || (p1_y <= k
                        && (k as u32) < y)),
                forall|k: u16|
                    p1_y <= k && (k as u32) < y ==> #[trigger] self.intervals@[k] == spec_widen(
                        map_get(old_m, k),
                        start_x,
                        end_x,
                    ),
                forall|k: u16|
                    !(p1_y <= k && (k as u32) < y) && old_m.contains_key(k) ==> #[trigger] self.intervals@[k]
                        == old_m[k],
            decreases p2_y as u32 + 1 - y,
        {
            self.widen_row(y as u16, start_x, end_x);
            y += 1;
        }
        proof {
            assert(self.intervals@ =~= spec_widen_rows(old_m, p1_y, p2_y, start_x, end_x));
        }
    }

    /// Adds one interval on row `y`, given in `i32` coordinates:
    /// a negative `y` is ignored, negative endpoints are clamped to 0,
    /// the endpoints are put in order, and `y` is truncated to `u16`.
    pub fn add_interval(&mut self, y: i32, interval: (i32, i32))
        ensures
            y < 0 ==> final(self)@ == old(self)@,
            y >= 0 ==> ({
                let a = spec_i32_to_usize_clamped(interval.0);
                let b = spec_i32_to_usize_clamped(interval.1);
                let start = if a > b {
                    b
                } else {
                    a
                };
                let end = if a > b {
                    a
                } else {
                    b
                };
                let row = y as u16;
                final(self)@ == old(self)@.insert(row, spec_widen(map_get(old(self)@, row), start, end))
            }),
    {
        if y < 0 {
            return ;
        }
        let row = y as u16;
        let mut start = i32_to_usize_clamped(interval.0);
        let mut end = i32_to_usize_clamped(interval.1);
        if start > end {
            std::mem::swap(&mut start, &mut end);
        }
        self.widen_row(row, start, end);
    }

    /// Hands out all collected rows and leaves the creator empty.
    pub fn dump_intervals(&mut self) -> (m: HashMap<u16, UpdateInterval>)
        ensures
            m@ == old(self)@,
            final(self)@ == Map::<u16, UpdateInterval>::empty(),
    {
        let mut m: HashMap<u16, UpdateInterval> = HashMap::new();
        std::mem::swap(&mut m, &mut self.intervals);
        m
    }
}

impl Default for UpdateIntervalCreator {
    fn default() -> (c: Self)
        ensures
            c@ == Map::<u16, UpdateInterval>::empty(),
    {
        UpdateIntervalCreator { intervals: HashMap::new() }
    }
}

} // verus!
