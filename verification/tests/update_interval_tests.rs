use std::collections::HashMap;
use termdraw::geometry::Rect;
use termdraw::update_interval::{UpdateInterval, UpdateIntervalCreator, UpdateIntervalHandler, UpdateIntervalType};

fn iv(a: usize, b: usize, t: UpdateIntervalType) -> UpdateInterval {
    UpdateInterval { interval: (a, b), iv_type: t }
}

#[test]
fn merge_intervals_joins_overlapping_and_touching_runs() {
    let mut h = UpdateIntervalHandler::new(10, 10);
    let mut m: HashMap<u16, Vec<UpdateInterval>> = HashMap::new();
    m.insert(0, vec![iv(0, 3, UpdateIntervalType::Optimized), iv(3, 5, UpdateIntervalType::Forced)]);
    m.insert(1, vec![iv(2, 4, UpdateIntervalType::Optimized)]);
    h.merge_redraw_regions(m);
    h.merge_intervals();
    assert_eq!(
        h.intervals(),
        vec![iv(0, 5, UpdateIntervalType::Forced), iv(12, 14, UpdateIntervalType::Optimized)]
    );
}

#[test]
fn merge_intervals_keeps_separated_intervals_sorted() {
    let mut h = UpdateIntervalHandler::new(10, 10);
    let mut m: HashMap<u16, Vec<UpdateInterval>> = HashMap::new();
    m.insert(5, vec![iv(1, 2, UpdateIntervalType::Optimized)]);
    m.insert(2, vec![iv(7, 9, UpdateIntervalType::Optimized), iv(0, 1, UpdateIntervalType::Optimized)]);
    h.merge_redraw_regions(m);
    h.merge_intervals();
    assert_eq!(
        h.intervals(),
        vec![
            iv(20, 21, UpdateIntervalType::Optimized),
            iv(27, 29, UpdateIntervalType::Optimized),
            iv(51, 52, UpdateIntervalType::Optimized)
        ]
    );
}

#[test]
fn merge_intervals_nested_interval_is_absorbed() {
    let mut h = UpdateIntervalHandler::new(100, 1);
    let mut m: HashMap<u16, Vec<UpdateInterval>> = HashMap::new();
    m.insert(0, vec![iv(10, 50, UpdateIntervalType::Optimized), iv(20, 30, UpdateIntervalType::Forced)]);
    h.merge_redraw_regions(m);
    h.merge_intervals();
    assert_eq!(h.intervals(), vec![iv(10, 50, UpdateIntervalType::Forced)]);
}

#[test]
fn merge_redraw_regions_clips_to_the_screen() {
    let mut h = UpdateIntervalHandler::new(10, 3);
    let mut m: HashMap<u16, Vec<UpdateInterval>> = HashMap::new();
    m.insert(1, vec![iv(8, 40, UpdateIntervalType::Optimized)]);
    m.insert(3, vec![iv(0, 4, UpdateIntervalType::Optimized)]);
    m.insert(0, vec![iv(12, 20, UpdateIntervalType::Optimized)]);
    h.merge_redraw_regions(m);
    assert_eq!(h.intervals(), vec![iv(18, 20, UpdateIntervalType::Optimized)]);
}

#[test]
fn invalidate_entire_screen_adds_one_forced_interval() {
    let mut h = UpdateIntervalHandler::new(80, 24);
    h.invalidate_entire_screen();
    assert_eq!(h.intervals(), vec![iv(0, 1920, UpdateIntervalType::Forced)]);
    assert_eq!(h.width(), 80);
    assert_eq!(h.height(), 24);
}

#[test]
fn expand_regions_grows_ends_saturating() {
    let mut h = UpdateIntervalHandler::new(10, 10);
    let mut m: HashMap<u16, Vec<UpdateInterval>> = HashMap::new();
    m.insert(0, vec![iv(2, 4, UpdateIntervalType::Optimized)]);
    h.merge_redraw_regions(m);
    h.expand_regions(3);
    assert_eq!(h.intervals(), vec![iv(2, 7, UpdateIntervalType::Optimized)]);
    h.expand_regions(usize::MAX);
    assert_eq!(h.intervals(), vec![iv(2, usize::MAX, UpdateIntervalType::Optimized)]);
}

#[test]
fn dump_intervals_empties_the_handler() {
    let mut h = UpdateIntervalHandler::new(4, 4);
    h.invalidate_entire_screen();
    let v = h.dump_intervals();
    assert_eq!(v, vec![iv(0, 16, UpdateIntervalType::Forced)]);
    assert!(h.intervals().is_empty());
}

#[test]
fn creator_add_interval_orders_clamps_and_widens() {
    let mut c = UpdateIntervalCreator::new();
    c.add_interval(2, (5, -3));
    c.add_interval(2, (7, 9));
    c.add_interval(-1, (0, 4));
    let m = c.dump_intervals();
    assert_eq!(m.len(), 1);
    assert_eq!(m.get(&2), Some(&iv(0, 9, UpdateIntervalType::Optimized)));
    assert!(c.dump_intervals().is_empty());
}

#[test]
fn creator_register_redraw_region_covers_rows_inclusively() {
    let mut c = UpdateIntervalCreator::new();
    c.register_redraw_region(Rect::from_coords(4, 3, 1, 1));
    let m = c.dump_intervals();
    assert_eq!(m.len(), 3);
    for y in 1u16..=3 {
        assert_eq!(m.get(&y), Some(&iv(1, 5, UpdateIntervalType::Optimized)));
    }
}

#[test]
fn merge_creator_flattens_rows() {
    let mut c = UpdateIntervalCreator::new();
    c.add_interval(1, (2, 4));
    c.add_interval(9, (0, 4));
    let mut h = UpdateIntervalHandler::new(10, 5);
    h.merge_creator(c);
    assert_eq!(h.intervals(), vec![iv(12, 14, UpdateIntervalType::Optimized)]);
}

#[test]
fn merge_intervals_twice_equals_once() {
    let mut h = UpdateIntervalHandler::new(10, 10);
    let mut m: HashMap<u16, Vec<UpdateInterval>> = HashMap::new();
    m.insert(0, vec![iv(0, 3, UpdateIntervalType::Optimized), iv(2, 6, UpdateIntervalType::Forced)]);
    m.insert(3, vec![iv(4, 8, UpdateIntervalType::Optimized)]);
    h.merge_redraw_regions(m);
    h.merge_intervals();
    let once = h.intervals();
    h.merge_intervals();
    assert_eq!(h.intervals(), once);
    assert_eq!(
        once,
        vec![iv(0, 6, UpdateIntervalType::Forced), iv(34, 38, UpdateIntervalType::Optimized)]
    );
}

#[test]
fn invalidate_entire_screen_keeps_earlier_intervals() {
    let mut h = UpdateIntervalHandler::new(80, 24);
    let mut m: HashMap<u16, Vec<UpdateInterval>> = HashMap::new();
    m.insert(0, vec![iv(1, 3, UpdateIntervalType::Optimized)]);
    h.merge_redraw_regions(m);
    h.invalidate_entire_screen();
    assert_eq!(
        h.dump_intervals(),
        vec![iv(1, 3, UpdateIntervalType::Optimized), iv(0, 1920, UpdateIntervalType::Forced)]
    );
}

#[test]
fn merge_redraw_regions_clamps_and_drops_rows() {
    let mut h = UpdateIntervalHandler::new(4, 2);
    let mut m: HashMap<u16, Vec<UpdateInterval>> = HashMap::new();
    m.insert(1, vec![iv(1, 3, UpdateIntervalType::Forced), iv(5, 9, UpdateIntervalType::Optimized)]);
    m.insert(2, vec![iv(0, 1, UpdateIntervalType::Optimized)]);
    h.merge_redraw_regions(m);
    assert_eq!(h.dump_intervals(), vec![iv(5, 7, UpdateIntervalType::Forced)]);
}

#[test]
fn merge_creator_and_merge_redraw_regions_agree() {
    let mut c = UpdateIntervalCreator::new();
    c.add_interval(1, (2, 5));
    c.add_interval(0, (8, 20));
    c.add_interval(5, (0, 3));
    let mut h1 = UpdateIntervalHandler::new(10, 3);
    h1.merge_creator(c.clone());
    let mut m: HashMap<u16, Vec<UpdateInterval>> = HashMap::new();
    for (y, v) in c.clone().dump_intervals() {
        m.insert(y, vec![v]);
    }
    let mut h2 = UpdateIntervalHandler::new(10, 3);
    h2.merge_redraw_regions(m);
    let mut a = h1.dump_intervals();
    let mut b = h2.dump_intervals();
    a.sort_by_key(|v| v.interval);
    b.sort_by_key(|v| v.interval);
    assert_eq!(a, vec![iv(8, 10, UpdateIntervalType::Optimized), iv(12, 15, UpdateIntervalType::Optimized)]);
    assert_eq!(a, b);
}
