use winwin::cache::{Cache, Layout, Monitor, Window};
use winwin::layout::{
    apply_layout, ceil_sqrt, find_rect, get_adjacent_window, move_focus, send, swap,
    swap_adjacent, transform_rects_for_grid, transform_rects_for_stack, Direction, Placement,
};
use winwin::rect::{inset_adjust, is_real_rect, mostly_on, Point, Rect};

fn rect(x: i32, y: i32, w: i32, h: i32) -> Rect {
    Rect { x, y, width: w, height: h }
}

fn win(h: u64) -> Window {
    Window { handle: h }
}

fn mon(h: u64) -> Monitor {
    Monitor { handle: h }
}

/// Outer and client rectangles equal: zero insets.
fn no_insets(n: usize) -> Vec<Rect> {
    let mut v = Vec::new();
    for _ in 0..n {
        v.push(rect(0, 0, 100, 100));
    }
    v
}

#[test]
fn rect_area_and_intersection() {
    let a = rect(0, 0, 10, 10);
    let b = rect(5, 5, 10, 10);
    assert_eq!(a.area(), 100);
    let i = a.intersection(&b);
    assert_eq!(i, rect(5, 5, 5, 5));
    // disjoint interiors give the empty sentinel
    let c = rect(10, 0, 5, 5);
    assert_eq!(a.intersection(&c), rect(0, 0, 0, 0));
}

#[test]
fn rect_center_and_scale() {
    let r = rect(10, 20, 30, 50);
    let c = r.center();
    assert_eq!((c.x, c.y), (25, 45));
    // doubling the DPI doubles every field, halves round away from zero
    let s = rect(3, -3, 5, 7).scale(192, 96);
    assert_eq!(s, rect(6, -6, 10, 14));
    let back = rect(6, -6, 10, 14).scale(96, 192);
    assert_eq!(back, rect(3, -3, 5, 7));
}

#[test]
fn point_distance_is_euclidean() {
    let a = Point { x: 0, y: 0 };
    let b = Point { x: 3, y: 4 };
    assert_eq!(a.distance(b), 5);
    let c = Point { x: 1, y: 1 };
    assert_eq!(a.distance(c), 1);  // sqrt(2) rounds down
}

#[test]
fn mostly_on_uses_half_of_own_area() {
    let w = rect(0, 0, 10, 10);
    assert!(mostly_on(&w, &rect(0, 0, 10, 5)));    // exactly half
    assert!(!mostly_on(&w, &rect(0, 0, 10, 4)));   // less than half
    assert!(mostly_on(&w, &rect(0, 0, 100, 100))); // fully inside
}

#[test]
fn degenerate_window_rects_are_rejected() {
    assert!(is_real_rect(&rect(0, 0, 100, 100)));
    assert!(!is_real_rect(&rect(0, 0, 0, 100)));
    assert!(!is_real_rect(&rect(i32::MAX, 0, 100, 100)));
    assert!(!is_real_rect(&rect(0, i32::MIN, 100, 100)));
}

#[test]
fn inset_adjust_grows_by_borders() {
    let outer = rect(0, 0, 100, 100);
    let client = rect(0, 0, 90, 80);
    // border = (100-90)/2 = 5, title = (100-80) - 5 = 15
    let adjusted = inset_adjust(&rect(10, 10, 50, 50), &outer, &client);
    assert_eq!(adjusted, rect(5, -5, 60, 70));
}

#[test]
fn ceil_sqrt_values() {
    assert_eq!(ceil_sqrt(0), 0);
    assert_eq!(ceil_sqrt(1), 1);
    assert_eq!(ceil_sqrt(2), 2);
    assert_eq!(ceil_sqrt(4), 2);
    assert_eq!(ceil_sqrt(5), 3);
    assert_eq!(ceil_sqrt(9), 3);
    assert_eq!(ceil_sqrt(10), 4);
}

#[test]
fn stack_splits_left_half_and_bands() {
    let bounds = rect(0, 0, 1000, 800);
    let insets = no_insets(3);
    let rects = transform_rects_for_stack(bounds, 96, &insets, &insets);
    assert_eq!(rects.len(), 3);
    assert_eq!(rects[0], rect(0, 0, 500, 800));
    assert_eq!(rects[1], rect(500, 0, 500, 400));
    assert_eq!(rects[2], rect(500, 400, 500, 400));
    // the cells tile the monitor: no two overlap
    for i in 0..3 {
        for j in (i + 1)..3 {
            let a = rects[i];
            let b = rects[j];
            let overlap = a.x < b.x + b.width && b.x < a.x + a.width && a.y < b.y + b.height
                && b.y < a.y + a.height;
            assert!(!overlap);
        }
    }
}

#[test]
fn stack_scales_with_dpi() {
    let bounds = rect(0, 0, 1000, 800);
    let insets = no_insets(2);
    let rects = transform_rects_for_stack(bounds, 192, &insets, &insets);
    // logical size is 500x400; the two cells scale back to device pixels
    assert_eq!(rects[0], rect(0, 0, 500, 800));
    assert_eq!(rects[1], rect(500, 0, 500, 800));
}

#[test]
fn grid_places_four_windows_in_two_rows() {
    let bounds = rect(0, 0, 1000, 800);
    let insets = no_insets(4);
    let rects = transform_rects_for_grid(bounds, 96, &insets, &insets);
    assert_eq!(rects.len(), 4);
    assert_eq!(rects[0], rect(0, 0, 500, 400));
    assert_eq!(rects[1], rect(500, 0, 500, 400));
    assert_eq!(rects[2], rect(0, 400, 500, 400));
    assert_eq!(rects[3], rect(500, 400, 500, 400));
}

#[test]
fn grid_odd_count_spans_last_row() {
    let bounds = rect(0, 0, 1000, 800);
    let insets = no_insets(3);
    let rects = transform_rects_for_grid(bounds, 96, &insets, &insets);
    assert_eq!(rects[0], rect(0, 0, 500, 400));
    assert_eq!(rects[1], rect(500, 0, 500, 400));
    // odd window count: the last cell spans the full row width
    assert_eq!(rects[2], rect(0, 400, 1000, 400));
}

#[test]
fn apply_layout_full_maximizes_every_window() {
    let mut cache = Cache::new();
    let windows = vec![win(1), win(2)];
    let insets = no_insets(2);
    let out = apply_layout(
        &mut cache,
        mon(1),
        Layout::Full,
        &windows,
        rect(0, 0, 1000, 800),
        96,
        &insets,
        &insets,
    );
    assert_eq!(out, vec![Placement::Maximize(win(1)), Placement::Maximize(win(2))]);
}

#[test]
fn apply_layout_stack_moves_windows() {
    let mut cache = Cache::new();
    let windows = vec![win(1), win(2)];
    let insets = no_insets(2);
    let out = apply_layout(
        &mut cache,
        mon(1),
        Layout::Stack,
        &windows,
        rect(0, 0, 1000, 800),
        96,
        &insets,
        &insets,
    );
    assert_eq!(
        out,
        vec![
            Placement::Move(win(1), rect(0, 0, 500, 800)),
            Placement::Move(win(2), rect(500, 0, 500, 800)),
        ]
    );
}

#[test]
fn apply_layout_single_window_maximizes() {
    let mut cache = Cache::new();
    let windows = vec![win(1)];
    let insets = no_insets(1);
    let out = apply_layout(
        &mut cache,
        mon(1),
        Layout::Stack,
        &windows,
        rect(0, 0, 1000, 800),
        96,
        &insets,
        &insets,
    );
    assert_eq!(out, vec![Placement::Maximize(win(1))]);
}

#[test]
fn find_rect_picks_nearest_in_direction() {
    let origin = rect(0, 0, 10, 10);
    let rects = vec![origin, rect(30, 0, 10, 10), rect(15, 0, 10, 10)];
    assert_eq!(find_rect(origin, &rects, Direction::Right), 2);
    // nothing to the left: falls back to the origin's own position
    assert_eq!(find_rect(origin, &rects, Direction::Left), 0);
}

#[test]
fn find_rect_prefers_overlapping_bigger_rect() {
    let origin = rect(100, 0, 10, 10);
    // already reaches past the origin to the left and overlaps it
    let rects = vec![rect(0, 0, 300, 10), origin];
    assert_eq!(find_rect(origin, &rects, Direction::Left), 0);
}

#[test]
fn adjacent_window_follows_queue_rects() {
    let mut cache = Cache::new();
    cache.add_window_to_queue(win(2), mon(1));
    cache.add_window_to_queue(win(1), mon(1));
    // queue order: [1, 2]; window 1 sits left of window 2
    let rects = vec![rect(0, 0, 10, 10), rect(20, 0, 10, 10)];
    let w = get_adjacent_window(&cache, win(1), rect(0, 0, 10, 10), &rects, Direction::Right);
    assert_eq!(w, win(2));
    let f = move_focus(&cache, Direction::Right, rect(0, 0, 10, 10), &rects);
    assert_eq!(f, win(2));
}

#[test]
fn swap_exchanges_rectangles() {
    let out = swap(win(1), win(2), rect(0, 0, 10, 10), rect(20, 0, 10, 10));
    assert_eq!(
        out,
        vec![
            Placement::Move(win(1), rect(20, 0, 10, 10)),
            Placement::Move(win(2), rect(0, 0, 10, 10)),
        ]
    );
}

#[test]
fn swap_adjacent_targets_the_neighbour() {
    let mut cache = Cache::new();
    cache.add_window_to_queue(win(2), mon(1));
    cache.add_window_to_queue(win(1), mon(1));
    let rects = vec![rect(0, 0, 10, 10), rect(20, 0, 10, 10)];
    let out = swap_adjacent(&cache, win(1), rect(0, 0, 10, 10), &rects, Direction::Right);
    assert_eq!(
        out,
        vec![
            Placement::Move(win(1), rect(20, 0, 10, 10)),
            Placement::Move(win(2), rect(0, 0, 10, 10)),
        ]
    );
}

#[test]
fn send_arranges_target_monitor_under_stack() {
    let mut cache = Cache::new();
    cache.add_window_to_queue(win(1), mon(1));
    cache.add_window_to_queue(win(9), mon(2));
    winwin::layout::save_layout(&mut cache, mon(2), Layout::Stack);
    let insets = no_insets(2);
    let (placements, origin) = send(
        &cache,
        win(1),
        mon(2),
        rect(0, 0, 1000, 800),
        192,
        &insets,
        &insets,
    );
    assert_eq!(origin, mon(1));
    assert_eq!(
        placements,
        vec![
            Placement::Move(win(9), rect(0, 0, 500, 800)),
            Placement::Move(win(1), rect(500, 0, 500, 800)),
        ]
    );
}

#[test]
fn send_with_layout_off_moves_nothing() {
    let mut cache = Cache::new();
    cache.add_window_to_queue(win(1), mon(1));
    let insets = no_insets(1);
    let (placements, origin) = send(
        &cache,
        win(1),
        mon(2),
        rect(0, 0, 1000, 800),
        96,
        &insets,
        &insets,
    );
    assert_eq!(origin, mon(1));
    assert!(placements.is_empty());
}
