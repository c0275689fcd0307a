use winwin::cache::{Cache, Layout, Monitor, Window};
use winwin::events::{dispatch_event, Event};
use winwin::layout::{apply_layout, layout_on, save_layout};
use winwin::protocol::ClientEvent;
use winwin::rect::Rect;
use winwin::Context;

fn win(h: u64) -> Window {
    Window { handle: h }
}

fn mon(h: u64) -> Monitor {
    Monitor { handle: h }
}

fn rect(x: i32, y: i32, w: i32, h: i32) -> Rect {
    Rect { x, y, width: w, height: h }
}

#[test]
fn reopening_on_another_monitor_moves_the_window() {
    // Scenario: the same window opens on monitor 1 and then on monitor 2;
    // afterwards it must be present only in monitor 2's queue.
    let mut cache = Cache::new();
    cache.add_window_to_queue(win(7), mon(1));
    cache.add_window_to_queue(win(7), mon(2));
    let on_m1 = cache.windows_on_monitor(mon(1));
    let on_m2 = cache.windows_on_monitor(mon(2));
    assert!(!on_m1.contains(&win(7)));
    assert_eq!(on_m2, vec![win(7)]);
}

#[test]
fn focus_moves_window_and_monitor_to_front() {
    let mut cache = Cache::new();
    cache.add_window_to_queue(win(1), mon(10));
    cache.add_window_to_queue(win(2), mon(10));
    cache.add_window_to_queue(win(3), mon(20));
    // most recently touched monitor is at the front
    assert_eq!(cache.focused_monitor(), mon(20));
    assert_eq!(cache.focused_window(), win(3));
    // focusing an older window brings it and its monitor to the front
    cache.update_window_queue(mon(10), win(1));
    assert_eq!(cache.focused_monitor(), mon(10));
    assert_eq!(cache.focused_window(), win(1));
    assert_eq!(cache.windows_on_monitor(mon(10)), vec![win(1), win(2)]);
}

#[test]
fn close_removes_only_from_named_monitor() {
    let mut cache = Cache::new();
    cache.add_window_to_queue(win(1), mon(10));
    cache.add_window_to_queue(win(2), mon(20));
    cache.remove_window_from_queue(win(1), mon(20));
    // the close event named the wrong monitor: nothing changes there
    assert_eq!(cache.windows_on_monitor(mon(10)), vec![win(1)]);
    cache.remove_window_from_queue(win(1), mon(10));
    assert!(cache.windows_on_monitor(mon(10)).is_empty());
    assert_eq!(cache.windows_on_monitor(mon(20)), vec![win(2)]);
}

#[test]
fn empty_cache_yields_sentinels() {
    let cache = Cache::new();
    assert_eq!(cache.focused_monitor(), mon(0));
    assert_eq!(cache.focused_window(), win(0));
    assert_eq!(cache.monitor_with_window(win(5)), mon(0));
    assert!(cache.windows_on_monitor(mon(5)).is_empty());
    assert!(cache.monitors().is_empty());
    assert!(cache.windows().is_empty());
}

#[test]
fn fill_assigns_windows_by_half_overlap() {
    let mut cache = Cache::new();
    let monitors = vec![
        (mon(1), rect(0, 0, 1000, 800)),
        (mon(2), rect(1000, 0, 1000, 800)),
    ];
    let windows = vec![
        (win(10), rect(100, 100, 200, 200)),   // fully on monitor 1
        (win(11), rect(1200, 100, 200, 200)),  // fully on monitor 2
        (win(12), rect(950, 100, 200, 200)),   // 3/4 of it on monitor 2
        (win(13), rect(5000, 5000, 10, 10)),   // on no monitor
    ];
    cache.fill(&monitors, &windows);
    assert_eq!(cache.windows_on_monitor(mon(1)), vec![win(10)]);
    assert_eq!(cache.windows_on_monitor(mon(2)), vec![win(11), win(12)]);
    assert_eq!(cache.monitor_with_window(win(13)), mon(0));
    assert_eq!(cache.monitors(), vec![mon(1), mon(2)]);
}

#[test]
fn layout_memory_is_last_writer_wins() {
    // Scenario: applying Stack and then Grid leaves Grid remembered.
    let mut cache = Cache::new();
    let no_windows: Vec<Window> = Vec::new();
    let no_rects: Vec<Rect> = Vec::new();
    let bounds = rect(0, 0, 1000, 800);
    apply_layout(&mut cache, mon(1), Layout::Stack, &no_windows, bounds, 96, &no_rects, &no_rects);
    apply_layout(&mut cache, mon(1), Layout::Grid, &no_windows, bounds, 96, &no_rects, &no_rects);
    assert!(matches!(layout_on(&cache, mon(1)), Layout::Grid));
    // other monitors stay at the default
    assert!(matches!(layout_on(&cache, mon(2)), Layout::Off));
}

#[test]
fn save_layout_replaces_earlier_memory() {
    let mut cache = Cache::new();
    save_layout(&mut cache, mon(1), Layout::Full);
    save_layout(&mut cache, mon(2), Layout::Stack);
    save_layout(&mut cache, mon(1), Layout::Off);
    assert!(matches!(layout_on(&cache, mon(1)), Layout::Off));
    assert!(matches!(layout_on(&cache, mon(2)), Layout::Stack));
}

#[test]
fn dispatch_open_then_close_round_trip() {
    let mut ctx = Context::new();
    let r = dispatch_event(&mut ctx, ClientEvent::WindowOpen(7, 1));
    assert!(matches!(r, Some(Event::WindowOpen(w, m)) if w == win(7) && m == mon(1)));
    assert_eq!(ctx.cache.windows_on_monitor(mon(1)), vec![win(7)]);
    let r = dispatch_event(&mut ctx, ClientEvent::WindowClose(7, 1));
    assert!(matches!(r, Some(Event::WindowClose(w, m)) if w == win(7) && m == mon(1)));
    assert!(ctx.cache.windows_on_monitor(mon(1)).is_empty());
}

#[test]
fn dispatch_focus_of_unknown_window_changes_nothing() {
    let mut ctx = Context::new();
    dispatch_event(&mut ctx, ClientEvent::WindowOpen(7, 1));
    let r = dispatch_event(&mut ctx, ClientEvent::WindowFocusChanged(99));
    assert!(r.is_none());
    assert_eq!(ctx.cache.focused_window(), win(7));
    assert_eq!(ctx.cache.monitors(), vec![mon(1)]);
}

#[test]
fn dispatch_focus_of_known_window_moves_it_to_front() {
    let mut ctx = Context::new();
    dispatch_event(&mut ctx, ClientEvent::WindowOpen(7, 1));
    dispatch_event(&mut ctx, ClientEvent::WindowOpen(8, 1));
    assert_eq!(ctx.cache.focused_window(), win(8));
    let r = dispatch_event(&mut ctx, ClientEvent::WindowFocusChanged(7));
    assert!(r.is_none());
    assert_eq!(ctx.cache.focused_window(), win(7));
}

#[test]
fn dispatch_monitor_connected_adds_empty_queue_once() {
    let mut ctx = Context::new();
    assert!(dispatch_event(&mut ctx, ClientEvent::MonitorConnected(3)).is_none());
    assert!(dispatch_event(&mut ctx, ClientEvent::MonitorConnected(3)).is_none());
    assert_eq!(ctx.cache.monitors(), vec![mon(3)]);
    assert!(ctx.cache.windows_on_monitor(mon(3)).is_empty());
    assert!(dispatch_event(&mut ctx, ClientEvent::MonitorDisconnected(3)).is_none());
}
