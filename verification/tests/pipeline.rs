use winwin::arena::Arena;
use winwin::events::{
    keyboard_hook_event, shell_hook_event, should_swallow, HSHELL_WINDOW_ACTIVATED,
    HSHELL_WINDOW_CREATED, HSHELL_WINDOW_DESTROYED,
};
use winwin::keys::{KBDelta, KeyState};
use winwin::pool::{SlotEvent, SlotPool};
use winwin::protocol::{
    decode_client_event, decode_server_command, encode_client_event, encode_server_command,
    ClientEvent, ServerCommand, MAX_FRAME,
};
use winwin::rect::Rect;

fn rect(x: i32, y: i32, w: i32, h: i32) -> Rect {
    Rect { x, y, width: w, height: h }
}

#[test]
fn client_events_survive_the_wire() {
    let events = vec![
        ClientEvent::Keyboard(KBDelta { vk_code: 0x41, key_state: KeyState::Down }),
        ClientEvent::Keyboard(KBDelta { vk_code: 0xA4, key_state: KeyState::Up }),
        ClientEvent::WindowOpen(7, 1),
        ClientEvent::WindowClose(u64::MAX, 0),
        ClientEvent::WindowMonitorChanged(3, 4),
        ClientEvent::WindowFocusChanged(42),
        ClientEvent::MonitorConnected(9),
        ClientEvent::MonitorDisconnected(9),
    ];
    for e in events {
        let frame = encode_client_event(&e);
        assert!(frame.len() <= MAX_FRAME);
        assert_eq!(decode_client_event(frame.as_slice()), Some(e));
    }
}

#[test]
fn server_commands_survive_the_wire() {
    let commands = vec![
        ServerCommand::InterceptKeypress,
        ServerCommand::DoNothing,
        ServerCommand::ChangeWindowRect(rect(-10, 20, 300, 400)),
    ];
    for c in commands {
        let frame = encode_server_command(&c);
        assert!(frame.len() <= MAX_FRAME);
        assert_eq!(decode_server_command(frame.as_slice()), Some(c));
    }
}

#[test]
fn keyboard_frame_layout_is_fixed() {
    let e = ClientEvent::Keyboard(KBDelta { vk_code: 0x41, key_state: KeyState::Down });
    assert_eq!(encode_client_event(&e), vec![0u8, 0x41, 1]);
    let e = ClientEvent::Keyboard(KBDelta { vk_code: 0x41, key_state: KeyState::Up });
    assert_eq!(encode_client_event(&e), vec![0u8, 0x41, 0]);
}

#[test]
fn malformed_frames_are_rejected() {
    assert_eq!(decode_client_event(&[]), None);
    assert_eq!(decode_client_event(&[99]), None);            // unknown tag
    assert_eq!(decode_client_event(&[0, 0x41]), None);       // truncated key event
    assert_eq!(decode_client_event(&[0, 0x41, 2]), None);    // bad key state
    assert_eq!(decode_client_event(&[1, 1, 2, 3]), None);    // truncated open
    assert_eq!(decode_server_command(&[]), None);
    assert_eq!(decode_server_command(&[7]), None);
    assert_eq!(decode_server_command(&[0, 0]), None);        // trailing byte
}

#[test]
fn slot_pool_full_cycle_returns_the_slot() {
    let mut pool = SlotPool::new(2);
    assert_eq!(pool.available(), 2);
    let a = pool.take().unwrap();
    let b = pool.take().unwrap();
    assert_eq!(pool.available(), 0);
    assert!(pool.take().is_none());
    // slot `a` serves one whole exchange
    pool.step(a, SlotEvent::Connected { read_enqueued: true });
    pool.step(a, SlotEvent::ReadDone { reply_enqueued: true });
    pool.step(a, SlotEvent::WriteDone { watch_enqueued: true });
    assert_eq!(pool.available(), 0);
    pool.step(a, SlotEvent::PeerClosed);
    assert_eq!(pool.available(), 1);
    // slot `b` fails early and is released at once
    pool.step(b, SlotEvent::Connected { read_enqueued: false });
    assert_eq!(pool.available(), 2);
    // both slots can be taken again
    assert!(pool.take().is_some());
    assert!(pool.take().is_some());
    assert!(pool.take().is_none());
}

#[test]
fn slot_pool_releases_on_broken_connection() {
    let mut pool = SlotPool::new(1);
    let s = pool.take().unwrap();
    pool.step(s, SlotEvent::Connected { read_enqueued: true });
    // the client vanished mid-exchange
    pool.step(s, SlotEvent::PeerClosed);
    assert_eq!(pool.available(), 1);
    let again = pool.take().unwrap();
    assert_eq!(again, s);
}

#[test]
fn shell_hook_classifies_notifications() {
    let good = rect(0, 0, 100, 100);
    let degenerate = rect(0, 0, 0, 0);
    assert_eq!(
        shell_hook_event(HSHELL_WINDOW_CREATED, 7, 1, &good),
        Some(ClientEvent::WindowOpen(7, 1))
    );
    // windows with degenerate rectangles are not real application windows
    assert_eq!(shell_hook_event(HSHELL_WINDOW_CREATED, 7, 1, &degenerate), None);
    assert_eq!(
        shell_hook_event(HSHELL_WINDOW_DESTROYED, 7, 1, &degenerate),
        Some(ClientEvent::WindowClose(7, 1))
    );
    assert_eq!(
        shell_hook_event(HSHELL_WINDOW_ACTIVATED, 7, 1, &good),
        Some(ClientEvent::WindowFocusChanged(7))
    );
    assert_eq!(shell_hook_event(77, 7, 1, &good), None);
}

#[test]
fn keyboard_hook_classifies_messages() {
    assert_eq!(
        keyboard_hook_event(0x100, 0x41),
        Some(ClientEvent::Keyboard(KBDelta { vk_code: 0x41, key_state: KeyState::Down }))
    );
    assert_eq!(
        keyboard_hook_event(0x105, 0x41),
        Some(ClientEvent::Keyboard(KBDelta { vk_code: 0x41, key_state: KeyState::Up }))
    );
    // virtual key codes are taken modulo one byte, as the wire carries them
    assert_eq!(
        keyboard_hook_event(0x101, 0x141),
        Some(ClientEvent::Keyboard(KBDelta { vk_code: 0x41, key_state: KeyState::Up }))
    );
    assert_eq!(keyboard_hook_event(0x200, 0x41), None);
}

#[test]
fn only_intercept_replies_swallow() {
    assert!(should_swallow(&ServerCommand::InterceptKeypress));
    assert!(!should_swallow(&ServerCommand::DoNothing));
    assert!(!should_swallow(&ServerCommand::ChangeWindowRect(rect(0, 0, 1, 1))));
}

#[test]
fn arena_bumps_aligned_and_resets() {
    let mut arena = Arena::new(1024);
    let a = arena.allocate(10, 8).unwrap();
    assert_eq!(a % 8, 0);
    let b = arena.allocate(16, 8).unwrap();
    assert_eq!(b % 8, 0);
    assert!(b >= a + 10);
    // an oversized request is refused, the arena is untouched
    assert!(arena.allocate(2000, 8).is_none());
    let c = arena.allocate(1, 1).unwrap();
    assert!(c >= b + 16);
    arena.reset();
    let d = arena.allocate(10, 16).unwrap();
    assert_eq!(d, 0);
}

#[test]
fn arena_rewinds_when_everything_is_freed() {
    let mut arena = Arena::new(1024);
    arena.allocate(10, 1).unwrap();
    arena.allocate(20, 1).unwrap();
    arena.deallocate(10);
    // something is still in use: the bump position stays
    let c = arena.allocate(5, 1).unwrap();
    assert_eq!(c, 30);
    arena.deallocate(20);
    arena.deallocate(5);
    // nothing in use: the next allocation starts at the beginning
    let d = arena.allocate(5, 1).unwrap();
    assert_eq!(d, 0);
}
