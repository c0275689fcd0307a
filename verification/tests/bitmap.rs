use winwin::keys::{KBDelta, Key, KeyMap, KeyState};
use winwin::events::{dispatch_event, reply_for, Event};
use winwin::protocol::{ClientEvent, ServerCommand};
use winwin::Context;

fn down(vk: u8) -> KBDelta {
    KBDelta { vk_code: vk, key_state: KeyState::Down }
}

fn up(vk: u8) -> KBDelta {
    KBDelta { vk_code: vk, key_state: KeyState::Up }
}

#[test]
fn key_down_then_up_is_absent() {
    let mut km = KeyMap::new();
    km.update(down(0x41));
    km.update(up(0x41));
    let inp = km.input();
    assert!(!inp.pressed_no_intercept(Key::from_vk_code(0x41)));
}

#[test]
fn key_down_twice_is_present_once() {
    let mut km = KeyMap::new();
    km.update(down(0x41));
    km.update(down(0x41));
    let inp = km.input();
    assert!(inp.pressed_no_intercept(Key::from_vk_code(0x41)));
    // pressing another key and releasing it leaves 0x41 down
    km.update(down(0x42));
    km.update(up(0x42));
    let inp2 = km.input();
    assert!(inp2.pressed_no_intercept(Key::from_vk_code(0x41)));
    assert!(!inp2.pressed_no_intercept(Key::from_vk_code(0x42)));
}

#[test]
fn bitmap_tracks_every_word() {
    let mut km = KeyMap::new();
    // one key in each 32-bit word of the bitmap
    for w in 0..8u16 {
        km.update(down((w * 32 + 3) as u8));
    }
    let inp = km.input();
    for w in 0..8u16 {
        assert!(inp.pressed_no_intercept(Key::from_vk_code((w * 32 + 3) as u8)));
        assert!(!inp.pressed_no_intercept(Key::from_vk_code((w * 32 + 4) as u8)));
    }
}

#[test]
fn all_pressed_is_subset_and_order_independent() {
    let mut km = KeyMap::new();
    km.update(down(0xA4));
    km.update(down(0x4C));
    km.update(down(0x10));
    let inp = km.input();
    let fwd = [Key::from_vk_code(0xA4), Key::from_vk_code(0x4C)];
    let rev = [Key::from_vk_code(0x4C), Key::from_vk_code(0xA4)];
    assert!(inp.all_pressed_no_intercept(&fwd));
    assert!(inp.all_pressed_no_intercept(&rev));
    // a strict subset of the down set still matches: subset, not equality
    let missing = [Key::from_vk_code(0xA4), Key::from_vk_code(0x5A)];
    assert!(!inp.all_pressed_no_intercept(&missing));
}

#[test]
fn any_pressed_finds_one_match() {
    let mut km = KeyMap::new();
    km.update(down(0x20));
    let inp = km.input();
    assert!(inp.any_pressed_no_intercept(&[Key::from_vk_code(0x41), Key::from_vk_code(0x20)]));
    assert!(!inp.any_pressed_no_intercept(&[Key::from_vk_code(0x41), Key::from_vk_code(0x42)]));
}

#[test]
fn intercept_intent_is_monotone() {
    let mut km = KeyMap::new();
    km.update(down(0x41));
    let mut inp = km.input();
    assert!(!inp.intercepts());
    // a negative query records nothing
    assert!(!inp.pressed(Key::from_vk_code(0x42)));
    assert!(!inp.intercepts());
    // a positive query records intent
    assert!(inp.pressed(Key::from_vk_code(0x41)));
    assert!(inp.intercepts());
    // and a later negative query does not clear it
    assert!(!inp.pressed(Key::from_vk_code(0x42)));
    assert!(inp.intercepts());
}

#[test]
fn plain_key_without_binding_is_not_intercepted() {
    let mut ctx = Context::new();
    let r = dispatch_event(&mut ctx, ClientEvent::Keyboard(down(0x41)));
    match r {
        Some(Event::KeyPress(inp)) => {
            // no binding matched, nothing queried the snapshot positively
            assert!(matches!(reply_for(&inp), ServerCommand::DoNothing));
        }
        _ => panic!("a key event must surface as a key press"),
    }
}

#[test]
fn matching_binding_is_intercepted() {
    let mut ctx = Context::new();
    let modifier = 0xA4u8;
    let key_l = 0x4Cu8;
    let r1 = dispatch_event(&mut ctx, ClientEvent::Keyboard(down(modifier)));
    match r1 {
        Some(Event::KeyPress(inp)) => {
            assert!(matches!(reply_for(&inp), ServerCommand::DoNothing));
        }
        _ => panic!("a key event must surface as a key press"),
    }
    let r2 = dispatch_event(&mut ctx, ClientEvent::Keyboard(down(key_l)));
    match r2 {
        Some(Event::KeyPress(mut inp)) => {
            let binding = [Key::from_vk_code(modifier), Key::from_vk_code(key_l)];
            assert!(inp.all_pressed(&binding));
            assert!(matches!(reply_for(&inp), ServerCommand::InterceptKeypress));
        }
        _ => panic!("a key event must surface as a key press"),
    }
}
