//! The event queue's decision core and the hook module's decision core.
//!
//! On the server side, [`dispatch_event`] is what the consumer thread does
//! with each wire event it pulls: it resets the per-event arena, mutates the
//! cache synchronously, and either hands an event to the caller or handles
//! the wire event internally. For a key event the returned [`Input`]
//! snapshot accumulates intercept intent while the event is live;
//! [`reply_for`] turns that intent into the one reply the exchange owes, and
//! the default — when nothing recorded intent — is to not intercept, so a
//! stuck or indifferent consumer can never swallow input.
//!
//! On the hook side, [`shell_hook_event`] and [`keyboard_hook_event`]
//! classify the raw OS hook arguments into wire events, and
//! [`should_swallow`] reads the server's reply.

use vstd::prelude::*;

verus! {

use crate::cache::{
    Cache, Monitor, Window, mon_index, spec_note_close, spec_note_focus, win_index,
};
use crate::keys::{Input, KBDelta, key_down, spec_apply_delta, spec_key_state_of_wparam};
use crate::protocol::{ClientEvent, ServerCommand};
use crate::rect::{Rect, spec_real_rect};
use crate::Context;

/// One event handed to the consumer's application logic.
#[derive(Debug)]
pub enum Event {
    /// A key went down or up; the snapshot holds the keys now down.
    KeyPress(Input),
    /// A window opened on a monitor; the cache already reflects it.
    WindowOpen(Window, Monitor),
    /// A window on a monitor closed; the cache already reflects it.
    WindowClose(Window, Monitor),
}

/// The cache model `dispatch_event` promises after one wire event.
pub open spec fn spec_dispatch_queues(
    qs: Seq<(Monitor, Seq<Window>)>,
    event: ClientEvent,
) -> Seq<(Monitor, Seq<Window>)> {
    match event {
        ClientEvent::Keyboard(_) => qs,
        ClientEvent::WindowOpen(w, m) => spec_note_focus(qs, Window { handle: w }, Monitor { handle: m }),
        ClientEvent::WindowClose(w, m) => spec_note_close(qs, Window { handle: w }, Monitor { handle: m }),
        ClientEvent::WindowMonitorChanged(w, m) => spec_note_focus(
            qs,
            Window { handle: w },
            Monitor { handle: m },
        ),
        ClientEvent::WindowFocusChanged(w) => if win_index(qs, Window { handle: w }) >= 0 {
            spec_note_focus(qs, Window { handle: w }, qs[win_index(qs, Window { handle: w })].0)
        } else {
            qs
        },
        ClientEvent::MonitorConnected(m) => if mon_index(qs, Monitor { handle: m }) >= 0 {
            qs
        } else {
            qs.push((Monitor { handle: m }, Seq::empty()))
        },
        ClientEvent::MonitorDisconnected(_) => qs,
    }
}

/// Consume one wire event: reset the per-event arena, mutate the cache
/// synchronously, and return the event the application should see — `None`
/// for the wire events the queue absorbs itself (focus moves, monitor
/// changes). Key events update the key bitmap and carry a fresh snapshot.
pub fn dispatch_event(ctx: &mut Context, event: ClientEvent) -> (r: Option<Event>)
    requires
        old(ctx).cache.wf(),
    ensures
        final(ctx).cache.wf(),
        final(ctx).cache.queues_view() == spec_dispatch_queues(
            old(ctx).cache.queues_view(),
            event,
        ),
        final(ctx).cache.layouts_view() == old(ctx).cache.layouts_view(),
        final(ctx).arena.spec_end() == 0 && final(ctx).arena.spec_used() == 0,
        match event {
            ClientEvent::Keyboard(d) => {
                &&& final(ctx).cache.keymap_view() == spec_apply_delta(
                    old(ctx).cache.keymap_view(),
                    d,
                )
                &&& r matches Some(ev) && (ev matches Event::KeyPress(inp) && !inp.intent()
                    && forall|k: u8|
                        inp.keys_view().contains(crate::keys::Key { vk: k }) == key_down(
                            final(ctx).cache.keymap_view(),
                            k,
                        ))
            },
            ClientEvent::WindowOpen(w, m) => ({
                &&& r matches Some(ev)
                &&& (r.unwrap() matches Event::WindowOpen(win, mon) && win == (Window {
                    handle: w,
                }) && mon == (Monitor { handle: m }))
                &&& final(ctx).cache.keymap_view() == old(ctx).cache.keymap_view()
            }),
            ClientEvent::WindowClose(w, m) => ({
                &&& r matches Some(ev)
                &&& (r.unwrap() matches Event::WindowClose(win, mon) && win == (Window {
                    handle: w,
                }) && mon == (Monitor { handle: m }))
                &&& final(ctx).cache.keymap_view() == old(ctx).cache.keymap_view()
            }),
            _ => r is None && final(ctx).cache.keymap_view() == old(ctx).cache.keymap_view(),
        },
{
    ctx.arena.reset();
    match event {
        ClientEvent::Keyboard(delta) => {
            let inp = ctx.cache.update_input(delta);
            Some(Event::KeyPress(inp))
        },
        ClientEvent::WindowOpen(w, m) => {
            let win = Window { handle: w };
            let mon = Monitor { handle: m };
            ctx.cache.add_window_to_queue(win, mon);
            Some(Event::WindowOpen(win, mon))
        },
        ClientEvent::WindowClose(w, m) => {
            let win = Window { handle: w };
            let mon = Monitor { handle: m };
            ctx.cache.remove_window_from_queue(win, mon);
            Some(Event::WindowClose(win, mon))
        },
        ClientEvent::WindowMonitorChanged(w, m) => {
            ctx.cache.update_window_queue(Monitor { handle: m }, Window { handle: w });
            None
        },
        ClientEvent::WindowFocusChanged(w) => {
            let win = Window { handle: w };
            let ghost qs = ctx.cache.queues_view();
            let mon = ctx.cache.monitor_with_window(win);
            proof {
                crate::cache::lemma_win_index_props(qs, win);
                let wi = win_index(qs, win);
                if wi >= 0 {
                    crate::cache::lemma_mon_index_converse(qs, qs[wi].0, wi);
                } else {
                    crate::cache::lemma_mon_index_props(qs, mon);
                }
            }
            let wins = ctx.cache.windows_on_monitor(mon);
            let mut known = false;
            let mut j: usize = 0;
            while j < wins.len()
                invariant
                    j <= wins@.len(),
                    known <==> exists|k: int| 0 <= k < j && wins@[k] == win,
                decreases wins@.len() - j,
            {
                if wins[j].handle == win.handle {
                    known = true;
                    proof {
                        assert(wins@[j as int] == win);
                    }
                }
                j = j + 1;
            }
            proof {
                let wi = win_index(qs, win);
                if wi >= 0 {
                    assert(wins@ == qs[wi].1);
                    assert(qs[wi].1.contains(win));
                    assert(known);
                } else {
                    if known {
                        let k = choose|k: int| 0 <= k < wins@.len() && wins@[k] == win;
                        let mi = mon_index(qs, mon);
                        assert(mi >= 0 && qs[mi].1.contains(win));
                    }
                }
            }
            if known {
                ctx.cache.update_window_queue(mon, win);
            }
            None
        },
        ClientEvent::MonitorConnected(m) => {
            ctx.cache.add_window_queue(Monitor { handle: m });
            None
        },
        ClientEvent::MonitorDisconnected(_) => None,
    }
}

/// The one reply an exchange owes for a key event: intercept exactly when
/// intent was recorded while the event was live; the default is to let the
/// keystroke through.
pub fn reply_for(inp: &Input) -> (c: ServerCommand)
    ensures
        c == if inp.intent() {
            ServerCommand::InterceptKeypress
        } else {
            ServerCommand::DoNothing
        },
{
    if inp.intercepts() {
        ServerCommand::InterceptKeypress
    } else {
        ServerCommand::DoNothing
    }
}

/// OS shell-hook code: a top-level window was created.
pub const HSHELL_WINDOW_CREATED: u32 = 1;

/// OS shell-hook code: a top-level window was destroyed.
pub const HSHELL_WINDOW_DESTROYED: u32 = 2;

/// OS shell-hook code: a top-level window was activated.
pub const HSHELL_WINDOW_ACTIVATED: u32 = 4;

/// The wire event a shell-hook notification produces, if any: creation and
/// activation count only for real application windows (judged by their
/// rectangle), destruction always counts.
pub open spec fn spec_shell_hook_event(
    code: u32,
    window: u64,
    monitor: u64,
    window_rect: Rect,
) -> Option<ClientEvent> {
    if code == HSHELL_WINDOW_CREATED && spec_real_rect(window_rect) {
        Some(ClientEvent::WindowOpen(window, monitor))
    } else if code == HSHELL_WINDOW_DESTROYED {
        Some(ClientEvent::WindowClose(window, monitor))
    } else if code == HSHELL_WINDOW_ACTIVATED && spec_real_rect(window_rect) {
        Some(ClientEvent::WindowFocusChanged(window))
    } else {
        None
    }
}

/// Classify one shell-hook notification into the wire event to send, or
/// `None` when nothing should be sent.
pub fn shell_hook_event(code: u32, window: u64, monitor: u64, window_rect: &Rect) -> (r: Option<
    ClientEvent,
>)
    ensures
        r == spec_shell_hook_event(code, window, monitor, *window_rect),
{
    if code == HSHELL_WINDOW_CREATED && crate::rect::is_real_rect(window_rect) {
        Some(ClientEvent::WindowOpen(window, monitor))
    } else if code == HSHELL_WINDOW_DESTROYED {
        Some(ClientEvent::WindowClose(window, monitor))
    } else if code == HSHELL_WINDOW_ACTIVATED && crate::rect::is_real_rect(window_rect) {
        Some(ClientEvent::WindowFocusChanged(window))
    } else {
        None
    }
}

/// The wire event a low-level keyboard notification produces, if any: the
/// message code gives the direction, the low byte of the virtual key code
/// names the key.
pub open spec fn spec_keyboard_hook_event(wparam: u32, vk_code: u32) -> Option<ClientEvent> {
    match spec_key_state_of_wparam(wparam) {
        Some(st) => Some(
            ClientEvent::Keyboard(KBDelta { vk_code: (vk_code % 256) as u8, key_state: st }),
        ),
        None => None,
    }
}

/// Classify one low-level keyboard notification into the wire event to
/// send, or `None` when the message is not a key transition.
pub fn keyboard_hook_event(wparam: u32, vk_code: u32) -> (r: Option<ClientEvent>)
    ensures
        r == spec_keyboard_hook_event(wparam, vk_code),
{
    match crate::keys::KeyState::from_wparam(wparam) {
        Some(st) => Some(
            ClientEvent::Keyboard(KBDelta { vk_code: (vk_code % 256) as u8, key_state: st }),
        ),
        None => None,
    }
}

/// Window style bit: the window is visible.
pub const WS_VISIBLE: u32 = 0x1000_0000;

/// Window style bit: the window is a popup.
pub const WS_POPUP: u32 = 0x8000_0000;

/// Is an enumerated window a real application window worth caching? It must
/// have a title, be visible, and not be a popup.
pub fn is_real_window(style: u32, title_len: u32) -> (b: bool)
    ensures
        b == (title_len != 0 && style & WS_VISIBLE != 0 && style & WS_POPUP == 0),
{
    title_len != 0 && style & WS_VISIBLE != 0 && style & WS_POPUP == 0
}

/// Should the hook swallow the keystroke? Exactly when the server replied
/// with an intercept command; any other reply, and so any failure mapped to
/// a default reply, lets the keystroke through.
pub fn should_swallow(c: &ServerCommand) -> (b: bool)
    ensures
        b == (*c is InterceptKeypress),
{
    match c {
        ServerCommand::InterceptKeypress => true,
        _ => false,
    }
}

} // verus!
