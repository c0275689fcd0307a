//! Keyboard state: the 256-entry key bitmap and the per-event snapshot.
//!
//! The consumer thread feeds every keyboard delta into a [`KeyMap`], a fixed
//! bit set over virtual key codes where a set bit means the key is currently
//! down. A [`KBDelta`] taken from the wire updates exactly one bit. On each
//! key event the consumer takes an immutable [`Input`] snapshot of the
//! currently-down set; its query operations decide whether the keystroke is
//! intercepted, and that intent, once recorded, is never cleared for the
//! snapshot's lifetime.

use vstd::prelude::*;

verus! {

/// Direction of one keyboard delta.
#[derive(Copy, Clone, Debug, PartialEq, Eq, Structural)]
pub enum KeyState {
    Up,
    Down,
}

impl KeyState {
    /// Is this the "key went down" direction?
    pub fn is_down(&self) -> (b: bool)
        ensures
            b == (*self is Down),
    {
        match self {
            KeyState::Down => true,
            KeyState::Up => false,
        }
    }

    /// Classify the OS keyboard-hook message code: plain or system key-down
    /// messages mean `Down`, the matching key-up messages mean `Up`, and any
    /// other code is not a keyboard delta.
    pub fn from_wparam(wparam: u32) -> (r: Option<KeyState>)
        ensures
            r == spec_key_state_of_wparam(wparam),
    {
        if wparam == WM_KEYDOWN || wparam == WM_SYSKEYDOWN {
            Some(KeyState::Down)
        } else if wparam == WM_KEYUP || wparam == WM_SYSKEYUP {
            Some(KeyState::Up)
        } else {
            None
        }
    }
}

/// OS message code: a plain key went down.
pub const WM_KEYDOWN: u32 = 0x100;

/// OS message code: a plain key went up.
pub const WM_KEYUP: u32 = 0x101;

/// OS message code: a system key went down.
pub const WM_SYSKEYDOWN: u32 = 0x104;

/// OS message code: a system key went up.
pub const WM_SYSKEYUP: u32 = 0x105;

/// The key state encoded by an OS keyboard-hook message code, if any.
pub open spec fn spec_key_state_of_wparam(wparam: u32) -> Option<KeyState> {
    if wparam == WM_KEYDOWN || wparam == WM_SYSKEYDOWN {
        Some(KeyState::Down)
    } else if wparam == WM_KEYUP || wparam == WM_SYSKEYUP {
        Some(KeyState::Up)
    } else {
        None
    }
}

/// One keyboard transition: a virtual key code and its new direction.
#[derive(Copy, Clone, Debug, PartialEq, Eq, Structural)]
pub struct KBDelta {
    pub vk_code: u8,
    pub key_state: KeyState,
}

/// One key, identified by its virtual key code.
#[derive(Copy, Clone, Debug, PartialEq, Eq, Structural)]
pub struct Key {
    pub vk: u8,
}

impl Key {
    /// The key with the given virtual key code.
    pub fn from_vk_code(vk: u8) -> (k: Key)
        ensures
            k.vk == vk,
    {
        Key { vk }
    }
}

/// Is the bit for virtual key code `vk` set in the eight-word bitmap?
pub open spec fn key_down(words: Seq<u32>, vk: u8) -> bool
    recommends
        words.len() == 8,
{
    (words[vk as int / 32] >> (vk as u32 % 32)) & 1 == 1
}

/// The bitmap after applying one delta: the named bit set or cleared.
pub open spec fn spec_apply_delta(words: Seq<u32>, d: KBDelta) -> Seq<u32>
    recommends
        words.len() == 8,
{
    let i = d.vk_code as int / 32;
    let b = d.vk_code as u32 % 32;
    if d.key_state is Down {
        words.update(i, words[i] | (1u32 << b))
    } else {
        words.update(i, words[i] & !(1u32 << b))
    }
}

/// The bitmap after applying a whole sequence of deltas in order.
pub open spec fn spec_apply_deltas(words: Seq<u32>, ds: Seq<KBDelta>) -> Seq<u32>
    decreases ds.len(),
{
    if ds.len() == 0 {
        words
    } else {
        spec_apply_delta(spec_apply_deltas(words, ds.drop_last()), ds.last())
    }
}

/// Was the most recent delta for `vk` in `ds` a key-down?
pub open spec fn spec_last_is_down(ds: Seq<KBDelta>, vk: u8) -> bool
    decreases ds.len(),
{
    if ds.len() == 0 {
        false
    } else if ds.last().vk_code == vk {
        ds.last().key_state is Down
    } else {
        spec_last_is_down(ds.drop_last(), vk)
    }
}

/// Setting a bit changes that bit to one and no other bit.
proof fn lemma_or_bit(w: u32, b: u32, b2: u32)
    by (bit_vector)
    requires
        b < 32,
        b2 < 32,
    ensures
        ((w | (1u32 << b)) >> b) & 1 == 1,
        b2 != b ==> ((w | (1u32 << b)) >> b2) & 1 == (w >> b2) & 1,
{
}

/// Clearing a bit changes that bit to zero and no other bit.
proof fn lemma_clear_bit(w: u32, b: u32, b2: u32)
    by (bit_vector)
    requires
        b < 32,
        b2 < 32,
    ensures
        ((w & !(1u32 << b)) >> b) & 1 == 0,
        b2 != b ==> ((w & !(1u32 << b)) >> b2) & 1 == (w >> b2) & 1,
{
}

/// In the zero word every bit reads as zero.
proof fn lemma_zero_word(b: u32)
    by (bit_vector)
    requires
        b < 32,
    ensures
        (0u32 >> b) & 1 == 0,
{
}

/// Applying one delta sets or clears exactly the named key.
pub proof fn lemma_apply_delta_effect(words: Seq<u32>, d: KBDelta, k: u8)
    requires
        words.len() == 8,
    ensures
        key_down(spec_apply_delta(words, d), k) == if k == d.vk_code {
            d.key_state is Down
        } else {
            key_down(words, k)
        },
{
    let i = d.vk_code as int / 32;
    let b = d.vk_code as u32 % 32;
    let ki = k as int / 32;
    let kb = k as u32 % 32;
    assert(d.vk_code as u32 == 32 * (d.vk_code as u32 / 32) + d.vk_code as u32 % 32);
    assert(k as u32 == 32 * (k as u32 / 32) + k as u32 % 32);
    if d.key_state is Down {
        lemma_or_bit(words[i], b, kb);
    } else {
        lemma_clear_bit(words[i], b, kb);
    }
}

/// The all-clear bitmap: no key is down.
pub open spec fn empty_bitmap() -> Seq<u32> {
    seq![0u32, 0u32, 0u32, 0u32, 0u32, 0u32, 0u32, 0u32]
}

/// Applying deltas keeps the bitmap eight words long.
pub proof fn lemma_apply_deltas_len(words: Seq<u32>, ds: Seq<KBDelta>)
    requires
        words.len() == 8,
    ensures
        spec_apply_deltas(words, ds).len() == 8,
    decreases ds.len(),
{
    if ds.len() > 0 {
        lemma_apply_deltas_len(words, ds.drop_last());
    }
}

/// After processing any sequence of keyboard deltas from the all-clear
/// bitmap, a key reads as down exactly when its most recent delta was a
/// key-down: down then up leaves it absent, down then down leaves it present.
pub proof fn lemma_bitmap_tracks_last_delta(ds: Seq<KBDelta>, vk: u8)
    ensures
        key_down(spec_apply_deltas(empty_bitmap(), ds), vk) == spec_last_is_down(ds, vk),
    decreases ds.len(),
{
    if ds.len() == 0 {
        lemma_zero_word(vk as u32 % 32);
    } else {
        lemma_bitmap_tracks_last_delta(ds.drop_last(), vk);
        lemma_apply_deltas_len(empty_bitmap(), ds.drop_last());
        lemma_apply_delta_effect(spec_apply_deltas(empty_bitmap(), ds.drop_last()), ds.last(), vk);
    }
}

/// The set of currently-down virtual key codes, one bit per code.
pub struct KeyMap {
    words: [u32; 8],
}

impl KeyMap {
    /// The bitmap words.
    pub closed spec fn view(&self) -> Seq<u32> {
        self.words@
    }

    /// A fresh map with no key down.
    pub fn new() -> (km: KeyMap)
        ensures
            km@ == empty_bitmap(),
            forall|k: u8| !key_down(km@, k),
    {
        let km = KeyMap { words: [0u32, 0u32, 0u32, 0u32, 0u32, 0u32, 0u32, 0u32] };
        proof {
            assert(km.words@ =~= empty_bitmap());
            assert forall|k: u8| !key_down(km@, k) by {
                lemma_zero_word(k as u32 % 32);
            }
        }
        km
    }

    /// Apply one keyboard delta: set the key's bit on a down transition,
    /// clear it on an up transition, and touch nothing else.
    pub fn update(&mut self, delta: KBDelta)
        ensures
            final(self)@ == spec_apply_delta(old(self)@, delta),
            forall|k: u8|
                key_down(final(self)@, k) == if k == delta.vk_code {
                    delta.key_state is Down
                } else {
                    key_down(old(self)@, k)
                },
    {
        let idx: usize = (delta.vk_code / 32) as usize;
        let bit: u32 = (delta.vk_code % 32) as u32;
        match delta.key_state {
            KeyState::Down => {
                self.words[idx] = self.words[idx] | (1u32 << bit);
            },
            KeyState::Up => {
                self.words[idx] = self.words[idx] & !(1u32 << bit);
            },
        }
        proof {
            assert(self.words@ =~= spec_apply_delta(old(self).words@, delta));
            assert forall|k: u8|
                key_down(self@, k) == if k == delta.vk_code {
                    delta.key_state is Down
                } else {
                    key_down(old(self)@, k)
                } by {
                lemma_apply_delta_effect(old(self)@, delta, k);
            }
        }
    }

    /// Take a snapshot of the currently-down key set, in ascending key
    /// order, with no intercept intent recorded yet.
    pub fn input(&self) -> (inp: Input)
        ensures
            forall|k: u8| inp.keys_view().contains(Key { vk: k }) == key_down(self@, k),
            forall|i: int|
                0 <= i < inp.keys_view().len() ==> #[trigger] key_down(self@, inp.keys_view()[i].vk),
            forall|a: int, b: int|
                0 <= a < b < inp.keys_view().len() ==> inp.keys_view()[a].vk
                    < inp.keys_view()[b].vk,
            !inp.intent(),
    {
        broadcast use vstd::seq_lib::group_seq_properties;

        let mut keys: Vec<Key> = Vec::new();
        let mut code: u16 = 0;
        while code < 256
            invariant
                code <= 256,
                self@.len() == 8,
                forall|k: u8|
                    (k as u16) < code ==> (keys@.contains(Key { vk: k }) == key_down(self@, k)),
                forall|j: int|
                    0 <= j < keys@.len() ==> (#[trigger] keys@[j].vk as u16) < code && key_down(
                        self@,
                        keys@[j].vk,
                    ),
                forall|a: int, b: int| 0 <= a < b < keys@.len() ==> keys@[a].vk < keys@[b].vk,
            decreases 256 - code,
        {
            let idx: usize = (code / 32) as usize;
            let bit: u32 = (code % 32) as u32;
            let down = (self.words[idx] >> bit) & 1 == 1;
            let ghost prev = keys@;
            if down {
                keys.push(Key { vk: code as u8 });
            }
            proof {
                let e = Key { vk: code as u8 };
                assert(key_down(self@, code as u8) == down);
                if down {
                    assert forall|x: Key| #[trigger] keys@.contains(x) == (prev.contains(x) || x
                        == e) by {
                        if prev.contains(x) {
                            let j = choose|j: int| 0 <= j < prev.len() && prev[j] == x;
                            assert(keys@[j] == x);
                        }
                        if x == e {
                            assert(keys@[prev.len() as int] == x);
                        }
                        if keys@.contains(x) {
                            let j = choose|j: int| 0 <= j < keys@.len() && keys@[j] == x;
                            if j < prev.len() {
                                assert(prev[j] == x);
                            }
                        }
                    }
                } else {
                    assert(!keys@.contains(e)) by {
                        if keys@.contains(e) {
                            let j = choose|j: int| 0 <= j < keys@.len() && keys@[j] == e;
                            assert((keys@[j].vk as u16) < code);
                        }
                    }
                }
            }
            code = code + 1;
        }
        Input { keys, intercept: false }
    }
}

/// An immutable snapshot of the keys that were down when one key event was
/// pulled, together with the intercept intent accumulated while the event is
/// live. The intent starts cleared and is only ever raised.
#[derive(Debug)]
pub struct Input {
    keys: Vec<Key>,
    intercept: bool,
}

impl Input {
    /// The snapshot of down keys.
    pub closed spec fn keys_view(&self) -> Seq<Key> {
        self.keys@
    }

    /// Has intercept intent been recorded for this snapshot?
    pub closed spec fn intent(&self) -> bool {
        self.intercept
    }

    /// Is `key` in the snapshot?
    pub open spec fn spec_pressed(&self, key: Key) -> bool {
        self.keys_view().contains(key)
    }

    /// Are all of `keys` in the snapshot?
    pub open spec fn spec_all_pressed(&self, keys: Seq<Key>) -> bool {
        forall|i: int| 0 <= i < keys.len() ==> self.keys_view().contains(keys[i])
    }

    /// Is at least one of `keys` in the snapshot?
    pub open spec fn spec_any_pressed(&self, keys: Seq<Key>) -> bool {
        exists|i: int| 0 <= i < keys.len() && self.keys_view().contains(keys[i])
    }

    /// Membership query without recording intercept intent.
    pub fn pressed_no_intercept(&self, key: Key) -> (r: bool)
        ensures
            r == self.spec_pressed(key),
    {
        let mut i: usize = 0;
        while i < self.keys.len()
            invariant
                i <= self.keys@.len(),
                forall|j: int| 0 <= j < i ==> self.keys@[j] != key,
            decreases self.keys@.len() - i,
        {
            if self.keys[i].vk == key.vk {
                return true;
            }
            i = i + 1;
        }
        false
    }

    /// Membership query; on a positive match, record intercept intent.
    pub fn pressed(&mut self, key: Key) -> (r: bool)
        ensures
            r == old(self).spec_pressed(key),
            final(self).keys_view() == old(self).keys_view(),
            final(self).intent() == (old(self).intent() || r),
    {
        let hit = self.pressed_no_intercept(key);
        if hit {
            self.intercept = true;
        }
        hit
    }

    /// Are all requested keys down? The requested keys must form a subset of
    /// the snapshot; order and repetition are irrelevant. Does not record
    /// intent.
    pub fn all_pressed_no_intercept(&self, keys: &[Key]) -> (r: bool)
        ensures
            r == self.spec_all_pressed(keys@),
    {
        let mut i: usize = 0;
        while i < keys.len()
            invariant
                i <= keys@.len(),
                forall|j: int| 0 <= j < i ==> self.keys_view().contains(keys@[j]),
            decreases keys@.len() - i,
        {
            if !self.pressed_no_intercept(keys[i]) {
                return false;
            }
            i = i + 1;
        }
        true
    }

    /// Are all requested keys down? On a positive match, record intent.
    pub fn all_pressed(&mut self, keys: &[Key]) -> (r: bool)
        ensures
            r == old(self).spec_all_pressed(keys@),
            final(self).keys_view() == old(self).keys_view(),
            final(self).intent() == (old(self).intent() || r),
    {
        let hit = self.all_pressed_no_intercept(keys);
        if hit {
            self.intercept = true;
        }
        hit
    }

    /// Is any requested key down? Does not record intent.
    pub fn any_pressed_no_intercept(&self, keys: &[Key]) -> (r: bool)
        ensures
            r == self.spec_any_pressed(keys@),
    {
        let mut i: usize = 0;
        while i < keys.len()
            invariant
                i <= keys@.len(),
                forall|j: int| 0 <= j < i ==> !self.keys_view().contains(keys@[j]),
            decreases keys@.len() - i,
        {
            if self.pressed_no_intercept(keys[i]) {
                return true;
            }
            i = i + 1;
        }
        false
    }

    /// Is any requested key down? On a positive match, record intent.
    pub fn any_pressed(&mut self, keys: &[Key]) -> (r: bool)
        ensures
            r == old(self).spec_any_pressed(keys@),
            final(self).keys_view() == old(self).keys_view(),
            final(self).intent() == (old(self).intent() || r),
    {
        let hit = self.any_pressed_no_intercept(keys);
        if hit {
            self.intercept = true;
        }
        hit
    }

    /// Has intercept intent been recorded so far?
    pub fn intercepts(&self) -> (r: bool)
        ensures
            r == self.intent(),
    {
        self.intercept
    }
}

/// A positive `all_pressed` answer means exactly that the requested keys
/// form a subset of the snapshot's down set; in particular the answer
/// depends only on the set of requested keys, never on their order or on
/// repetitions.
pub proof fn lemma_all_pressed_is_subset(inp: Input, keys1: Seq<Key>, keys2: Seq<Key>)
    requires
        keys1.to_set() == keys2.to_set(),
    ensures
        inp.spec_all_pressed(keys1) == (keys1.to_set() <= inp.keys_view().to_set()),
        inp.spec_all_pressed(keys1) == inp.spec_all_pressed(keys2),
{
    broadcast use vstd::seq_lib::group_seq_properties;

    assert(inp.spec_all_pressed(keys1) == (keys1.to_set() <= inp.keys_view().to_set())) by {
        if inp.spec_all_pressed(keys1) {
            assert forall|k: Key| keys1.to_set().contains(k) implies inp.keys_view()
                .to_set()
                .contains(k) by {
                let i = choose|i: int| 0 <= i < keys1.len() && keys1[i] == k;
                assert(inp.keys_view().contains(keys1[i]));
            }
        } else {
            let i = choose|i: int|
                0 <= i < keys1.len() && !inp.keys_view().contains(keys1[i]);
            assert(keys1.to_set().contains(keys1[i]));
        }
    }
    assert(inp.spec_all_pressed(keys2) == (keys2.to_set() <= inp.keys_view().to_set())) by {
        if inp.spec_all_pressed(keys2) {
            assert forall|k: Key| keys2.to_set().contains(k) implies inp.keys_view()
                .to_set()
                .contains(k) by {
                let i = choose|i: int| 0 <= i < keys2.len() && keys2[i] == k;
                assert(inp.keys_view().contains(keys2[i]));
            }
        } else {
            let i = choose|i: int|
                0 <= i < keys2.len() && !inp.keys_view().contains(keys2[i]);
            assert(keys2.to_set().contains(keys2[i]));
        }
    }
}

} // verus!
