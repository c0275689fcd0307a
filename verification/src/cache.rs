//! The window/monitor cache: per-monitor focus-ordered window queues,
//! monitor focus order, and per-monitor layout memory.
//!
//! The cache is mutated only by the single consumer thread, synchronously as
//! events are pulled. Its invariant: monitors are distinct, and every window
//! sits in at most one monitor's focus queue, at most once. A focus-or-open
//! note moves the window to the front of its monitor's queue and that monitor
//! to the front of the monitor order; a close note removes the window from
//! the queue named by the event payload.

use vstd::prelude::*;

verus! {

use crate::keys::{Input, KBDelta, KeyMap, key_down, spec_apply_delta};
use crate::rect::{Rect, spec_mostly_on};

/// Opaque token for one OS top-level window, compared by identity.
#[derive(Copy, Clone, Debug, PartialEq, Eq, Hash, Structural)]
pub struct Window {
    pub handle: u64,
}

impl Default for Window {
    /// The sentinel "no window" token.
    fn default() -> (w: Self)
        ensures
            w.handle == 0,
    {
        Window { handle: 0 }
    }
}

impl Window {
    /// Is this the sentinel token that names no window?
    pub fn is_invalid(&self) -> (b: bool)
        ensures
            b == (self.handle == 0),
    {
        self.handle == 0
    }
}

/// Opaque token for one display, compared and hashed by identity.
#[derive(Copy, Clone, Debug, PartialEq, Eq, Hash, Structural)]
pub struct Monitor {
    pub handle: u64,
}

impl Default for Monitor {
    /// The sentinel "no monitor" token.
    fn default() -> (m: Self)
        ensures
            m.handle == 0,
    {
        Monitor { handle: 0 }
    }
}

/// The tiling mode remembered per monitor.
#[derive(Copy, Clone, Debug, PartialEq, Eq, Structural)]
pub enum Layout {
    Off,
    Stack,
    Grid,
    Full,
}

impl Default for Layout {
    /// Hands-off: no tiling is applied.
    fn default() -> (l: Self)
        ensures
            l == Layout::Off,
    {
        Layout::Off
    }
}

/// No two elements of the sequence are equal.
pub open spec fn seq_nodup<T>(q: Seq<T>) -> bool {
    forall|a: int, b: int| 0 <= a < b < q.len() ==> q[a] != q[b]
}

/// `q` with every occurrence of `w` removed, order otherwise kept.
pub open spec fn remove_win(q: Seq<Window>, w: Window) -> Seq<Window>
    decreases q.len(),
{
    if q.len() == 0 {
        Seq::empty()
    } else {
        let rest = remove_win(q.drop_last(), w);
        if q.last() == w {
            rest
        } else {
            rest.push(q.last())
        }
    }
}

/// Removal never yields the removed window.
pub proof fn lemma_remove_win_gone(q: Seq<Window>, w: Window)
    ensures
        !remove_win(q, w).contains(w),
    decreases q.len(),
{
    if q.len() > 0 {
        lemma_remove_win_gone(q.drop_last(), w);
        if q.last() != w {
            let r = remove_win(q.drop_last(), w);
            assert forall|i: int| 0 <= i < r.push(q.last()).len() implies r.push(q.last())[i]
                != w by {
                if i < r.len() {
                    assert(!r.contains(w));
                    assert(r.push(q.last())[i] == r[i]);
                }
            }
        }
    }
}

/// Every window that survives removal was in the original queue.
pub proof fn lemma_remove_win_subset(q: Seq<Window>, w: Window, x: Window)
    requires
        remove_win(q, w).contains(x),
    ensures
        q.contains(x),
    decreases q.len(),
{
    if q.len() > 0 {
        let rest = remove_win(q.drop_last(), w);
        if q.last() == w {
            lemma_remove_win_subset(q.drop_last(), w, x);
            let i = choose|i: int| 0 <= i < q.drop_last().len() && q.drop_last()[i] == x;
            assert(q[i] == x);
        } else {
            let r = rest.push(q.last());
            let i = choose|i: int| 0 <= i < r.len() && r[i] == x;
            if i < rest.len() {
                lemma_remove_win_subset(q.drop_last(), w, x);
                let j = choose|j: int| 0 <= j < q.drop_last().len() && q.drop_last()[j] == x;
                assert(q[j] == x);
            } else {
                assert(q[q.len() - 1] == x);
            }
        }
    }
}

/// Removal keeps the queue free of duplicates.
pub proof fn lemma_remove_win_nodup(q: Seq<Window>, w: Window)
    requires
        seq_nodup(q),
    ensures
        seq_nodup(remove_win(q, w)),
    decreases q.len(),
{
    if q.len() > 0 {
        assert(seq_nodup(q.drop_last())) by {
            assert forall|a: int, b: int|
                0 <= a < b < q.drop_last().len() implies q.drop_last()[a] != q.drop_last()[b] by {
                assert(q[a] != q[b]);
            }
        }
        lemma_remove_win_nodup(q.drop_last(), w);
        if q.last() != w {
            let rest = remove_win(q.drop_last(), w);
            let out = rest.push(q.last());
            assert forall|a: int, b: int| 0 <= a < b < out.len() implies out[a] != out[b] by {
                if b < rest.len() {
                    assert(rest[a] != rest[b]);
                } else {
                    assert(out[b] == q.last());
                    assert(out[a] == rest[a]);
                    if rest[a] == q.last() {
                        lemma_remove_win_subset(q.drop_last(), w, q.last());
                        let j = choose|j: int|
                            0 <= j < q.drop_last().len() && q.drop_last()[j] == q.last();
                        assert(q[j] == q[q.len() - 1]);
                    }
                }
            }
        }
    }
}

/// Index of the first queue that belongs to `m`, or `-1` when none does.
pub open spec fn mon_index(qs: Seq<(Monitor, Seq<Window>)>, m: Monitor) -> int
    decreases qs.len(),
{
    if qs.len() == 0 {
        -1
    } else if qs[0].0 == m {
        0
    } else {
        let r = mon_index(qs.drop_first(), m);
        if r < 0 {
            -1
        } else {
            1 + r
        }
    }
}

/// What `mon_index` promises: a valid first hit, or no hit at all.
pub proof fn lemma_mon_index_props(qs: Seq<(Monitor, Seq<Window>)>, m: Monitor)
    ensures
        mon_index(qs, m) >= 0 ==> mon_index(qs, m) < qs.len() && qs[mon_index(qs, m)].0 == m
            && forall|j: int| 0 <= j < mon_index(qs, m) ==> qs[j].0 != m,
        mon_index(qs, m) < 0 ==> forall|j: int| 0 <= j < qs.len() ==> qs[j].0 != m,
    decreases qs.len(),
{
    if qs.len() > 0 && qs[0].0 != m {
        lemma_mon_index_props(qs.drop_first(), m);
        let r = mon_index(qs.drop_first(), m);
        if r >= 0 {
            assert forall|j: int| 0 <= j < 1 + r implies qs[j].0 != m by {
                if j > 0 {
                    assert(qs.drop_first()[j - 1].0 != m);
                }
            }
        } else {
            assert forall|j: int| 0 <= j < qs.len() implies qs[j].0 != m by {
                if j > 0 {
                    assert(qs.drop_first()[j - 1].0 != m);
                }
            }
        }
    }
}

/// The first hit determines `mon_index`.
pub proof fn lemma_mon_index_converse(qs: Seq<(Monitor, Seq<Window>)>, m: Monitor, i: int)
    requires
        0 <= i < qs.len(),
        qs[i].0 == m,
        forall|j: int| 0 <= j < i ==> qs[j].0 != m,
    ensures
        mon_index(qs, m) == i,
    decreases qs.len(),
{
    if i > 0 {
        lemma_mon_index_converse(qs.drop_first(), m, i - 1);
    }
}

/// Every queue with `w` taken out of it.
pub open spec fn remove_everywhere(qs: Seq<(Monitor, Seq<Window>)>, w: Window) -> Seq<
    (Monitor, Seq<Window>),
> {
    Seq::new(qs.len(), |i: int| (qs[i].0, remove_win(qs[i].1, w)))
}

/// The cache model after noting that `w` was focused or opened on `m`:
/// `w` leaves whatever queue held it, enters the front of `m`'s queue
/// (created if new), and `m` moves to the front of the monitor order.
pub open spec fn spec_note_focus(
    qs: Seq<(Monitor, Seq<Window>)>,
    w: Window,
    m: Monitor,
) -> Seq<(Monitor, Seq<Window>)> {
    let r = remove_everywhere(qs, w);
    let i = mon_index(r, m);
    if i >= 0 {
        seq![(m, seq![w] + r[i].1)] + r.remove(i)
    } else {
        seq![(m, seq![w])] + r
    }
}

/// The cache model after noting that `w` on `m` closed: `w` leaves `m`'s
/// queue; queues of other monitors are untouched.
pub open spec fn spec_note_close(
    qs: Seq<(Monitor, Seq<Window>)>,
    w: Window,
    m: Monitor,
) -> Seq<(Monitor, Seq<Window>)> {
    let i = mon_index(qs, m);
    if i >= 0 {
        qs.update(i, (m, remove_win(qs[i].1, w)))
    } else {
        qs
    }
}

/// The cache invariant: monitors are pairwise distinct, no queue repeats a
/// window, and no window sits in two queues.
pub open spec fn cache_wf(qs: Seq<(Monitor, Seq<Window>)>) -> bool {
    &&& forall|i: int, j: int| 0 <= i < j < qs.len() ==> (#[trigger] qs[i].0) != (#[trigger] qs[j].0)
    &&& forall|i: int| 0 <= i < qs.len() ==> seq_nodup(#[trigger] qs[i].1)
    &&& forall|i: int, j: int, w: Window|
        #![trigger qs[i].1.contains(w), qs[j].1.contains(w)]
        0 <= i < qs.len() && 0 <= j < qs.len() && i != j ==> !(qs[i].1.contains(w) && qs[j].1.contains(
            w,
        ))
}

/// Removing one window everywhere keeps the invariant, leaves the monitor
/// order alone, and purges the window.
pub proof fn lemma_remove_everywhere_wf(qs: Seq<(Monitor, Seq<Window>)>, w: Window)
    requires
        cache_wf(qs),
    ensures
        cache_wf(remove_everywhere(qs, w)),
        remove_everywhere(qs, w).len() == qs.len(),
        forall|i: int| 0 <= i < qs.len() ==> (#[trigger] remove_everywhere(qs, w)[i]).0 == qs[i].0,
        forall|i: int| 0 <= i < qs.len() ==> !(#[trigger] remove_everywhere(qs, w)[i]).1.contains(w),
{
    let r = remove_everywhere(qs, w);
    assert forall|i: int| 0 <= i < r.len() implies seq_nodup(#[trigger] r[i].1) by {
        lemma_remove_win_nodup(qs[i].1, w);
    }
    assert forall|i: int| 0 <= i < qs.len() implies !(#[trigger] r[i]).1.contains(w) by {
        lemma_remove_win_gone(qs[i].1, w);
    }
    assert forall|i: int, j: int, x: Window|
        #![trigger r[i].1.contains(x), r[j].1.contains(x)]
        0 <= i < r.len() && 0 <= j < r.len() && i != j implies !(r[i].1.contains(x)
        && r[j].1.contains(x)) by {
        if r[i].1.contains(x) && r[j].1.contains(x) {
            lemma_remove_win_subset(qs[i].1, w, x);
            lemma_remove_win_subset(qs[j].1, w, x);
        }
    }
}

/// A focus-or-open note keeps the cache invariant; afterwards the noted
/// monitor's queue is at the front and the noted window is its front
/// element — the most recently inserted window for that monitor.
pub proof fn lemma_note_focus_wf(qs: Seq<(Monitor, Seq<Window>)>, w: Window, m: Monitor)
    requires
        cache_wf(qs),
    ensures
        cache_wf(spec_note_focus(qs, w, m)),
        spec_note_focus(qs, w, m).len() >= 1,
        spec_note_focus(qs, w, m)[0].0 == m,
        spec_note_focus(qs, w, m)[0].1.len() >= 1,
        spec_note_focus(qs, w, m)[0].1[0] == w,
{
    let r = remove_everywhere(qs, w);
    lemma_remove_everywhere_wf(qs, w);
    lemma_mon_index_props(r, m);
    let i = mon_index(r, m);
    let res = spec_note_focus(qs, w, m);
    if i >= 0 {
        let front = seq![w] + r[i].1;
        let tail = r.remove(i);
        assert(res == seq![(m, front)] + tail);
        assert(forall|k: int| 0 <= k < tail.len() ==> tail[k] == if k < i {
            r[k]
        } else {
            r[k + 1]
        });
        // monitors stay pairwise distinct: m occurs in r only at index i
        assert forall|a: int, b: int| 0 <= a < b < res.len() implies (#[trigger] res[a].0)
            != (#[trigger] res[b].0) by {
            if a == 0 {
                let j = if b - 1 < i { b - 1 } else { b };
                assert(res[b].0 == r[j].0);
                assert(j != i);
                assert(r[j].0 != m);
            }
        }
        // the new front queue repeats no window
        assert(seq_nodup(front)) by {
            assert forall|a: int, b: int| 0 <= a < b < front.len() implies front[a]
                != front[b] by {
                if a == 0 {
                    if front[b] == w {
                        assert(r[i].1[b - 1] == w);
                        assert(r[i].1.contains(w));
                    }
                } else {
                    assert(front[a] == r[i].1[a - 1] && front[b] == r[i].1[b - 1]);
                }
            }
        }
        // no window sits in two queues
        assert forall|a: int, b: int, x: Window|
            #![trigger res[a].1.contains(x), res[b].1.contains(x)]
            0 <= a < res.len() && 0 <= b < res.len() && a != b implies !(res[a].1.contains(x)
            && res[b].1.contains(x)) by {
            if res[a].1.contains(x) && res[b].1.contains(x) {
                if a == 0 || b == 0 {
                    let o = if a == 0 { b } else { a };
                    let j = if o - 1 < i { o - 1 } else { o };
                    assert(res[o].1 == r[j].1 && j != i);
                    assert(front.contains(x));
                    let fi = choose|fi: int| 0 <= fi < front.len() && front[fi] == x;
                    if fi == 0 {
                        assert(x == w);
                        assert(r[j].1.contains(w));
                    } else {
                        assert(r[i].1[fi - 1] == x);
                        assert(r[i].1.contains(x));
                    }
                } else {
                    let ja = if a - 1 < i { a - 1 } else { a };
                    let jb = if b - 1 < i { b - 1 } else { b };
                    assert(res[a].1 == r[ja].1 && res[b].1 == r[jb].1 && ja != jb);
                }
            }
        }
    } else {
        let front = seq![w];
        let tail = r;
        assert(res == seq![(m, front)] + tail);
        assert forall|a: int, b: int, x: Window|
            #![trigger res[a].1.contains(x), res[b].1.contains(x)]
            0 <= a < res.len() && 0 <= b < res.len() && a != b implies !(res[a].1.contains(x)
            && res[b].1.contains(x)) by {
            if res[a].1.contains(x) && res[b].1.contains(x) {
                if a == 0 || b == 0 {
                    let o = if a == 0 { b } else { a };
                    assert(front.contains(x));
                    assert(x == w);
                    assert(r[o - 1].1.contains(w));
                }
            }
        }
    }
}

/// A close note keeps the cache invariant and the monitor order.
pub proof fn lemma_note_close_wf(qs: Seq<(Monitor, Seq<Window>)>, w: Window, m: Monitor)
    requires
        cache_wf(qs),
    ensures
        cache_wf(spec_note_close(qs, w, m)),
        spec_note_close(qs, w, m).len() == qs.len(),
        forall|i: int| 0 <= i < qs.len() ==> (#[trigger] spec_note_close(qs, w, m)[i]).0 == qs[i].0,
{
    lemma_mon_index_props(qs, m);
    let i = mon_index(qs, m);
    if i >= 0 {
        let res = spec_note_close(qs, w, m);
        lemma_remove_win_nodup(qs[i].1, w);
        assert forall|a: int, b: int, x: Window|
            #![trigger res[a].1.contains(x), res[b].1.contains(x)]
            0 <= a < res.len() && 0 <= b < res.len() && a != b implies !(res[a].1.contains(x)
            && res[b].1.contains(x)) by {
            if res[a].1.contains(x) && res[b].1.contains(x) {
                if a == i {
                    lemma_remove_win_subset(qs[i].1, w, x);
                    assert(qs[a].1.contains(x));
                } else if b == i {
                    lemma_remove_win_subset(qs[i].1, w, x);
                    assert(qs[b].1.contains(x));
                }
            }
        }
    }
}

/// One cache mutation, as carried by a lifecycle event.
#[derive(Copy, Clone, Debug, PartialEq, Eq, Structural)]
pub enum CacheOp {
    FocusOrOpen(Window, Monitor),
    Close(Window, Monitor),
}

/// The cache model after one mutation.
pub open spec fn apply_cache_op(
    qs: Seq<(Monitor, Seq<Window>)>,
    op: CacheOp,
) -> Seq<(Monitor, Seq<Window>)> {
    match op {
        CacheOp::FocusOrOpen(w, m) => spec_note_focus(qs, w, m),
        CacheOp::Close(w, m) => spec_note_close(qs, w, m),
    }
}

/// The cache model after a whole sequence of mutations, applied in order.
pub open spec fn apply_cache_ops(
    qs: Seq<(Monitor, Seq<Window>)>,
    ops: Seq<CacheOp>,
) -> Seq<(Monitor, Seq<Window>)>
    decreases ops.len(),
{
    if ops.len() == 0 {
        qs
    } else {
        apply_cache_op(apply_cache_ops(qs, ops.drop_last()), ops.last())
    }
}

/// After any interleaving of open, close and focus-changed notes applied to
/// a well-formed cache, every window is present in at most one monitor's
/// focus queue, at most once, and the monitors stay pairwise distinct. (That
/// the queue front is the most recently inserted window for its monitor is
/// stated by `lemma_note_focus_wf`.)
pub proof fn lemma_cache_ops_keep_invariant(qs: Seq<(Monitor, Seq<Window>)>, ops: Seq<CacheOp>)
    requires
        cache_wf(qs),
    ensures
        cache_wf(apply_cache_ops(qs, ops)),
    decreases ops.len(),
{
    if ops.len() > 0 {
        lemma_cache_ops_keep_invariant(qs, ops.drop_last());
        let prev = apply_cache_ops(qs, ops.drop_last());
        match ops.last() {
            CacheOp::FocusOrOpen(w, m) => lemma_note_focus_wf(prev, w, m),
            CacheOp::Close(w, m) => lemma_note_close_wf(prev, w, m),
        }
    }
}

/// The layout remembered for `m`, the most recent binding winning; `Off`
/// when none was ever remembered.
pub open spec fn layout_of(ls: Seq<(Monitor, Layout)>, m: Monitor) -> Layout
    decreases ls.len(),
{
    if ls.len() == 0 {
        Layout::Off
    } else if ls.last().0 == m {
        ls.last().1
    } else {
        layout_of(ls.drop_last(), m)
    }
}

/// Layout memory binds each monitor at most once.
pub open spec fn layouts_wf(ls: Seq<(Monitor, Layout)>) -> bool {
    forall|i: int, j: int| 0 <= i < j < ls.len() ==> (#[trigger] ls[i].0) != (#[trigger] ls[j].0)
}

/// Removing a binding for another monitor does not change a lookup.
pub proof fn lemma_layout_remove_other(ls: Seq<(Monitor, Layout)>, i: int, m: Monitor)
    requires
        0 <= i < ls.len(),
        ls[i].0 != m,
    ensures
        layout_of(ls.remove(i), m) == layout_of(ls, m),
    decreases ls.len(),
{
    if i == ls.len() - 1 {
        assert(ls.remove(i) =~= ls.drop_last());
    } else {
        assert(ls.remove(i).drop_last() =~= ls.drop_last().remove(i));
        assert(ls.remove(i).last() == ls.last());
        lemma_layout_remove_other(ls.drop_last(), i, m);
    }
}

/// Appending a binding decides the lookup for its monitor and nothing else.
pub proof fn lemma_layout_push(ls: Seq<(Monitor, Layout)>, m: Monitor, l: Layout, m2: Monitor)
    ensures
        layout_of(ls.push((m, l)), m2) == if m2 == m {
            l
        } else {
            layout_of(ls, m2)
        },
{
    assert(ls.push((m, l)).drop_last() =~= ls);
}

/// A monitor bound nowhere reads as `Off`.
pub proof fn lemma_layout_absent(ls: Seq<(Monitor, Layout)>, m: Monitor)
    requires
        forall|j: int| 0 <= j < ls.len() ==> (#[trigger] ls[j].0) != m,
    ensures
        layout_of(ls, m) == Layout::Off,
    decreases ls.len(),
{
    if ls.len() > 0 {
        lemma_layout_absent(ls.drop_last(), m);
    }
}

/// A monitor bound exactly once reads as that binding.
pub proof fn lemma_layout_unique(ls: Seq<(Monitor, Layout)>, m: Monitor, k: int)
    requires
        0 <= k < ls.len(),
        ls[k].0 == m,
        forall|j: int| 0 <= j < ls.len() && j != k ==> (#[trigger] ls[j].0) != m,
    ensures
        layout_of(ls, m) == ls[k].1,
    decreases ls.len(),
{
    if k < ls.len() - 1 {
        lemma_layout_unique(ls.drop_last(), m, k);
    }
}

/// One monitor's focus queue: the front window is the most recently
/// focused or opened window on that monitor.
pub struct FocusQueue {
    pub monitor: Monitor,
    pub windows: Vec<Window>,
}

/// The mathematical content of a focus-queue list.
pub open spec fn queues_of(v: Seq<FocusQueue>) -> Seq<(Monitor, Seq<Window>)> {
    Seq::new(v.len(), |i: int| (v[i].monitor, v[i].windows@))
}

/// The monitors of the model, in focus order.
pub open spec fn monitors_of(qs: Seq<(Monitor, Seq<Window>)>) -> Seq<Monitor> {
    Seq::new(qs.len(), |i: int| qs[i].0)
}

/// All cached windows, queue by queue in monitor order.
pub open spec fn all_windows(qs: Seq<(Monitor, Seq<Window>)>) -> Seq<Window>
    decreases qs.len(),
{
    if qs.len() == 0 {
        Seq::empty()
    } else {
        all_windows(qs.drop_last()) + qs.last().1
    }
}

/// Index of the first queue containing `w`, or `-1` when no queue does.
pub open spec fn win_index(qs: Seq<(Monitor, Seq<Window>)>, w: Window) -> int
    decreases qs.len(),
{
    if qs.len() == 0 {
        -1
    } else if qs[0].1.contains(w) {
        0
    } else {
        let r = win_index(qs.drop_first(), w);
        if r < 0 {
            -1
        } else {
            1 + r
        }
    }
}

/// What `win_index` promises: a valid first hit, or no hit at all.
pub proof fn lemma_win_index_props(qs: Seq<(Monitor, Seq<Window>)>, w: Window)
    ensures
        win_index(qs, w) >= 0 ==> win_index(qs, w) < qs.len() && qs[win_index(qs, w)].1.contains(w)
            && forall|j: int| 0 <= j < win_index(qs, w) ==> !(#[trigger] qs[j].1).contains(w),
        win_index(qs, w) < 0 ==> forall|j: int| 0 <= j < qs.len() ==> !(#[trigger] qs[j].1).contains(
            w,
        ),
    decreases qs.len(),
{
    if qs.len() > 0 && !qs[0].1.contains(w) {
        lemma_win_index_props(qs.drop_first(), w);
        let r = win_index(qs.drop_first(), w);
        if r >= 0 {
            assert forall|j: int| 0 <= j < 1 + r implies !(#[trigger] qs[j].1).contains(w) by {
                if j > 0 {
                    assert(!qs.drop_first()[j - 1].1.contains(w));
                }
            }
        } else {
            assert forall|j: int| 0 <= j < qs.len() implies !(#[trigger] qs[j].1).contains(w) by {
                if j > 0 {
                    assert(!qs.drop_first()[j - 1].1.contains(w));
                }
            }
        }
    }
}

/// The first hit determines `win_index`.
pub proof fn lemma_win_index_converse(qs: Seq<(Monitor, Seq<Window>)>, w: Window, i: int)
    requires
        0 <= i < qs.len(),
        qs[i].1.contains(w),
        forall|j: int| 0 <= j < i ==> !(#[trigger] qs[j].1).contains(w),
    ensures
        win_index(qs, w) == i,
    decreases qs.len(),
{
    if i > 0 {
        lemma_win_index_converse(qs.drop_first(), w, i - 1);
    }
}

/// Is `w` in the window list?
fn vec_has_window(v: &Vec<Window>, w: Window) -> (b: bool)
    ensures
        b == v@.contains(w),
{
    let mut j: usize = 0;
    while j < v.len()
        invariant
            j <= v@.len(),
            forall|k: int| 0 <= k < j ==> v@[k] != w,
        decreases v@.len() - j,
    {
        if v[j].handle == w.handle {
            return true;
        }
        j = j + 1;
    }
    false
}

/// A copy of the window list.
fn copy_windows(v: &Vec<Window>) -> (out: Vec<Window>)
    ensures
        out@ == v@,
{
    let mut out: Vec<Window> = Vec::new();
    let mut j: usize = 0;
    while j < v.len()
        invariant
            j <= v@.len(),
            out@ == v@.take(j as int),
        decreases v@.len() - j,
    {
        out.push(v[j]);
        proof {
            assert(out@ =~= v@.take(j + 1));
        }
        j = j + 1;
    }
    proof {
        assert(v@.take(v@.len() as int) =~= v@);
    }
    out
}

/// The window list with every occurrence of `w` removed.
fn filtered_windows(v: &Vec<Window>, w: Window) -> (out: Vec<Window>)
    ensures
        out@ == remove_win(v@, w),
{
    let mut out: Vec<Window> = Vec::new();
    let mut j: usize = 0;
    while j < v.len()
        invariant
            j <= v@.len(),
            out@ == remove_win(v@.take(j as int), w),
        decreases v@.len() - j,
    {
        proof {
            assert(v@.take(j + 1).drop_last() =~= v@.take(j as int));
            assert(v@.take(j + 1).last() == v@[j as int]);
        }
        if v[j].handle != w.handle {
            out.push(v[j]);
        }
        j = j + 1;
    }
    proof {
        assert(v@.take(v@.len() as int) =~= v@);
    }
    out
}

/// The window tokens of an enumeration, in order.
pub open spec fn window_tokens(ws: Seq<(Window, Rect)>) -> Seq<Window> {
    Seq::new(ws.len(), |i: int| ws[i].0)
}

/// The monitor tokens of an enumeration, in order.
pub open spec fn monitor_tokens(ms: Seq<(Monitor, Rect)>) -> Seq<Monitor> {
    Seq::new(ms.len(), |i: int| ms[i].0)
}

/// Index of the first monitor that `wr` mostly lies on, or `-1`.
pub open spec fn assign_idx(ms: Seq<(Monitor, Rect)>, wr: Rect) -> int
    decreases ms.len(),
{
    if ms.len() == 0 {
        -1
    } else if spec_mostly_on(wr, ms[0].1) {
        0
    } else {
        let r = assign_idx(ms.drop_first(), wr);
        if r < 0 {
            -1
        } else {
            1 + r
        }
    }
}

/// What `assign_idx` promises: a valid first hit, or no hit at all.
pub proof fn lemma_assign_idx_props(ms: Seq<(Monitor, Rect)>, wr: Rect)
    ensures
        assign_idx(ms, wr) >= 0 ==> assign_idx(ms, wr) < ms.len() && spec_mostly_on(
            wr,
            ms[assign_idx(ms, wr)].1,
        ) && forall|j: int| 0 <= j < assign_idx(ms, wr) ==> !spec_mostly_on(wr, (#[trigger] ms[j]).1),
        assign_idx(ms, wr) < 0 ==> forall|j: int|
            0 <= j < ms.len() ==> !spec_mostly_on(wr, (#[trigger] ms[j]).1),
    decreases ms.len(),
{
    if ms.len() > 0 && !spec_mostly_on(wr, ms[0].1) {
        lemma_assign_idx_props(ms.drop_first(), wr);
        let r = assign_idx(ms.drop_first(), wr);
        if r >= 0 {
            assert forall|j: int| 0 <= j < 1 + r implies !spec_mostly_on(
                wr,
                (#[trigger] ms[j]).1,
            ) by {
                if j > 0 {
                    assert(!spec_mostly_on(wr, ms.drop_first()[j - 1].1));
                }
            }
        } else {
            assert forall|j: int| 0 <= j < ms.len() implies !spec_mostly_on(
                wr,
                (#[trigger] ms[j]).1,
            ) by {
                if j > 0 {
                    assert(!spec_mostly_on(wr, ms.drop_first()[j - 1].1));
                }
            }
        }
    }
}

/// The first hit determines `assign_idx`.
pub proof fn lemma_assign_idx_converse(ms: Seq<(Monitor, Rect)>, wr: Rect, i: int)
    requires
        0 <= i < ms.len(),
        spec_mostly_on(wr, ms[i].1),
        forall|j: int| 0 <= j < i ==> !spec_mostly_on(wr, (#[trigger] ms[j]).1),
    ensures
        assign_idx(ms, wr) == i,
    decreases ms.len(),
{
    if i > 0 {
        lemma_assign_idx_converse(ms.drop_first(), wr, i - 1);
    }
}

/// The windows assigned to monitor `i` by the bootstrap: those that mostly
/// lie on it and on no earlier monitor, in enumeration order.
pub open spec fn assigned_windows(
    ms: Seq<(Monitor, Rect)>,
    ws: Seq<(Window, Rect)>,
    i: int,
) -> Seq<Window>
    decreases ws.len(),
{
    if ws.len() == 0 {
        Seq::empty()
    } else {
        let rest = assigned_windows(ms, ws.drop_last(), i);
        if assign_idx(ms, ws.last().1) == i {
            rest.push(ws.last().0)
        } else {
            rest
        }
    }
}

/// The bootstrap cache model: one queue per enumerated monitor, seeded with
/// the windows assigned to it.
pub open spec fn spec_fill(ms: Seq<(Monitor, Rect)>, ws: Seq<(Window, Rect)>) -> Seq<
    (Monitor, Seq<Window>),
> {
    Seq::new(ms.len(), |i: int| (ms[i].0, assigned_windows(ms, ws, i)))
}

/// An assigned window comes from the enumeration, with a matching
/// assignment index.
pub proof fn lemma_assigned_from(
    ms: Seq<(Monitor, Rect)>,
    ws: Seq<(Window, Rect)>,
    i: int,
    x: Window,
)
    requires
        assigned_windows(ms, ws, i).contains(x),
    ensures
        exists|k: int|
            0 <= k < ws.len() && (#[trigger] ws[k]).0 == x && assign_idx(ms, ws[k].1) == i,
    decreases ws.len(),
{
    if ws.len() > 0 {
        let rest = assigned_windows(ms, ws.drop_last(), i);
        let out = assigned_windows(ms, ws, i);
        if assign_idx(ms, ws.last().1) == i {
            let j = choose|j: int| 0 <= j < out.len() && out[j] == x;
            if j < rest.len() {
                assert(rest.contains(x));
                lemma_assigned_from(ms, ws.drop_last(), i, x);
                let k = choose|k: int|
                    0 <= k < ws.drop_last().len() && (#[trigger] ws.drop_last()[k]).0 == x
                        && assign_idx(ms, ws.drop_last()[k].1) == i;
                assert(ws[k].0 == x && assign_idx(ms, ws[k].1) == i);
            } else {
                assert(ws[ws.len() - 1].0 == x);
            }
        } else {
            lemma_assigned_from(ms, ws.drop_last(), i, x);
            let k = choose|k: int|
                0 <= k < ws.drop_last().len() && (#[trigger] ws.drop_last()[k]).0 == x
                    && assign_idx(ms, ws.drop_last()[k].1) == i;
            assert(ws[k].0 == x && assign_idx(ms, ws[k].1) == i);
        }
    }
}

/// With distinct window tokens, no assigned queue repeats a window.
pub proof fn lemma_assigned_nodup(ms: Seq<(Monitor, Rect)>, ws: Seq<(Window, Rect)>, i: int)
    requires
        seq_nodup(window_tokens(ws)),
    ensures
        seq_nodup(assigned_windows(ms, ws, i)),
    decreases ws.len(),
{
    if ws.len() > 0 {
        assert(seq_nodup(window_tokens(ws.drop_last()))) by {
            assert forall|a: int, b: int|
                0 <= a < b < ws.drop_last().len() implies window_tokens(ws.drop_last())[a]
                != window_tokens(ws.drop_last())[b] by {
                assert(window_tokens(ws)[a] != window_tokens(ws)[b]);
            }
        }
        lemma_assigned_nodup(ms, ws.drop_last(), i);
        if assign_idx(ms, ws.last().1) == i {
            let rest = assigned_windows(ms, ws.drop_last(), i);
            let x = ws.last().0;
            let out = rest.push(x);
            assert forall|a: int, b: int| 0 <= a < b < out.len() implies out[a] != out[b] by {
                if b == rest.len() {
                    if rest[a] == x {
                        assert(rest.contains(x));
                        lemma_assigned_from(ms, ws.drop_last(), i, x);
                        let k = choose|k: int|
                            0 <= k < ws.drop_last().len() && (#[trigger] ws.drop_last()[k]).0 == x
                                && assign_idx(ms, ws.drop_last()[k].1) == i;
                        assert(window_tokens(ws)[k] == window_tokens(ws)[ws.len() - 1]);
                    }
                }
            }
        }
    }
}

/// With distinct monitor and window tokens the bootstrap model satisfies
/// the cache invariant.
pub proof fn lemma_fill_wf(ms: Seq<(Monitor, Rect)>, ws: Seq<(Window, Rect)>)
    requires
        seq_nodup(monitor_tokens(ms)),
        seq_nodup(window_tokens(ws)),
    ensures
        cache_wf(spec_fill(ms, ws)),
{
    let res = spec_fill(ms, ws);
    assert forall|i: int, j: int| 0 <= i < j < res.len() implies (#[trigger] res[i].0)
        != (#[trigger] res[j].0) by {
        assert(monitor_tokens(ms)[i] != monitor_tokens(ms)[j]);
    }
    assert forall|i: int| 0 <= i < res.len() implies seq_nodup(#[trigger] res[i].1) by {
        lemma_assigned_nodup(ms, ws, i);
    }
    assert forall|i: int, j: int, x: Window|
        #![trigger res[i].1.contains(x), res[j].1.contains(x)]
        0 <= i < res.len() && 0 <= j < res.len() && i != j implies !(res[i].1.contains(x)
        && res[j].1.contains(x)) by {
        if res[i].1.contains(x) && res[j].1.contains(x) {
            lemma_assigned_from(ms, ws, i, x);
            lemma_assigned_from(ms, ws, j, x);
            let k1 = choose|k: int|
                0 <= k < ws.len() && (#[trigger] ws[k]).0 == x && assign_idx(ms, ws[k].1) == i;
            let k2 = choose|k: int|
                0 <= k < ws.len() && (#[trigger] ws[k]).0 == x && assign_idx(ms, ws[k].1) == j;
            if k1 != k2 {
                assert(window_tokens(ws)[k1] == window_tokens(ws)[k2]);
            }
        }
    }
}

/// The cache: focus queues in monitor focus order, per-monitor layout
/// memory, and the key bitmap, all owned by the single consumer thread.
pub struct Cache {
    key_map: KeyMap,
    queues: Vec<FocusQueue>,
    layouts: Vec<(Monitor, Layout)>,
}

impl Cache {
    /// The focus queues as a mathematical list of (monitor, windows) pairs.
    pub closed spec fn queues_view(&self) -> Seq<(Monitor, Seq<Window>)> {
        queues_of(self.queues@)
    }

    /// The layout memory as a mathematical association list.
    pub closed spec fn layouts_view(&self) -> Seq<(Monitor, Layout)> {
        self.layouts@
    }

    /// The key bitmap words.
    pub closed spec fn keymap_view(&self) -> Seq<u32> {
        self.key_map@
    }

    /// The cache invariant.
    pub open spec fn wf(&self) -> bool {
        cache_wf(self.queues_view()) && layouts_wf(self.layouts_view())
    }

    /// An empty cache: no monitors, no windows, no layout memory, no key
    /// down.
    pub fn new() -> (c: Cache)
        ensures
            c.wf(),
            c.queues_view().len() == 0,
            c.layouts_view().len() == 0,
            forall|k: u8| !key_down(c.keymap_view(), k),
    {
        Cache { key_map: KeyMap::new(), queues: Vec::new(), layouts: Vec::new() }
    }

    /// Note that `window` was focused on or opened on `monitor`: the window
    /// leaves whatever queue held it, enters the front of `monitor`'s queue
    /// (created if the monitor is new), and `monitor` moves to the front of
    /// the monitor order.
    pub fn update_window_queue(&mut self, monitor: Monitor, window: Window)
        requires
            old(self).wf(),
        ensures
            final(self).wf(),
            final(self).queues_view() == spec_note_focus(
                old(self).queues_view(),
                window,
                monitor,
            ),
            final(self).layouts_view() == old(self).layouts_view(),
            final(self).keymap_view() == old(self).keymap_view(),
            final(self).queues_view()[0].0 == monitor,
            final(self).queues_view()[0].1[0] == window,
    {
        let ghost qs0 = self.queues_view();
        // Take the window out of every queue.
        let mut cleaned: Vec<FocusQueue> = Vec::new();
        let mut i: usize = 0;
        while i < self.queues.len()
            invariant
                i <= self.queues@.len(),
                cleaned@.len() == i,
                self.queues_view() == qs0,
                forall|k: int|
                    0 <= k < i ==> (#[trigger] cleaned@[k]).monitor == qs0[k].0
                        && cleaned@[k].windows@ == remove_win(qs0[k].1, window),
            decreases self.queues@.len() - i,
        {
            let wins = filtered_windows(&self.queues[i].windows, window);
            cleaned.push(FocusQueue { monitor: self.queues[i].monitor, windows: wins });
            i = i + 1;
        }
        proof {
            assert(queues_of(cleaned@) =~= remove_everywhere(qs0, window));
        }
        let ghost r = remove_everywhere(qs0, window);
        // Find the queue of `monitor` among the cleaned queues.
        let n = cleaned.len();
        let mut k: usize = 0;
        while k < n && cleaned[k].monitor.handle != monitor.handle
            invariant
                k <= n,
                n == cleaned@.len(),
                queues_of(cleaned@) == r,
                forall|j: int| 0 <= j < k ==> (#[trigger] cleaned@[j]).monitor != monitor,
            decreases n - k,
        {
            k = k + 1;
        }
        if k < n {
            proof {
                lemma_mon_index_converse(r, monitor, k as int);
            }
            let mut fq = cleaned.remove(k);
            let mut wins: Vec<Window> = Vec::new();
            wins.push(window);
            wins.append(&mut fq.windows);
            cleaned.insert(0, FocusQueue { monitor, windows: wins });
            proof {
                assert(queues_of(cleaned@) =~= seq![(monitor, seq![window] + r[k as int].1)]
                    + r.remove(k as int));
            }
        } else {
            proof {
                assert(mon_index(r, monitor) < 0) by {
                    lemma_mon_index_props(r, monitor);
                }
            }
            let mut wins: Vec<Window> = Vec::new();
            wins.push(window);
            cleaned.insert(0, FocusQueue { monitor, windows: wins });
            proof {
                assert(queues_of(cleaned@) =~= seq![(monitor, seq![window])] + r);
            }
        }
        self.queues = cleaned;
        proof {
            lemma_note_focus_wf(qs0, window, monitor);
        }
    }

    /// Note that `window` opened on `monitor`. Opening focuses the window,
    /// so this is the same mutation as a focus note.
    pub fn add_window_to_queue(&mut self, window: Window, monitor: Monitor)
        requires
            old(self).wf(),
        ensures
            final(self).wf(),
            final(self).queues_view() == spec_note_focus(
                old(self).queues_view(),
                window,
                monitor,
            ),
            final(self).layouts_view() == old(self).layouts_view(),
            final(self).keymap_view() == old(self).keymap_view(),
            final(self).queues_view()[0].0 == monitor,
            final(self).queues_view()[0].1[0] == window,
    {
        self.update_window_queue(monitor, window);
    }

    /// Note that `window` on `monitor` closed: remove it from that
    /// monitor's queue. The monitor comes from the event payload, since the
    /// window may already be gone by the time the event is handled.
    pub fn remove_window_from_queue(&mut self, window: Window, monitor: Monitor)
        requires
            old(self).wf(),
        ensures
            final(self).wf(),
            final(self).queues_view() == spec_note_close(
                old(self).queues_view(),
                window,
                monitor,
            ),
            final(self).layouts_view() == old(self).layouts_view(),
            final(self).keymap_view() == old(self).keymap_view(),
    {
        let ghost qs0 = self.queues_view();
        let n = self.queues.len();
        let mut k: usize = 0;
        while k < n && self.queues[k].monitor.handle != monitor.handle
            invariant
                k <= n,
                n == self.queues@.len(),
                self.queues_view() == qs0,
                forall|j: int| 0 <= j < k ==> (#[trigger] self.queues@[j]).monitor != monitor,
            decreases n - k,
        {
            k = k + 1;
        }
        if k < n {
            proof {
                lemma_mon_index_converse(qs0, monitor, k as int);
            }
            let fq = self.queues.remove(k);
            let wins = filtered_windows(&fq.windows, window);
            self.queues.insert(k, FocusQueue { monitor: fq.monitor, windows: wins });
            proof {
                assert(self.queues_view() =~= qs0.update(
                    k as int,
                    (monitor, remove_win(qs0[k as int].1, window)),
                ));
                lemma_note_close_wf(qs0, window, monitor);
            }
        } else {
            proof {
                assert(mon_index(qs0, monitor) < 0) by {
                    lemma_mon_index_props(qs0, monitor);
                }
            }
        }
    }

    /// Note that `monitor` connected: give it an empty queue at the back of
    /// the monitor order, unless it is already known.
    pub fn add_window_queue(&mut self, monitor: Monitor)
        requires
            old(self).wf(),
        ensures
            final(self).wf(),
            final(self).queues_view() == if mon_index(old(self).queues_view(), monitor) >= 0 {
                old(self).queues_view()
            } else {
                old(self).queues_view().push((monitor, Seq::empty()))
            },
            final(self).layouts_view() == old(self).layouts_view(),
            final(self).keymap_view() == old(self).keymap_view(),
    {
        let ghost qs0 = self.queues_view();
        let n = self.queues.len();
        let mut k: usize = 0;
        while k < n && self.queues[k].monitor.handle != monitor.handle
            invariant
                k <= n,
                n == self.queues@.len(),
                self.queues_view() == qs0,
                forall|j: int| 0 <= j < k ==> (#[trigger] self.queues@[j]).monitor != monitor,
            decreases n - k,
        {
            k = k + 1;
        }
        if k < n {
            proof {
                lemma_mon_index_converse(qs0, monitor, k as int);
            }
        } else {
            proof {
                assert(mon_index(qs0, monitor) < 0) by {
                    lemma_mon_index_props(qs0, monitor);
                }
            }
            self.queues.push(FocusQueue { monitor, windows: Vec::new() });
            proof {
                let res = self.queues_view();
                assert(res =~= qs0.push((monitor, Seq::empty())));
                assert forall|a: int, b: int, x: Window|
                    #![trigger res[a].1.contains(x), res[b].1.contains(x)]
                    0 <= a < res.len() && 0 <= b < res.len() && a != b implies !(res[a].1.contains(
                    x,
                ) && res[b].1.contains(x)) by {
                    if a == qs0.len() || b == qs0.len() {
                        assert(!Seq::<Window>::empty().contains(x));
                    }
                }
            }
        }
    }

    /// The monitor currently holding focus: the front of the monitor
    /// order, or the sentinel when no monitor is known yet.
    pub fn focused_monitor(&self) -> (m: Monitor)
        ensures
            m == if self.queues_view().len() > 0 {
                self.queues_view()[0].0
            } else {
                Monitor { handle: 0 }
            },
    {
        if self.queues.len() > 0 {
            self.queues[0].monitor
        } else {
            Monitor { handle: 0 }
        }
    }

    /// The focused window: the front of the focused monitor's queue, or
    /// the sentinel when none is known.
    pub fn focused_window(&self) -> (w: Window)
        ensures
            w == if self.queues_view().len() > 0 && self.queues_view()[0].1.len() > 0 {
                self.queues_view()[0].1[0]
            } else {
                Window { handle: 0 }
            },
    {
        if self.queues.len() > 0 && self.queues[0].windows.len() > 0 {
            self.queues[0].windows[0]
        } else {
            Window { handle: 0 }
        }
    }

    /// The monitor whose queue holds `window`, or the sentinel when the
    /// window is not cached.
    pub fn monitor_with_window(&self, window: Window) -> (m: Monitor)
        ensures
            m == if win_index(self.queues_view(), window) >= 0 {
                self.queues_view()[win_index(self.queues_view(), window)].0
            } else {
                Monitor { handle: 0 }
            },
    {
        let ghost qs = self.queues_view();
        let n = self.queues.len();
        let mut k: usize = 0;
        while k < n
            invariant
                k <= n,
                n == self.queues@.len(),
                qs == self.queues_view(),
                forall|j: int| 0 <= j < k ==> !(#[trigger] qs[j].1).contains(window),
            decreases n - k,
        {
            if vec_has_window(&self.queues[k].windows, window) {
                proof {
                    lemma_win_index_converse(qs, window, k as int);
                }
                return self.queues[k].monitor;
            }
            k = k + 1;
        }
        proof {
            assert(win_index(qs, window) < 0) by {
                lemma_win_index_props(qs, window);
            }
        }
        Monitor { handle: 0 }
    }

    /// The windows on `monitor`, front (most recently focused) first; empty
    /// when the monitor is unknown.
    pub fn windows_on_monitor(&self, monitor: Monitor) -> (out: Vec<Window>)
        ensures
            out@ == if mon_index(self.queues_view(), monitor) >= 0 {
                self.queues_view()[mon_index(self.queues_view(), monitor)].1
            } else {
                Seq::<Window>::empty()
            },
    {
        let ghost qs = self.queues_view();
        let n = self.queues.len();
        let mut k: usize = 0;
        while k < n && self.queues[k].monitor.handle != monitor.handle
            invariant
                k <= n,
                n == self.queues@.len(),
                qs == self.queues_view(),
                forall|j: int| 0 <= j < k ==> (#[trigger] self.queues@[j]).monitor != monitor,
            decreases n - k,
        {
            k = k + 1;
        }
        if k < n {
            proof {
                lemma_mon_index_converse(qs, monitor, k as int);
            }
            copy_windows(&self.queues[k].windows)
        } else {
            proof {
                assert(mon_index(qs, monitor) < 0) by {
                    lemma_mon_index_props(qs, monitor);
                }
            }
            Vec::new()
        }
    }

    /// All cached monitors, in focus order.
    pub fn monitors(&self) -> (out: Vec<Monitor>)
        ensures
            out@ == monitors_of(self.queues_view()),
    {
        let ghost qs = self.queues_view();
        let mut out: Vec<Monitor> = Vec::new();
        let mut k: usize = 0;
        while k < self.queues.len()
            invariant
                k <= self.queues@.len(),
                qs == self.queues_view(),
                out@.len() == k,
                forall|j: int| 0 <= j < k ==> out@[j] == qs[j].0,
            decreases self.queues@.len() - k,
        {
            out.push(self.queues[k].monitor);
            k = k + 1;
        }
        proof {
            assert(out@ =~= monitors_of(qs));
        }
        out
    }

    /// All cached windows, queue by queue in monitor order.
    pub fn windows(&self) -> (out: Vec<Window>)
        ensures
            out@ == all_windows(self.queues_view()),
    {
        let ghost qs = self.queues_view();
        let mut out: Vec<Window> = Vec::new();
        let mut k: usize = 0;
        while k < self.queues.len()
            invariant
                k <= self.queues@.len(),
                qs == self.queues_view(),
                out@ == all_windows(qs.take(k as int)),
            decreases self.queues@.len() - k,
        {
            let mut part = copy_windows(&self.queues[k].windows);
            out.append(&mut part);
            proof {
                assert(qs.take(k + 1).drop_last() =~= qs.take(k as int));
                assert(qs.take(k + 1).last() == qs[k as int]);
            }
            k = k + 1;
        }
        proof {
            assert(qs.take(qs.len() as int) =~= qs);
        }
        out
    }

    /// Remember `layout` for `monitor`, replacing any earlier memory.
    pub fn save_layout(&mut self, monitor: Monitor, layout: Layout)
        requires
            old(self).wf(),
        ensures
            final(self).wf(),
            forall|m2: Monitor|
                layout_of(final(self).layouts_view(), m2) == if m2 == monitor {
                    layout
                } else {
                    layout_of(old(self).layouts_view(), m2)
                },
            final(self).queues_view() == old(self).queues_view(),
            final(self).keymap_view() == old(self).keymap_view(),
    {
        let ghost ls0 = self.layouts_view();
        let n = self.layouts.len();
        let mut k: usize = 0;
        while k < n && self.layouts[k].0.handle != monitor.handle
            invariant
                k <= n,
                n == self.layouts@.len(),
                self.layouts_view() == ls0,
                forall|j: int| 0 <= j < k ==> (#[trigger] self.layouts@[j]).0 != monitor,
            decreases n - k,
        {
            k = k + 1;
        }
        if k < n {
            self.layouts.remove(k);
            proof {
                assert forall|m2: Monitor| m2 != monitor implies layout_of(self.layouts@, m2)
                    == layout_of(ls0, m2) by {
                    lemma_layout_remove_other(ls0, k as int, m2);
                }
                // the removed binding was the only one for `monitor`
                assert forall|j: int| 0 <= j < self.layouts@.len() implies (
                #[trigger] self.layouts@[j]).0 != monitor by {
                    if j < k {
                        assert(self.layouts@[j] == ls0[j]);
                    } else {
                        assert(self.layouts@[j] == ls0[j + 1]);
                    }
                }
            }
        }
        let ghost ls1 = self.layouts_view();
        self.layouts.push((monitor, layout));
        proof {
            assert forall|m2: Monitor|
                layout_of(self.layouts@, m2) == if m2 == monitor {
                    layout
                } else {
                    layout_of(ls0, m2)
                } by {
                lemma_layout_push(ls1, monitor, layout, m2);
            }
            assert forall|i: int, j: int| 0 <= i < j < self.layouts@.len() implies (
            #[trigger] self.layouts@[i].0) != (#[trigger] self.layouts@[j].0) by {
                if j == self.layouts@.len() - 1 {
                    assert(self.layouts@[i] == ls1[i]);
                } else {
                    assert(self.layouts@[i] == ls1[i] && self.layouts@[j] == ls1[j]);
                }
            }
        }
    }

    /// The layout remembered for `monitor`; `Off` when none was saved.
    pub fn layout_on(&self, monitor: Monitor) -> (l: Layout)
        requires
            self.wf(),
        ensures
            l == layout_of(self.layouts_view(), monitor),
    {
        let ghost ls = self.layouts_view();
        let n = self.layouts.len();
        let mut k: usize = 0;
        while k < n
            invariant
                k <= n,
                n == self.layouts@.len(),
                ls == self.layouts_view(),
                layouts_wf(ls),
                forall|j: int| 0 <= j < k ==> (#[trigger] self.layouts@[j]).0 != monitor,
            decreases n - k,
        {
            if self.layouts[k].0.handle == monitor.handle {
                proof {
                    assert forall|j: int|
                        0 <= j < ls.len() && j != k implies (#[trigger] ls[j].0) != monitor by {}
                    lemma_layout_unique(ls, monitor, k as int);
                }
                return self.layouts[k].1;
            }
            k = k + 1;
        }
        proof {
            lemma_layout_absent(ls, monitor);
        }
        Layout::Off
    }

    /// Apply one keyboard delta to the key bitmap and hand back the snapshot
    /// of the keys now down, bound to a cleared intercept intent.
    pub fn update_input(&mut self, delta: KBDelta) -> (inp: Input)
        requires
            old(self).wf(),
        ensures
            final(self).wf(),
            final(self).keymap_view() == spec_apply_delta(old(self).keymap_view(), delta),
            forall|k: u8|
                inp.keys_view().contains(crate::keys::Key { vk: k }) == key_down(
                    final(self).keymap_view(),
                    k,
                ),
            forall|a: int, b: int|
                0 <= a < b < inp.keys_view().len() ==> inp.keys_view()[a].vk
                    < inp.keys_view()[b].vk,
            !inp.intent(),
            final(self).queues_view() == old(self).queues_view(),
            final(self).layouts_view() == old(self).layouts_view(),
    {
        self.key_map.update(delta);
        self.key_map.input()
    }

    /// One-time bootstrap: seed the focus queues from an enumeration of the
    /// live monitors and windows, each with its rectangle. Each window goes
    /// to the first monitor it overlaps by at least half of its own area,
    /// in enumeration order. Tokens identify their objects, so an
    /// enumeration never repeats one.
    pub fn fill(&mut self, monitors: &Vec<(Monitor, Rect)>, windows: &Vec<(Window, Rect)>)
        requires
            old(self).wf(),
            seq_nodup(monitor_tokens(monitors@)),
            seq_nodup(window_tokens(windows@)),
        ensures
            final(self).wf(),
            final(self).queues_view() == spec_fill(monitors@, windows@),
            final(self).layouts_view() == old(self).layouts_view(),
            final(self).keymap_view() == old(self).keymap_view(),
    {
        let ghost ms = monitors@;
        let ghost ws = windows@;
        let mut queues: Vec<FocusQueue> = Vec::new();
        let mut i: usize = 0;
        while i < monitors.len()
            invariant
                i <= ms.len(),
                ms == monitors@,
                queues@.len() == i,
                forall|j: int|
                    0 <= j < i ==> (#[trigger] queues@[j]).monitor == ms[j].0
                        && queues@[j].windows@ == assigned_windows(ms, Seq::empty(), j),
            decreases ms.len() - i,
        {
            queues.push(FocusQueue { monitor: monitors[i].0, windows: Vec::new() });
            i = i + 1;
        }
        let mut k: usize = 0;
        while k < windows.len()
            invariant
                k <= ws.len(),
                ms == monitors@,
                ws == windows@,
                queues@.len() == ms.len(),
                forall|j: int|
                    0 <= j < ms.len() ==> (#[trigger] queues@[j]).monitor == ms[j].0
                        && queues@[j].windows@ == assigned_windows(ms, ws.take(k as int), j),
            decreases ws.len() - k,
        {
            let (win, wrect) = windows[k];
            // first monitor this window mostly lies on
            let n = monitors.len();
            let mut j: usize = 0;
            let mut hit: bool = false;
            while j < n && !hit
                invariant
                    j <= n,
                    n == ms.len(),
                    ms == monitors@,
                    wrect == ws[k as int].1,
                    hit ==> j < n && spec_mostly_on(wrect, ms[j as int].1),
                    forall|t: int| 0 <= t < j ==> !spec_mostly_on(wrect, (#[trigger] ms[t]).1),
                decreases n - j + if hit {
                    0int
                } else {
                    1int
                },
            {
                if crate::rect::mostly_on(&wrect, &monitors[j].1) {
                    hit = true;
                } else {
                    j = j + 1;
                }
            }
            proof {
                if hit {
                    lemma_assign_idx_converse(ms, wrect, j as int);
                } else {
                    assert(assign_idx(ms, wrect) < 0) by {
                        lemma_assign_idx_props(ms, wrect);
                    }
                }
                assert(ws.take(k + 1).drop_last() =~= ws.take(k as int));
                assert(ws.take(k + 1).last() == ws[k as int]);
            }
            if hit {
                let mut fq = queues.remove(j);
                fq.windows.push(win);
                queues.insert(j, fq);
                proof {
                    assert forall|t: int|
                        0 <= t < ms.len() implies (#[trigger] queues@[t]).monitor == ms[t].0
                        && queues@[t].windows@ == assigned_windows(ms, ws.take(k + 1), t) by {}
                }
            }
            k = k + 1;
        }
        self.queues = queues;
        proof {
            assert(ws.take(ws.len() as int) =~= ws);
            assert(self.queues_view() =~= spec_fill(ms, ws));
            lemma_fill_wf(ms, ws);
        }
    }
}

} // verus!
