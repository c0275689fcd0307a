//! The I/O slot pool: a fixed set of duplex channel endpoints recycled
//! across connections.
//!
//! Each slot walks the cycle Listening → ReadPending → ReplyPending →
//! DisconnectWatch and is then released back to the pool; a failure at any
//! stage releases it immediately. The pool invariant — the free list names
//! exactly the slots that are in the pool, each exactly once — is what rules
//! out both leaks and double releases: a slot that left the pool can only be
//! returned once before the accept loop takes it again.

use vstd::prelude::*;

verus! {

use crate::cache::seq_nodup;

/// Where one slot stands in its service cycle.
#[derive(Copy, Clone, Debug, PartialEq, Eq, Structural)]
pub enum SlotPhase {
    /// In the free pool, waiting for the accept loop to take it.
    InPool,
    /// A connection accept is outstanding on the slot.
    Listening,
    /// A read of the request frame is outstanding.
    ReadPending,
    /// A write of the reply frame is outstanding.
    ReplyPending,
    /// A dummy read is outstanding solely to observe the client closing.
    DisconnectWatch,
}

/// One completion delivered for a slot, together with the outcome of the
/// follow-up operation the worker immediately enqueues.
#[derive(Copy, Clone, Debug, PartialEq, Eq, Structural)]
pub enum SlotEvent {
    /// A client connected; `read_enqueued` says whether the request read
    /// could be enqueued.
    Connected { read_enqueued: bool },
    /// The request was read and dispatched and the reply serialized;
    /// `reply_enqueued` says whether the reply write could be enqueued.
    ReadDone { reply_enqueued: bool },
    /// The reply was written; `watch_enqueued` says whether the
    /// disconnect-watch read could be enqueued.
    WriteDone { watch_enqueued: bool },
    /// The peer closed or the operation failed with a connection error.
    PeerClosed,
}

/// The phase a busy slot moves to on an event, or `None` when the event
/// cannot occur in that phase.
pub open spec fn slot_next(phase: SlotPhase, ev: SlotEvent) -> Option<SlotPhase> {
    if phase == SlotPhase::InPool {
        None
    } else if phase == SlotPhase::DisconnectWatch {
        // any completion on the watch read means the exchange is over
        Some(SlotPhase::InPool)
    } else {
        match ev {
            SlotEvent::PeerClosed => Some(SlotPhase::InPool),
            SlotEvent::Connected { read_enqueued } => if phase == SlotPhase::Listening {
                Some(
                    if read_enqueued {
                        SlotPhase::ReadPending
                    } else {
                        SlotPhase::InPool
                    },
                )
            } else {
                None
            },
            SlotEvent::ReadDone { reply_enqueued } => if phase == SlotPhase::ReadPending {
                Some(
                    if reply_enqueued {
                        SlotPhase::ReplyPending
                    } else {
                        SlotPhase::InPool
                    },
                )
            } else {
                None
            },
            SlotEvent::WriteDone { watch_enqueued } => if phase == SlotPhase::ReplyPending {
                Some(
                    if watch_enqueued {
                        SlotPhase::DisconnectWatch
                    } else {
                        SlotPhase::InPool
                    },
                )
            } else {
                None
            },
        }
    }
}

/// The pool invariant: free-list entries are distinct valid indices, and a
/// slot is in the free list exactly when its phase is `InPool`.
pub open spec fn pool_wf(phases: Seq<SlotPhase>, free: Seq<usize>) -> bool {
    &&& phases.len() <= usize::MAX
    &&& seq_nodup(free)
    &&& forall|k: int| 0 <= k < free.len() ==> (#[trigger] free[k]) < phases.len()
    &&& forall|k: int|
        0 <= k < free.len() ==> phases[(#[trigger] free[k]) as int] == SlotPhase::InPool
    &&& forall|i: int|
        0 <= i < phases.len() && phases[i] == SlotPhase::InPool ==> free.contains(i as usize)
}

/// The fixed pool of I/O slots and its free list.
pub struct SlotPool {
    phases: Vec<SlotPhase>,
    free: Vec<usize>,
}

impl SlotPool {
    /// The phase of every slot.
    pub closed spec fn phases_view(&self) -> Seq<SlotPhase> {
        self.phases@
    }

    /// The free list.
    pub closed spec fn free_view(&self) -> Seq<usize> {
        self.free@
    }

    /// The pool invariant.
    pub open spec fn wf(&self) -> bool {
        pool_wf(self.phases_view(), self.free_view())
    }

    /// A pool of `n` slots, all free.
    pub fn new(n: usize) -> (p: SlotPool)
        ensures
            p.wf(),
            p.phases_view().len() == n,
            p.free_view().len() == n,
            forall|i: int| 0 <= i < n ==> p.phases_view()[i] == SlotPhase::InPool,
    {
        let mut phases: Vec<SlotPhase> = Vec::new();
        let mut free: Vec<usize> = Vec::new();
        let mut i: usize = 0;
        while i < n
            invariant
                i <= n,
                phases@.len() == i,
                free@.len() == i,
                forall|j: int| 0 <= j < i ==> phases@[j] == SlotPhase::InPool,
                forall|j: int| 0 <= j < i ==> (#[trigger] free@[j]) == j,
            decreases n - i,
        {
            phases.push(SlotPhase::InPool);
            free.push(i);
            i = i + 1;
        }
        let p = SlotPool { phases, free };
        proof {
            assert forall|i2: int|
                0 <= i2 < p.phases@.len() && p.phases@[i2] == SlotPhase::InPool implies p.free@
                .contains(i2 as usize) by {
                assert(p.free@[i2] == i2 as usize);
            }
        }
        p
    }

    /// How many slots are free. When it reaches zero the accept loop blocks:
    /// the pool size bounds the number of in-flight connections.
    pub fn available(&self) -> (n: usize)
        ensures
            n == self.free_view().len(),
    {
        self.free.len()
    }

    /// Take one slot out of the pool to issue a new connection accept on
    /// it; `None` when every slot is busy.
    pub fn take(&mut self) -> (r: Option<usize>)
        requires
            old(self).wf(),
        ensures
            final(self).wf(),
            final(self).phases_view().len() == old(self).phases_view().len(),
            old(self).free_view().len() == 0 ==> r is None && final(self).phases_view() == old(
                self,
            ).phases_view() && final(self).free_view() == old(self).free_view(),
            old(self).free_view().len() > 0 ==> ({
                let i = old(self).free_view().last();
                &&& r == Some(i)
                &&& (i as int) < old(self).phases_view().len()
                &&& old(self).phases_view()[i as int] == SlotPhase::InPool
                &&& final(self).phases_view() == old(self).phases_view().update(
                    i as int,
                    SlotPhase::Listening,
                )
                &&& final(self).free_view() == old(self).free_view().drop_last()
            }),
    {
        let ghost phases0 = self.phases@;
        let ghost free0 = self.free@;
        match self.free.pop() {
            Option::Some(i) => {
                let ph = self.phases.remove(i);
                self.phases.insert(i, SlotPhase::Listening);
                proof {
                    assert(self.phases@ =~= phases0.update(i as int, SlotPhase::Listening));
                    let newp = self.phases@;
                    let newf = self.free@;
                    assert(newf =~= free0.drop_last());
                    assert forall|k: int|
                        0 <= k < newf.len() implies newp[(#[trigger] newf[k]) as int]
                        == SlotPhase::InPool by {
                        assert(free0[k] == newf[k]);
                        assert(newf[k] != i) by {
                            if newf[k] == i {
                                assert(free0[k] == free0[free0.len() - 1]);
                            }
                        }
                    }
                    assert forall|j: int|
                        0 <= j < newp.len() && newp[j] == SlotPhase::InPool implies newf.contains(
                        j as usize,
                    ) by {
                        assert(phases0[j] == SlotPhase::InPool);
                        assert(free0.contains(j as usize));
                        let k = choose|k: int| 0 <= k < free0.len() && free0[k] == j as usize;
                        assert(k < free0.len() - 1) by {
                            if k == free0.len() - 1 {
                                assert(free0[k] == i);
                            }
                        }
                        assert(newf[k] == j as usize);
                    }
                }
                Some(i)
            },
            Option::None => None,
        }
    }

    /// Drive one slot by one completion: advance its phase along the cycle
    /// and, when the cycle ends (normally or through a failure), return the
    /// slot to the pool — exactly once.
    pub fn step(&mut self, i: usize, ev: SlotEvent)
        requires
            old(self).wf(),
            (i as int) < old(self).phases_view().len(),
            slot_next(old(self).phases_view()[i as int], ev) is Some,
        ensures
            final(self).wf(),
            final(self).phases_view() == old(self).phases_view().update(
                i as int,
                slot_next(old(self).phases_view()[i as int], ev).unwrap(),
            ),
            final(self).free_view() == if slot_next(old(self).phases_view()[i as int], ev)
                == Some(SlotPhase::InPool) {
                old(self).free_view().push(i)
            } else {
                old(self).free_view()
            },
    {
        let ghost phases0 = self.phases@;
        let ghost free0 = self.free@;
        let cur = self.phases[i];
        let next: SlotPhase = if cur == SlotPhase::DisconnectWatch {
            SlotPhase::InPool
        } else {
            match ev {
                SlotEvent::PeerClosed => SlotPhase::InPool,
                SlotEvent::Connected { read_enqueued } => if read_enqueued {
                    SlotPhase::ReadPending
                } else {
                    SlotPhase::InPool
                },
                SlotEvent::ReadDone { reply_enqueued } => if reply_enqueued {
                    SlotPhase::ReplyPending
                } else {
                    SlotPhase::InPool
                },
                SlotEvent::WriteDone { watch_enqueued } => if watch_enqueued {
                    SlotPhase::DisconnectWatch
                } else {
                    SlotPhase::InPool
                },
            }
        };
        self.phases.remove(i);
        self.phases.insert(i, next);
        if next == SlotPhase::InPool {
            self.free.push(i);
        }
        proof {
            assert(self.phases@ =~= phases0.update(i as int, next));
            let newp = self.phases@;
            let newf = self.free@;
            assert(!free0.contains(i)) by {
                if free0.contains(i) {
                    let k = choose|k: int| 0 <= k < free0.len() && free0[k] == i;
                    assert(phases0[i as int] == SlotPhase::InPool);
                }
            }
            if next == SlotPhase::InPool {
                assert(seq_nodup(newf)) by {
                    assert forall|a: int, b: int| 0 <= a < b < newf.len() implies newf[a]
                        != newf[b] by {
                        if b == newf.len() - 1 {
                            assert(newf[b] == i);
                            assert(free0[a] == newf[a]);
                            if newf[a] == i {
                                assert(free0.contains(i));
                            }
                        }
                    }
                }
                assert forall|j: int|
                    0 <= j < newp.len() && newp[j] == SlotPhase::InPool implies newf.contains(
                    j as usize,
                ) by {
                    if j == i as int {
                        assert(newf[newf.len() - 1] == i);
                        assert(newf.contains(i));
                    } else {
                        assert(phases0[j] == SlotPhase::InPool);
                        assert(free0.contains(j as usize));
                        let k = choose|k: int| 0 <= k < free0.len() && free0[k] == j as usize;
                        assert(newf[k] == j as usize);
                        assert(newf.contains(j as usize));
                    }
                }
            } else {
                assert forall|j: int|
                    0 <= j < newp.len() && newp[j] == SlotPhase::InPool implies newf.contains(
                    j as usize,
                ) by {
                    assert(j != i as int);
                    assert(phases0[j] == SlotPhase::InPool);
                    assert(free0.contains(j as usize));
                }
            }
        }
    }
}

/// One operation applied to the pool: the accept loop taking a slot, or a
/// completion arriving for a slot.
#[derive(Copy, Clone, Debug, PartialEq, Eq, Structural)]
pub enum PoolOp {
    Take,
    Completion(usize, SlotEvent),
}

/// One pool operation at the model level. An operation that cannot happen
/// (taking from an empty pool, a completion for a pooled slot or one that
/// does not fit the slot's phase) changes nothing.
pub open spec fn apply_pool_op(
    phases: Seq<SlotPhase>,
    free: Seq<usize>,
    op: PoolOp,
) -> (Seq<SlotPhase>, Seq<usize>) {
    match op {
        PoolOp::Take => {
            if free.len() > 0 {
                (phases.update(free.last() as int, SlotPhase::Listening), free.drop_last())
            } else {
                (phases, free)
            }
        },
        PoolOp::Completion(i, ev) => {
            if i < phases.len() && slot_next(phases[i as int], ev) is Some {
                let next = slot_next(phases[i as int], ev).unwrap();
                (
                    phases.update(i as int, next),
                    if next == SlotPhase::InPool {
                        free.push(i)
                    } else {
                        free
                    },
                )
            } else {
                (phases, free)
            }
        },
    }
}

/// The pool model after a whole sequence of operations.
pub open spec fn apply_pool_ops(
    phases: Seq<SlotPhase>,
    free: Seq<usize>,
    ops: Seq<PoolOp>,
) -> (Seq<SlotPhase>, Seq<usize>)
    decreases ops.len(),
{
    if ops.len() == 0 {
        (phases, free)
    } else {
        let prev = apply_pool_ops(phases, free, ops.drop_last());
        apply_pool_op(prev.0, prev.1, ops.last())
    }
}

/// One operation keeps the pool invariant.
pub proof fn lemma_pool_op_wf(phases: Seq<SlotPhase>, free: Seq<usize>, op: PoolOp)
    requires
        pool_wf(phases, free),
    ensures
        pool_wf(apply_pool_op(phases, free, op).0, apply_pool_op(phases, free, op).1),
        apply_pool_op(phases, free, op).0.len() == phases.len(),
{
    let res = apply_pool_op(phases, free, op);
    let newp = res.0;
    let newf = res.1;
    match op {
        PoolOp::Take => {
            if free.len() > 0 {
                let i = free.last();
                assert forall|k: int|
                    0 <= k < newf.len() implies newp[(#[trigger] newf[k]) as int]
                    == SlotPhase::InPool by {
                    assert(free[k] == newf[k]);
                    if newf[k] == i {
                        assert(free[k] == free[free.len() - 1]);
                    }
                }
                assert forall|j: int|
                    0 <= j < newp.len() && newp[j] == SlotPhase::InPool implies newf.contains(
                    j as usize,
                ) by {
                    assert(newp[i as int] == SlotPhase::Listening);
                    assert(j != i as int);
                    assert(phases[j] == SlotPhase::InPool);
                    assert(free.contains(j as usize));
                    let k = choose|k: int| 0 <= k < free.len() && free[k] == j as usize;
                    assert(k != free.len() - 1) by {
                        if k == free.len() - 1 {
                            assert(free[k] == i);
                        }
                    }
                    assert(newf[k] == j as usize);
                    assert(newf.contains(j as usize));
                }
            }
        },
        PoolOp::Completion(i, ev) => {
            if i < phases.len() && slot_next(phases[i as int], ev) is Some {
                let next = slot_next(phases[i as int], ev).unwrap();
                assert(!free.contains(i)) by {
                    if free.contains(i) {
                        let k = choose|k: int| 0 <= k < free.len() && free[k] == i;
                        assert(phases[i as int] == SlotPhase::InPool);
                    }
                }
                if next == SlotPhase::InPool {
                    assert(seq_nodup(newf)) by {
                        assert forall|a: int, b: int| 0 <= a < b < newf.len() implies newf[a]
                            != newf[b] by {
                            if b == newf.len() - 1 {
                                assert(newf[b] == i);
                                assert(newf[a] == free[a]);
                                if newf[a] == i {
                                    assert(free.contains(i));
                                }
                            }
                        }
                    }
                    assert forall|j: int|
                        0 <= j < newp.len() && newp[j] == SlotPhase::InPool implies newf.contains(
                        j as usize,
                    ) by {
                        if j == i as int {
                            assert(newf[newf.len() - 1] == i);
                            assert(newf.contains(i));
                        } else {
                            assert(phases[j] == SlotPhase::InPool);
                            assert(free.contains(j as usize));
                            let k = choose|k: int| 0 <= k < free.len() && free[k] == j as usize;
                            assert(newf[k] == j as usize);
                            assert(newf.contains(j as usize));
                        }
                    }
                } else {
                    assert forall|j: int|
                        0 <= j < newp.len() && newp[j] == SlotPhase::InPool implies newf.contains(
                        j as usize,
                    ) by {
                        assert(j != i as int);
                        assert(phases[j] == SlotPhase::InPool);
                        assert(free.contains(j as usize));
                    }
                }
            }
        },
    }
}

/// Slot-pool conservation: after any sequence of take, connect, read,
/// write, disconnect and error transitions, the free list still names
/// exactly the slots that are in the pool, each exactly once — no slot is
/// leaked, none is released twice, and a slot taken out is back in the pool
/// before the accept loop can reuse it.
pub proof fn lemma_pool_conservation(phases: Seq<SlotPhase>, free: Seq<usize>, ops: Seq<PoolOp>)
    requires
        pool_wf(phases, free),
    ensures
        pool_wf(apply_pool_ops(phases, free, ops).0, apply_pool_ops(phases, free, ops).1),
        apply_pool_ops(phases, free, ops).0.len() == phases.len(),
    decreases ops.len(),
{
    if ops.len() > 0 {
        lemma_pool_conservation(phases, free, ops.drop_last());
        let prev = apply_pool_ops(phases, free, ops.drop_last());
        lemma_pool_op_wf(prev.0, prev.1, ops.last());
    }
}

} // verus!
