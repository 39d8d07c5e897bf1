//! Delayed-lockstep synchronizer.
//!
//! The synchronizer owns a growable timeline of per-tick input pairs and
//! a parallel acknowledgement table, exchanges `Input` / `Ack` messages
//! with the remote peer, and gates simulation advancement on having both
//! players' input for the tick `CONSTANT_DELAY` behind the cursor. Its
//! invariants: a populated timeline slot is never overwritten
//! (write-once per participant per tick), an acknowledged entry never
//! reverts, and every tick the cursor has fully passed holds both
//! inputs.
//!
//! The synchronizer never touches a transport itself: the caller drains
//! its receive queue into `fixed_update` and forwards the returned
//! messages to its send queue, so the timeline is owned by exactly one
//! flow.

use vstd::prelude::*;

use crate::input::Input;
use crate::input::neutral_input;
use crate::wire::Message;

verus! {

/// The fixed artificial input delay, in ticks. The simulation for tick
/// `t` runs on the inputs both players sampled at tick `t - CONSTANT_DELAY`.
pub const CONSTANT_DELAY: usize = 8;

/// A datagram endpoint: non-blocking best-effort send and receive, and
/// duplication so that sender and receiver can run on separate threads.
/// Absence of data and transient send failure are both `None`: the
/// caller tries again next tick.
pub trait Socket {
    fn send(&self, buf: &[u8]) -> Option<usize>;

    fn recv(&self, buf: &mut [u8]) -> Option<usize>;

    fn try_clone(&self) -> Option<Self> where Self: Sized;
}

/// One timeline slot: the two players' inputs for one tick. The two
/// halves are populated independently and each at most once.
#[derive(Clone, Copy, Debug)]
pub struct FrameSlot {
    pub p0: Option<Input>,
    pub p1: Option<Input>,
}

impl FrameSlot {
    /// The slot half belonging to participant `pid` (0 or 1).
    pub open spec fn spec_player(self, pid: int) -> Option<Input> {
        if pid == 0 {
            self.p0
        } else {
            self.p1
        }
    }

    pub open spec fn empty_spec() -> FrameSlot {
        FrameSlot { p0: None, p1: None }
    }

    pub fn empty() -> (r: FrameSlot)
        ensures
            r == FrameSlot::empty_spec(),
    {
        FrameSlot { p0: None, p1: None }
    }

    pub fn player(&self, pid: usize) -> (r: Option<Input>)
        requires
            pid < 2,
        ensures
            r == self.spec_player(pid as int),
    {
        if pid == 0 {
            self.p0
        } else {
            self.p1
        }
    }

    pub fn set_player(&mut self, pid: usize, v: Input)
        requires
            pid < 2,
        ensures
            final(self).spec_player(pid as int) == Some(v),
            final(self).spec_player(1 - pid as int) == old(self).spec_player(1 - pid as int),
    {
        if pid == 0 {
            self.p0 = Some(v);
        } else {
            self.p1 = Some(v);
        }
    }
}

/// The synchronizer state: participant index, the next tick to deliver,
/// the timeline of input pairs and the acknowledgement table.
pub struct Network {
    pub self_id: usize,
    pub frame: u64,
    pub frames_buffer: Vec<FrameSlot>,
    pub acked_frames: Vec<bool>,
}

/// Write-once: every slot half populated in `pre` holds the same value
/// in `post`, and the timeline only grows.
pub open spec fn slots_preserved(pre: Network, post: Network) -> bool {
    &&& post.timeline().len() >= pre.timeline().len()
    &&& forall|t: int, pid: int|
        0 <= t < pre.timeline().len() && 0 <= pid < 2 && (#[trigger] pre.slot(t, pid)) is Some
            ==> post.slot(t, pid) == pre.slot(t, pid)
}

/// Monotonic acknowledgements: an acknowledged entry never reverts, and
/// the table only grows.
pub open spec fn acks_monotonic(pre: Network, post: Network) -> bool {
    &&& post.acks().len() >= pre.acks().len()
    &&& forall|t: int| 0 <= t < pre.acks().len() && (#[trigger] pre.acks()[t]) ==> post.acks()[t]
}

/// Write-once is transitive: a value that survives one step survives the
/// next.
pub proof fn lemma_slots_preserved_trans(a: Network, b: Network, c: Network)
    requires
        slots_preserved(a, b),
        slots_preserved(b, c),
    ensures
        slots_preserved(a, c),
{
}

/// So is acknowledgement monotonicity.
pub proof fn lemma_acks_monotonic_trans(a: Network, b: Network, c: Network)
    requires
        acks_monotonic(a, b),
        acks_monotonic(b, c),
    ensures
        acks_monotonic(a, c),
{
}

/// Whether the batch holds an `Input` message for tick `t`.
pub open spec fn has_input_for(msgs: Seq<Message>, t: int) -> bool {
    exists|k: int|
        0 <= k < msgs.len() && ((#[trigger] msgs[k]) matches Message::Input { frame, .. } && frame
            == t)
}

/// An `Input` found in a prefix of the batch is still found in any
/// longer prefix.
proof fn lemma_has_input_prefix(msgs: Seq<Message>, i: int, j: int, t: int)
    requires
        0 <= i <= j <= msgs.len(),
        has_input_for(msgs.take(i), t),
    ensures
        has_input_for(msgs.take(j), t),
{
    let k = choose|k: int|
        0 <= k < msgs.take(i).len() && ((#[trigger] msgs.take(i)[k]) matches Message::Input {
            frame,
            ..
        } && frame == t);
    assert(msgs.take(j)[k] == msgs.take(i)[k]);
}

/// Re-acknowledging is idempotent: marking a tick that is already
/// acknowledged leaves the table exactly as it was, so a re-sent
/// `Input` for an already-acknowledged tick changes nothing.
pub proof fn lemma_ack_idempotent(acks: Seq<bool>, t: int)
    requires
        0 <= t < acks.len(),
        acks[t],
    ensures
        acks.update(t, true) == acks,
{
    assert(acks.update(t, true) =~= acks);
}

/// Well-formedness carries over to a state with the same cursor whose
/// local halves are unchanged (and empty in any new slots) and whose
/// populated remote halves survive.
proof fn lemma_wf_from(pre: Network, post: Network)
    requires
        pre.wf(),
        post.self_id == pre.self_id,
        post.frame == pre.frame,
        post.acks().len() == post.timeline().len(),
        post.timeline().len() >= pre.timeline().len(),
        forall|t: int|
            0 <= t < pre.timeline().len() ==> #[trigger] post.slot(t, pre.local_id()) == pre.slot(
                t,
                pre.local_id(),
            ),
        forall|t: int|
            pre.timeline().len() <= t < post.timeline().len() ==> (#[trigger] post.slot(
                t,
                pre.local_id(),
            )) is None,
        forall|t: int|
            0 <= t < pre.timeline().len() && (#[trigger] pre.slot(t, pre.remote_id())) is Some
                ==> post.slot(t, pre.remote_id()) == pre.slot(t, pre.remote_id()),
    ensures
        post.wf(),
{
    assert forall|t: int| 0 <= t < post.frame implies (#[trigger] post.slot(
        t,
        post.local_id(),
    )) is Some by {
        assert(pre.slot(t, pre.local_id()) is Some);
    }
    assert forall|t: int|
        post.frame <= t < post.timeline().len() implies (#[trigger] post.slot(
        t,
        post.local_id(),
    )) is None by {
        if t < pre.timeline().len() {
            assert(pre.slot(t, pre.local_id()) is None);
        }
    }
    assert forall|t: int|
        0 <= t && t + CONSTANT_DELAY < post.frame implies (#[trigger] post.slot(
        t,
        post.remote_id(),
    )) is Some by {
        assert(pre.slot(t, pre.remote_id()) is Some);
    }
}

impl Network {
    pub open spec fn timeline(self) -> Seq<FrameSlot> {
        self.frames_buffer@
    }

    pub open spec fn acks(self) -> Seq<bool> {
        self.acked_frames@
    }

    /// The next tick to be delivered to the simulation.
    pub open spec fn cursor(self) -> u64 {
        self.frame
    }

    pub open spec fn local_id(self) -> int {
        self.self_id as int
    }

    pub open spec fn remote_id(self) -> int {
        1 - self.self_id as int
    }

    pub open spec fn slot(self, t: int, pid: int) -> Option<Input> {
        self.frames_buffer@[t].spec_player(pid)
    }

    /// Well-formedness, preserved by every operation:
    /// - the acknowledgement table parallels the timeline;
    /// - the cursor is at least `CONSTANT_DELAY` and within the timeline;
    /// - the local half is populated up to the cursor and nowhere past it;
    /// - every tick the cursor has fully passed holds the remote input
    ///   (the delivery-gate invariant).
    pub open spec fn wf(self) -> bool {
        &&& self.self_id < 2
        &&& self.acks().len() == self.timeline().len()
        &&& CONSTANT_DELAY <= self.frame
        &&& self.frame <= self.timeline().len()
        &&& forall|t: int| 0 <= t < self.frame ==> (#[trigger] self.slot(t, self.local_id())) is Some
        &&& forall|t: int|
            self.frame <= t < self.timeline().len() ==> (#[trigger] self.slot(
                t,
                self.local_id(),
            )) is None
        &&& forall|t: int|
            0 <= t && t + CONSTANT_DELAY < self.frame ==> (#[trigger] self.slot(
                t,
                self.remote_id(),
            )) is Some
    }

    /// A fresh synchronizer. The first `CONSTANT_DELAY` local slots are
    /// pre-filled with the neutral input, so the match needs no special
    /// casing at the start: the first deliveries are a no-op warm-up.
    pub fn new(id: usize) -> (n: Network)
        requires
            id < 2,
        ensures
            n.wf(),
            n.self_id == id,
            n.cursor() == CONSTANT_DELAY,
            n.timeline().len() == CONSTANT_DELAY,
            forall|t: int|
                0 <= t < CONSTANT_DELAY ==> #[trigger] n.slot(t, id as int) == Some(
                    neutral_input(),
                ),
            forall|t: int| 0 <= t < CONSTANT_DELAY ==> (#[trigger] n.slot(t, 1 - id as int)) is None,
            forall|t: int| 0 <= t < CONSTANT_DELAY ==> !(#[trigger] n.acks()[t]),
    {
        let mut frames_buffer: Vec<FrameSlot> = Vec::new();
        let mut acked_frames: Vec<bool> = Vec::new();
        let mut i: usize = 0;
        while i < CONSTANT_DELAY
            invariant
                id < 2,
                i <= CONSTANT_DELAY,
                frames_buffer@.len() == i,
                acked_frames@.len() == i,
                forall|t: int|
                    0 <= t < i ==> #[trigger] frames_buffer@[t].spec_player(id as int) == Some(
                        neutral_input(),
                    ),
                forall|t: int|
                    0 <= t < i ==> (#[trigger] frames_buffer@[t].spec_player(
                        1 - id as int,
                    )) is None,
                forall|t: int| 0 <= t < i ==> !(#[trigger] acked_frames@[t]),
            decreases CONSTANT_DELAY - i,
        {
            let mut slot = FrameSlot::empty();
            slot.set_player(id, Input::default());
            frames_buffer.push(slot);
            acked_frames.push(false);
            i = i + 1;
        }
        Network { self_id: id, frame: CONSTANT_DELAY as u64, frames_buffer, acked_frames }
    }

    /// Grow the timeline and acknowledgement table so that `tick` is a
    /// valid index, filling any gap with unpopulated slots and
    /// unacknowledged entries; already-present entries are untouched.
    fn grow_to(&mut self, tick: usize)
        requires
            old(self).wf(),
            tick < usize::MAX,
        ensures
            final(self).wf(),
            final(self).self_id == old(self).self_id,
            final(self).frame == old(self).frame,
            final(self).timeline().len() > tick,
            old(self).timeline().len() > tick ==> final(self).timeline().len() == old(self).timeline().len(),
            old(self).timeline().len() <= tick ==> final(self).timeline().len() == tick + 1,
            forall|t: int|
                0 <= t < old(self).timeline().len() ==> #[trigger] final(self).timeline()[t] == old(self).timeline()[t],
            forall|t: int|
                old(self).timeline().len() <= t < final(self).timeline().len()
                    ==> #[trigger] final(self).timeline()[t] == FrameSlot::empty_spec(),
            forall|t: int|
                0 <= t < old(self).acks().len() ==> #[trigger] final(self).acks()[t] == old(self).acks()[t],
            forall|t: int|
                old(self).acks().len() <= t < final(self).acks().len() ==> !(#[trigger] final(self).acks()[t]),
    {
        while self.frames_buffer.len() <= tick
            invariant
                old(self).wf(),
                self.wf(),
                tick < usize::MAX,
                self.self_id == old(self).self_id,
                self.frame == old(self).frame,
                self.acks().len() == self.timeline().len(),
                self.timeline().len() >= old(self).timeline().len(),
                old(self).timeline().len() > tick ==> self.timeline().len() == old(self).timeline().len(),
                self.timeline().len() <= tick + 1 || self.timeline().len() == old(self).timeline().len(),
                forall|t: int|
                    0 <= t < old(self).timeline().len() ==> #[trigger] self.timeline()[t] == old(self).timeline()[t],
                forall|t: int|
                    old(self).timeline().len() <= t < self.timeline().len()
                        ==> #[trigger] self.timeline()[t] == FrameSlot::empty_spec(),
                forall|t: int|
                    0 <= t < old(self).acks().len() ==> #[trigger] self.acks()[t] == old(self).acks()[t],
                forall|t: int|
                    old(self).acks().len() <= t < self.acks().len() ==> !(#[trigger] self.acks()[t]),
            decreases tick + 1 - self.frames_buffer.len(),
        {
            let ghost pre = *self;
            self.frames_buffer.push(FrameSlot::empty());
            self.acked_frames.push(false);
            proof {
                assert forall|t: int|
                    0 <= t < pre.timeline().len() implies #[trigger] self.slot(t, pre.local_id())
                    == pre.slot(t, pre.local_id()) by {}
                assert forall|t: int|
                    pre.timeline().len() <= t < self.timeline().len() implies (#[trigger] self.slot(
                    t,
                    pre.local_id(),
                )) is None by {}
                assert forall|t: int|
                    0 <= t < pre.timeline().len() && (#[trigger] pre.slot(
                        t,
                        pre.remote_id(),
                    )) is Some implies self.slot(t, pre.remote_id()) == pre.slot(
                    t,
                    pre.remote_id(),
                ) by {}
                lemma_wf_from(pre, *self);
            }
        }
    }

    /// Apply one received message, pushing any reply onto `outgoing`.
    ///
    /// An `Input` grows the timeline to cover its tick, fills the remote
    /// slot if and only if that slot was still empty (write-once: a
    /// duplicate is not re-applied) and always queues an `Ack` back. An
    /// `Ack` marks the sender's own input for that tick as received;
    /// one for an unknown tick, like any other message, changes nothing.
    pub fn handle_message(&mut self, message: Message, outgoing: &mut Vec<Message>)
        requires
            old(self).wf(),
        ensures
            final(self).wf(),
            final(self).self_id == old(self).self_id,
            final(self).frame == old(self).frame,
            slots_preserved(*old(self), *final(self)),
            acks_monotonic(*old(self), *final(self)),
            forall|t: int|
                0 <= t < old(self).timeline().len() ==> #[trigger] final(self).slot(
                    t,
                    old(self).local_id(),
                ) == old(self).slot(t, old(self).local_id()),
            message matches Message::Input { frame, input } ==> {
                if frame < usize::MAX as u64 {
                    &&& (old(self).timeline().len() > frame ==> final(self).timeline().len() == old(self).timeline().len())
                    &&& (old(self).timeline().len() <= frame ==> final(self).timeline().len()
                        == frame + 1)
                    &&& final(self).slot(frame as int, old(self).remote_id()) == (if frame < old(self).timeline().len() && old(self).slot(frame as int, old(self).remote_id()) is Some {
                        old(self).slot(frame as int, old(self).remote_id())
                    } else {
                        Some(input)
                    })
                    &&& forall|t: int|
                        0 <= t < final(self).timeline().len() && t != frame ==> #[trigger] final(self).slot(t, old(self).remote_id()) == (if t < old(self).timeline().len() {
                            old(self).slot(t, old(self).remote_id())
                        } else {
                            None
                        })
                    &&& forall|t: int|
                        0 <= t < old(self).acks().len() ==> #[trigger] final(self).acks()[t] == old(self).acks()[t]
                    &&& final(outgoing)@ == old(outgoing)@.push(Message::Ack { frame })
                } else {
                    &&& final(self).timeline() == old(self).timeline()
                    &&& final(self).acks() == old(self).acks()
                    &&& final(outgoing)@ == old(outgoing)@
                }
            },
            message matches Message::Ack { frame } ==> {
                &&& final(self).timeline() == old(self).timeline()
                &&& (frame < old(self).acks().len() ==> final(self).acks() == old(self).acks().update(frame as int, true))
                &&& (frame >= old(self).acks().len() ==> final(self).acks() == old(self).acks())
                &&& final(outgoing)@ == old(outgoing)@
            },
            !(message matches Message::Input { .. }) && !(message matches Message::Ack { .. }) ==> {
                &&& final(self).timeline() == old(self).timeline()
                &&& final(self).acks() == old(self).acks()
                &&& final(outgoing)@ == old(outgoing)@
            },
    {
        match message {
            Message::Input { frame, input } => {
                if frame < usize::MAX as u64 {
                    let tick = frame as usize;
                    self.grow_to(tick);
                    let ghost mid = *self;
                    let remote: usize = 1 - self.self_id;
                    if self.frames_buffer[tick].player(remote).is_none() {
                        let mut slot = self.frames_buffer[tick];
                        slot.set_player(remote, input);
                        self.frames_buffer.set(tick, slot);
                        proof {
                            assert forall|t: int|
                                0 <= t < mid.timeline().len() implies #[trigger] self.slot(
                                t,
                                mid.local_id(),
                            ) == mid.slot(t, mid.local_id()) by {}
                            assert forall|t: int|
                                0 <= t < mid.timeline().len() && (#[trigger] mid.slot(
                                    t,
                                    mid.remote_id(),
                                )) is Some implies self.slot(t, mid.remote_id()) == mid.slot(
                                t,
                                mid.remote_id(),
                            ) by {}
                            lemma_wf_from(mid, *self);
                        }
                    }
                    proof {
                        assert forall|t: int|
                            0 <= t < old(self).timeline().len() implies #[trigger] self.slot(
                            t,
                            old(self).local_id(),
                        ) == old(self).slot(t, old(self).local_id()) by {
                            assert(mid.slot(t, mid.local_id()) == old(self).slot(
                                t,
                                old(self).local_id(),
                            ));
                        }
                        assert forall|t: int|
                            0 <= t < self.timeline().len() && t != frame implies #[trigger] self.slot(
                            t,
                            old(self).remote_id(),
                        ) == (if t < old(self).timeline().len() {
                            old(self).slot(t, old(self).remote_id())
                        } else {
                            None
                        }) by {
                            if t < old(self).timeline().len() {
                                assert(mid.timeline()[t] == old(self).timeline()[t]);
                            } else {
                                assert(mid.timeline()[t] == FrameSlot::empty_spec());
                            }
                        }
                        assert(slots_preserved(*old(self), *self));
                    }
                    outgoing.push(Message::Ack { frame });
                }
            }
            Message::Ack { frame } => {
                if frame < self.acked_frames.len() as u64 {
                    let ghost pre = *self;
                    self.acked_frames.set(frame as usize, true);
                    proof {
                        assert forall|t: int|
                            0 <= t < pre.timeline().len() implies #[trigger] self.slot(
                            t,
                            pre.local_id(),
                        ) == pre.slot(t, pre.local_id()) by {}
                        assert forall|t: int|
                            0 <= t < pre.timeline().len() && (#[trigger] pre.slot(
                                t,
                                pre.remote_id(),
                            )) is Some implies self.slot(t, pre.remote_id()) == pre.slot(
                            t,
                            pre.remote_id(),
                        ) by {}
                        lemma_wf_from(pre, *self);
                    }
                }
            }
            _ => {}
        }
    }

    /// The pending re-sends this tick, oldest first: one `Input` message
    /// for every still-unacknowledged tick of the open window
    /// `[cursor - 2*CONSTANT_DELAY, cursor)`.
    pub open spec fn spec_resends(self) -> Seq<Message> {
        spec_resends_upto(
            self.timeline(),
            self.acks(),
            self.local_id(),
            window_low_of(self.cursor()),
            self.cursor() as int,
        )
    }

    /// Queue the re-sends for every still-unacknowledged tick of the
    /// retransmission window, oldest first. The window is bounded: ticks
    /// older than two delays before the cursor are never re-sent, even
    /// if still unacknowledged.
    pub fn collect_resends(&self, outgoing: &mut Vec<Message>)
        requires
            self.wf(),
        ensures
            final(outgoing)@ == old(outgoing)@ + self.spec_resends(),
    {
        let lo: u64 = if self.frame >= 2 * (CONSTANT_DELAY as u64) {
            self.frame - 2 * (CONSTANT_DELAY as u64)
        } else {
            0
        };
        let n = self.frames_buffer.len();
        let mut t: u64 = lo;
        while t < self.frame
            invariant
                self.wf(),
                n == self.timeline().len(),
                lo == window_low_of(self.cursor()),
                lo <= t <= self.frame,
                outgoing@ == old(outgoing)@ + spec_resends_upto(
                    self.timeline(),
                    self.acks(),
                    self.local_id(),
                    lo as int,
                    t as int,
                ),
            decreases self.frame - t,
        {
            let ghost prev = spec_resends_upto(
                self.timeline(),
                self.acks(),
                self.local_id(),
                lo as int,
                t as int,
            );
            proof {
                assert(t < self.timeline().len() <= usize::MAX);
            }
            let idx = t as usize;
            if !self.acked_frames[idx] {
                match self.frames_buffer[idx].player(self.self_id) {
                    Some(inp) => {
                        outgoing.push(Message::Input { frame: t, input: inp });
                        proof {
                            let now = spec_resends_upto(
                                self.timeline(),
                                self.acks(),
                                self.local_id(),
                                lo as int,
                                t as int + 1,
                            );
                            assert(now == prev.push(
                                Message::Input { frame: t, input: inp },
                            ));
                            assert(outgoing@ =~= old(outgoing)@ + now);
                        }
                    }
                    None => {
                        proof {
                            assert(self.slot(t as int, self.local_id()) is Some);
                        }
                    }
                }
            }
            t = t + 1;
        }
    }

    /// The consistency check the protocol driver runs each tick: every
    /// tick strictly older than `cursor - CONSTANT_DELAY - 1` must
    /// already hold the remote input. On a well-formed synchronizer this
    /// can never fail, which the contract states: the check is proved
    /// redundant rather than left as a fatal runtime assertion.
    pub fn consistency_check(&self) -> (ok: bool)
        requires
            self.wf(),
        ensures
            ok,
    {
        let remote: usize = 1 - self.self_id;
        if self.frame > CONSTANT_DELAY as u64 {
            let n = self.frames_buffer.len();
            let end = self.frame - CONSTANT_DELAY as u64 - 1;
            let mut i: u64 = 0;
            let mut ok = true;
            while i < end
                invariant
                    self.wf(),
                    n == self.timeline().len(),
                    remote == 1 - self.self_id,
                    end == self.frame - CONSTANT_DELAY - 1,
                    i <= end,
                    ok,
                decreases end - i,
            {
                proof {
                    assert(i < self.timeline().len() <= usize::MAX);
                    assert(self.slot(i as int, self.remote_id()) is Some);
                }
                if self.frames_buffer[i as usize].player(remote).is_none() {
                    ok = false;
                }
                i = i + 1;
            }
            ok
        } else {
            true
        }
    }

    /// Deliver and advance if the delivery gate is open: the simulation
    /// may run tick `cursor` only once both halves of the slot for
    /// `cursor - CONSTANT_DELAY` are populated. If they are, the pair is
    /// handed out, the local input for `cursor` is recorded (write-once:
    /// that slot was still empty) and the cursor moves one tick; if not,
    /// the whole match stalls and nothing changes.
    pub fn try_advance(&mut self, own_input: Input) -> (delivered: Option<(Input, Input)>)
        requires
            old(self).wf(),
        ensures
            final(self).wf(),
            final(self).self_id == old(self).self_id,
            slots_preserved(*old(self), *final(self)),
            acks_monotonic(*old(self), *final(self)),
            forall|t: int|
                0 <= t < old(self).acks().len() ==> #[trigger] final(self).acks()[t] == old(
                    self,
                ).acks()[t],
            forall|t: int|
                0 <= t < old(self).cursor() ==> #[trigger] final(self).timeline()[t] == old(
                    self,
                ).timeline()[t],
            forall|t: int|
                0 <= t < final(self).timeline().len() ==> #[trigger] final(self).slot(
                    t,
                    old(self).remote_id(),
                ) == (if 0 <= t < old(self).timeline().len() {
                    old(self).slot(t, old(self).remote_id())
                } else {
                    None
                }),
            (delivered is Some) <==> (old(self).slot(
                old(self).cursor() - CONSTANT_DELAY,
                0,
            ) is Some && old(self).slot(old(self).cursor() - CONSTANT_DELAY, 1) is Some && old(
                self,
            ).cursor() < usize::MAX as u64),
            delivered matches Some(pair) ==> {
                &&& Some(pair.0) == old(self).slot(old(self).cursor() - CONSTANT_DELAY, 0)
                &&& Some(pair.1) == old(self).slot(old(self).cursor() - CONSTANT_DELAY, 1)
                &&& final(self).cursor() == old(self).cursor() + 1
                &&& final(self).slot(old(self).cursor() as int, old(self).local_id()) == Some(
                    own_input,
                )
            },
            delivered is None ==> {
                &&& final(self).cursor() == old(self).cursor()
                &&& final(self).timeline() == old(self).timeline()
                &&& final(self).acks() == old(self).acks()
            },
    {
        let gate = (self.frame - CONSTANT_DELAY as u64) as usize;
        let slot_pair = self.frames_buffer[gate];
        if self.frame < usize::MAX as u64 {
            match (slot_pair.p0, slot_pair.p1) {
                (Some(a), Some(b)) => {
                    let ghost pre = *self;
                    let tick = self.frame as usize;
                    self.grow_to(tick);
                    let ghost mid = *self;
                    let mut slot = self.frames_buffer[tick];
                    slot.set_player(self.self_id, own_input);
                    self.frames_buffer.set(tick, slot);
                    self.frame = self.frame + 1;
                    proof {
                        let fin = *self;
                        assert forall|t: int| 0 <= t < fin.frame implies (#[trigger] fin.slot(
                            t,
                            fin.local_id(),
                        )) is Some by {
                            if t < mid.frame {
                                assert(mid.slot(t, mid.local_id()) is Some);
                                assert(fin.timeline()[t] == mid.timeline()[t]);
                            }
                        }
                        assert forall|t: int|
                            fin.frame <= t < fin.timeline().len() implies (#[trigger] fin.slot(
                            t,
                            fin.local_id(),
                        )) is None by {
                            assert(mid.slot(t, mid.local_id()) is None);
                            assert(fin.timeline()[t] == mid.timeline()[t]);
                        }
                        assert forall|t: int|
                            0 <= t && t + CONSTANT_DELAY < fin.frame implies (#[trigger] fin.slot(
                            t,
                            fin.remote_id(),
                        )) is Some by {
                            assert(fin.timeline()[t] == mid.timeline()[t]);
                            if t + CONSTANT_DELAY < mid.frame {
                                assert(mid.slot(t, mid.remote_id()) is Some);
                            } else {
                                assert(t == gate);
                                assert(mid.timeline()[t] == pre.timeline()[t]);
                            }
                        }
                        assert(fin.wf());
                        assert forall|t: int, pid: int|
                            0 <= t < pre.timeline().len() && 0 <= pid < 2 && (#[trigger] pre.slot(
                                t,
                                pid,
                            )) is Some implies fin.slot(t, pid) == pre.slot(t, pid) by {
                            assert(mid.timeline()[t] == pre.timeline()[t]);
                            if t != tick {
                                assert(fin.timeline()[t] == mid.timeline()[t]);
                            }
                        }
                        assert forall|t: int|
                            0 <= t < pre.cursor() implies #[trigger] fin.timeline()[t]
                            == pre.timeline()[t] by {
                            assert(mid.timeline()[t] == pre.timeline()[t]);
                            assert(fin.timeline()[t] == mid.timeline()[t]);
                        }
                        assert forall|t: int|
                            0 <= t < fin.timeline().len() implies #[trigger] fin.slot(
                            t,
                            pre.remote_id(),
                        ) == (if 0 <= t < pre.timeline().len() {
                            pre.slot(t, pre.remote_id())
                        } else {
                            None
                        }) by {
                            if t < pre.timeline().len() {
                                assert(mid.timeline()[t] == pre.timeline()[t]);
                            } else {
                                assert(mid.timeline()[t] == FrameSlot::empty_spec());
                            }
                            if t != tick {
                                assert(fin.timeline()[t] == mid.timeline()[t]);
                            }
                        }
                        assert(acks_monotonic(pre, fin));
                    }
                    Some((a, b))
                }
                _ => None,
            }
        } else {
            None
        }
    }
}

/// The replies owed for one drained batch of inbound messages: an `Ack`
/// for every `Input` whose tick the timeline can index, in arrival
/// order.
pub open spec fn spec_ack_replies(msgs: Seq<Message>) -> Seq<Message>
    decreases msgs.len(),
{
    if msgs.len() == 0 {
        Seq::empty()
    } else {
        let rest = spec_ack_replies(msgs.drop_last());
        match msgs.last() {
            Message::Input { frame, .. } => if frame < usize::MAX as u64 {
                rest.push(Message::Ack { frame })
            } else {
                rest
            },
            _ => rest,
        }
    }
}

/// The retransmission window's lower bound for a given cursor: two
/// delays back, clamped at zero.
pub open spec fn window_low_of(cursor: u64) -> int {
    if cursor >= 2 * CONSTANT_DELAY {
        cursor - 2 * CONSTANT_DELAY
    } else {
        0
    }
}

/// The `Input` messages re-sent for the still-unacknowledged ticks of
/// `[lo, hi)`, oldest first; tick `t` contributes participant `pid`'s
/// input stored at `t`.
pub open spec fn spec_resends_upto(
    tl: Seq<FrameSlot>,
    acks: Seq<bool>,
    pid: int,
    lo: int,
    hi: int,
) -> Seq<Message>
    decreases hi - lo,
{
    if hi <= lo {
        Seq::empty()
    } else {
        let prev = spec_resends_upto(tl, acks, pid, lo, hi - 1);
        if 0 <= hi - 1 < acks.len() && !acks[hi - 1] {
            match tl[hi - 1].spec_player(pid) {
                Some(inp) => prev.push(Message::Input { frame: (hi - 1) as u64, input: inp }),
                None => prev,
            }
        } else {
            prev
        }
    }
}

/// What one re-sent message may be: an `Input` for an unacknowledged
/// tick inside `[lo, hi)`, carrying the input stored for participant
/// `pid` at that tick.
pub open spec fn resend_in_window(
    m: Message,
    tl: Seq<FrameSlot>,
    acks: Seq<bool>,
    pid: int,
    lo: int,
    hi: int,
) -> bool {
    match m {
        Message::Input { frame, input } => {
            &&& lo <= frame < hi
            &&& !acks[frame as int]
            &&& tl[frame as int].spec_player(pid) == Some(input)
        },
        _ => false,
    }
}

/// Re-sends depend only on the window's own entries: two states that
/// agree on `[lo, hi)` re-send the same messages.
proof fn lemma_resends_agree(
    tl1: Seq<FrameSlot>,
    acks1: Seq<bool>,
    tl2: Seq<FrameSlot>,
    acks2: Seq<bool>,
    pid: int,
    lo: int,
    hi: int,
)
    requires
        0 <= lo,
        hi <= tl1.len(),
        hi <= tl2.len(),
        hi <= acks1.len(),
        hi <= acks2.len(),
        forall|t: int| lo <= t < hi ==> #[trigger] tl1[t] == tl2[t],
        forall|t: int| lo <= t < hi ==> #[trigger] acks1[t] == acks2[t],
    ensures
        spec_resends_upto(tl1, acks1, pid, lo, hi) == spec_resends_upto(tl2, acks2, pid, lo, hi),
    decreases hi - lo,
{
    if lo < hi {
        lemma_resends_agree(tl1, acks1, tl2, acks2, pid, lo, hi - 1);
    }
}

/// Retransmission window bound: every re-sent message is an `Input` for
/// an unacknowledged tick inside the window — nothing older than `lo`
/// (two delays before the cursor) is ever re-sent, and nothing already
/// acknowledged.
pub proof fn lemma_retransmission_window(
    tl: Seq<FrameSlot>,
    acks: Seq<bool>,
    pid: int,
    lo: int,
    hi: int,
)
    requires
        0 <= lo,
        hi <= u64::MAX,
    ensures
        forall|k: int|
            0 <= k < spec_resends_upto(tl, acks, pid, lo, hi).len() ==> resend_in_window(
                #[trigger] spec_resends_upto(tl, acks, pid, lo, hi)[k],
                tl,
                acks,
                pid,
                lo,
                hi,
            ),
    decreases hi - lo,
{
    if lo < hi {
        lemma_retransmission_window(tl, acks, pid, lo, hi - 1);
        let prev = spec_resends_upto(tl, acks, pid, lo, hi - 1);
        let now = spec_resends_upto(tl, acks, pid, lo, hi);
        assert forall|k: int| 0 <= k < now.len() implies resend_in_window(
            #[trigger] now[k],
            tl,
            acks,
            pid,
            lo,
            hi,
        ) by {
            if k < prev.len() {
                assert(resend_in_window(prev[k], tl, acks, pid, lo, hi - 1));
            }
        }
    }
}

/// What one protocol tick hands back to the caller: the messages to
/// send (acknowledgements first, then re-sends) and, if the delivery
/// gate was open, the input pair for the simulation to run.
pub struct TickOutput {
    pub outgoing: Vec<Message>,
    pub delivered: Option<(Input, Input)>,
}

impl Network {
    /// One protocol tick, run once per fixed simulation step:
    /// 1. apply the whole drained batch of inbound messages, queueing an
    ///    `Ack` for each accepted `Input`;
    /// 2. queue the re-sends for the still-unacknowledged window;
    /// 3. run the consistency check (proved redundant);
    /// 4. if both halves of the slot `CONSTANT_DELAY` behind the cursor
    ///    are populated, deliver that pair, record `own_input` for the
    ///    current tick and advance the cursor — otherwise stall.
    pub fn fixed_update(&mut self, own_input: Input, incoming: &Vec<Message>) -> (out: TickOutput)
        requires
            old(self).wf(),
        ensures
            final(self).wf(),
            final(self).self_id == old(self).self_id,
            slots_preserved(*old(self), *final(self)),
            acks_monotonic(*old(self), *final(self)),
            old(self).cursor() <= final(self).cursor() <= old(self).cursor() + 1,
            (out.delivered is Some) <==> (final(self).slot(
                old(self).cursor() - CONSTANT_DELAY,
                0,
            ) is Some && final(self).slot(old(self).cursor() - CONSTANT_DELAY, 1) is Some && old(
                self,
            ).cursor() < usize::MAX as u64),
            out.delivered matches Some(pair) ==> {
                &&& Some(pair.0) == final(self).slot(old(self).cursor() - CONSTANT_DELAY, 0)
                &&& Some(pair.1) == final(self).slot(old(self).cursor() - CONSTANT_DELAY, 1)
                &&& final(self).cursor() == old(self).cursor() + 1
                &&& final(self).slot(old(self).cursor() as int, old(self).local_id()) == Some(
                    own_input,
                )
            },
            out.delivered is None ==> final(self).cursor() == old(self).cursor(),
            forall|t: int|
                0 <= t < final(self).timeline().len() && (#[trigger] final(self).slot(
                    t,
                    old(self).remote_id(),
                )) is Some ==> (0 <= t < old(self).timeline().len() && old(self).slot(
                    t,
                    old(self).remote_id(),
                ) is Some) || has_input_for(incoming@, t),
            out.outgoing@ == spec_ack_replies(incoming@) + spec_resends_upto(
                final(self).timeline(),
                final(self).acks(),
                old(self).local_id(),
                window_low_of(old(self).cursor()),
                old(self).cursor() as int,
            ),
    {
        let ghost pre = *self;
        let mut out_msgs: Vec<Message> = Vec::new();
        let mut i: usize = 0;
        while i < incoming.len()
            invariant
                pre.wf(),
                self.wf(),
                self.self_id == pre.self_id,
                self.frame == pre.frame,
                slots_preserved(pre, *self),
                acks_monotonic(pre, *self),
                forall|t: int|
                    0 <= t < pre.timeline().len() ==> #[trigger] self.slot(t, pre.local_id())
                        == pre.slot(t, pre.local_id()),
                i <= incoming.len(),
                out_msgs@ == spec_ack_replies(incoming@.take(i as int)),
                forall|t: int|
                    0 <= t < self.timeline().len() && (#[trigger] self.slot(
                        t,
                        pre.remote_id(),
                    )) is Some ==> (0 <= t < pre.timeline().len() && pre.slot(
                        t,
                        pre.remote_id(),
                    ) is Some) || has_input_for(incoming@.take(i as int), t),
            decreases incoming.len() - i,
        {
            let ghost mid = *self;
            let m = incoming[i];
            self.handle_message(m, &mut out_msgs);
            proof {
                lemma_slots_preserved_trans(pre, mid, *self);
                lemma_acks_monotonic_trans(pre, mid, *self);
                assert forall|t: int|
                    0 <= t < pre.timeline().len() implies #[trigger] self.slot(t, pre.local_id())
                    == pre.slot(t, pre.local_id()) by {
                    assert(self.slot(t, mid.local_id()) == mid.slot(t, mid.local_id()));
                }
                let tk1 = incoming@.take(i as int + 1);
                assert(tk1.drop_last() =~= incoming@.take(i as int));
                assert(tk1.last() == incoming@[i as int]);
                assert(out_msgs@ =~= spec_ack_replies(tk1));
                assert forall|t: int|
                    0 <= t < self.timeline().len() && (#[trigger] self.slot(
                        t,
                        pre.remote_id(),
                    )) is Some implies (0 <= t < pre.timeline().len() && pre.slot(
                        t,
                        pre.remote_id(),
                    ) is Some) || has_input_for(tk1, t) by {
                    let new_from_this = match m {
                        Message::Input { frame, .. } => frame < usize::MAX as u64 && t == frame,
                        _ => false,
                    };
                    if new_from_this {
                        assert(tk1[i as int] == m);
                        assert(has_input_for(tk1, t));
                    } else {
                        assert(self.slot(t, mid.remote_id()) == mid.slot(t, mid.remote_id()));
                        if 0 <= t < pre.timeline().len() && pre.slot(t, pre.remote_id()) is Some {
                        } else {
                            assert(has_input_for(incoming@.take(i as int), t));
                            lemma_has_input_prefix(incoming@, i as int, i as int + 1, t);
                        }
                    }
                }
            }
            i = i + 1;
        }
        proof {
            assert(incoming@.take(incoming@.len() as int) =~= incoming@);
        }
        let ghost mid2 = *self;
        self.collect_resends(&mut out_msgs);
        let ok = self.consistency_check();
        proof {
            assert(ok);
        }
        let delivered = self.try_advance(own_input);
        proof {
            let fin = *self;
            lemma_slots_preserved_trans(pre, mid2, fin);
            lemma_acks_monotonic_trans(pre, mid2, fin);
            assert(fin.slot(pre.cursor() - CONSTANT_DELAY, 0) == mid2.slot(
                pre.cursor() - CONSTANT_DELAY,
                0,
            ));
            assert(fin.slot(pre.cursor() - CONSTANT_DELAY, 1) == mid2.slot(
                pre.cursor() - CONSTANT_DELAY,
                1,
            ));
            // the re-sends read only entries below the old cursor, which
            // the advance leaves untouched as well
            assert forall|t: int|
                window_low_of(pre.cursor()) <= t < pre.cursor() implies #[trigger] fin.timeline()[t]
                == mid2.timeline()[t] by {}
            assert forall|t: int|
                window_low_of(pre.cursor()) <= t < pre.cursor() implies #[trigger] fin.acks()[t]
                == mid2.acks()[t] by {}
            lemma_resends_agree(
                mid2.timeline(),
                mid2.acks(),
                fin.timeline(),
                fin.acks(),
                pre.local_id(),
                window_low_of(pre.cursor()),
                pre.cursor() as int,
            );
            // a populated remote half either predates this tick or was
            // put there by an `Input` of this very batch: the advance
            // adds none
            assert forall|t: int|
                0 <= t < fin.timeline().len() && (#[trigger] fin.slot(
                    t,
                    pre.remote_id(),
                )) is Some implies (0 <= t < pre.timeline().len() && pre.slot(
                t,
                pre.remote_id(),
            ) is Some) || has_input_for(incoming@, t) by {
                assert(fin.slot(t, mid2.remote_id()) == (if 0 <= t < mid2.timeline().len() {
                    mid2.slot(t, mid2.remote_id())
                } else {
                    None
                }));
            }
        }
        TickOutput { outgoing: out_msgs, delivered }
    }

    /// The next tick to be delivered to the simulation.
    pub fn frame_cursor(&self) -> (r: u64)
        ensures
            r == self.cursor(),
    {
        self.frame
    }

    /// This peer's participant index (0 or 1).
    pub fn participant(&self) -> (r: usize)
        ensures
            r == self.self_id,
    {
        self.self_id
    }

    /// How many ticks the timeline currently covers.
    pub fn timeline_len(&self) -> (r: usize)
        ensures
            r == self.timeline().len(),
    {
        self.frames_buffer.len()
    }

    /// The input recorded for participant `pid` at tick `t`, if any.
    pub fn input_at(&self, t: usize, pid: usize) -> (r: Option<Input>)
        requires
            t < self.timeline().len(),
            pid < 2,
        ensures
            r == self.slot(t as int, pid as int),
    {
        self.frames_buffer[t].player(pid)
    }

    /// Whether the remote peer has acknowledged this peer's input for
    /// tick `t`.
    pub fn is_acked(&self, t: usize) -> (r: bool)
        requires
            t < self.acks().len(),
        ensures
            r == self.acks()[t as int],
    {
        self.acked_frames[t]
    }
}

/// Delivery-gate invariant: every tick the cursor has fully passed
/// holds both players' inputs — the simulation never advanced past a
/// tick it had no right to.
pub proof fn lemma_delivery_gate(n: Network, t: int)
    requires
        n.wf(),
        0 <= t,
        t + CONSTANT_DELAY < n.cursor(),
    ensures
        n.slot(t, 0) is Some,
        n.slot(t, 1) is Some,
{
    assert(n.slot(t, n.local_id()) is Some);
    assert(n.slot(t, n.remote_id()) is Some);
}

} // verus!
