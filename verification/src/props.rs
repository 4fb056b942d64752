//! Laws of the relay, proved over the step functions that the executable
//! relay is verified against.

use vstd::prelude::*;
use crate::frame::FrameView;
use crate::classify::CmdView;
use crate::hub::HubView;
use crate::hub::hub_inv;
use crate::hub::hub_step;
use crate::hub::hub_tick;

verus! {

/// If connection `b` registers identity `x` and connection `a` then sends a
/// text payload addressed to `x`, that exact text joins `b`'s outbound
/// queue, and nothing had joined it from the registration itself.
pub proof fn lemma_addressed_text_reaches_registered_target(
    h: HubView,
    b: usize,
    a: usize,
    x: Seq<char>,
    text: Seq<char>,
)
    requires
        hub_inv(h),
        b < h.conns.len(),
        a < h.conns.len(),
    ensures
        ({
            let h1 = hub_step(h, b, CmdView::Register(x));
            let h2 = hub_step(h1, a, CmdView::Addressed(x, text));
            h2.conns[b as int].queue == h1.conns[b as int].queue.push(FrameView::Text(text))
                && h1.conns[b as int].queue == h.conns[b as int].queue
        }),
{
}

/// After a second connection registers the same identity, it owns all
/// future routing for it: an addressed payload reaches the later
/// registrant, and the earlier one's queue is left alone.
pub proof fn lemma_reregistration_takes_over(
    h: HubView,
    b: usize,
    c: usize,
    a: usize,
    x: Seq<char>,
    text: Seq<char>,
)
    requires
        hub_inv(h),
        b < h.conns.len(),
        c < h.conns.len(),
        a < h.conns.len(),
        b != c,
    ensures
        ({
            let h1 = hub_step(h, b, CmdView::Register(x));
            let h2 = hub_step(h1, c, CmdView::Register(x));
            let h3 = hub_step(h2, a, CmdView::Addressed(x, text));
            h3.conns[c as int].queue == h2.conns[c as int].queue.push(FrameView::Text(text))
                && h3.conns[b as int].queue == h2.conns[b as int].queue
        }),
{
}

/// No step ever removes or reorders what a queue already holds: whatever a
/// connection was sent before stays in place, so no delivery is redirected
/// retroactively.
pub proof fn lemma_step_queues_grow(h: HubView, c: usize, cmd: CmdView, q: int)
    requires
        hub_inv(h),
        c < h.conns.len(),
        0 <= q < h.conns.len(),
    ensures
        ({
            let h2 = hub_step(h, c, cmd);
            h.conns[q as int].queue.is_prefix_of(h2.conns[q as int].queue)
        }),
{
    let h2 = hub_step(h, c, cmd);
    let q0 = h.conns[q as int].queue;
    let q2 = h2.conns[q as int].queue;
    assert(q0 == q2 || (exists|f: FrameView| q2 == q0.push(f)));
    if q0 == q2 {
        assert(q0 =~= q2.subrange(0, q0.len() as int));
    } else {
        let f = choose|f: FrameView| q2 == q0.push(f);
        assert(q0 =~= q2.subrange(0, q0.len() as int));
    }
}

/// A binary frame from a connection that has no target bound changes
/// nothing at all: no queue receives it and no state moves.
pub proof fn lemma_unbound_binary_dropped(h: HubView, a: usize, d: Seq<u8>)
    requires
        hub_inv(h),
        a < h.conns.len(),
        !h.conns[a as int].sess.targets.contains_key(h.conns[a as int].sess.id),
    ensures
        hub_step(h, a, CmdView::BinaryIn(d)) == h,
{
    let h2 = hub_step(h, a, CmdView::BinaryIn(d));
    assert(h.conns.update(a as int, h.conns[a as int]) =~= h.conns);
    assert(h2 =~= h);
}

/// After an addressed text to target `y`, a following binary frame from the
/// same connection goes to whichever connection the registry holds for
/// `y` — and to no other queue. Re-addressing to a new target before the
/// binary frame therefore redirects it.
pub proof fn lemma_binary_follows_binding(
    h: HubView,
    a: usize,
    y: Seq<char>,
    text: Seq<char>,
    d: Seq<u8>,
)
    requires
        hub_inv(h),
        a < h.conns.len(),
        h.reg.contains_key(y),
    ensures
        ({
            let h1 = hub_step(h, a, CmdView::Addressed(y, text));
            let h2 = hub_step(h1, a, CmdView::BinaryIn(d));
            let yc = h.reg[y];
            h2.conns[yc as int].queue == h1.conns[yc as int].queue.push(FrameView::Binary(d))
                && (forall|q: int|
                    0 <= q < h.conns.len() && q != yc as int ==> h2.conns[q as int].queue
                        == h1.conns[q as int].queue)
        }),
{
}

/// Keepalive Ping frames land on the connection's own queue one per tick,
/// independent of anything already queued, and touch no other connection:
/// `n` ticks append exactly `n` Pings after whatever was there.
pub proof fn lemma_keepalive_pings(h: HubView, c: usize, n: nat)
    requires
        c < h.conns.len(),
    ensures
        ({
            let h2 = apply_ticks(h, c, n);
            h2.conns.len() == h.conns.len() && h2.conns[c as int].queue.len() == h.conns[c as int].queue.len()
                + n && (forall|i: int|
                0 <= i < h.conns[c as int].queue.len() ==> h2.conns[c as int].queue[i] == h.conns[c as int].queue[i])
                && (forall|i: int|
                h.conns[c as int].queue.len() <= i < h2.conns[c as int].queue.len() ==> h2.conns[c as int].queue[i]
                    == FrameView::Ping(Seq::<u8>::empty())) && (forall|q: int|
                0 <= q < h.conns.len() && q != c ==> h2.conns[q as int] == h.conns[q as int]) && h2.reg == h.reg
        }),
    decreases n,
{
    if n > 0 {
        lemma_keepalive_pings(h, c, (n - 1) as nat);
    }
}

/// `n` keepalive ticks at connection `c`, one after the other.
pub open spec fn apply_ticks(h: HubView, c: usize, n: nat) -> HubView
    decreases n,
{
    if n == 0 {
        h
    } else {
        hub_tick(apply_ticks(h, c, (n - 1) as nat), c)
    }
}

/// On session termination the registry no longer resolves the session's
/// original ephemeral identity, and the session is closed.
pub proof fn lemma_close_unregisters(h: HubView, c: usize)
    requires
        c < h.conns.len(),
    ensures
        ({
            let h2 = hub_step(h, c, CmdView::CloseIn);
            !h2.reg.contains_key(h.conns[c as int].eph) && h2.conns[c as int].open == false
        }),
{
}

/// Frames from one sender to one target arrive in the order sent: after
/// `b` registers `x`, two texts addressed to `x` and then a binary frame,
/// all from `a`, stand on `b`'s queue in exactly that order.
pub proof fn lemma_ordered_delivery(
    h: HubView,
    b: usize,
    a: usize,
    x: Seq<char>,
    t1: Seq<char>,
    t2: Seq<char>,
    d: Seq<u8>,
)
    requires
        hub_inv(h),
        b < h.conns.len(),
        a < h.conns.len(),
    ensures
        ({
            let h1 = hub_step(h, b, CmdView::Register(x));
            let h2 = hub_step(h1, a, CmdView::Addressed(x, t1));
            let h3 = hub_step(h2, a, CmdView::Addressed(x, t2));
            let h4 = hub_step(h3, a, CmdView::BinaryIn(d));
            h4.conns[b as int].queue == h.conns[b as int].queue.push(FrameView::Text(t1)).push(
                FrameView::Text(t2),
            ).push(FrameView::Binary(d))
        }),
{
}

} // verus!
