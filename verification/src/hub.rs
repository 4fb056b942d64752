//! The relay as a whole: every connection's routing state and outbound
//! queue, plus the shared registry. One step takes a frame (or a keepalive
//! tick) arriving at one connection and moves the whole state, exactly as
//! the per-connection tasks do around a live socket: classification,
//! registration, target binding, fire-and-forget delivery into the target's
//! queue, and teardown keyed by the original ephemeral identity.

use vstd::prelude::*;
use crate::frame::Frame;
use crate::frame::FrameView;
use crate::classify::Cmd;
use crate::classify::CmdView;
use crate::classify::classify_frame;
use crate::classify::spec_classify_frame;
use crate::registry::Registry;
use crate::session::SessionState;
use crate::session::SessionView;
use crate::session::Route;
use crate::session::RouteView;
use crate::session::step_state;
use crate::session::step_registry;
use crate::session::step_route;
use crate::session::on_cmd;

verus! {

/// One connection as the relay holds it: its routing state, the ephemeral
/// identity it was given at connect time (the teardown key), whether its
/// session is still live, and its outbound queue of frames.
pub struct Conn {
    state: SessionState,
    eph: String,
    open: bool,
    queue: Vec<Frame>,
}

/// The mathematical value of one connection.
#[verifier::ext_equal]
pub struct ConnView {
    pub sess: SessionView,
    pub eph: Seq<char>,
    pub open: bool,
    pub queue: Seq<FrameView>,
}

/// A queue of frames, each taken to its mathematical value.
spec fn queue_view(q: Seq<Frame>) -> Seq<FrameView> {
    q.map_values(|f: Frame| f@)
}

impl View for Conn {
    type V = ConnView;

    closed spec fn view(&self) -> ConnView {
        ConnView {
            sess: self.state@,
            eph: self.eph@,
            open: self.open,
            queue: queue_view(self.queue@),
        }
    }
}

/// A sequence of connections, each taken to its mathematical value.
spec fn conns_view(s: Seq<Conn>) -> Seq<ConnView> {
    s.map_values(|c: Conn| c@)
}

/// The mathematical value of the relay: the registry as a map from identity
/// to connection index, and every connection's state.
#[verifier::ext_equal]
pub struct HubView {
    pub reg: Map<Seq<char>, usize>,
    pub conns: Seq<ConnView>,
}

/// Every registered identity resolves to a connection that exists.
pub open spec fn hub_inv(h: HubView) -> bool {
    forall|k: Seq<char>| #[trigger] h.reg.contains_key(k) ==> h.reg[k] < h.conns.len()
}

/// The relay: the process-wide registry and all connections.
pub struct Hub {
    reg: Registry<usize>,
    conns: Vec<Conn>,
}

impl View for Hub {
    type V = HubView;

    closed spec fn view(&self) -> HubView {
        HubView { reg: self.reg@, conns: conns_view(self.conns@) }
    }
}

/// `cv` with one more frame at the tail of its queue.
pub open spec fn push_frame(cv: ConnView, f: FrameView) -> ConnView {
    ConnView { sess: cv.sess, eph: cv.eph, open: cv.open, queue: cv.queue.push(f) }
}

/// `cv` with its session ended.
pub open spec fn close_conn(cv: ConnView) -> ConnView {
    ConnView { sess: cv.sess, eph: cv.eph, open: false, queue: cv.queue }
}

/// Apply one routing decision made at connection `c`: a delivery appends
/// the frame to the queue of whichever connection the registry currently
/// holds for the target identity, and is dropped silently if it holds
/// none; Close tears the session down, removing the registry entry keyed
/// by the connection's original ephemeral identity only.
pub open spec fn apply_route(h: HubView, c: usize, route: RouteView) -> HubView {
    match route {
        RouteView::Deliver(t, f) => if h.reg.contains_key(t) {
            let tok = h.reg[t] as int;
            HubView { reg: h.reg, conns: h.conns.update(tok, push_frame(h.conns[tok], f)) }
        } else {
            h
        },
        RouteView::Stay => h,
        RouteView::Close => HubView {
            reg: h.reg.remove(h.conns[c as int].eph),
            conns: h.conns.update(c as int, close_conn(h.conns[c as int])),
        },
    }
}

/// One step of the relay: the command carried by a frame that arrived at
/// connection `c` moves that connection's routing state, the registry, and
/// at most one outbound queue.
pub open spec fn hub_step(h: HubView, c: usize, cmd: CmdView) -> HubView {
    let cv = h.conns[c as int];
    let sv2 = step_state(cv.sess, cmd);
    let reg2 = step_registry(h.reg, c, cmd);
    let route = step_route(cv.sess, cmd);
    let h1 = HubView {
        reg: reg2,
        conns: h.conns.update(
            c as int,
            ConnView { sess: sv2, eph: cv.eph, open: cv.open, queue: cv.queue },
        ),
    };
    apply_route(h1, c, route)
}

/// A new connection under the given ephemeral identity: registered at once
/// under that identity, with an empty queue and no target bound.
pub open spec fn hub_connect(h: HubView, eph: Seq<char>) -> HubView {
    let cv = ConnView {
        sess: SessionView { id: eph, targets: Map::empty() },
        eph: eph,
        open: true,
        queue: Seq::empty(),
    };
    HubView { reg: h.reg.insert(eph, h.conns.len() as usize), conns: h.conns.push(cv) }
}

/// One keepalive tick at connection `c`: a Ping frame with an empty payload
/// joins that connection's own queue, whatever else is in flight.
pub open spec fn hub_tick(h: HubView, c: usize) -> HubView {
    HubView {
        reg: h.reg,
        conns: h.conns.update(c as int, push_frame(h.conns[c as int], FrameView::Ping(Seq::empty()))),
    }
}

/// Removing an element and inserting another at the same place is an
/// update.
proof fn lemma_remove_insert(s: Seq<Conn>, i: int, x: Conn)
    requires
        0 <= i < s.len(),
    ensures
        s.remove(i).insert(i, x) == s.update(i, x),
{
    let t = s.remove(i).insert(i, x);
    assert forall|j: int| 0 <= j < t.len() implies t[j] == s.update(i, x)[j] by {
        if j < i {
            assert(s.remove(i)[j] == s[j]);
        } else if j > i {
            assert(s.remove(i)[j - 1] == s[j]);
        }
    }
    assert(t =~= s.update(i, x));
}

/// Viewing a sequence of connections commutes with updating one of them.
proof fn lemma_conns_view_update(s: Seq<Conn>, i: int, x: Conn)
    requires
        0 <= i < s.len(),
    ensures
        conns_view(s.update(i, x)) == conns_view(s).update(i, x@),
{
    assert(conns_view(s.update(i, x)) =~= conns_view(s).update(i, x@));
}

/// Viewing a queue of frames commutes with pushing one.
proof fn lemma_queue_view_push(q: Seq<Frame>, f: Frame)
    ensures
        queue_view(q.push(f)) == queue_view(q).push(f@),
{
    assert(queue_view(q.push(f)) =~= queue_view(q).push(f@));
}

impl Hub {
    /// Internal invariants: the registry and every session are well formed,
    /// and every registered identity resolves to an existing connection.
    pub closed spec fn wf(&self) -> bool {
        &&& self.reg.wf()
        &&& forall|i: int| 0 <= i < self.conns@.len() ==> (#[trigger] self.conns@[i]).state.wf()
        &&& hub_inv(self@)
    }

    /// A relay with no connections.
    pub fn new() -> (r: Hub)
        ensures
            r.wf(),
            r@.reg == Map::<Seq<char>, usize>::empty(),
            r@.conns == Seq::<ConnView>::empty(),
    {
        let r = Hub { reg: Registry::new(), conns: Vec::new() };
        proof {
            assert(r@.conns =~= Seq::<ConnView>::empty());
        }
        r
    }

    /// How many connections were ever accepted.
    pub fn conn_count(&self) -> (n: usize)
        ensures
            n == self@.conns.len(),
    {
        self.conns.len()
    }

    /// Accept a connection under the given ephemeral identity.
    pub fn connect(&mut self, eph: String) -> (c: usize)
        requires
            old(self).wf(),
        ensures
            final(self).wf(),
            c == old(self)@.conns.len(),
            final(self)@ == hub_connect(old(self)@, eph@),
    {
        let ghost h0 = self@;
        let c = self.conns.len();
        let state = SessionState::new(eph.clone());
        self.conns.push(Conn { state, eph: eph.clone(), open: true, queue: Vec::new() });
        self.reg.register(eph, c);
        proof {
            assert(queue_view(Seq::<Frame>::empty()) =~= Seq::<FrameView>::empty());
            assert(self@.conns =~= hub_connect(h0, self.conns@.last().eph@).conns);
            assert(self@ =~= hub_connect(h0, self.conns@.last().eph@));
            assert forall|i: int| 0 <= i < self.conns@.len() implies (#[trigger] self.conns@[i]).state.wf() by {
                if i < self.conns@.len() - 1 {
                    assert(self.conns@[i] == old(self).conns@[i]);
                }
            }
        }
        c
    }

    /// Accept a connection under a freshly generated ephemeral identity,
    /// and hand that identity back.
    pub fn connect_fresh(&mut self) -> (r: (usize, String))
        requires
            old(self).wf(),
        ensures
            final(self).wf(),
            r.0 == old(self)@.conns.len(),
            r.1@.len() == 36,
            final(self)@ == hub_connect(old(self)@, r.1@),
    {
        let id = crate::ident::fresh_identity();
        let c = self.connect(id.clone());
        (c, id)
    }

    /// Process one classified command from connection `c`.
    pub fn step_cmd(&mut self, c: usize, cmd: Cmd)
        requires
            old(self).wf(),
            c < old(self)@.conns.len(),
            old(self)@.conns[c as int].open,
        ensures
            final(self).wf(),
            final(self)@ == hub_step(old(self)@, c, cmd@),
    {
        let ghost h0 = self@;
        let ghost s0 = self.conns@;
        let mut conn = self.conns.remove(c);
        let route = on_cmd(&mut conn.state, &mut self.reg, c, cmd);
        let ghost h1 = HubView {
            reg: self.reg@,
            conns: h0.conns.update(
                c as int,
                ConnView {
                    sess: conn.state@,
                    eph: conn.eph@,
                    open: conn.open,
                    queue: queue_view(conn.queue@),
                },
            ),
        };
        proof {
            assert(h1 == HubView {
                reg: step_registry(h0.reg, c, cmd@),
                conns: h0.conns.update(
                    c as int,
                    ConnView {
                        sess: step_state(h0.conns[c as int].sess, cmd@),
                        eph: h0.conns[c as int].eph,
                        open: h0.conns[c as int].open,
                        queue: h0.conns[c as int].queue,
                    },
                ),
            });
        }
        match route {
            Route::Close => {
                self.reg.remove(&conn.eph);
                conn.open = false;
                self.conns.insert(c, conn);
                proof {
                    lemma_remove_insert(s0, c as int, self.conns@[c as int]);
                    lemma_conns_view_update(s0, c as int, self.conns@[c as int]);
                    assert(self@ =~= hub_step(h0, c, cmd@));
                }
            },
            Route::Stay => {
                self.conns.insert(c, conn);
                proof {
                    lemma_remove_insert(s0, c as int, self.conns@[c as int]);
                    lemma_conns_view_update(s0, c as int, self.conns@[c as int]);
                    assert(self@ =~= hub_step(h0, c, cmd@));
                }
            },
            Route::Deliver(t, f) => {
                self.conns.insert(c, conn);
                proof {
                    lemma_remove_insert(s0, c as int, self.conns@[c as int]);
                    lemma_conns_view_update(s0, c as int, self.conns@[c as int]);
                    assert(self@ == h1);
                }
                let found = self.reg.lookup(&t);
                match found {
                    Some(tok_ref) => {
                        let tok = *tok_ref;
                        let ghost s1 = self.conns@;
                        let mut target = self.conns.remove(tok);
                        target.queue.push(f);
                        proof {
                            lemma_queue_view_push(old(self).conns@[tok as int].queue@, f);
                        }
                        self.conns.insert(tok, target);
                        proof {
                            lemma_remove_insert(s1, tok as int, self.conns@[tok as int]);
                            lemma_conns_view_update(s1, tok as int, self.conns@[tok as int]);
                            assert(self@.conns =~= h1.conns.update(
                                tok as int,
                                push_frame(h1.conns[tok as int], f@),
                            ));
                            assert(self@ =~= hub_step(h0, c, cmd@));
                        }
                    },
                    None => {
                        proof {
                            assert(self@ =~= hub_step(h0, c, cmd@));
                        }
                    },
                }
            },
        }
    }

    /// Process one frame that arrived at connection `c`.
    pub fn step_frame(&mut self, c: usize, f: Frame)
        requires
            old(self).wf(),
            c < old(self)@.conns.len(),
            old(self)@.conns[c as int].open,
        ensures
            final(self).wf(),
            final(self)@ == hub_step(old(self)@, c, spec_classify_frame(f@)),
    {
        let cmd = classify_frame(f);
        self.step_cmd(c, cmd);
    }

    /// One keepalive tick at connection `c`.
    pub fn tick(&mut self, c: usize)
        requires
            old(self).wf(),
            c < old(self)@.conns.len(),
        ensures
            final(self).wf(),
            final(self)@ == hub_tick(old(self)@, c),
    {
        let ghost s0 = self.conns@;
        let mut conn = self.conns.remove(c);
        let ghost q0 = conn.queue@;
        let ping = Frame::Ping(Vec::new());
        let ghost gping: Frame = ping;
        conn.queue.push(ping);
        proof {
            lemma_queue_view_push(q0, gping);
            assert(gping@ == FrameView::Ping(Seq::<u8>::empty()));
        }
        self.conns.insert(c, conn);
        proof {
            lemma_remove_insert(s0, c as int, self.conns@[c as int]);
            lemma_conns_view_update(s0, c as int, self.conns@[c as int]);
            assert(self@ =~= hub_tick(old(self)@, c));
        }
    }

    /// The connection index the registry currently holds for an identity.
    pub fn resolve(&self, id: &String) -> (r: Option<usize>)
        requires
            self.wf(),
        ensures
            match r {
                Some(tok) => self@.reg.contains_key(id@) && tok == self@.reg[id@],
                None => !self@.reg.contains_key(id@),
            },
    {
        match self.reg.lookup(id) {
            Some(tok) => Some(*tok),
            None => None,
        }
    }

    /// How many frames connection `c`'s outbound queue holds.
    pub fn queue_len(&self, c: usize) -> (n: usize)
        requires
            c < self@.conns.len(),
        ensures
            n == self@.conns[c as int].queue.len(),
    {
        self.conns[c].queue.len()
    }

    /// The `i`-th frame of connection `c`'s outbound queue.
    pub fn queue_at(&self, c: usize, i: usize) -> (f: &Frame)
        requires
            c < self@.conns.len(),
            i < self@.conns[c as int].queue.len(),
        ensures
            f@ == self@.conns[c as int].queue[i as int],
    {
        &self.conns[c].queue[i]
    }

    /// Whether connection `c`'s session is still live.
    pub fn is_open(&self, c: usize) -> (b: bool)
        requires
            c < self@.conns.len(),
        ensures
            b == self@.conns[c as int].open,
    {
        self.conns[c].open
    }

    /// Connection `c`'s current identity.
    pub fn current_id(&self, c: usize) -> (r: &String)
        requires
            c < self@.conns.len(),
        ensures
            r@ == self@.conns[c as int].sess.id,
    {
        self.conns[c].state.current_id()
    }
}

} // verus!
