//! Per-session routing state and the router's step: how one command moves
//! the session's identity, its target binding and the registry, and what
//! delivery it asks for.

use vstd::prelude::*;
use crate::frame::Frame;
use crate::frame::FrameView;
use crate::classify::Cmd;
use crate::classify::CmdView;
use crate::registry::Registry;

verus! {

/// State a session carries across frames: its current identity (ephemeral
/// at first, reassigned by registration) and its target bindings, keyed by
/// the identity current when the binding was made.
pub struct SessionState {
    id: String,
    targets: Registry<String>,
}

/// The mathematical value of a session's routing state.
#[verifier::ext_equal]
pub struct SessionView {
    pub id: Seq<char>,
    pub targets: Map<Seq<char>, Seq<char>>,
}

/// A map of strings, with each value taken to its character sequence.
spec fn str_map_view(m: Map<Seq<char>, String>) -> Map<Seq<char>, Seq<char>> {
    m.map_values(|s: String| s@)
}

/// `str_map_view` has the same keys as its argument, takes each value to
/// its view, and commutes with insertion.
proof fn lemma_str_map_view(m: Map<Seq<char>, String>)
    ensures
        forall|k: Seq<char>| #[trigger]
            str_map_view(m).contains_key(k) <==> m.contains_key(k),
        forall|k: Seq<char>| m.contains_key(k) ==> #[trigger] str_map_view(m)[k] == m[k]@,
        forall|k: Seq<char>, v: String| #[trigger]
            str_map_view(m.insert(k, v)) == str_map_view(m).insert(k, v@),
{
    assert forall|k: Seq<char>, v: String| #[trigger] str_map_view(m.insert(k, v)) == str_map_view(
        m,
    ).insert(k, v@) by {
        assert(str_map_view(m.insert(k, v)) =~= str_map_view(m).insert(k, v@));
    }
}

impl View for SessionState {
    type V = SessionView;

    closed spec fn view(&self) -> SessionView {
        SessionView { id: self.id@, targets: str_map_view(self.targets@) }
    }
}

impl SessionState {
    /// Internal invariant of the target-binding map.
    pub closed spec fn wf(&self) -> bool {
        self.targets.wf()
    }

    /// A fresh session under the given (ephemeral) identity, with no target
    /// bound yet.
    pub fn new(id: String) -> (s: SessionState)
        ensures
            s.wf(),
            s@ == (SessionView { id: id@, targets: Map::empty() }),
    {
        let s = SessionState { id, targets: Registry::new() };
        proof {
            assert(s@.targets =~= Map::<Seq<char>, Seq<char>>::empty());
        }
        s
    }

    /// The session's current identity.
    pub fn current_id(&self) -> (r: &String)
        ensures
            r@ == self@.id,
    {
        &self.id
    }
}

/// What the router asks the surrounding machinery to do after one command.
pub enum Route {
    /// Enqueue this frame for the connection registered under this identity,
    /// if any is; drop it silently otherwise.
    Deliver(String, Frame),
    /// Nothing: the frame was consumed without effect.
    Stay,
    /// End the session.
    Close,
}

/// The mathematical value of a routing decision.
pub enum RouteView {
    Deliver(Seq<char>, FrameView),
    Stay,
    Close,
}

impl View for Route {
    type V = RouteView;

    open spec fn view(&self) -> RouteView {
        match self {
            Route::Deliver(t, f) => RouteView::Deliver(t@, f@),
            Route::Stay => RouteView::Stay,
            Route::Close => RouteView::Close,
        }
    }
}

/// How one command moves the session's own state: registration rebinds the
/// identity, an addressed payload binds the current identity to its target,
/// everything else leaves the state alone.
pub open spec fn step_state(sv: SessionView, cmd: CmdView) -> SessionView {
    match cmd {
        CmdView::Register(id) => SessionView { id: id, targets: sv.targets },
        CmdView::Addressed(t, _text) => SessionView {
            id: sv.id,
            targets: sv.targets.insert(sv.id, t),
        },
        _ => sv,
    }
}

/// How one command moves the registry: registration inserts the sender's
/// handle under the new identity (last writer wins, the old entry stays),
/// everything else leaves the registry alone.
pub open spec fn step_registry<H>(
    reg: Map<Seq<char>, H>,
    me: H,
    cmd: CmdView,
) -> Map<Seq<char>, H> {
    match cmd {
        CmdView::Register(id) => reg.insert(id, me),
        _ => reg,
    }
}

/// What delivery one command asks for: an addressed payload is forwarded
/// verbatim to its target, a binary payload to the target currently bound
/// to the sender's identity (dropped if none is bound), Close ends the
/// session, and everything else asks nothing.
pub open spec fn step_route(sv: SessionView, cmd: CmdView) -> RouteView {
    match cmd {
        CmdView::Addressed(t, text) => RouteView::Deliver(t, FrameView::Text(text)),
        CmdView::BinaryIn(d) => if sv.targets.contains_key(sv.id) {
            RouteView::Deliver(sv.targets[sv.id], FrameView::Binary(d))
        } else {
            RouteView::Stay
        },
        CmdView::CloseIn => RouteView::Close,
        _ => RouteView::Stay,
    }
}

/// The router: apply one classified command to the session's state and the
/// registry, and say what delivery it asks for. `me` is the handle under
/// which this session registers itself.
pub fn on_cmd<H>(st: &mut SessionState, reg: &mut Registry<H>, me: H, cmd: Cmd) -> (r: Route)
    requires
        old(st).wf(),
        old(reg).wf(),
    ensures
        final(st).wf(),
        final(reg).wf(),
        final(st)@ == step_state(old(st)@, cmd@),
        final(reg)@ == step_registry(old(reg)@, me, cmd@),
        r@ == step_route(old(st)@, cmd@),
{
    match cmd {
        Cmd::Register(id) => {
            st.id = id.clone();
            reg.register(id, me);
            Route::Stay
        },
        Cmd::Addressed(t, text) => {
            proof {
                lemma_str_map_view(st.targets@);
            }
            st.targets.register(st.id.clone(), t.clone());
            Route::Deliver(t, Frame::Text(text))
        },
        Cmd::BinaryIn(d) => {
            proof {
                lemma_str_map_view(st.targets@);
            }
            match st.targets.lookup(&st.id) {
                Some(t) => Route::Deliver(t.clone(), Frame::Binary(d)),
                None => Route::Stay,
            }
        },
        Cmd::CloseIn => Route::Close,
        Cmd::Ignore => Route::Stay,
    }
}

} // verus!
