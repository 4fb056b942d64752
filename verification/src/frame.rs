//! The frames the relay moves around, as the routing logic sees them.

use vstd::prelude::*;

verus! {

/// One WebSocket-style frame. Text frames carry the application's JSON
/// protocol; binary frames carry opaque payloads; Ping, Pong and Close are
/// control frames. The relay never reads a Close frame's payload, so none
/// is modelled.
#[derive(Debug, PartialEq, Eq)]
pub enum Frame {
    Text(String),
    Binary(Vec<u8>),
    Ping(Vec<u8>),
    Pong(Vec<u8>),
    Close,
}

/// The mathematical value of a frame: its payload as a sequence.
pub enum FrameView {
    Text(Seq<char>),
    Binary(Seq<u8>),
    Ping(Seq<u8>),
    Pong(Seq<u8>),
    Close,
}

impl View for Frame {
    type V = FrameView;

    open spec fn view(&self) -> FrameView {
        match self {
            Frame::Text(s) => FrameView::Text(s@),
            Frame::Binary(b) => FrameView::Binary(b@),
            Frame::Ping(b) => FrameView::Ping(b@),
            Frame::Pong(b) => FrameView::Pong(b@),
            Frame::Close => FrameView::Close,
        }
    }
}

} // verus!
