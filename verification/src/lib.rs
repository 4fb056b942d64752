//! Core logic of a WebSocket relay hub: connections register an identity,
//! address text payloads to a peer by identity, and stream binary frames to
//! the peer chosen by their most recent addressed message. The registry,
//! the frame classifier and the per-connection routing state machine live
//! here; socket I/O and task scheduling sit outside the library.

pub mod classify;
pub mod frame;
pub mod hub;
pub mod ident;
pub mod props;
pub mod registry;
pub mod session;

pub use frame::Frame;
pub use frame::FrameView;
pub use hub::Hub;
pub use registry::Registry;
pub use session::SessionState;
