//! Ephemeral connection identities and the session's fixed parameters.

use vstd::prelude::*;

verus! {

/// How many time units pass between two keepalive Ping frames on one
/// connection.
pub const KEEPALIVE_INTERVAL_SECS: u64 = 30;

/// Capacity of each connection's bounded delivery queues.
pub const CHANNEL_CAPACITY: usize = 100;

/// Relies on uuid::Uuid::new_v4 and its hyphenated Display form: a fresh
/// random version-4 UUID, rendered as 36 ASCII characters. Nothing more is
/// promised of a random value; in particular no uniqueness.
#[verifier::external_body]
pub fn fresh_identity() -> (r: String)
    ensures
        r@.len() == 36,
{
    uuid::Uuid::new_v4().to_string()
}

} // verus!
