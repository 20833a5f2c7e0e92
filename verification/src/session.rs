//! Client session state management.

use vstd::prelude::*;
use std::time::Instant;
use crate::common::ProtocolVersion;

verus! {

/// `std::time::Instant`, a point in monotonic time.
#[verifier::external_type_specification]
#[verifier::external_body]
pub struct ExInstant(Instant);

/// `Instant::now()`: the current time. Nothing is stated of the value.
#[verifier::external_body]
pub(crate) fn now() -> Instant {
    Instant::now()
}

/// `Instant::elapsed`, in whole nanoseconds (saturating at `u128::MAX`).
/// It reads the clock, so nothing is stated of the value.
#[verifier::external_body]
pub(crate) fn elapsed_nanos(since: Instant) -> u128 {
    since.elapsed().as_nanos()
}

/// `Instant`'s `Debug` formatting, the way the management API shows a
/// session's creation time. The text depends on the clock, so nothing is
/// stated of it.
#[verifier::external_body]
pub(crate) fn instant_text(t: Instant) -> String {
    format!("{:?}", t)
}

/// Client session state.
#[derive(Debug)]
pub struct SessionState {
    /// Client identifier.
    pub client_id: String,
    /// Protocol version used.
    pub protocol_version: ProtocolVersion,
    /// Whether session is clean/clean_start.
    pub clean_session: bool,
    /// Keep alive interval in seconds.
    pub keep_alive: u16,
    /// Whether the client is currently connected.
    pub connected: bool,
    /// Time when the session was created.
    pub created_at: Instant,
    /// Last activity time.
    pub last_active: Instant,
    /// Username (if authenticated).
    pub username: Option<String>,
}

/// Whether a connection with keep alive `keep_alive` seconds, silent for
/// `elapsed_nanos` nanoseconds, has timed out: keep alive 0 never does,
/// otherwise the silence must exceed one and a half keep-alive intervals.
pub open spec fn spec_keep_alive_expired(keep_alive: u16, elapsed_nanos: u128) -> bool {
    keep_alive != 0 && 2 * elapsed_nanos > 3 * (keep_alive as int) * 1_000_000_000
}

/// Whether a connection silent for `elapsed_nanos` nanoseconds has
/// outlived one and a half keep-alive intervals.
pub fn keep_alive_expired(keep_alive: u16, elapsed_nanos: u128) -> (b: bool)
    ensures
        b == spec_keep_alive_expired(keep_alive, elapsed_nanos),
{
    if keep_alive == 0 {
        return false;
    }
    // Compare in nanoseconds: elapsed > 1.5 * keep_alive seconds.
    let limit: u128 = (keep_alive as u128) * 1_500_000_000;
    elapsed_nanos > limit
}

impl SessionState {
    /// Create a new session state: connected, created and last active now.
    pub fn new(
        client_id: String,
        protocol_version: ProtocolVersion,
        clean_session: bool,
        keep_alive: u16,
        username: Option<String>,
    ) -> (s: Self)
        ensures
            s.client_id == client_id,
            s.protocol_version == protocol_version,
            s.clean_session == clean_session,
            s.keep_alive == keep_alive,
            s.connected,
            s.created_at == s.last_active,
            s.username == username,
    {
        let t = now();
        SessionState {
            client_id,
            protocol_version,
            clean_session,
            keep_alive,
            connected: true,
            created_at: t,
            last_active: t,
            username,
        }
    }

    /// Update the last active timestamp; nothing else changes.
    pub fn touch(&mut self)
        ensures
            final(self).client_id == old(self).client_id,
            final(self).protocol_version == old(self).protocol_version,
            final(self).clean_session == old(self).clean_session,
            final(self).keep_alive == old(self).keep_alive,
            final(self).connected == old(self).connected,
            final(self).created_at == old(self).created_at,
            final(self).username == old(self).username,
    {
        self.last_active = now();
    }

    /// Check if the connection is stale (keep alive timeout): never with
    /// keep alive 0, else when more than 1.5 keep-alive intervals have
    /// passed since the last activity.
    pub fn is_stale(&self) -> (b: bool)
        ensures
            self.keep_alive == 0 ==> !b,
            exists|e: u128| b == spec_keep_alive_expired(self.keep_alive, e),
    {
        if self.keep_alive == 0 {
            assert(!spec_keep_alive_expired(self.keep_alive, 0));
            return false;
        }
        let e = elapsed_nanos(self.last_active);
        let b = keep_alive_expired(self.keep_alive, e);
        assert(b == spec_keep_alive_expired(self.keep_alive, e));
        b
    }
}

} // verus!
