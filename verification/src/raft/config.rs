//! Timing configuration of the replication engine. Intervals are in
//! milliseconds; the election deadline is drawn fresh and at random
//! from the configured window.

use vstd::prelude::*;

verus! {

/// Heartbeat interval and election timeout window, in milliseconds.
/// A valid configuration has `election_timeout_min_millis <
/// election_timeout_max_millis`; the builder enforces it.
#[derive(Debug, Clone, Copy, PartialEq, Eq, Structural)]
pub struct RaftConfig {
    pub heartbeat_interval_millis: u64,
    pub election_timeout_min_millis: u64,
    pub election_timeout_max_millis: u64,
}

impl Default for RaftConfig {
    fn default() -> (r: RaftConfig)
        ensures
            r.heartbeat_interval_millis == 200,
            r.election_timeout_min_millis == 1000,
            r.election_timeout_max_millis == 2000,
    {
        RaftConfig {
            heartbeat_interval_millis: 200,
            election_timeout_min_millis: 1000,
            election_timeout_max_millis: 2000,
        }
    }
}

impl RaftConfig {
    pub open spec fn valid(self) -> bool {
        self.election_timeout_min_millis < self.election_timeout_max_millis
    }

    pub fn builder() -> (r: RaftConfigBuilder)
        ensures
            r.0.heartbeat_interval_millis == 200,
            r.0.election_timeout_min_millis == 1000,
            r.0.election_timeout_max_millis == 2000,
    {
        RaftConfigBuilder(
            RaftConfig {
                heartbeat_interval_millis: 200,
                election_timeout_min_millis: 1000,
                election_timeout_max_millis: 2000,
            },
        )
    }

    /// How long to wait for a leader before starting an election:
    /// a fresh random draw from the configured window.
    pub fn random_election_delay_millis(&self) -> (r: u64)
        requires
            self.valid(),
        ensures
            self.election_timeout_min_millis <= r < self.election_timeout_max_millis,
    {
        gen_range_u64(self.election_timeout_min_millis, self.election_timeout_max_millis)
    }
}

/// Relies on rand's `Rng::gen_range` over a half-open integer range:
/// the draw always lies in the range, and the call panics only on an
/// empty range, which the `requires` rules out. Nothing more is assumed
/// of which value comes back.
#[verifier::external_body]
fn gen_range_u64(low: u64, high: u64) -> (r: u64)
    requires
        low < high,
    ensures
        low <= r < high,
{
    rand::Rng::gen_range(&mut rand::thread_rng(), low..high)
}

#[derive(Debug, Clone, Copy, PartialEq, Eq, Structural)]
pub struct RaftConfigBuilder(pub RaftConfig);

impl Default for RaftConfigBuilder {
    fn default() -> (r: RaftConfigBuilder)
        ensures
            r.0.heartbeat_interval_millis == 200,
            r.0.election_timeout_min_millis == 1000,
            r.0.election_timeout_max_millis == 2000,
    {
        RaftConfigBuilder(
            RaftConfig {
                heartbeat_interval_millis: 200,
                election_timeout_min_millis: 1000,
                election_timeout_max_millis: 2000,
            },
        )
    }
}

impl RaftConfigBuilder {
    pub fn heartbeat_interval(&mut self, millis: u64)
        ensures
            final(self).0 == (RaftConfig { heartbeat_interval_millis: millis, ..old(self).0 }),
    {
        self.0.heartbeat_interval_millis = millis;
    }

    pub fn election_timeout(&mut self, min_millis: u64, max_millis: u64)
        ensures
            final(self).0 == (RaftConfig {
                election_timeout_min_millis: min_millis,
                election_timeout_max_millis: max_millis,
                ..old(self).0
            }),
    {
        self.0.election_timeout_min_millis = min_millis;
        self.0.election_timeout_max_millis = max_millis;
    }

    /// Succeeds exactly when the election timeout window is non-empty.
    pub fn build(&self) -> (r: Result<RaftConfig, RaftConfigError>)
        ensures
            self.0.valid() ==> r == Ok::<RaftConfig, RaftConfigError>(self.0),
            !self.0.valid() ==> r == Err::<RaftConfig, RaftConfigError>(
                RaftConfigError::InvalidElectionTimeoutRange,
            ),
    {
        if self.0.election_timeout_min_millis >= self.0.election_timeout_max_millis {
            return Err(RaftConfigError::InvalidElectionTimeoutRange);
        }
        Ok(self.0)
    }
}

#[derive(Debug, Clone, Copy, PartialEq, Eq, Structural)]
pub enum RaftConfigError {
    InvalidElectionTimeoutRange,
}

} // verus!
