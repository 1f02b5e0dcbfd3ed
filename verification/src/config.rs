//! Configuration the core consumes. Loading it from the environment is the
//! surrounding program's business; the core only reads the values.

use vstd::prelude::*;

verus! {

#[derive(Debug, Clone)]
pub struct DiscordConfig {
    /// An IANA time zone name, e.g. "America/Los_Angeles".
    pub timezone: String,
    pub bot_token: String,
    pub public_key: String,
    pub server_id: String,
}

#[derive(Debug, Clone)]
pub struct FirebaseConfig {
    pub project_id: String,
    pub cert_base64: String,
}

#[derive(Debug, Clone)]
pub struct Config {
    pub port: u16,
    pub job_queue_poll_interval_ms: u64,
    /// How many players a game needs before a member already in it may join
    /// again.
    pub min_players_before_rejoin: usize,
    pub sardines_expiry_seconds: u64,
    /// The process base seed that deterministic draws derive from.
    pub random_seed: String,
    pub discord: DiscordConfig,
    pub firebase: FirebaseConfig,
}

} // verus!
