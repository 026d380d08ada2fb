use vstd::prelude::*;

verus! {

/// Limits of the pool, fixed when it is built.
pub struct Config {
    /// Live connections per target and kind.
    pub max_session_per_target: u8,
    /// Children (channels or SFTP sessions) per connection.
    pub max_channel_per_session: u8,
    /// Bound on loading a target, connecting and authenticating, in seconds.
    pub connect_timeout_secs: u64,
}

impl Default for Config {
    fn default() -> (c: Self)
        ensures
            c.max_session_per_target == 10,
            c.max_channel_per_session == 10,
            c.connect_timeout_secs == 30,
    {
        Config { max_session_per_target: 10, max_channel_per_session: 10, connect_timeout_secs: 30 }
    }
}

} // verus!
