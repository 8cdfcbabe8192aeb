//! Settings of the discovery service.
use vstd::prelude::*;

verus! {

/// Where peers announce themselves, and how often.
#[derive(Debug)]
pub struct AppSettings {
    pub discovery_port: u16,
    pub discovery_announce_interval_secs: u64,
}

impl Default for AppSettings {
    /// Port 7766, an announcement every ten seconds.
    fn default() -> (s: Self)
        ensures
            s.discovery_port == 7766,
            s.discovery_announce_interval_secs == 10,
    {
        Self { discovery_port: 7766, discovery_announce_interval_secs: 10 }
    }
}

} // verus!
