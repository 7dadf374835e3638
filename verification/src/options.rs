use vstd::prelude::*;

use std::time::Duration;

use crate::time::{duration_from_millis, duration_nanos};

verus! {

/// How often torrent statuses are refreshed when nothing else is asked, in
/// milliseconds.
pub const DEFAULT_TICK_RATE_MILLIS: u64 = 500;

/// Options of a client. `P` is libtorrent's settings pack.
pub struct AnawtOptions<P> {
    /// How often to update torrent status
    pub tick_rate: Duration,
    pub settings_pack: Option<P>,
}

impl<P> AnawtOptions<P> {
    /// The default options: a tick rate of half a second and the
    /// session's own settings.
    pub fn new() -> (r: Self)
        ensures
            duration_nanos(r.tick_rate) == DEFAULT_TICK_RATE_MILLIS * 1_000_000,
            r.settings_pack is None,
    {
        Self::default()
    }

    /// How often to update torrent status
    pub fn tick_rate(self, tick_rate: Duration) -> (r: Self)
        ensures
            r.tick_rate == tick_rate,
            r.settings_pack == self.settings_pack,
    {
        let mut options = self;
        options.tick_rate = tick_rate;
        options
    }

    /// The settings that the session is created with.
    pub fn settings_pack(self, settings_pack: P) -> (r: Self)
        ensures
            r.tick_rate == self.tick_rate,
            r.settings_pack == Some(settings_pack),
    {
        let mut options = self;
        options.settings_pack = Some(settings_pack);
        options
    }
}

impl<P> Default for AnawtOptions<P> {
    fn default() -> (r: Self)
        ensures
            duration_nanos(r.tick_rate) == DEFAULT_TICK_RATE_MILLIS * 1_000_000,
            r.settings_pack is None,
    {
        AnawtOptions { tick_rate: duration_from_millis(DEFAULT_TICK_RATE_MILLIS), settings_pack: None }
    }
}

} // verus!
