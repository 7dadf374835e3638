use std::time::Duration;

use anawt::event_loop::{loop_action, LoopAction};
use anawt::AnawtOptions;

#[test]
fn default_options_refresh_every_half_second() {
    let o: AnawtOptions<u8> = AnawtOptions::default();
    assert_eq!(o.tick_rate, Duration::from_millis(500));
    assert!(o.settings_pack.is_none());
    let n: AnawtOptions<u8> = AnawtOptions::new();
    assert_eq!(n.tick_rate, Duration::from_millis(500));
    assert!(n.settings_pack.is_none());
}

#[test]
fn builders_set_one_option_each() {
    let o: AnawtOptions<u8> = AnawtOptions::new().tick_rate(Duration::from_secs(2));
    assert_eq!(o.tick_rate, Duration::from_secs(2));
    assert!(o.settings_pack.is_none());
    let o = o.settings_pack(7);
    assert_eq!(o.tick_rate, Duration::from_secs(2));
    assert_eq!(o.settings_pack, Some(7));
}

#[test]
fn loop_stops_when_only_its_own_reference_is_left() {
    let tick = Duration::from_millis(500);
    assert_eq!(loop_action(1, Duration::from_secs(10), tick), LoopAction::Stop);
    assert_eq!(loop_action(1, Duration::ZERO, tick), LoopAction::Stop);
}

#[test]
fn loop_refreshes_after_more_than_a_tick() {
    let tick = Duration::from_millis(500);
    assert_eq!(loop_action(2, Duration::from_millis(501), tick), LoopAction::RefreshAndServe);
    assert_eq!(loop_action(3, Duration::from_millis(500), tick), LoopAction::Serve);
    assert_eq!(loop_action(2, Duration::from_nanos(500_000_001), tick), LoopAction::RefreshAndServe);
    assert_eq!(loop_action(2, Duration::ZERO, tick), LoopAction::Serve);
}

#[test]
fn next_loop_action_reads_the_reference_count() {
    let keep_alive = rclite::Arc::new(());
    let start = std::time::Instant::now();
    assert_eq!(
        anawt::event_loop::next_loop_action(&keep_alive, &start, Duration::from_secs(3600)),
        LoopAction::Stop
    );
    let client = keep_alive.clone();
    assert_eq!(
        anawt::event_loop::next_loop_action(&keep_alive, &start, Duration::from_secs(3600)),
        LoopAction::Serve
    );
    drop(client);
}
