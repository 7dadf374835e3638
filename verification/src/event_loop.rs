use vstd::prelude::*;

use std::time::{Duration, Instant};

use crate::time::{duration_as_nanos, duration_nanos};

verus! {

#[verifier::external_type_specification]
#[verifier::external_body]
pub struct ExInstant(Instant);

#[verifier::external_type_specification]
#[verifier::external_body]
#[verifier::reject_recursive_types(T)]
pub struct ExRcliteArc<T>(rclite::Arc<T>);

/// Calls `rclite::Arc::strong_count`: how many `Arc`s share the allocation
/// of `arc` at the moment of the call. Other threads may clone or drop theirs
/// at any time, so nothing is stated of the result.
#[verifier::external_body]
fn strong_count(arc: &rclite::Arc<()>) -> (n: usize) {
    arc.strong_count()
}

/// Calls `Instant::elapsed`: the time since `instant`, which depends on the
/// clock, so nothing is stated of the result.
#[verifier::external_body]
fn elapsed(instant: &Instant) -> (d: Duration) {
    instant.elapsed()
}

/// What the client's event loop does next.
#[derive(Clone, Copy, Debug, PartialEq, Eq, Structural)]
pub enum LoopAction {
    /// Every client has been dropped: the loop ends.
    Stop,
    /// Ask the session for fresh torrent statuses, then serve the pending
    /// messages and alerts.
    RefreshAndServe,
    /// Serve the pending messages and alerts.
    Serve,
}

/// The loop stops once the loop's own reference is the last one left, and
/// asks for fresh statuses once more than a tick has passed since the last
/// time it did.
pub open spec fn loop_action_spec(live_refs: usize, since_update: Duration, tick_rate: Duration) -> LoopAction {
    if live_refs == 1 {
        LoopAction::Stop
    } else if duration_nanos(since_update) > duration_nanos(tick_rate) {
        LoopAction::RefreshAndServe
    } else {
        LoopAction::Serve
    }
}

/// The loop stops when its own reference to the keep-alive token is the
/// only one left, and never while some client still holds one.
pub proof fn lemma_loop_stops_only_when_alone(live_refs: usize, since_update: Duration, tick_rate: Duration)
    ensures
        (loop_action_spec(live_refs, since_update, tick_rate) == LoopAction::Stop) == (live_refs
            == 1),
{
}

/// While some client is alive, however many, the loop asks for fresh
/// statuses exactly when more than a tick has passed since it last did,
/// and otherwise only serves.
pub proof fn lemma_loop_refreshes_after_a_tick(live_refs: usize, since_update: Duration, tick_rate: Duration)
    requires
        live_refs != 1,
    ensures
        (loop_action_spec(live_refs, since_update, tick_rate) == LoopAction::RefreshAndServe) == (
        duration_nanos(since_update) > duration_nanos(tick_rate)),
        (loop_action_spec(live_refs, since_update, tick_rate) == LoopAction::Serve) == (
        duration_nanos(since_update) <= duration_nanos(tick_rate)),
        loop_action_spec(live_refs, since_update, tick_rate) == loop_action_spec(
            2,
            since_update,
            tick_rate,
        ),
{
}

/// Decides the loop's next step from the number of live references to the
/// client's keep-alive token and the time since statuses were last asked for.
pub fn loop_action(live_refs: usize, since_update: Duration, tick_rate: Duration) -> (r: LoopAction)
    ensures
        r == loop_action_spec(live_refs, since_update, tick_rate),
        (r == LoopAction::Stop) == (live_refs == 1),
        live_refs != 1 ==> ((r == LoopAction::RefreshAndServe) == (duration_nanos(since_update)
            > duration_nanos(tick_rate))),
        live_refs != 1 ==> ((r == LoopAction::Serve) == (duration_nanos(since_update)
            <= duration_nanos(tick_rate))),
{
    proof {
        lemma_loop_stops_only_when_alone(live_refs, since_update, tick_rate);
        if live_refs != 1 {
            lemma_loop_refreshes_after_a_tick(live_refs, since_update, tick_rate);
        }
    }
    if live_refs == 1 {
        LoopAction::Stop
    } else if duration_as_nanos(since_update) > duration_as_nanos(tick_rate) {
        LoopAction::RefreshAndServe
    } else {
        LoopAction::Serve
    }
}

/// Decides the loop's next step from the keep-alive token that the loop
/// holds and the instant statuses were last asked for; the reference count
/// and the clock are read at the call.
pub fn next_loop_action(keep_alive: &rclite::Arc<()>, last_update: &Instant, tick_rate: Duration) -> (r: LoopAction)
    ensures
        exists|live_refs: usize, since_update: Duration|
            r == loop_action_spec(live_refs, since_update, tick_rate),
{
    let live_refs = strong_count(keep_alive);
    let since_update = elapsed(last_update);
    loop_action(live_refs, since_update, tick_rate)
}

} // verus!
