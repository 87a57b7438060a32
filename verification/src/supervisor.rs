//! What keeps the agent going: when captured media flows, and when a new session is tried.
//! Times are in nanoseconds.

use vstd::prelude::*;

verus! {

/// How long to look away while nobody is connected: 200 milliseconds.
pub const IDLE_PAUSE: u64 = 200_000_000;

/// The delay before the first new session: three seconds.
pub const FIRST_DELAY: u64 = 3_000_000_000;

/// The longest delay before a new session: thirty seconds.
pub const MAX_DELAY: u64 = 30_000_000_000;

/// A session that held for longer than this has worked: ten seconds.
pub const GOOD_SESSION: u64 = 10_000_000_000;

/// The bridge from a capture to the sessions. While nobody is connected, it takes nothing
/// out of the capture's queue, which then fills up and holds the capture back.
#[derive(Debug, Clone, Copy, PartialEq, Eq, Structural)]
pub struct Bridge {
    pub idle: bool,
}

/// What the bridge does next.
#[derive(Debug, Clone, Copy, PartialEq, Eq, Structural)]
pub enum BridgeStep {
    /// It pauses.
    Pause,
    /// It throws away what has queued up, and then waits for a frame and passes it on.
    DrainAndPass,
    /// It waits for a frame and passes it on.
    Pass,
}

/// What has ended a session.
#[derive(Debug, Clone, Copy, PartialEq, Eq, Structural)]
pub enum SessionEnd {
    Media,
    Signalling,
    Interrupt,
}

/// What is left to do once a session has ended.
#[derive(Debug, Clone, Copy, PartialEq, Eq, Structural)]
pub struct Cleanup {
    pub stop_media: bool,
    pub stop_signalling: bool,
    /// A new session is tried.
    pub again: bool,
}

/// What the bridge does, where it has or has not been idle before.
pub open spec fn bridge_step(idle: bool, connected: bool) -> BridgeStep {
    if !connected {
        BridgeStep::Pause
    } else if idle {
        BridgeStep::DrainAndPass
    } else {
        BridgeStep::Pass
    }
}

impl Bridge {
    /// A bridge that has not passed anything yet.
    pub fn new() -> (b: Bridge)
        ensures
            b.idle,
    {
        Bridge { idle: true }
    }

    /// Decides what the bridge does next.
    pub fn step(&mut self, connected: bool) -> (r: BridgeStep)
        ensures
            r == bridge_step(old(self).idle, connected),
            final(self).idle == !connected,
    {
        let was_idle: bool = self.idle;
        self.idle = !connected;
        if !connected {
            BridgeStep::Pause
        } else if was_idle {
            BridgeStep::DrainAndPass
        } else {
            BridgeStep::Pass
        }
    }
}

/// What is left to do once a session has ended: the other half is stopped; both are, and
/// no new session is tried, where the user wants to stop.
pub fn after_session(end: SessionEnd) -> (r: Cleanup)
    ensures
        r.stop_media == (end != SessionEnd::Media),
        r.stop_signalling == (end != SessionEnd::Signalling),
        r.again == (end != SessionEnd::Interrupt),
{
    match end {
        SessionEnd::Media => Cleanup { stop_media: false, stop_signalling: true, again: true },
        SessionEnd::Signalling => Cleanup {
            stop_media: true,
            stop_signalling: false,
            again: true,
        },
        SessionEnd::Interrupt => Cleanup { stop_media: true, stop_signalling: true, again: false },
    }
}

/// The delay before the next session, where the one before came after `delay` and held for
/// `held`: back to the first one after a session that worked, else half as much again, up
/// to a limit.
pub open spec fn delay_after(delay: u64, held: u128) -> u64 {
    if held > GOOD_SESSION {
        FIRST_DELAY
    } else if delay * 3 / 2 < MAX_DELAY {
        (delay * 3 / 2) as u64
    } else {
        MAX_DELAY
    }
}

/// The delay before the next session.
pub fn next_delay(delay: u64, held: u128) -> (next: u64)
    requires
        delay <= MAX_DELAY,
    ensures
        next == delay_after(delay, held),
        next <= MAX_DELAY,
{
    if held > GOOD_SESSION as u128 {
        FIRST_DELAY
    } else {
        let longer: u64 = delay * 3 / 2;
        if longer < MAX_DELAY {
            longer
        } else {
            MAX_DELAY
        }
    }
}

/// Whether the bridge is idle after a number of looks at the connection.
pub open spec fn idle_after(connected: Seq<bool>) -> bool {
    connected.len() == 0 || !connected.last()
}

/// The queue is thrown away exactly when somebody has just connected: what was captured
/// before is never sent, and nothing is thrown away while the connection holds.
pub proof fn law_stale_media_dropped(connected: Seq<bool>, now: bool)
    ensures
        bridge_step(idle_after(connected), now) == BridgeStep::DrainAndPass <==> now && (
        connected.len() == 0 || !connected.last()),
        bridge_step(idle_after(connected), now) == BridgeStep::Pass <==> now && connected.len() > 0
            && connected.last(),
{
}

/// Delays stay between the first and the longest one; each is longer than the one before,
/// as long as sessions fail and the longest one is not reached.
pub proof fn law_delays_grow_to_limit(delay: u64, held: u128)
    requires
        FIRST_DELAY <= delay <= MAX_DELAY,
    ensures
        FIRST_DELAY <= delay_after(delay, held) <= MAX_DELAY,
        held <= GOOD_SESSION && delay < MAX_DELAY ==> delay < delay_after(delay, held),
        held <= GOOD_SESSION && delay == MAX_DELAY ==> delay_after(delay, held) == MAX_DELAY,
        held > GOOD_SESSION ==> delay_after(delay, held) == FIRST_DELAY,
{
}

/// After a session that held for more than ten seconds the delay is three seconds; after any
/// other it is one and a half times the one before, without the fraction, and thirty seconds
/// where that would be longer.
pub proof fn law_next_delay(delay: u64, held: u128)
    requires
        delay <= MAX_DELAY,
    ensures
        held > 10_000_000_000 ==> delay_after(delay, held) == 3_000_000_000,
        held <= 10_000_000_000 ==> {
            let next = delay_after(delay, held);
            &&& next <= 30_000_000_000
            &&& 2 * next <= 3 * delay
            &&& next == 30_000_000_000 || 3 * delay < 2 * next + 2
        },
{
}

/// While nobody is connected, the bridge pauses, and only then.
pub proof fn law_pause_while_nobody_is_there(idle: bool, connected: bool)
    ensures
        bridge_step(idle, connected) == BridgeStep::Pause <==> !connected,
        bridge_step(idle, connected) == BridgeStep::DrainAndPass <==> connected && idle,
{
}

/// A bridge starts idle; from then on it is idle exactly while nobody is connected, and does
/// what is stated of it.
pub proof fn law_bridge_steps(fresh: Bridge, bridge: &mut Bridge, connected: bool, r: BridgeStep)
    requires
        call_ensures(Bridge::new, (), fresh),
        call_ensures(Bridge::step, (bridge, connected), r),
    ensures
        fresh.idle,
        final(bridge).idle <==> !connected,
        r == bridge_step(old(bridge).idle, connected),
{
}

/// Whatever has ended a session, the half that has not ended is stopped; a new session follows
/// unless the user wants to stop, and then both halves are stopped.
pub proof fn law_other_half_stopped(end: SessionEnd, r: Cleanup)
    requires
        call_ensures(after_session, (end,), r),
    ensures
        r.stop_media || r.stop_signalling,
        !r.stop_media <==> end == SessionEnd::Media,
        !r.stop_signalling <==> end == SessionEnd::Signalling,
        !r.again <==> r.stop_media && r.stop_signalling,
{
}

/// The next delay is the stated one.
pub proof fn law_delay_taken(delay: u64, held: u128, next: u64)
    requires
        delay <= MAX_DELAY,
        call_ensures(next_delay, (delay, held), next),
    ensures
        next == delay_after(delay, held),
        next <= 30_000_000_000,
{
}

} // verus!
