//! The per-stream drain scheduler as a state machine: on every tick it is
//! told whether a packet was taken from the buffer, and answers what to do.
use vstd::prelude::*;
use crate::buffer::{Packet, StreamBuffer};

verus! {

/// Default tick interval in milliseconds.
pub const DEFAULT_TICK_MS: u64 = 20;

/// Default idle timeout in milliseconds.
pub const DEFAULT_IDLE_TIMEOUT_MS: u64 = 500;

/// Tick interval and idle timeout of a drain scheduler.
#[derive(Clone, Copy, Debug, PartialEq, Eq, Structural)]
pub struct DrainConfig {
    pub tick_ms: u64,
    pub idle_timeout_ms: u64,
}

impl DrainConfig {
    /// A usable configuration: ticks take time, and idle time can grow one
    /// tick past the timeout without overflow.
    pub open spec fn valid(self) -> bool {
        self.tick_ms > 0 && self.idle_timeout_ms + self.tick_ms <= u64::MAX
    }

    /// The configuration, if it is valid.
    pub fn new(tick_ms: u64, idle_timeout_ms: u64) -> (r: Option<DrainConfig>)
        ensures
            r matches Some(c) ==> c.valid() && c.tick_ms == tick_ms && c.idle_timeout_ms
                == idle_timeout_ms,
            r.is_none() == !(DrainConfig { tick_ms, idle_timeout_ms }).valid(),
    {
        if tick_ms == 0 || idle_timeout_ms > u64::MAX - tick_ms {
            None
        } else {
            Some(DrainConfig { tick_ms, idle_timeout_ms })
        }
    }

    /// The defaults: a 20 ms tick and a 500 ms idle timeout.
    pub fn standard() -> (r: DrainConfig)
        ensures
            r.valid(),
            r.tick_ms == DEFAULT_TICK_MS,
            r.idle_timeout_ms == DEFAULT_IDLE_TIMEOUT_MS,
    {
        DrainConfig { tick_ms: DEFAULT_TICK_MS, idle_timeout_ms: DEFAULT_IDLE_TIMEOUT_MS }
    }
}

/// Where a scheduler stands.
#[derive(Clone, Copy, Debug, PartialEq, Eq, Structural)]
pub enum DrainPhase {
    /// The last tick forwarded a packet.
    Active,
    /// The buffer was empty at the last tick; idle time is accumulating.
    Idle,
    /// The stream is finished; no more ticks.
    Retired,
}

/// What the caller does after a tick.
#[derive(Clone, Copy, Debug, PartialEq, Eq, Structural)]
pub enum TickAction {
    /// Forward the packet that was taken and record its latency.
    Forward,
    /// Nothing to forward; wait for the next tick.
    Wait,
    /// Remove the stream from the registry and stop ticking.
    Retire,
    /// The stream was already retired: do nothing.
    Stopped,
}

/// State of one stream's drain scheduler.
#[derive(Clone, Copy, Debug, PartialEq, Eq, Structural)]
pub struct DrainState {
    pub phase: DrainPhase,
    /// Milliseconds of empty ticks since the last forwarded packet.
    pub idle_ms: u64,
}

/// A state that the scheduler can be in under `cfg`: until it retires,
/// idle time never exceeds the timeout.
pub open spec fn state_valid(s: DrainState, cfg: DrainConfig) -> bool {
    s.phase != DrainPhase::Retired ==> s.idle_ms <= cfg.idle_timeout_ms
}

/// The state of a scheduler that has just been started.
pub open spec fn fresh_state() -> DrainState {
    DrainState { phase: DrainPhase::Active, idle_ms: 0 }
}

/// One tick: `popped` says whether a packet was taken from the buffer.
pub open spec fn step(s: DrainState, popped: bool, cfg: DrainConfig) -> (DrainState, TickAction) {
    if s.phase == DrainPhase::Retired {
        (s, TickAction::Stopped)
    } else if popped {
        (DrainState { phase: DrainPhase::Active, idle_ms: 0 }, TickAction::Forward)
    } else if s.idle_ms + cfg.tick_ms > cfg.idle_timeout_ms {
        (
            DrainState { phase: DrainPhase::Retired, idle_ms: (s.idle_ms + cfg.tick_ms) as u64 },
            TickAction::Retire,
        )
    } else {
        (
            DrainState { phase: DrainPhase::Idle, idle_ms: (s.idle_ms + cfg.tick_ms) as u64 },
            TickAction::Wait,
        )
    }
}

/// The state after a run of ticks, one per entry of `events`.
pub open spec fn run(s: DrainState, events: Seq<bool>, cfg: DrainConfig) -> DrainState
    decreases events.len(),
{
    if events.len() == 0 {
        s
    } else {
        step(run(s, events.drop_last(), cfg), events.last(), cfg).0
    }
}

/// How many `Retire` actions a run of ticks produces.
pub open spec fn retirements(s: DrainState, events: Seq<bool>, cfg: DrainConfig) -> nat
    decreases events.len(),
{
    if events.len() == 0 {
        0
    } else {
        let before = retirements(s, events.drop_last(), cfg);
        if step(run(s, events.drop_last(), cfg), events.last(), cfg).1 == TickAction::Retire {
            before + 1
        } else {
            before
        }
    }
}

/// Idle time, in milliseconds, of the empty ticks that end `events`.
pub open spec fn trailing_idle(events: Seq<bool>, cfg: DrainConfig) -> int
    decreases events.len(),
{
    if events.len() == 0 || events.last() {
        0
    } else {
        trailing_idle(events.drop_last(), cfg) + cfg.tick_ms
    }
}

/// Every prefix of `events` ends in at most `idle_timeout_ms` of empty ticks:
/// the gaps between packets are shorter than the timeout.
pub open spec fn gaps_within_timeout(events: Seq<bool>, cfg: DrainConfig) -> bool {
    forall|k: int|
        0 <= k <= events.len() ==> #[trigger] trailing_idle(events.take(k), cfg)
            <= cfg.idle_timeout_ms
}

/// A scheduler that has just been started.
pub fn start() -> (r: DrainState)
    ensures
        r == fresh_state(),
{
    DrainState { phase: DrainPhase::Active, idle_ms: 0 }
}

/// Advances the scheduler by one tick and says what the caller must do.
pub fn on_tick(state: &mut DrainState, popped: bool, cfg: &DrainConfig) -> (action: TickAction)
    requires
        cfg.valid(),
        state_valid(*old(state), *cfg),
    ensures
        (*final(state), action) == step(*old(state), popped, *cfg),
        state_valid(*final(state), *cfg),
{
    if state.phase == DrainPhase::Retired {
        return TickAction::Stopped;
    }
    if popped {
        state.phase = DrainPhase::Active;
        state.idle_ms = 0;
        return TickAction::Forward;
    }
    let idle = state.idle_ms + cfg.tick_ms;
    state.idle_ms = idle;
    if idle > cfg.idle_timeout_ms {
        state.phase = DrainPhase::Retired;
        TickAction::Retire
    } else {
        state.phase = DrainPhase::Idle;
        TickAction::Wait
    }
}

/// One tick of a stream's drain task, taken under the stream's lock: the
/// first pending packet, if any, is taken out to be forwarded, and the
/// scheduler advances. A retired scheduler leaves the buffer alone, and a
/// stream is only retired on a tick that found its buffer empty.
pub fn drain_tick(buffer: &mut StreamBuffer, state: &mut DrainState, cfg: &DrainConfig) -> (r: (
    TickAction,
    Option<Packet>,
))
    requires
        cfg.valid(),
        state_valid(*old(state), *cfg),
    ensures
        state_valid(*final(state), *cfg),
        old(state).phase == DrainPhase::Retired ==> r.0 == TickAction::Stopped && r.1.is_none()
            && final(buffer)@ == old(buffer)@ && *final(state) == *old(state),
        old(state).phase != DrainPhase::Retired ==> {
            &&& (*final(state), r.0) == step(*old(state), old(buffer)@.len() > 0, *cfg)
            &&& old(buffer)@.len() > 0 ==> r.1 == Some(old(buffer)@[0]) && final(buffer)@
                == old(buffer)@.drop_first()
            &&& old(buffer)@.len() == 0 ==> r.1.is_none() && final(buffer)@ == old(buffer)@
        },
        r.0 == TickAction::Retire ==> old(buffer)@.len() == 0,
{
    if state.phase == DrainPhase::Retired {
        return (TickAction::Stopped, None);
    }
    let taken = buffer.pop_min();
    let action = on_tick(state, taken.is_some(), cfg);
    (action, taken)
}

/// Where a stream's packets are forwarded: the port after the one its first
/// packet came from, on the same host. None where there is no such port.
pub fn destination_port(sender_port: u16) -> (r: Option<u16>)
    ensures
        r == if sender_port < u16::MAX {
            Some((sender_port + 1) as u16)
        } else {
            None::<u16>
        },
{
    if sender_port < u16::MAX {
        Some(sender_port + 1)
    } else {
        None
    }
}

/// A retired scheduler stays retired and does nothing on any later tick.
pub proof fn lemma_retired_is_final(s: DrainState, events: Seq<bool>, cfg: DrainConfig)
    requires
        s.phase == DrainPhase::Retired,
    ensures
        run(s, events, cfg) == s,
        retirements(s, events, cfg) == 0,
    decreases events.len(),
{
    if events.len() > 0 {
        lemma_retired_is_final(s, events.drop_last(), cfg);
    }
}

/// A stream whose buffer stays empty for longer than the idle timeout is
/// retired, exactly once, and is never ticked again afterwards.
pub proof fn lemma_idle_stream_retires_once(
    s: DrainState,
    n: nat,
    later: Seq<bool>,
    cfg: DrainConfig,
)
    requires
        cfg.valid(),
        state_valid(s, cfg),
        s.phase != DrainPhase::Retired,
        s.idle_ms + n * cfg.tick_ms > cfg.idle_timeout_ms,
    ensures
        run(s, Seq::new(n, |i: int| false), cfg).phase == DrainPhase::Retired,
        retirements(s, Seq::new(n, |i: int| false), cfg) == 1,
        run(s, Seq::new(n, |i: int| false) + later, cfg) == run(
            s,
            Seq::new(n, |i: int| false),
            cfg,
        ),
        retirements(s, Seq::new(n, |i: int| false) + later, cfg) == 1,
    decreases n,
{
    let idle = Seq::new(n, |i: int| false);
    lemma_empty_ticks(s, n, cfg);
    lemma_run_append(s, idle, later, cfg);
    lemma_retired_is_final(run(s, idle, cfg), later, cfg);
}

/// Ticks on an empty buffer add up idle time until it passes the timeout;
/// the tick that passes it retires the stream.
proof fn lemma_empty_ticks(s: DrainState, m: nat, cfg: DrainConfig)
    requires
        cfg.valid(),
        state_valid(s, cfg),
        s.phase != DrainPhase::Retired,
    ensures
        s.idle_ms + m * cfg.tick_ms <= cfg.idle_timeout_ms ==> {
            &&& run(s, Seq::new(m, |i: int| false), cfg).phase != DrainPhase::Retired
            &&& run(s, Seq::new(m, |i: int| false), cfg).idle_ms == s.idle_ms + m * cfg.tick_ms
            &&& retirements(s, Seq::new(m, |i: int| false), cfg) == 0
        },
        s.idle_ms + m * cfg.tick_ms > cfg.idle_timeout_ms ==> {
            &&& run(s, Seq::new(m, |i: int| false), cfg).phase == DrainPhase::Retired
            &&& retirements(s, Seq::new(m, |i: int| false), cfg) == 1
        },
    decreases m,
{
    if m > 0 {
        let prev = (m - 1) as nat;
        lemma_empty_ticks(s, prev, cfg);
        assert(Seq::new(m, |i: int| false).drop_last() =~= Seq::new(prev, |i: int| false));
        assert(prev * cfg.tick_ms + cfg.tick_ms == m * cfg.tick_ms) by (nonlinear_arith)
            requires
                prev + 1 == m,
        ;
        assert(prev * cfg.tick_ms <= m * cfg.tick_ms) by (nonlinear_arith)
            requires
                prev + 1 == m,
        ;
    } else {
        assert(Seq::new(0, |i: int| false) =~= Seq::<bool>::empty());
    }
}

/// Running two stretches of ticks one after the other.
proof fn lemma_run_append(s: DrainState, a: Seq<bool>, b: Seq<bool>, cfg: DrainConfig)
    ensures
        run(s, a + b, cfg) == run(run(s, a, cfg), b, cfg),
        retirements(s, a + b, cfg) == retirements(s, a, cfg) + retirements(run(s, a, cfg), b, cfg),
    decreases b.len(),
{
    if b.len() == 0 {
        assert(a + b =~= a);
    } else {
        assert((a + b).drop_last() =~= a + b.drop_last());
        assert((a + b).last() == b.last());
        lemma_run_append(s, a, b.drop_last(), cfg);
    }
}

/// A stream whose gaps between packets stay within the idle timeout is
/// never retired, however long it runs; its idle time is that of the empty
/// ticks since the last packet.
pub proof fn lemma_busy_stream_stays(events: Seq<bool>, cfg: DrainConfig)
    requires
        cfg.valid(),
        gaps_within_timeout(events, cfg),
    ensures
        run(fresh_state(), events, cfg).phase != DrainPhase::Retired,
        run(fresh_state(), events, cfg).idle_ms == trailing_idle(events, cfg),
        retirements(fresh_state(), events, cfg) == 0,
    decreases events.len(),
{
    if events.len() > 0 {
        let prev = events.drop_last();
        assert(prev =~= events.take(events.len() - 1));
        assert forall|k: int| 0 <= k <= prev.len() implies #[trigger] trailing_idle(prev.take(k), cfg)
            <= cfg.idle_timeout_ms by {
            assert(prev.take(k) =~= events.take(k));
        }
        lemma_busy_stream_stays(prev, cfg);
        assert(events.take(events.len() as int) =~= events);
        assert(trailing_idle(events.take(events.len() as int), cfg) <= cfg.idle_timeout_ms);
    }
}

} // verus!
