//! Graceful connection draining: stop intake, drain what is in flight, terminate.
//!
//! The state here is that of one controller; the caller waits between its steps.

use vstd::prelude::*;
#[allow(unused_imports)]
use vstd::string::*;
use crate::span::Duration;
#[allow(unused_imports)]
use crate::text::{dec, decimal_wide, text2};

verus! {

/// Tunables for graceful shutdown.
#[derive(Debug, Clone, Copy, PartialEq, Eq)]
pub struct DrainConfig {
    /// Total time to wait for in-flight work before forceful termination.
    pub drain_timeout: Duration,
    /// Extra grace for long-lived streams (bounded interruption).
    pub stream_grace_period: Duration,
    /// Pre-stop hook sleep matching the readiness propagation delay.
    pub prestop_sleep: Duration,
}

impl Default for DrainConfig {
    fn default() -> (c: Self)
        ensures
            c.drain_timeout.nanos == 30_000_000_000,
            c.stream_grace_period.nanos == 10_000_000_000,
            c.prestop_sleep.nanos == 5_000_000_000,
    {
        DrainConfig {
            drain_timeout: Duration::from_secs(30),
            stream_grace_period: Duration::from_secs(10),
            prestop_sleep: Duration::from_secs(5),
        }
    }
}

impl DrainConfig {
    /// Override the drain timeout (builder style).
    pub fn with_drain_timeout(self, timeout: Duration) -> (c: Self)
        ensures
            c == (DrainConfig { drain_timeout: timeout, ..self }),
    {
        DrainConfig {
            drain_timeout: timeout,
            stream_grace_period: self.stream_grace_period,
            prestop_sleep: self.prestop_sleep,
        }
    }

    /// Override the stream grace period (builder style).
    pub fn with_stream_grace_period(self, period: Duration) -> (c: Self)
        ensures
            c == (DrainConfig { stream_grace_period: period, ..self }),
    {
        DrainConfig {
            drain_timeout: self.drain_timeout,
            stream_grace_period: period,
            prestop_sleep: self.prestop_sleep,
        }
    }
}

/// Phase of the shutdown sequence.
#[derive(Debug, Clone, Copy, PartialEq, Eq, Structural)]
pub enum DrainPhase {
    /// Accepting traffic normally.
    Active,
    /// Readiness off; existing work continues, nothing new is admitted.
    StopIntake,
    /// Waiting for in-flight work to finish.
    Draining,
    /// Shutdown complete (gracefully or by force).
    Terminated,
}

/// What a drain came to.
#[derive(Debug, Clone, Copy, PartialEq, Eq)]
pub struct DrainMetrics {
    /// How long draining took (capped by the grace timeout on force).
    pub drain_duration: Duration,
    /// Peak in-flight connections or streams observed while draining.
    pub peak_in_flight: usize,
    /// Work still in flight when the grace timeout fired.
    pub forced_terminations: usize,
    /// Long-lived streams closed at the stream grace boundary.
    pub streams_interrupted: usize,
}

impl DrainMetrics {
    /// Whether draining finished with no forceful termination.
    pub fn completed_without_force(&self) -> (r: bool)
        ensures
            r == (self.forced_terminations == 0),
    {
        self.forced_terminations == 0
    }
}

/// One admitted unit of work, to be handed back when it is done.
#[derive(Debug)]
pub struct ConnectionGuard {
    admitted: (),
}

/// One registered stream, to be handed back when it is closed.
#[derive(Debug)]
pub struct StreamGuard {
    admitted: (),
}

/// Drain state machine.
#[derive(Debug)]
pub struct DrainController {
    pub config: DrainConfig,
    pub phase: DrainPhase,
    /// The units of work in flight, streams among them.
    pub in_flight: usize,
    /// The streams in flight.
    pub streams: usize,
    /// The most that was in flight since the drain began.
    pub peak_in_flight: usize,
    pub streams_interrupted: usize,
    /// Whether streams were open when the drain began, which are given their own grace.
    pub streaming: bool,
}

/// One thing that happens to a controller.
pub enum DrainEvent {
    Acquire,
    OpenStream,
    Release,
    CloseStream,
    StopIntake,
    BeginDrain,
    InterruptStreams,
    Terminate,
}

/// The controller after an event.
pub open spec fn drain_step(c: DrainController, e: DrainEvent) -> DrainController {
    match e {
        DrainEvent::Acquire => if c.phase == DrainPhase::Active {
            DrainController { in_flight: (c.in_flight + 1) as usize, ..c }
        } else {
            c
        },
        DrainEvent::OpenStream => if c.phase == DrainPhase::Active {
            DrainController {
                in_flight: (c.in_flight + 1) as usize,
                streams: (c.streams + 1) as usize,
                ..c
            }
        } else {
            c
        },
        DrainEvent::Release => DrainController { in_flight: (c.in_flight - 1) as usize, ..c },
        DrainEvent::CloseStream => if c.streams > 0 {
            DrainController { in_flight: (c.in_flight - 1) as usize, streams: (c.streams - 1) as usize, ..c }
        } else {
            c
        },
        DrainEvent::StopIntake => DrainController { phase: DrainPhase::StopIntake, ..c },
        DrainEvent::BeginDrain => DrainController {
            phase: DrainPhase::Draining,
            peak_in_flight: c.in_flight,
            streaming: c.streams > 0,
            ..c
        },
        DrainEvent::InterruptStreams => DrainController {
            in_flight: c.connections() as usize,
            streams: 0,
            streams_interrupted: (c.streams_interrupted + c.streams) as usize,
            ..c
        },
        DrainEvent::Terminate => DrainController { phase: DrainPhase::Terminated, ..c },
    }
}

impl DrainController {
    /// Streams are part of what is in flight, and while draining the peak is no smaller than it.
    pub open spec fn valid(self) -> bool {
        &&& self.streams <= self.in_flight
        &&& self.phase == DrainPhase::Draining ==> self.in_flight <= self.peak_in_flight
    }

    /// How long a drain waits at most before it forces an end: the drain timeout, after the
    /// grace of the streams where some were open.
    pub open spec fn grace_nanos(self) -> int {
        if self.streaming {
            self.config.stream_grace_period.nanos + self.config.drain_timeout.nanos
        } else {
            self.config.drain_timeout.nanos as int
        }
    }

    /// The units of work in flight that are no streams.
    pub open spec fn connections(self) -> int {
        self.in_flight - self.streams
    }

    /// Create a controller with `config`.
    pub fn new(config: DrainConfig) -> (c: Self)
        ensures
            c.valid(),
            c.config == config,
            c.phase == DrainPhase::Active,
            c.in_flight == 0,
            c.streams == 0,
            c.peak_in_flight == 0,
            c.streams_interrupted == 0,
            !c.streaming,
    {
        DrainController {
            config,
            phase: DrainPhase::Active,
            in_flight: 0,
            streams: 0,
            peak_in_flight: 0,
            streams_interrupted: 0,
            streaming: false,
        }
    }

    /// Current shutdown phase.
    pub fn phase(&self) -> (p: DrainPhase)
        ensures
            p == self.phase,
    {
        self.phase
    }

    /// Readiness probe value: false as soon as intake stops.
    pub fn is_ready(&self) -> (r: bool)
        ensures
            r == (self.phase == DrainPhase::Active),
    {
        self.phase == DrainPhase::Active
    }

    /// Number of connections or requests currently in flight.
    pub fn in_flight(&self) -> (n: usize)
        ensures
            n == self.in_flight,
    {
        self.in_flight
    }

    /// Stop intake. New work is refused; readiness goes false.
    pub fn stop_intake(&mut self)
        requires
            old(self).valid(),
        ensures
            final(self).valid(),
            *final(self) == drain_step(*old(self), DrainEvent::StopIntake),
    {
        self.phase = DrainPhase::StopIntake;
    }

    /// Admit one unit of work. Returns `None` once intake has stopped, so late arrivals fail
    /// fast instead of starting work that a shutdown would reset.
    pub fn acquire(&mut self) -> (r: Option<ConnectionGuard>)
        requires
            old(self).valid(),
            old(self).phase == DrainPhase::Active ==> old(self).in_flight < usize::MAX,
        ensures
            final(self).valid(),
            r is Some <==> old(self).phase == DrainPhase::Active,
            *final(self) == drain_step(*old(self), DrainEvent::Acquire),
    {
        if self.phase != DrainPhase::Active {
            return None;
        }
        self.in_flight = self.in_flight + 1;
        Some(ConnectionGuard { admitted: () })
    }

    /// Register a long-lived stream; streams share the bounded stream grace.
    pub fn open_stream(&mut self) -> (r: Option<StreamGuard>)
        requires
            old(self).valid(),
            old(self).phase == DrainPhase::Active ==> old(self).in_flight < usize::MAX,
        ensures
            final(self).valid(),
            r is Some <==> old(self).phase == DrainPhase::Active,
            *final(self) == drain_step(*old(self), DrainEvent::OpenStream),
    {
        if self.phase != DrainPhase::Active {
            return None;
        }
        self.in_flight = self.in_flight + 1;
        self.streams = self.streams + 1;
        Some(StreamGuard { admitted: () })
    }

    /// Takes back a finished unit of work.
    pub fn release(&mut self, guard: ConnectionGuard)
        requires
            old(self).valid(),
            old(self).connections() > 0,
        ensures
            final(self).valid(),
            *final(self) == drain_step(*old(self), DrainEvent::Release),
    {
        self.in_flight = self.in_flight - 1;
    }

    /// Takes back a closed stream, unless it was interrupted and is no longer counted.
    pub fn close_stream(&mut self, guard: StreamGuard)
        requires
            old(self).valid(),
        ensures
            final(self).valid(),
            *final(self) == drain_step(*old(self), DrainEvent::CloseStream),
    {
        if self.streams > 0 {
            self.streams = self.streams - 1;
            self.in_flight = self.in_flight - 1;
        }
    }

    /// Starts to drain. Says whether streams are open, which are first given their own grace
    /// and then interrupted.
    pub fn begin_drain(&mut self) -> (streaming: bool)
        requires
            old(self).valid(),
        ensures
            final(self).valid(),
            *final(self) == drain_step(*old(self), DrainEvent::BeginDrain),
            streaming == (old(self).streams > 0),
    {
        self.phase = DrainPhase::Draining;
        self.peak_in_flight = self.in_flight;
        self.streaming = self.streams > 0;
        self.streaming
    }

    /// Whether no work remains in flight.
    pub fn is_quiet(&self) -> (r: bool)
        ensures
            r == (self.in_flight == 0),
    {
        self.in_flight == 0
    }

    /// Interrupts the streams that are still open after their grace: they are no longer in
    /// flight.
    pub fn interrupt_streams(&mut self) -> (stragglers: usize)
        requires
            old(self).valid(),
            old(self).streams_interrupted + old(self).streams <= usize::MAX,
        ensures
            final(self).valid(),
            stragglers == old(self).streams,
            *final(self) == drain_step(*old(self), DrainEvent::InterruptStreams),
    {
        let stragglers: usize = self.streams;
        self.streams_interrupted = self.streams_interrupted + stragglers;
        self.in_flight = self.in_flight - stragglers;
        self.streams = 0;
        stragglers
    }

    /// Ends the drain after `elapsed`: what is still in flight is terminated by force. A drain
    /// that ends by force took no longer than the grace timeout.
    pub fn terminate(&mut self, elapsed: Duration) -> (m: DrainMetrics)
        requires
            old(self).valid(),
        ensures
            final(self).valid(),
            *final(self) == drain_step(*old(self), DrainEvent::Terminate),
            m.drain_duration.nanos == if old(self).in_flight > 0 && old(self).grace_nanos() < elapsed.nanos {
                old(self).grace_nanos()
            } else {
                elapsed.nanos as int
            },
            m.peak_in_flight == old(self).peak_in_flight,
            m.forced_terminations == old(self).in_flight,
            m.streams_interrupted == old(self).streams_interrupted,
    {
        self.phase = DrainPhase::Terminated;
        let grace = if self.streaming {
            self.config.stream_grace_period.saturating_add(self.config.drain_timeout)
        } else {
            self.config.drain_timeout
        };
        let drain_duration = if self.in_flight > 0 && grace.nanos < elapsed.nanos {
            grace
        } else {
            elapsed
        };
        DrainMetrics {
            drain_duration,
            peak_in_flight: self.peak_in_flight,
            forced_terminations: self.in_flight,
            streams_interrupted: self.streams_interrupted,
        }
    }
}

/// The pre-stop hook: it sleeps while readiness propagates, and the grace period covers that
/// and the drain.
pub open spec fn prestop_text(config: DrainConfig) -> Seq<char> {
    let sleep = (config.prestop_sleep.nanos / 1_000_000_000) as nat;
    let drain = (config.drain_timeout.nanos / 1_000_000_000) as nat;
    "lifecycle:\n  preStop:\n    exec:\n      command: [\"/bin/sh\", \"-c\", \"sleep "@ + dec(sleep)
        + "\"]\nterminationGracePeriodSeconds: "@ + dec(drain + sleep) + "\n"@
}

/// Pre-stop hook template for a pod manifest.
pub fn prestop_hook_yaml(config: &DrainConfig) -> (s: String)
    requires
        config.drain_timeout.nanos / 1_000_000_000 + config.prestop_sleep.nanos / 1_000_000_000 <= u64::MAX,
    ensures
        s@ == prestop_text(*config),
{
    let sleep: u128 = config.prestop_sleep.as_secs();
    let drain: u128 = config.drain_timeout.as_secs();
    let mut s = text2(
        "lifecycle:\n  preStop:\n    exec:\n      command: [\"/bin/sh\", \"-c\", \"sleep ",
        decimal_wide(sleep).as_str(),
    );
    s.append("\"]\nterminationGracePeriodSeconds: ");
    s.append(decimal_wide(drain + sleep).as_str());
    s.append("\n");
    s
}

/// Once intake has stopped, nothing is admitted any more: whatever happens, the work in
/// flight does not grow and readiness does not come back.
pub proof fn intake_stays_stopped(c: DrainController, e: DrainEvent)
    requires
        c.valid(),
        c.phase != DrainPhase::Active,
        e is Release ==> c.connections() > 0,
        e is InterruptStreams ==> c.streams_interrupted + c.streams <= usize::MAX,
    ensures
        drain_step(c, e).valid(),
        drain_step(c, e).phase != DrainPhase::Active,
        drain_step(c, e).in_flight <= c.in_flight,
        !(e is BeginDrain) ==> drain_step(c, e).peak_in_flight == c.peak_in_flight,
{
}

/// Interrupting the streams leaves exactly the other work in flight, and a stream that closes
/// afterwards changes nothing.
pub proof fn interrupted_streams_are_not_counted_twice(c: DrainController)
    requires
        c.valid(),
        c.streams_interrupted + c.streams <= usize::MAX,
    ensures
        drain_step(c, DrainEvent::InterruptStreams).in_flight == c.connections(),
        drain_step(drain_step(c, DrainEvent::InterruptStreams), DrainEvent::CloseStream) == drain_step(
            c,
            DrainEvent::InterruptStreams,
        ),
{
}

/// Work is taken in only while the server is active, one for each request, and a stream counts as
/// a request in flight.
pub proof fn only_active_servers_take_work(c: DrainController)
    requires
        c.valid(),
        c.in_flight < usize::MAX,
    ensures
        c.phase is Active ==> {
            &&& drain_step(c, DrainEvent::Acquire).in_flight == c.in_flight + 1
            &&& drain_step(c, DrainEvent::Acquire).streams == c.streams
            &&& drain_step(c, DrainEvent::OpenStream).in_flight == c.in_flight + 1
            &&& drain_step(c, DrainEvent::OpenStream).streams == c.streams + 1
            &&& drain_step(drain_step(c, DrainEvent::Acquire), DrainEvent::Release) == c
            &&& drain_step(drain_step(c, DrainEvent::OpenStream), DrainEvent::CloseStream) == c
        },
        !(c.phase is Active) ==> drain_step(c, DrainEvent::Acquire) == c && drain_step(c, DrainEvent::OpenStream) == c,
{
}

/// Draining goes from stopping the intake over draining to termination. What was in flight when
/// it began is its peak, and streams that are interrupted are counted and no longer in flight.
pub proof fn drains_count_what_they_find(c: DrainController)
    requires
        c.valid(),
        c.streams_interrupted + c.streams <= usize::MAX,
    ensures
        drain_step(c, DrainEvent::StopIntake).phase is StopIntake,
        drain_step(c, DrainEvent::BeginDrain).phase is Draining,
        drain_step(c, DrainEvent::Terminate).phase is Terminated,
        drain_step(c, DrainEvent::BeginDrain).peak_in_flight == c.in_flight,
        drain_step(c, DrainEvent::BeginDrain).streaming <==> c.streams > 0,
        drain_step(c, DrainEvent::InterruptStreams).streams == 0,
        drain_step(c, DrainEvent::InterruptStreams).in_flight == c.in_flight - c.streams,
        drain_step(c, DrainEvent::InterruptStreams).streams_interrupted == c.streams_interrupted + c.streams,
        drain_step(c, DrainEvent::StopIntake).in_flight == c.in_flight,
{
}

/// A server with streams waits for them on top of the time that it waits for requests.
pub proof fn streams_get_their_grace(c: DrainController)
    ensures
        c.streaming ==> c.grace_nanos() == c.config.drain_timeout.nanos + c.config.stream_grace_period.nanos,
        !c.streaming ==> c.grace_nanos() == c.config.drain_timeout.nanos,
{
}

/// The pod is given the time to sleep and then the time to drain, so that it is not killed before.
pub proof fn pods_outlive_their_drain(config: DrainConfig)
    ensures
        prestop_text(config)
            == "lifecycle:\n  preStop:\n    exec:\n      command: [\"/bin/sh\", \"-c\", \"sleep "@ + dec(
            (config.prestop_sleep.nanos / 1_000_000_000) as nat,
        ) + "\"]\nterminationGracePeriodSeconds: "@ + dec(
            ((config.drain_timeout.nanos / 1_000_000_000) + (config.prestop_sleep.nanos / 1_000_000_000)) as nat,
        ) + "\n"@,
{
}

} // verus!
