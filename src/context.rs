//! The decisions of a capture run: what each event does to the aggregate,
//! and when the run ends.

use vstd::prelude::*;
use crate::capture::{PacketOwned, extracted, ethernet_layers};
use crate::collector::{Collector, tally_step};
use crate::protect::{ConfigError, Protector};
use crate::report::{GroupReport, is_report, report_text};

verus! {

/// Why a run ended.
#[derive(Clone, Copy, Debug, PartialEq, Eq, Structural)]
pub enum FinishReason {
    ConnectionLimitReached,
    TimeLimitReached,
    StreamClosed,
}

/// Where a run stands.
#[derive(Clone, Copy, Debug, PartialEq, Eq, Structural)]
pub enum LoopState {
    Running,
    Finished(FinishReason),
}

/// What the capture loop hands over: a frame, a capture error below the
/// decoder, the end of the frame stream, or the deadline.
#[derive(Debug)]
pub enum Event {
    Frame(PacketOwned),
    CaptureFailed,
    StreamClosed,
    DeadlineElapsed,
}

/// A run: its configuration, its aggregate, and where it stands.
pub struct Context {
    device_name: String,
    connection_limit: Option<u64>,
    time_limit: Option<u64>,
    collector: Collector,
    state: LoopState,
}

/// Whether a limit is absent or positive.
pub open spec fn limit_ok(limit: Option<u64>) -> bool {
    limit != Some(0u64)
}

/// Whether a run with limit `limit` ends once its total is `total`.
pub open spec fn limit_reached(limit: Option<u64>, total: nat) -> bool {
    limit matches Some(l) && total >= l
}

impl Context {
    /// The device the run captures on.
    pub closed spec fn device(&self) -> Seq<char> {
        self.device_name@
    }

    /// The limit on the number of connection attempts, if any.
    pub closed spec fn limit(&self) -> Option<u64> {
        self.connection_limit
    }

    /// The limit on the run's duration in seconds, if any.
    pub closed spec fn seconds(&self) -> Option<u64> {
        self.time_limit
    }

    /// The aggregate of the run.
    pub closed spec fn aggregate(&self) -> Collector {
        self.collector
    }

    /// Where the run stands.
    pub closed spec fn status(&self) -> LoopState {
        self.state
    }

    /// The aggregate is well formed and the limits are positive.
    pub open spec fn wf(&self) -> bool {
        &&& self.aggregate().wf()
        &&& limit_ok(self.limit())
        &&& limit_ok(self.seconds())
    }

    /// A run on `device_name` that has seen nothing yet; a limit of zero is
    /// refused.
    pub fn new(device_name: &str, connection_limit: Option<u64>, time_limit: Option<u64>) -> (r: Result<
        Context,
        ConfigError,
    >)
        ensures
            connection_limit == Some(0u64) ==> r == Err::<Context, ConfigError>(ConfigError::ZeroConnectionLimit),
            connection_limit != Some(0u64) && time_limit == Some(0u64) ==> r == Err::<Context, ConfigError>(
                ConfigError::ZeroTimeLimit,
            ),
            limit_ok(connection_limit) && limit_ok(time_limit) ==> (r matches Ok(c) && {
                &&& c.wf()
                &&& c.device() == device_name@
                &&& c.limit() == connection_limit
                &&& c.seconds() == time_limit
                &&& c.aggregate().tallies().len() == 0
                &&& c.aggregate().total() == 0
                &&& c.status() == LoopState::Running
            }),
    {
        if connection_limit == Some(0u64) {
            return Err(ConfigError::ZeroConnectionLimit);
        }
        if time_limit == Some(0u64) {
            return Err(ConfigError::ZeroTimeLimit);
        }
        Ok(Context {
            device_name: device_name.to_owned(),
            connection_limit,
            time_limit,
            collector: Collector::new(),
            state: LoopState::Running,
        })
    }

    /// The device the run captures on.
    pub fn device_name(&self) -> (r: &String)
        ensures
            r@ == self.device(),
    {
        &self.device_name
    }

    /// The limit on the number of connection attempts, if any.
    pub fn connection_limit(&self) -> (r: Option<u64>)
        ensures
            r == self.limit(),
    {
        self.connection_limit
    }

    /// The limit on the run's duration in seconds, if any.
    pub fn time_limit(&self) -> (r: Option<u64>)
        ensures
            r == self.seconds(),
    {
        self.time_limit
    }

    /// The running total of attempts.
    pub fn connection_count(&self) -> (r: u64)
        ensures
            r == self.aggregate().total(),
    {
        self.collector.connection_count()
    }

    /// Decodes `packet` and counts the attempt it records; the run finishes
    /// when the new total reaches the connection limit. Returns the new
    /// total, or why the frame gave no record, with nothing changed.
    pub fn process(&mut self, packet: PacketOwned) -> (r: Result<u64, crate::capture::UnparsedPacket>)
        requires
            old(self).wf(),
            old(self).aggregate().total() < u64::MAX,
        ensures
            final(self).wf(),
            final(self).device() == old(self).device(),
            final(self).limit() == old(self).limit(),
            final(self).seconds() == old(self).seconds(),
            match extracted(ethernet_layers(packet.data@), packet.capture_header.ts) {
                Ok(h) => {
                    &&& final(self).aggregate().tallies() == tally_step(
                        old(self).aggregate().tallies(),
                        h.source_ip,
                        h.dest_port,
                    )
                    &&& final(self).aggregate().total() == old(self).aggregate().total() + 1
                    &&& r == Ok::<u64, crate::capture::UnparsedPacket>(final(self).aggregate().total() as u64)
                    &&& final(self).status() == if limit_reached(old(self).limit(), final(self).aggregate().total()) {
                        LoopState::Finished(FinishReason::ConnectionLimitReached)
                    } else {
                        old(self).status()
                    }
                },
                Err(e) => {
                    &&& final(self).aggregate().tallies() == old(self).aggregate().tallies()
                    &&& final(self).aggregate().total() == old(self).aggregate().total()
                    &&& r == Err::<u64, crate::capture::UnparsedPacket>(e)
                    &&& final(self).status() == old(self).status()
                },
            },
    {
        let r = self.collector.process(packet);
        if let Ok(count) = r {
            if let Some(limit) = self.connection_limit {
                if count >= limit {
                    self.state = LoopState::Finished(FinishReason::ConnectionLimitReached);
                }
            }
        }
        r
    }

    /// One step of the run: applies `event` and returns where the run then
    /// stands. A finished run ignores further events. While running, a frame
    /// is decoded and counted (a frame that gives no record, and a capture
    /// error, change nothing); the run finishes when the total reaches the
    /// connection limit, when the stream closes, or at the deadline.
    pub fn handle(&mut self, event: Event) -> (r: LoopState)
        requires
            old(self).wf(),
            old(self).aggregate().total() < u64::MAX,
        ensures
            final(self).wf(),
            final(self).device() == old(self).device(),
            final(self).limit() == old(self).limit(),
            final(self).seconds() == old(self).seconds(),
            r == final(self).status(),
            old(self).status() is Finished ==> {
                &&& final(self).aggregate().tallies() == old(self).aggregate().tallies()
                &&& final(self).aggregate().total() == old(self).aggregate().total()
                &&& final(self).status() == old(self).status()
            },
            old(self).status() is Running ==> match event {
                Event::Frame(p) => match extracted(ethernet_layers(p.data@), p.capture_header.ts) {
                    Ok(h) => {
                        &&& final(self).aggregate().tallies() == tally_step(
                            old(self).aggregate().tallies(),
                            h.source_ip,
                            h.dest_port,
                        )
                        &&& final(self).aggregate().total() == old(self).aggregate().total() + 1
                        &&& final(self).status() == if limit_reached(
                            old(self).limit(),
                            final(self).aggregate().total(),
                        ) {
                            LoopState::Finished(FinishReason::ConnectionLimitReached)
                        } else {
                            LoopState::Running
                        }
                    },
                    Err(_) => {
                        &&& final(self).aggregate().tallies() == old(self).aggregate().tallies()
                        &&& final(self).aggregate().total() == old(self).aggregate().total()
                        &&& final(self).status() == LoopState::Running
                    },
                },
                Event::CaptureFailed => {
                    &&& final(self).aggregate().tallies() == old(self).aggregate().tallies()
                    &&& final(self).aggregate().total() == old(self).aggregate().total()
                    &&& final(self).status() == LoopState::Running
                },
                Event::StreamClosed => {
                    &&& final(self).aggregate().tallies() == old(self).aggregate().tallies()
                    &&& final(self).aggregate().total() == old(self).aggregate().total()
                    &&& final(self).status() == LoopState::Finished(FinishReason::StreamClosed)
                },
                Event::DeadlineElapsed => {
                    &&& final(self).aggregate().tallies() == old(self).aggregate().tallies()
                    &&& final(self).aggregate().total() == old(self).aggregate().total()
                    &&& final(self).status() == LoopState::Finished(FinishReason::TimeLimitReached)
                },
            },
    {
        if let LoopState::Finished(_) = self.state {
            return self.state;
        }
        match event {
            Event::Frame(p) => {
                let _ = self.process(p);
            },
            Event::CaptureFailed => {},
            Event::StreamClosed => {
                self.state = LoopState::Finished(FinishReason::StreamClosed);
            },
            Event::DeadlineElapsed => {
                self.state = LoopState::Finished(FinishReason::TimeLimitReached);
            },
        }
        self.state
    }

    /// Ends the run: appends the report of its aggregate to `out`, each
    /// group labelled by `protector`.
    pub fn finish(self, protector: &Protector, out: &mut Vec<u8>)
        requires
            self.wf(),
        ensures
            exists|gs: Seq<GroupReport>|
                is_report(self.aggregate().tallies(), gs) && final(out)@ == old(out)@ + report_text(*protector, gs),
            self.aggregate().tallies().len() == 0 ==> final(out)@ == old(out)@,
    {
        self.collector.digest(protector, out)
    }
}

} // verus!
