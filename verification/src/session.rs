//! The life of a stream session: created, activated, read from or written
//! to, deactivated, and activated again.
//!
//! A session decides; it does not touch the hardware. A transfer is begun
//! here, carried out by the driver, and ended here with what the driver
//! reported.

use vstd::prelude::*;
use crate::args::{DeviceArgs, Pairs};
use crate::channel::Direction;
use crate::error::HalError;
use crate::format::{block_converted, convertible, FormatConverter, IqSample, StreamFormat};

verus! {

/// Where a session stands in its life.
#[derive(Clone, Copy, Debug, PartialEq, Eq, Structural)]
pub enum StreamState {
    /// Set up and never activated.
    Created,
    /// Streaming.
    Active,
    /// Deactivated; it may be activated again.
    Inactive,
    /// Lost with its device; it must be created anew.
    Failed,
}

/// What the driver reported of one transfer.
#[derive(Clone, Copy, Debug, PartialEq, Eq, Structural)]
pub enum DriverEvent {
    /// It moved this many samples per channel before it returned.
    Transferred(usize),
    /// The timeout ran out before it moved anything.
    TimedOut,
    /// Received samples were dropped.
    Overflow,
    /// Samples to transmit came too late.
    Underflow,
    /// The device is gone or the driver failed.
    Lost,
}

/// What is said of a transfer beside its count.
#[derive(Clone, Copy, Debug, PartialEq, Eq, Structural)]
pub struct StreamFlags {
    /// The timeout ran out before every buffer was full.
    pub timed_out: bool,
}

/// The outcome of a read or a write.
#[derive(Clone, Copy, Debug, PartialEq, Eq, Structural)]
pub struct TransferResult {
    /// Samples moved per channel.
    pub samples_transferred: usize,
    pub flags: StreamFlags,
}

/// What the driver is asked to do for one read or write.
#[derive(Clone, Copy, Debug, PartialEq, Eq, Structural)]
pub struct TransferRequest {
    /// Samples to move per channel: the capacity of each buffer.
    pub samples: usize,
    /// How long the driver may block, in nanoseconds; 0 to poll.
    pub timeout_ns: u64,
}

impl TransferRequest {
    /// Whether the driver is to return at once with what is there.
    pub fn is_poll(&self) -> (b: bool)
        ensures
            b == (self.timeout_ns == 0),
    {
        self.timeout_ns == 0
    }

    /// The timeout in microseconds, rounded up, so that only a timeout of 0
    /// polls.
    pub fn timeout_micros(&self) -> (us: i64)
        ensures
            1000 * (us - 1) < self.timeout_ns <= 1000 * us,
            us == 0 <==> self.timeout_ns == 0,
    {
        let whole = self.timeout_ns / 1000;
        if self.timeout_ns % 1000 == 0 {
            whole as i64
        } else {
            (whole + 1) as i64
        }
    }
}

/// How a deactivation went.
#[derive(Clone, Copy, Debug, PartialEq, Eq, Structural)]
pub enum Deactivation {
    /// The session was active and is now inactive.
    Stopped,
    /// The session was not active; nothing changed. A warning, no failure.
    WasNotActive,
}

/// The mathematical value of a [`StreamSession`].
pub struct SessionModel {
    pub direction: Direction,
    /// The channel indices that the session is bound to.
    pub channels: Seq<usize>,
    /// The native format of each bound channel.
    pub natives: Seq<StreamFormat>,
    /// The format that the caller asked for.
    pub requested: StreamFormat,
    /// The stream arguments that the caller gave, for the driver.
    pub args: Pairs,
    pub state: StreamState,
    /// The buffer capacity of the transfer in progress, if one is.
    pub pending: Option<usize>,
    /// The time for which the last activation was asked, if one was given.
    pub start: Option<i64>,
    /// The time for which the last deactivation was asked, if one was given.
    pub stop: Option<i64>,
}

impl SessionModel {
    /// One native format per channel, each the requested format itself or
    /// convertible from and to it.
    pub open spec fn wf(self) -> bool {
        &&& self.natives.len() == self.channels.len()
        &&& forall|i: int|
            0 <= i < self.natives.len() ==> (#[trigger] self.natives[i]) == self.requested
                || convertible(self.natives[i], self.requested)
    }

    /// The format in which samples enter the conversion for the channel at
    /// position `slot`: the native format on receive, the requested one on
    /// transmit.
    pub open spec fn source_format(self, slot: int) -> StreamFormat {
        match self.direction {
            Direction::Receive => self.natives[slot],
            Direction::Transmit => self.requested,
        }
    }

    /// The format in which samples leave the conversion for the channel at
    /// position `slot`.
    pub open spec fn target_format(self, slot: int) -> StreamFormat {
        match self.direction {
            Direction::Receive => self.requested,
            Direction::Transmit => self.natives[slot],
        }
    }

    /// A session as `create_stream` hands it out.
    pub open spec fn fresh(
        direction: Direction,
        channels: Seq<usize>,
        natives: Seq<StreamFormat>,
        requested: StreamFormat,
        args: Pairs,
    ) -> SessionModel {
        SessionModel {
            direction,
            channels,
            natives,
            requested,
            args,
            state: StreamState::Created,
            pending: None,
            start: None,
            stop: None,
        }
    }

    /// Why the session cannot be activated, if it cannot.
    pub open spec fn activate_error(self) -> Option<HalError> {
        if self.pending is Some {
            Some(HalError::ConcurrentAccess)
        } else if self.state == StreamState::Active {
            Some(HalError::AlreadyActive)
        } else if self.state == StreamState::Failed {
            Some(HalError::DeviceLost)
        } else {
            None
        }
    }

    /// The session after `activate` was called.
    pub open spec fn activated(self, at: Option<i64>) -> SessionModel {
        if self.activate_error() is None {
            SessionModel { state: StreamState::Active, start: at, ..self }
        } else {
            self
        }
    }

    /// Why the session cannot be deactivated, if it cannot.
    pub open spec fn deactivate_error(self) -> Option<HalError> {
        if self.pending is Some {
            Some(HalError::ConcurrentAccess)
        } else {
            None
        }
    }

    /// How a deactivation that is not refused goes.
    pub open spec fn deactivation(self) -> Deactivation {
        if self.state == StreamState::Active {
            Deactivation::Stopped
        } else {
            Deactivation::WasNotActive
        }
    }

    /// The session after `deactivate` was called.
    pub open spec fn deactivated(self, at: Option<i64>) -> SessionModel {
        if self.deactivate_error() is None && self.state == StreamState::Active {
            SessionModel { state: StreamState::Inactive, stop: at, ..self }
        } else {
            self
        }
    }

    /// Why a transfer in `direction` cannot begin, if it cannot.
    pub open spec fn begin_error(self, direction: Direction) -> Option<HalError> {
        if self.pending is Some {
            Some(HalError::ConcurrentAccess)
        } else if self.direction != direction {
            Some(HalError::WrongDirection)
        } else if self.state == StreamState::Failed {
            Some(HalError::DeviceLost)
        } else if self.state != StreamState::Active {
            Some(HalError::NotActive)
        } else {
            None
        }
    }

    /// The session after a transfer of `samples` per channel was begun.
    pub open spec fn begun(self, direction: Direction, samples: usize) -> SessionModel {
        if self.begin_error(direction) is None {
            SessionModel { pending: Some(samples), ..self }
        } else {
            self
        }
    }

    /// Whether a transfer in `direction` is in progress.
    pub open spec fn in_transfer(self, direction: Direction) -> bool {
        self.pending is Some && self.direction == direction
    }

    /// What the transfer in progress comes to, given what the driver
    /// reported.
    pub open spec fn finish_result(self, direction: Direction, event: DriverEvent) -> Result<
        TransferResult,
        HalError,
    > {
        if self.pending is None {
            Err(HalError::ConcurrentAccess)
        } else if self.direction != direction {
            Err(HalError::WrongDirection)
        } else {
            let capacity = self.pending->Some_0;
            match event {
                DriverEvent::Transferred(n) => Ok(
                    TransferResult {
                        samples_transferred: if n < capacity {
                            n
                        } else {
                            capacity
                        },
                        flags: StreamFlags { timed_out: n < capacity },
                    },
                ),
                DriverEvent::TimedOut => Ok(
                    TransferResult { samples_transferred: 0, flags: StreamFlags { timed_out: true } },
                ),
                DriverEvent::Overflow => Err(HalError::Overflow),
                DriverEvent::Underflow => Err(HalError::Underflow),
                DriverEvent::Lost => Err(HalError::DeviceLost),
            }
        }
    }

    /// The session after the transfer in progress was ended.
    pub open spec fn finished(self, direction: Direction, event: DriverEvent) -> SessionModel {
        if self.in_transfer(direction) {
            SessionModel {
                pending: None,
                state: if event == DriverEvent::Lost {
                    StreamState::Failed
                } else {
                    self.state
                },
                ..self
            }
        } else {
            self
        }
    }
}

/// A stream over a set of channels of one device, in one direction.
#[derive(Debug)]
pub struct StreamSession {
    direction: Direction,
    channels: Vec<usize>,
    natives: Vec<StreamFormat>,
    requested: StreamFormat,
    args: DeviceArgs,
    state: StreamState,
    pending: Option<usize>,
    start: Option<i64>,
    stop: Option<i64>,
}

impl View for StreamSession {
    type V = SessionModel;

    closed spec fn view(&self) -> SessionModel {
        SessionModel {
            direction: self.direction,
            channels: self.channels@,
            natives: self.natives@,
            requested: self.requested,
            args: self.args@,
            state: self.state,
            pending: self.pending,
            start: self.start,
            stop: self.stop,
        }
    }
}

impl StreamSession {
    #[verifier::type_invariant]
    spec fn inv(self) -> bool {
        self@.wf()
    }

    /// A session in the state `Created`, bound to `channels`, whose native
    /// formats are `natives`: one per channel, each the requested format or
    /// convertible from and to it, else there is no such session.
    pub fn new(
        direction: Direction,
        channels: Vec<usize>,
        natives: Vec<StreamFormat>,
        requested: StreamFormat,
        args: DeviceArgs,
    ) -> (res: Option<StreamSession>)
        ensures
            res is Some <==> SessionModel::fresh(direction, channels@, natives@, requested, args@).wf(),
            res matches Some(s) ==> s@ == SessionModel::fresh(
                direction,
                channels@,
                natives@,
                requested,
                args@,
            ),
    {
        if natives.len() != channels.len() {
            return None;
        }
        let mut i: usize = 0;
        while i < natives.len()
            invariant
                i <= natives@.len(),
                forall|k: int|
                    0 <= k < i ==> (#[trigger] natives@[k]) == requested || convertible(
                        natives@[k],
                        requested,
                    ),
            decreases natives@.len() - i,
        {
            if FormatConverter::new(natives[i], requested).is_err() {
                return None;
            }
            i += 1;
        }
        Some(
            StreamSession {
                direction,
                channels,
                natives,
                requested,
                args,
                state: StreamState::Created,
                pending: None,
                start: None,
                stop: None,
            },
        )
    }

    /// The way the samples flow.
    pub fn direction(&self) -> (d: Direction)
        ensures
            d == self@.direction,
    {
        self.direction
    }

    /// The channel indices that the session is bound to.
    pub fn channels(&self) -> (list: &Vec<usize>)
        ensures
            list@ == self@.channels,
            self@.wf(),
    {
        proof {
            use_type_invariant(self);
        }
        &self.channels
    }

    /// The format that the caller asked for.
    pub fn requested_format(&self) -> (f: StreamFormat)
        ensures
            f == self@.requested,
    {
        self.requested
    }

    /// The stream arguments that the session was created with, which the
    /// driver is to be given.
    pub fn stream_args(&self) -> (args: &DeviceArgs)
        ensures
            args@ == self@.args,
    {
        &self.args
    }

    /// Where the session stands in its life.
    pub fn state(&self) -> (s: StreamState)
        ensures
            s == self@.state,
    {
        self.state
    }

    /// Whether the session is streaming.
    pub fn is_active(&self) -> (b: bool)
        ensures
            b == (self@.state == StreamState::Active),
    {
        self.state == StreamState::Active
    }

    /// The time for which the last activation was asked.
    pub fn start_time(&self) -> (t: Option<i64>)
        ensures
            t == self@.start,
    {
        self.start
    }

    /// The time for which the last deactivation was asked.
    pub fn stop_time(&self) -> (t: Option<i64>)
        ensures
            t == self@.stop,
    {
        self.stop
    }

    /// The converter for the channel at position `slot` of the session's
    /// channels: from native to requested for a receive session, from
    /// requested to native for a transmit session. `None` where the session
    /// has no such position.
    pub fn converter(&self, slot: usize) -> (res: Option<FormatConverter>)
        ensures
            res is Some <==> slot < self@.channels.len(),
            res matches Some(c) ==> c.source() == self@.source_format(slot as int) && c.target()
                == self@.target_format(slot as int),
            self@.wf(),
    {
        proof {
            use_type_invariant(self);
        }
        if slot >= self.natives.len() {
            return None;
        }
        let native = self.natives[slot];
        let made = match self.direction {
            Direction::Receive => FormatConverter::new(native, self.requested),
            Direction::Transmit => FormatConverter::new(self.requested, native),
        };
        match made {
            Ok(c) => Some(c),
            Err(_) => None,
        }
    }

    /// Carries the first `count` samples of each channel from `source` to
    /// `target` through that channel's converter: from the driver's blocks
    /// to the caller's buffers after a read, from the caller's buffers to
    /// the driver's blocks before a write. Each list holds one buffer per
    /// bound channel, in the order of the session's channels; a buffer
    /// without a counterpart, and what lies behind the samples moved, stays
    /// as it was. Returns the number of buffers written to.
    pub fn convert_buffers(&self, count: usize, source: &Vec<Vec<IqSample>>, target: &mut Vec<Vec<IqSample>>) -> (slots:
        usize)
        ensures
            slots == vstd::math::min(
                self@.channels.len() as int,
                vstd::math::min(source@.len() as int, old(target)@.len() as int),
            ),
            final(target)@.len() == old(target)@.len(),
            forall|c: int|
                0 <= c < slots ==> block_converted(
                    source@[c]@,
                    count as int,
                    old(target)@[c]@,
                    #[trigger] final(target)@[c]@,
                    self@.source_format(c),
                    self@.target_format(c),
                ),
            forall|c: int| slots <= c < old(target)@.len() ==> #[trigger] final(target)@[c] == old(target)@[c],
    {
        let mut slots: usize = self.channels.len();
        if source.len() < slots {
            slots = source.len();
        }
        if target.len() < slots {
            slots = target.len();
        }
        let mut c: usize = 0;
        while c < slots
            invariant
                c <= slots,
                slots <= self@.channels.len(),
                slots <= source@.len(),
                slots <= target@.len(),
                target@.len() == old(target)@.len(),
                forall|k: int|
                    0 <= k < c ==> block_converted(
                        source@[k]@,
                        count as int,
                        old(target)@[k]@,
                        #[trigger] target@[k]@,
                        self@.source_format(k),
                        self@.target_format(k),
                    ),
                forall|k: int| c <= k < target@.len() ==> #[trigger] target@[k] == old(target)@[k],
            decreases slots - c,
        {
            match self.converter(c) {
                Some(converter) => {
                    let mut buffer: Vec<IqSample> = Vec::new();
                    core::mem::swap(&mut target[c], &mut buffer);
                    converter.convert_into(&source[c], count, &mut buffer);
                    core::mem::swap(&mut target[c], &mut buffer);
                },
                None => {},
            }
            c += 1;
        }
        slots
    }

    /// Starts the stream, at once or at the time `at` in nanoseconds. Legal
    /// from `Created` and from `Inactive`.
    pub fn activate(&mut self, at: Option<i64>) -> (res: Result<(), HalError>)
        ensures
            res is Ok <==> old(self)@.activate_error() is None,
            res matches Err(e) ==> Some(e) == old(self)@.activate_error(),
            final(self)@ == old(self)@.activated(at),
    {
        if self.pending.is_some() {
            return Err(HalError::ConcurrentAccess);
        }
        match self.state {
            StreamState::Active => Err(HalError::AlreadyActive),
            StreamState::Failed => Err(HalError::DeviceLost),
            _ => {
                proof {
                    use_type_invariant(&*self);
                }
                self.state = StreamState::Active;
                self.start = at;
                Ok(())
            },
        }
    }

    /// Stops the stream, at once or at the time `at` in nanoseconds. On a
    /// session that is not active nothing changes, which is reported and is
    /// no failure.
    pub fn deactivate(&mut self, at: Option<i64>) -> (res: Result<Deactivation, HalError>)
        ensures
            res is Ok <==> old(self)@.deactivate_error() is None,
            res matches Err(e) ==> Some(e) == old(self)@.deactivate_error(),
            res matches Ok(d) ==> d == old(self)@.deactivation(),
            final(self)@ == old(self)@.deactivated(at),
    {
        if self.pending.is_some() {
            return Err(HalError::ConcurrentAccess);
        }
        if self.state == StreamState::Active {
            proof {
                use_type_invariant(&*self);
            }
            self.state = StreamState::Inactive;
            self.stop = at;
            Ok(Deactivation::Stopped)
        } else {
            Ok(Deactivation::WasNotActive)
        }
    }

    /// Begins a transfer in `direction`.
    fn begin(&mut self, direction: Direction, samples: usize, timeout_ns: u64) -> (res: Result<
        TransferRequest,
        HalError,
    >)
        ensures
            res is Ok <==> old(self)@.begin_error(direction) is None,
            res matches Err(e) ==> Some(e) == old(self)@.begin_error(direction),
            res matches Ok(r) ==> r == (TransferRequest { samples, timeout_ns }),
            final(self)@ == old(self)@.begun(direction, samples),
    {
        if self.pending.is_some() {
            return Err(HalError::ConcurrentAccess);
        }
        if self.direction != direction {
            return Err(HalError::WrongDirection);
        }
        match self.state {
            StreamState::Failed => Err(HalError::DeviceLost),
            StreamState::Active => {
                proof {
                    use_type_invariant(&*self);
                }
                self.pending = Some(samples);
                Ok(TransferRequest { samples, timeout_ns })
            },
            _ => Err(HalError::NotActive),
        }
    }

    /// Ends the transfer in progress in `direction`.
    fn finish(&mut self, direction: Direction, event: DriverEvent) -> (res: Result<
        TransferResult,
        HalError,
    >)
        ensures
            res == old(self)@.finish_result(direction, event),
            final(self)@ == old(self)@.finished(direction, event),
    {
        let capacity = match self.pending {
            None => { return Err(HalError::ConcurrentAccess); },
            Some(c) => c,
        };
        if self.direction != direction {
            return Err(HalError::WrongDirection);
        }
        proof {
            use_type_invariant(&*self);
        }
        self.pending = None;
        match event {
            DriverEvent::Transferred(n) => {
                let moved = if n < capacity {
                    n
                } else {
                    capacity
                };
                Ok(
                    TransferResult {
                        samples_transferred: moved,
                        flags: StreamFlags { timed_out: n < capacity },
                    },
                )
            },
            DriverEvent::TimedOut => Ok(
                TransferResult { samples_transferred: 0, flags: StreamFlags { timed_out: true } },
            ),
            DriverEvent::Overflow => Err(HalError::Overflow),
            DriverEvent::Underflow => Err(HalError::Underflow),
            DriverEvent::Lost => {
                self.state = StreamState::Failed;
                Err(HalError::DeviceLost)
            },
        }
    }

    /// Begins a read of `samples` per channel, one buffer of that capacity
    /// for each bound channel. Legal on an active receive session with no
    /// transfer in progress. The driver is then to fill the buffers, blocking
    /// for `timeout_ns` nanoseconds at most (0: not at all).
    pub fn begin_read(&mut self, samples: usize, timeout_ns: u64) -> (res: Result<
        TransferRequest,
        HalError,
    >)
        ensures
            res is Ok <==> old(self)@.begin_error(Direction::Receive) is None,
            res matches Err(e) ==> Some(e) == old(self)@.begin_error(Direction::Receive),
            res matches Ok(r) ==> r == (TransferRequest { samples, timeout_ns }),
            final(self)@ == old(self)@.begun(Direction::Receive, samples),
    {
        self.begin(Direction::Receive, samples, timeout_ns)
    }

    /// Ends the read in progress with what the driver reported: full
    /// buffers, or a smaller count with the flag `timed_out`, or an overflow,
    /// which leaves the session active, or the loss of the device.
    pub fn finish_read(&mut self, event: DriverEvent) -> (res: Result<TransferResult, HalError>)
        ensures
            res == old(self)@.finish_result(Direction::Receive, event),
            final(self)@ == old(self)@.finished(Direction::Receive, event),
    {
        self.finish(Direction::Receive, event)
    }

    /// Begins a write of `samples` per channel, the mirror of `begin_read`
    /// on a transmit session.
    pub fn begin_write(&mut self, samples: usize, timeout_ns: u64) -> (res: Result<
        TransferRequest,
        HalError,
    >)
        ensures
            res is Ok <==> old(self)@.begin_error(Direction::Transmit) is None,
            res matches Err(e) ==> Some(e) == old(self)@.begin_error(Direction::Transmit),
            res matches Ok(r) ==> r == (TransferRequest { samples, timeout_ns }),
            final(self)@ == old(self)@.begun(Direction::Transmit, samples),
    {
        self.begin(Direction::Transmit, samples, timeout_ns)
    }

    /// Ends the write in progress with what the driver reported.
    pub fn finish_write(&mut self, event: DriverEvent) -> (res: Result<TransferResult, HalError>)
        ensures
            res == old(self)@.finish_result(Direction::Transmit, event),
            final(self)@ == old(self)@.finished(Direction::Transmit, event),
    {
        self.finish(Direction::Transmit, event)
    }
}

/// A session that was never activated refuses a read with `NotActive`.
/// Activated, deactivated and activated again, it is active, and a read
/// begins and ends with a count, whatever count the driver reports.
pub proof fn lemma_restart_reads(
    s: SessionModel,
    t1: Option<i64>,
    t2: Option<i64>,
    t3: Option<i64>,
    samples: usize,
    moved: usize,
)
    requires
        s.direction == Direction::Receive,
        s.state == StreamState::Created,
        s.pending is None,
    ensures
        s.begin_error(Direction::Receive) == Some(HalError::NotActive),
        s.activate_error() is None,
        s.activated(t1).deactivate_error() is None,
        s.activated(t1).deactivation() == Deactivation::Stopped,
        s.activated(t1).deactivated(t2).activate_error() is None,
        ({
            let again = s.activated(t1).deactivated(t2).activated(t3);
            &&& again.state == StreamState::Active
            &&& again.begin_error(Direction::Receive) is None
            &&& again.begun(Direction::Receive, samples).finish_result(
                Direction::Receive,
                DriverEvent::Transferred(moved),
            ) is Ok
            &&& again.begun(Direction::Receive, samples).finished(
                Direction::Receive,
                DriverEvent::Transferred(moved),
            ) == again
        }),
{
}

/// Whatever was done to a session that is not active, a read does not
/// begin on it, and a deactivated session is not active.
pub proof fn lemma_read_needs_active(s: SessionModel, at: Option<i64>)
    ensures
        s.state != StreamState::Active ==> s.begin_error(Direction::Receive) is Some,
        s.deactivate_error() is None ==> s.deactivated(at).state != StreamState::Active,
        s.deactivate_error() is None && s.direction == Direction::Receive && s.state
            == StreamState::Active ==> s.deactivated(at).begin_error(Direction::Receive) == Some(
            HalError::NotActive,
        ),
{
}

} // verus!
