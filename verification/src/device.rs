//! A handle on one opened device: capability queries, tuning, and the
//! stream sessions that are bound to its channels.

use vstd::prelude::*;
use crate::args::{DeviceArgs, Pairs};
use crate::channel::{channel_models, ChannelInfo, DeviceDescriptor, DeviceModel, Direction, TuningPolicy};
use crate::error::HalError;
use crate::format::{convertible, FormatConverter, SampleFormat, StreamFormat};
use crate::range::{
    canonical, intervals, is_nearest, lemma_member_is_nearest, made_of, merge_ranges,
    nearest_value, ranges_contain, same_union, union_contains, Interval, Range,
};
use crate::session::{
    Deactivation, DriverEvent, SessionModel, StreamSession, StreamState, TransferRequest,
    TransferResult,
};

verus! {

/// The mathematical value of a [`DeviceHandle`].
pub struct HandleModel {
    /// The device as its backend described it.
    pub device: DeviceModel,
    /// The sessions by identifier; `None` where one was released.
    pub sessions: Seq<Option<SessionModel>>,
    /// For each receive channel, the frequency that it was tuned to and the
    /// tuning arguments that were given, if it was tuned.
    pub receive_tuning: Seq<Option<(i64, Pairs)>>,
    /// The same for each transmit channel.
    pub transmit_tuning: Seq<Option<(i64, Pairs)>>,
}

impl HandleModel {
    /// One tuning entry per channel.
    pub open spec fn wf(self) -> bool {
        &&& self.receive_tuning.len() == self.device.receive.len()
        &&& self.transmit_tuning.len() == self.device.transmit.len()
    }

    /// A handle as `open` hands it out: no session, nothing tuned.
    pub open spec fn opened(device: DeviceModel) -> HandleModel {
        HandleModel {
            device,
            sessions: Seq::empty(),
            receive_tuning: Seq::new(device.receive.len(), |i: int| None),
            transmit_tuning: Seq::new(device.transmit.len(), |i: int| None),
        }
    }

    /// The tunings of one direction.
    pub open spec fn tunings(self, direction: Direction) -> Seq<Option<(i64, Pairs)>> {
        match direction {
            Direction::Receive => self.receive_tuning,
            Direction::Transmit => self.transmit_tuning,
        }
    }

    /// The frequency that the channel `index` of `direction` was tuned to,
    /// if it was.
    pub open spec fn frequency(self, direction: Direction, index: int) -> Option<i64> {
        match self.tunings(direction)[index] {
            Some(tuning) => Some(tuning.0),
            None => None,
        }
    }

    /// The number of channels of one direction.
    pub open spec fn num_channels(self, direction: Direction) -> nat {
        self.device.channels(direction).len()
    }

    /// `id` names a session that was not released.
    pub open spec fn live(self, id: int) -> bool {
        0 <= id < self.sessions.len() && self.sessions[id] is Some
    }

    /// The session that `id` names.
    pub open spec fn session(self, id: int) -> SessionModel {
        self.sessions[id]->Some_0
    }

    /// The handle with the session `id` replaced by `s`.
    pub open spec fn with_session(self, id: int, s: SessionModel) -> HandleModel {
        HandleModel { sessions: self.sessions.update(id, Some(s)), ..self }
    }

    /// The session `id` holds the channel `channel` of `direction`.
    pub open spec fn holds(self, id: int, direction: Direction, channel: usize) -> bool {
        self.live(id) && self.session(id).direction == direction && self.session(
            id,
        ).channels.contains(channel)
    }

    /// Some session holds the channel `channel` of `direction`.
    pub open spec fn claimed(self, direction: Direction, channel: usize) -> bool {
        exists|id: int| #[trigger] self.holds(id, direction, channel)
    }

    /// Every index names a channel of `direction`, and none occurs twice.
    pub open spec fn valid_channels(self, direction: Direction, channels: Seq<usize>) -> bool {
        &&& forall|k: int|
            0 <= k < channels.len() ==> (#[trigger] channels[k]) < self.num_channels(direction)
        &&& forall|j: int, k: int|
            0 <= j < k < channels.len() ==> (#[trigger] channels[j]) != (#[trigger] channels[k])
    }

    /// The channel offers the requested format, and its native format is the
    /// requested one or can be converted from and to it.
    pub open spec fn format_offered(self, direction: Direction, channel: usize, requested: StreamFormat) -> bool {
        let info = self.device.channels(direction)[channel as int];
        info.stream_formats.contains(requested.format) && (info.native_format == requested
            || convertible(info.native_format, requested))
    }

    /// Every requested channel offers the requested format.
    pub open spec fn formats_offered(self, direction: Direction, channels: Seq<usize>, requested: StreamFormat) -> bool {
        forall|k: int|
            0 <= k < channels.len() ==> self.format_offered(direction, #[trigger] channels[k], requested)
    }

    /// Some requested channel is held by a session.
    pub open spec fn conflicts(self, direction: Direction, channels: Seq<usize>) -> bool {
        exists|k: int| 0 <= k < channels.len() && self.claimed(direction, #[trigger] channels[k])
    }

    /// Why a stream cannot be created, if it cannot. The checks come in this
    /// order: the channel list, the format, the alignment of several
    /// channels, the claims of other sessions.
    pub open spec fn create_error(self, direction: Direction, channels: Seq<usize>, requested: StreamFormat) -> Option<HalError> {
        if !self.valid_channels(direction, channels) {
            Some(HalError::InvalidChannel)
        } else if !self.formats_offered(direction, channels, requested) {
            Some(HalError::FormatNegotiation)
        } else if channels.len() > 1 && !self.device.synchronized {
            Some(HalError::SynchronizationUnsupported)
        } else if self.conflicts(direction, channels) {
            Some(HalError::ChannelConflict)
        } else {
            None
        }
    }

    /// The native formats of the requested channels.
    pub open spec fn natives(self, direction: Direction, channels: Seq<usize>) -> Seq<StreamFormat> {
        Seq::new(
            channels.len(),
            |k: int| self.device.channels(direction)[channels[k] as int].native_format,
        )
    }

    /// The handle after `create_stream` was called: the new session at the
    /// end of the sessions where the request was granted.
    pub open spec fn created(
        self,
        direction: Direction,
        channels: Seq<usize>,
        requested: StreamFormat,
        args: Pairs,
    ) -> HandleModel {
        if self.create_error(direction, channels, requested) is None {
            HandleModel {
                sessions: self.sessions.push(
                    Some(
                        SessionModel::fresh(
                            direction,
                            channels,
                            self.natives(direction, channels),
                            requested,
                            args,
                        ),
                    ),
                ),
                ..self
            }
        } else {
            self
        }
    }

    /// The handle after the session `id` was released.
    pub open spec fn released(self, id: int) -> HandleModel {
        if self.live(id) {
            HandleModel { sessions: self.sessions.update(id, None), ..self }
        } else {
            self
        }
    }

    /// The handle with the session `id`, if it is live, replaced by `next`.
    pub open spec fn session_step(self, id: int, next: SessionModel) -> HandleModel {
        if self.live(id) {
            self.with_session(id, next)
        } else {
            self
        }
    }

    /// `id` names a live session that is active.
    pub open spec fn active(self, id: int) -> bool {
        self.live(id) && self.session(id).state == StreamState::Active
    }

    /// The frequency ranges of a channel as the backend reported them.
    pub open spec fn reported_frequencies(self, direction: Direction, index: usize) -> Seq<Interval> {
        self.device.channels(direction)[index as int].frequency_ranges
    }

    /// Why a channel cannot be tuned to `hz`, if it cannot.
    pub open spec fn tune_error(self, direction: Direction, index: usize, hz: i64) -> Option<HalError> {
        if index >= self.num_channels(direction) {
            Some(HalError::InvalidChannel)
        } else if !union_contains(self.reported_frequencies(direction, index), hz as int) && (
        self.device.tuning == TuningPolicy::Reject || self.reported_frequencies(
            direction,
            index,
        ).len() == 0) {
            Some(HalError::UnsupportedFrequency)
        } else {
            None
        }
    }

    /// The handle with the channel `index` of `direction` tuned to `hz`
    /// with the tuning arguments `args`.
    pub open spec fn tuned(self, direction: Direction, index: usize, hz: i64, args: Pairs) -> HandleModel {
        match direction {
            Direction::Receive => HandleModel {
                receive_tuning: self.receive_tuning.update(index as int, Some((hz, args))),
                ..self
            },
            Direction::Transmit => HandleModel {
                transmit_tuning: self.transmit_tuning.update(index as int, Some((hz, args))),
                ..self
            },
        }
    }
}

/// The mathematical values of a list of session slots.
pub open spec fn session_models(v: Seq<Option<StreamSession>>) -> Seq<Option<SessionModel>> {
    Seq::new(
        v.len(),
        |i: int|
            match v[i] {
                Some(s) => Some(s@),
                None => None,
            },
    )
}

/// What a channel was tuned to, and with which arguments.
#[derive(Debug)]
struct Tuning {
    hz: i64,
    args: DeviceArgs,
}

/// The mathematical values of a list of tunings.
spec fn tuning_models(v: Seq<Option<Tuning>>) -> Seq<Option<(i64, Pairs)>> {
    Seq::new(
        v.len(),
        |i: int|
            match v[i] {
                Some(t) => Some((t.hz, t.args@)),
                None => None,
            },
    )
}

/// A live connection to one device.
#[derive(Debug)]
pub struct DeviceHandle {
    descriptor: DeviceDescriptor,
    sessions: Vec<Option<StreamSession>>,
    receive_tuning: Vec<Option<Tuning>>,
    transmit_tuning: Vec<Option<Tuning>>,
}

impl View for DeviceHandle {
    type V = HandleModel;

    closed spec fn view(&self) -> HandleModel {
        HandleModel {
            device: self.descriptor@,
            sessions: session_models(self.sessions@),
            receive_tuning: tuning_models(self.receive_tuning@),
            transmit_tuning: tuning_models(self.transmit_tuning@),
        }
    }
}

/// A list of `n` entries, none of them set.
fn untuned(n: usize) -> (list: Vec<Option<Tuning>>)
    ensures
        tuning_models(list@) == Seq::new(n as nat, |i: int| None::<(i64, Pairs)>),
{
    let mut list: Vec<Option<Tuning>> = Vec::new();
    let mut i: usize = 0;
    while i < n
        invariant
            i <= n,
            list@.len() == i,
            forall|k: int| 0 <= k < i ==> (#[trigger] list@[k]) is None,
        decreases n - i,
    {
        list.push(None);
        i += 1;
    }
    assert(tuning_models(list@) =~= Seq::new(n as nat, |i: int| None::<(i64, Pairs)>));
    list
}

/// Whether `x` is in `list`.
fn contains_index(list: &Vec<usize>, x: usize) -> (b: bool)
    ensures
        b == list@.contains(x),
{
    let mut i: usize = 0;
    while i < list.len()
        invariant
            i <= list@.len(),
            forall|k: int| 0 <= k < i ==> list@[k] != x,
        decreases list@.len() - i,
    {
        if list[i] == x {
            return true;
        }
        i += 1;
    }
    false
}

/// Whether `format` is in `list`.
fn contains_format(list: &Vec<SampleFormat>, format: SampleFormat) -> (b: bool)
    ensures
        b == list@.contains(format),
{
    let mut i: usize = 0;
    while i < list.len()
        invariant
            i <= list@.len(),
            forall|k: int| 0 <= k < i ==> list@[k] != format,
        decreases list@.len() - i,
    {
        if list[i] == format {
            return true;
        }
        i += 1;
    }
    false
}

impl DeviceHandle {
    #[verifier::type_invariant]
    spec fn inv(self) -> bool {
        self@.wf()
    }

    /// A handle on the device that `descriptor` describes, with no session
    /// and nothing tuned.
    pub fn new(descriptor: DeviceDescriptor) -> (handle: DeviceHandle)
        ensures
            handle@ == HandleModel::opened(descriptor@),
    {
        let receive_tuning = untuned(descriptor.receive.len());
        let transmit_tuning = untuned(descriptor.transmit.len());
        let handle = DeviceHandle {
            descriptor,
            sessions: Vec::new(),
            receive_tuning,
            transmit_tuning,
        };
        assert(handle@.sessions =~= Seq::empty());
        handle
    }

    /// The device as its backend described it.
    pub fn descriptor(&self) -> (d: &DeviceDescriptor)
        ensures
            d@ == self@.device,
            self@.wf(),
    {
        proof {
            use_type_invariant(self);
        }
        &self.descriptor
    }

    /// The number of channels of `direction`.
    pub fn num_channels(&self, direction: Direction) -> (n: usize)
        ensures
            n == self@.num_channels(direction),
    {
        self.descriptor.channels(direction).len()
    }

    /// The capabilities of the channel `index` of `direction`.
    pub fn channel_info(&self, direction: Direction, index: usize) -> (res: Result<
        &ChannelInfo,
        HalError,
    >)
        ensures
            res is Ok <==> index < self@.num_channels(direction),
            res matches Ok(info) ==> info@ == self@.device.channels(direction)[index as int],
            res matches Err(e) ==> e == HalError::InvalidChannel,
    {
        let list = self.descriptor.channels(direction);
        if index < list.len() {
            assert(channel_models(list@)[index as int] == list@[index as int]@);
            Ok(&list[index])
        } else {
            Err(HalError::InvalidChannel)
        }
    }

    /// The sample formats that the channel offers.
    pub fn stream_formats(&self, direction: Direction, index: usize) -> (res: Result<
        Vec<SampleFormat>,
        HalError,
    >)
        ensures
            res is Ok <==> index < self@.num_channels(direction),
            res matches Ok(list) ==> list@ == self@.device.channels(direction)[index as int].stream_formats,
            res matches Err(e) ==> e == HalError::InvalidChannel,
    {
        match self.channel_info(direction, index) {
            Ok(info) => {
                let list = info.stream_formats.clone();
                assert(list@ =~= info.stream_formats@);
                Ok(list)
            },
            Err(e) => Err(e),
        }
    }

    /// The format in which the channel's hardware produces or consumes
    /// samples, with its full scale.
    pub fn native_stream_format(&self, direction: Direction, index: usize) -> (res: Result<
        StreamFormat,
        HalError,
    >)
        ensures
            res is Ok <==> index < self@.num_channels(direction),
            res matches Ok(f) ==> f == self@.device.channels(direction)[index as int].native_format,
            res matches Err(e) ==> e == HalError::InvalidChannel,
    {
        match self.channel_info(direction, index) {
            Ok(info) => Ok(info.native_format),
            Err(e) => Err(e),
        }
    }

    /// The frequencies that the channel can be tuned to, in canonical form:
    /// ascending, disjoint, overlapping and touching ranges joined.
    pub fn frequency_range(&self, direction: Direction, index: usize) -> (res: Result<
        Vec<Range>,
        HalError,
    >)
        ensures
            res is Ok <==> index < self@.num_channels(direction),
            res matches Ok(list) ==> {
                let reported = self@.device.channels(direction)[index as int].frequency_ranges;
                &&& canonical(intervals(list@))
                &&& same_union(intervals(list@), reported)
                &&& made_of(reported, intervals(list@))
            },
            res matches Err(e) ==> e == HalError::InvalidChannel,
    {
        match self.channel_info(direction, index) {
            Ok(info) => Ok(merge_ranges(&info.frequency_ranges)),
            Err(e) => Err(e),
        }
    }

    /// The sample rates that the channel can run at, in canonical form.
    pub fn sample_rate_range(&self, direction: Direction, index: usize) -> (res: Result<
        Vec<Range>,
        HalError,
    >)
        ensures
            res is Ok <==> index < self@.num_channels(direction),
            res matches Ok(list) ==> {
                let reported = self@.device.channels(direction)[index as int].sample_rate_ranges;
                &&& canonical(intervals(list@))
                &&& same_union(intervals(list@), reported)
                &&& made_of(reported, intervals(list@))
            },
            res matches Err(e) ==> e == HalError::InvalidChannel,
    {
        match self.channel_info(direction, index) {
            Ok(info) => Ok(merge_ranges(&info.sample_rate_ranges)),
            Err(e) => Err(e),
        }
    }

    /// The frequency that the channel was last tuned to, `None` where it
    /// never was.
    pub fn frequency(&self, direction: Direction, index: usize) -> (res: Result<Option<i64>, HalError>)
        ensures
            res is Ok <==> index < self@.num_channels(direction),
            res matches Ok(f) ==> f == self@.frequency(direction, index as int),
            res matches Err(e) ==> e == HalError::InvalidChannel,
    {
        proof {
            use_type_invariant(self);
        }
        let list = match direction {
            Direction::Receive => &self.receive_tuning,
            Direction::Transmit => &self.transmit_tuning,
        };
        assert(tuning_models(list@) == self@.tunings(direction));
        if index >= list.len() {
            return Err(HalError::InvalidChannel);
        }
        match &list[index] {
            Some(tuning) => Ok(Some(tuning.hz)),
            None => Ok(None),
        }
    }

    /// The tuning arguments that the channel was last tuned with, `None`
    /// where it never was tuned.
    pub fn tuning_args(&self, direction: Direction, index: usize) -> (res: Result<
        Option<DeviceArgs>,
        HalError,
    >)
        ensures
            res is Ok <==> index < self@.num_channels(direction),
            res matches Ok(found) ==> (found is Some <==> self@.tunings(direction)[index as int] is Some)
                && (found matches Some(args) ==> args@ == self@.tunings(
                direction,
            )[index as int]->Some_0.1),
            res matches Err(e) ==> e == HalError::InvalidChannel,
    {
        proof {
            use_type_invariant(self);
        }
        let list = match direction {
            Direction::Receive => &self.receive_tuning,
            Direction::Transmit => &self.transmit_tuning,
        };
        assert(tuning_models(list@) == self@.tunings(direction));
        if index >= list.len() {
            return Err(HalError::InvalidChannel);
        }
        match &list[index] {
            Some(tuning) => Ok(Some(tuning.args.clone())),
            None => Ok(None),
        }
    }

    /// Tunes the channel `index` of `direction` to `hz`. A frequency inside
    /// the channel's ranges is taken as it is. One outside them is refused
    /// where the backend rejects, and replaced by the closest allowed
    /// frequency where the backend clamps. The tuning arguments are kept
    /// for the driver.
    pub fn set_frequency(&mut self, direction: Direction, index: usize, hz: i64, tuning_args: &DeviceArgs) -> (res:
        Result<(), HalError>)
        ensures
            res is Ok <==> old(self)@.tune_error(direction, index, hz) is None,
            res matches Err(e) ==> Some(e) == old(self)@.tune_error(direction, index, hz)
                && final(self)@ == old(self)@,
            res is Ok ==> {
                let set = final(self)@.frequency(direction, index as int);
                &&& set is Some
                &&& is_nearest(
                    old(self)@.reported_frequencies(direction, index),
                    hz as int,
                    set->Some_0 as int,
                )
                &&& final(self)@ == old(self)@.tuned(direction, index, set->Some_0, tuning_args@)
            },
    {
        proof {
            use_type_invariant(&*self);
        }
        let list = self.descriptor.channels(direction);
        if index >= list.len() {
            return Err(HalError::InvalidChannel);
        }
        let info = &list[index];
        assert(channel_models(list@)[index as int] == info@);
        let ghost reported = intervals(info.frequency_ranges@);
        let target: i64 = if ranges_contain(&info.frequency_ranges, hz) {
            proof {
                lemma_member_is_nearest(reported, hz as int);
            }
            hz
        } else {
            match self.descriptor.tuning {
                TuningPolicy::Reject => { return Err(HalError::UnsupportedFrequency); },
                TuningPolicy::Clamp => match nearest_value(&info.frequency_ranges, hz) {
                    Some(y) => y,
                    None => { return Err(HalError::UnsupportedFrequency); },
                },
            }
        };
        let ghost before = self@;
        let tuning = Tuning { hz: target, args: tuning_args.clone() };
        match direction {
            Direction::Receive => {
                self.receive_tuning[index] = Some(tuning);
                assert(self@.receive_tuning =~= before.receive_tuning.update(
                    index as int,
                    Some((target, tuning_args@)),
                ));
            },
            Direction::Transmit => {
                self.transmit_tuning[index] = Some(tuning);
                assert(self@.transmit_tuning =~= before.transmit_tuning.update(
                    index as int,
                    Some((target, tuning_args@)),
                ));
            },
        }
        Ok(())
    }

    /// Whether some session holds the channel `channel` of `direction`.
    pub fn is_claimed(&self, direction: Direction, channel: usize) -> (b: bool)
        ensures
            b == self@.claimed(direction, channel),
    {
        let mut i: usize = 0;
        while i < self.sessions.len()
            invariant
                i <= self.sessions@.len(),
                forall|id: int| 0 <= id < i ==> !self@.holds(id, direction, channel),
            decreases self.sessions@.len() - i,
        {
            match &self.sessions[i] {
                Some(s) => {
                    if s.direction() == direction && contains_index(s.channels(), channel) {
                        assert(self@.holds(i as int, direction, channel));
                        return true;
                    }
                },
                None => {},
            }
            assert(!self@.holds(i as int, direction, channel));
            i += 1;
        }
        false
    }

    /// Whether every index names a channel of `direction` and none occurs
    /// twice.
    fn check_channels(&self, direction: Direction, channels: &Vec<usize>) -> (b: bool)
        ensures
            b == self@.valid_channels(direction, channels@),
    {
        let n = self.num_channels(direction);
        let mut k: usize = 0;
        while k < channels.len()
            invariant
                k <= channels@.len(),
                n == self@.num_channels(direction),
                forall|i: int| 0 <= i < k ==> (#[trigger] channels@[i]) < n,
                forall|i: int, j: int|
                    0 <= i < j < k ==> (#[trigger] channels@[i]) != (#[trigger] channels@[j]),
            decreases channels@.len() - k,
        {
            if channels[k] >= n {
                return false;
            }
            let mut j: usize = 0;
            while j < k
                invariant
                    j <= k < channels@.len(),
                    forall|i: int| 0 <= i < j ==> (#[trigger] channels@[i]) != channels@[k as int],
                decreases k - j,
            {
                if channels[j] == channels[k] {
                    return false;
                }
                j += 1;
            }
            k += 1;
        }
        true
    }

    /// The native formats of the requested channels, where each of them
    /// offers the requested format.
    fn negotiate(&self, direction: Direction, channels: &Vec<usize>, requested: StreamFormat) -> (res:
        Option<Vec<StreamFormat>>)
        requires
            self@.valid_channels(direction, channels@),
        ensures
            res is Some <==> self@.formats_offered(direction, channels@, requested),
            res matches Some(natives) ==> natives@ == self@.natives(direction, channels@),
    {
        let list = self.descriptor.channels(direction);
        let mut natives: Vec<StreamFormat> = Vec::new();
        let mut k: usize = 0;
        while k < channels.len()
            invariant
                k <= channels@.len(),
                self@.valid_channels(direction, channels@),
                channel_models(list@) == self@.device.channels(direction),
                natives@.len() == k,
                forall|i: int|
                    0 <= i < k ==> self@.format_offered(direction, #[trigger] channels@[i], requested),
                forall|i: int|
                    0 <= i < k ==> (#[trigger] natives@[i]) == self@.device.channels(
                        direction,
                    )[channels@[i] as int].native_format,
            decreases channels@.len() - k,
        {
            let index = channels[k];
            assert(index < list@.len());
            let info = &list[index];
            assert(channel_models(list@)[index as int] == info@);
            let offered = contains_format(&info.stream_formats, requested.format)
                && FormatConverter::new(info.native_format, requested).is_ok();
            if !offered {
                assert(!self@.format_offered(direction, channels@[k as int], requested));
                return None;
            }
            natives.push(info.native_format);
            k += 1;
        }
        assert(natives@ =~= self@.natives(direction, channels@));
        Some(natives)
    }

    /// Whether some requested channel is held by a session.
    fn check_conflicts(&self, direction: Direction, channels: &Vec<usize>) -> (b: bool)
        ensures
            b == self@.conflicts(direction, channels@),
    {
        let mut k: usize = 0;
        while k < channels.len()
            invariant
                k <= channels@.len(),
                forall|i: int| 0 <= i < k ==> !self@.claimed(direction, #[trigger] channels@[i]),
            decreases channels@.len() - k,
        {
            if self.is_claimed(direction, channels[k]) {
                return true;
            }
            k += 1;
        }
        false
    }

    /// Binds a new session to the channels `channels` of `direction`, with
    /// samples in the format `requested`, and returns its identifier. The
    /// session starts in the state `Created` and keeps the stream arguments
    /// for the driver.
    ///
    /// Refused with `InvalidChannel` where an index names no channel or
    /// occurs twice; else with `FormatNegotiation` where a channel does not
    /// offer the format or cannot convert to it; else with
    /// `SynchronizationUnsupported` where several channels are asked of a
    /// backend that does not align them; else with `ChannelConflict` where a
    /// channel is held by a session that was not released.
    pub fn create_stream(
        &mut self,
        direction: Direction,
        channels: &Vec<usize>,
        requested: StreamFormat,
        stream_args: &DeviceArgs,
    ) -> (res: Result<usize, HalError>)
        ensures
            res is Ok <==> old(self)@.create_error(direction, channels@, requested) is None,
            res matches Err(e) ==> Some(e) == old(self)@.create_error(direction, channels@, requested),
            res matches Ok(id) ==> id == old(self)@.sessions.len(),
            final(self)@ == old(self)@.created(direction, channels@, requested, stream_args@),
    {
        proof {
            use_type_invariant(&*self);
        }
        if !self.check_channels(direction, channels) {
            return Err(HalError::InvalidChannel);
        }
        let natives = match self.negotiate(direction, channels, requested) {
            Some(natives) => natives,
            None => { return Err(HalError::FormatNegotiation); },
        };
        if channels.len() > 1 && !self.descriptor.synchronized {
            return Err(HalError::SynchronizationUnsupported);
        }
        if self.check_conflicts(direction, channels) {
            return Err(HalError::ChannelConflict);
        }
        let bound = channels.clone();
        assert(bound@ =~= channels@);
        let kept = stream_args.clone();
        let session = match StreamSession::new(direction, bound, natives, requested, kept) {
            Some(session) => session,
            None => {
                proof {
                    let fresh = SessionModel::fresh(
                        direction,
                        channels@,
                        natives@,
                        requested,
                        stream_args@,
                    );
                    assert forall|i: int| 0 <= i < fresh.natives.len() implies (
                    #[trigger] fresh.natives[i]) == requested || convertible(
                        fresh.natives[i],
                        requested,
                    ) by {
                        assert(self@.format_offered(direction, channels@[i], requested));
                    }
                    assert(fresh.wf());
                }
                return Err(HalError::FormatNegotiation);
            },
        };
        let ghost before = self@;
        let mut sessions: Vec<Option<StreamSession>> = Vec::new();
        core::mem::swap(&mut self.sessions, &mut sessions);
        let id = sessions.len();
        sessions.push(Some(session));
        core::mem::swap(&mut self.sessions, &mut sessions);
        assert(self@.sessions =~= before.sessions.push(Some(session@)));
        Ok(id)
    }

    /// The session that `id` names, `None` where it was released or never
    /// existed.
    pub fn session(&self, id: usize) -> (res: Option<&StreamSession>)
        ensures
            res is Some <==> self@.live(id as int),
            res matches Some(s) ==> s@ == self@.session(id as int),
    {
        if id < self.sessions.len() {
            self.sessions[id].as_ref()
        } else {
            None
        }
    }

    /// Takes the session `id` out of its slot.
    fn take_session(&mut self, id: usize) -> (res: Option<StreamSession>)
        ensures
            res is Some <==> old(self)@.live(id as int),
            res matches Some(s) ==> s@ == old(self)@.session(id as int),
            final(self)@ == old(self)@.released(id as int),
    {
        proof {
            use_type_invariant(&*self);
        }
        if id >= self.sessions.len() {
            return None;
        }
        let ghost before = self@;
        let mut sessions: Vec<Option<StreamSession>> = Vec::new();
        core::mem::swap(&mut self.sessions, &mut sessions);
        let mut slot: Option<StreamSession> = None;
        core::mem::swap(&mut sessions[id], &mut slot);
        core::mem::swap(&mut self.sessions, &mut sessions);
        assert(self@.sessions =~= before.sessions.update(id as int, None));
        if slot.is_none() {
            assert(self@.sessions =~= before.sessions);
        }
        slot
    }

    /// Puts `session` into the slot `id`.
    fn put_session(&mut self, id: usize, session: StreamSession)
        requires
            id < old(self)@.sessions.len(),
        ensures
            final(self)@ == old(self)@.with_session(id as int, session@),
    {
        proof {
            use_type_invariant(&*self);
        }
        let ghost before = self@;
        let mut sessions: Vec<Option<StreamSession>> = Vec::new();
        core::mem::swap(&mut self.sessions, &mut sessions);
        sessions[id] = Some(session);
        core::mem::swap(&mut self.sessions, &mut sessions);
        assert(self@.sessions =~= before.sessions.update(id as int, Some(session@)));
    }

    /// Activates the session `id`; see [`StreamSession::activate`].
    pub fn activate(&mut self, id: usize, at: Option<i64>) -> (res: Result<(), HalError>)
        ensures
            !old(self)@.live(id as int) ==> res == Err::<(), HalError>(HalError::SessionReleased),
            old(self)@.live(id as int) ==> (res is Ok <==> old(self)@.session(
                id as int,
            ).activate_error() is None) && (res matches Err(e) ==> Some(e) == old(self)@.session(
                id as int,
            ).activate_error()),
            final(self)@ == old(self)@.session_step(
                id as int,
                old(self)@.session(id as int).activated(at),
            ),
    {
        let ghost before = self@;
        match self.take_session(id) {
            None => Err(HalError::SessionReleased),
            Some(mut session) => {
                let res = session.activate(at);
                self.put_session(id, session);
                assert(self@.sessions =~= before.sessions.update(id as int, Some(session@)));
                res
            },
        }
    }

    /// Deactivates the session `id`; see [`StreamSession::deactivate`].
    pub fn deactivate(&mut self, id: usize, at: Option<i64>) -> (res: Result<Deactivation, HalError>)
        ensures
            !old(self)@.live(id as int) ==> res == Err::<Deactivation, HalError>(
                HalError::SessionReleased,
            ),
            old(self)@.live(id as int) ==> (res is Ok <==> old(self)@.session(
                id as int,
            ).deactivate_error() is None) && (res matches Err(e) ==> Some(e) == old(self)@.session(
                id as int,
            ).deactivate_error()) && (res matches Ok(d) ==> d == old(self)@.session(
                id as int,
            ).deactivation()),
            final(self)@ == old(self)@.session_step(
                id as int,
                old(self)@.session(id as int).deactivated(at),
            ),
    {
        let ghost before = self@;
        match self.take_session(id) {
            None => Err(HalError::SessionReleased),
            Some(mut session) => {
                let res = session.deactivate(at);
                self.put_session(id, session);
                assert(self@.sessions =~= before.sessions.update(id as int, Some(session@)));
                res
            },
        }
    }

    /// Begins a read on the session `id`; see [`StreamSession::begin_read`].
    pub fn begin_read(&mut self, id: usize, samples: usize, timeout_ns: u64) -> (res: Result<
        TransferRequest,
        HalError,
    >)
        ensures
            !old(self)@.live(id as int) ==> res == Err::<TransferRequest, HalError>(
                HalError::SessionReleased,
            ),
            old(self)@.live(id as int) ==> (res is Ok <==> old(self)@.session(id as int).begin_error(
                Direction::Receive,
            ) is None) && (res matches Err(e) ==> Some(e) == old(self)@.session(
                id as int,
            ).begin_error(Direction::Receive)) && (res matches Ok(r) ==> r == (TransferRequest {
                samples,
                timeout_ns,
            })),
            final(self)@ == old(self)@.session_step(
                id as int,
                old(self)@.session(id as int).begun(Direction::Receive, samples),
            ),
    {
        let ghost before = self@;
        match self.take_session(id) {
            None => Err(HalError::SessionReleased),
            Some(mut session) => {
                let res = session.begin_read(samples, timeout_ns);
                self.put_session(id, session);
                assert(self@.sessions =~= before.sessions.update(id as int, Some(session@)));
                res
            },
        }
    }

    /// Ends the read in progress on the session `id`; see
    /// [`StreamSession::finish_read`].
    pub fn finish_read(&mut self, id: usize, event: DriverEvent) -> (res: Result<TransferResult, HalError>)
        ensures
            !old(self)@.live(id as int) ==> res == Err::<TransferResult, HalError>(
                HalError::SessionReleased,
            ),
            old(self)@.live(id as int) ==> res == old(self)@.session(id as int).finish_result(
                Direction::Receive,
                event,
            ),
            final(self)@ == old(self)@.session_step(
                id as int,
                old(self)@.session(id as int).finished(Direction::Receive, event),
            ),
    {
        let ghost before = self@;
        match self.take_session(id) {
            None => Err(HalError::SessionReleased),
            Some(mut session) => {
                let res = session.finish_read(event);
                self.put_session(id, session);
                assert(self@.sessions =~= before.sessions.update(id as int, Some(session@)));
                res
            },
        }
    }

    /// Begins a write on the session `id`; see
    /// [`StreamSession::begin_write`].
    pub fn begin_write(&mut self, id: usize, samples: usize, timeout_ns: u64) -> (res: Result<
        TransferRequest,
        HalError,
    >)
        ensures
            !old(self)@.live(id as int) ==> res == Err::<TransferRequest, HalError>(
                HalError::SessionReleased,
            ),
            old(self)@.live(id as int) ==> (res is Ok <==> old(self)@.session(id as int).begin_error(
                Direction::Transmit,
            ) is None) && (res matches Err(e) ==> Some(e) == old(self)@.session(
                id as int,
            ).begin_error(Direction::Transmit)) && (res matches Ok(r) ==> r == (TransferRequest {
                samples,
                timeout_ns,
            })),
            final(self)@ == old(self)@.session_step(
                id as int,
                old(self)@.session(id as int).begun(Direction::Transmit, samples),
            ),
    {
        let ghost before = self@;
        match self.take_session(id) {
            None => Err(HalError::SessionReleased),
            Some(mut session) => {
                let res = session.begin_write(samples, timeout_ns);
                self.put_session(id, session);
                assert(self@.sessions =~= before.sessions.update(id as int, Some(session@)));
                res
            },
        }
    }

    /// Ends the write in progress on the session `id`; see
    /// [`StreamSession::finish_write`].
    pub fn finish_write(&mut self, id: usize, event: DriverEvent) -> (res: Result<TransferResult, HalError>)
        ensures
            !old(self)@.live(id as int) ==> res == Err::<TransferResult, HalError>(
                HalError::SessionReleased,
            ),
            old(self)@.live(id as int) ==> res == old(self)@.session(id as int).finish_result(
                Direction::Transmit,
                event,
            ),
            final(self)@ == old(self)@.session_step(
                id as int,
                old(self)@.session(id as int).finished(Direction::Transmit, event),
            ),
    {
        let ghost before = self@;
        match self.take_session(id) {
            None => Err(HalError::SessionReleased),
            Some(mut session) => {
                let res = session.finish_write(event);
                self.put_session(id, session);
                assert(self@.sessions =~= before.sessions.update(id as int, Some(session@)));
                res
            },
        }
    }

    /// Ends the session `id` for good and frees its channels. Says whether
    /// the session was still active, in which case the stream has to be
    /// stopped.
    pub fn release_stream(&mut self, id: usize) -> (res: Result<Deactivation, HalError>)
        ensures
            res is Ok <==> old(self)@.live(id as int),
            res matches Err(e) ==> e == HalError::SessionReleased,
            res matches Ok(d) ==> d == old(self)@.session(id as int).deactivation(),
            final(self)@ == old(self)@.released(id as int),
    {
        match self.take_session(id) {
            None => Err(HalError::SessionReleased),
            Some(session) => {
                if session.is_active() {
                    Ok(Deactivation::Stopped)
                } else {
                    Ok(Deactivation::WasNotActive)
                }
            },
        }
    }

    /// Closes the handle. Sessions that are still active are deactivated by
    /// force; their identifiers are returned in ascending order, so that the
    /// caller can stop their streams and warn.
    pub fn close(self) -> (forced: Vec<usize>)
        ensures
            forall|id: int| self@.active(id) <==> exists|k: int|
                0 <= k < forced@.len() && #[trigger] forced@[k] == id,
            forall|j: int, k: int|
                0 <= j < k < forced@.len() ==> (#[trigger] forced@[j]) < (#[trigger] forced@[k]),
    {
        let mut forced: Vec<usize> = Vec::new();
        let mut i: usize = 0;
        while i < self.sessions.len()
            invariant
                i <= self.sessions@.len(),
                forall|id: int|
                    0 <= id < i && self@.active(id) ==> exists|k: int|
                        0 <= k < forced@.len() && #[trigger] forced@[k] == id,
                forall|k: int|
                    0 <= k < forced@.len() ==> (#[trigger] forced@[k]) < i && self@.active(
                        forced@[k] as int,
                    ),
                forall|j: int, k: int|
                    0 <= j < k < forced@.len() ==> (#[trigger] forced@[j]) < (#[trigger] forced@[k]),
            decreases self.sessions@.len() - i,
        {
            let is_active = match &self.sessions[i] {
                Some(s) => s.is_active(),
                None => false,
            };
            assert(is_active == self@.active(i as int));
            if is_active {
                let ghost old_forced = forced@;
                forced.push(i);
                assert forall|id: int| 0 <= id < i + 1 && self@.active(id) implies exists|k: int|
                    0 <= k < forced@.len() && #[trigger] forced@[k] == id by {
                    if id < i {
                        let k = choose|k: int| 0 <= k < old_forced.len() && #[trigger] old_forced[k] == id;
                        assert(forced@[k] == id);
                    } else {
                        assert(forced@[old_forced.len() as int] == id);
                    }
                }
            }
            i += 1;
        }
        forced
    }
}


/// A request that was granted is refused with `ChannelConflict` when it is
/// made again while the first session holds its channels, and is granted
/// once that session was released.
pub proof fn lemma_claim_then_release(
    h: HandleModel,
    direction: Direction,
    channels: Seq<usize>,
    requested: StreamFormat,
    args: Pairs,
)
    requires
        h.create_error(direction, channels, requested) is None,
        channels.len() > 0,
    ensures
        ({
            let id = h.sessions.len() as int;
            let held = h.created(direction, channels, requested, args);
            &&& held.live(id)
            &&& held.create_error(direction, channels, requested) == Some(HalError::ChannelConflict)
            &&& held.released(id).create_error(direction, channels, requested) is None
        }),
{
    let id = h.sessions.len() as int;
    let held = h.created(direction, channels, requested, args);
    let freed = held.released(id);
    assert(held.session(id).channels == channels);
    assert(channels[0] == channels[0]);
    assert(held.session(id).channels.contains(channels[0]));
    assert(held.holds(id, direction, channels[0]));
    assert(held.conflicts(direction, channels));
    assert(held.valid_channels(direction, channels));
    assert(held.formats_offered(direction, channels, requested)) by {
        assert forall|k: int| 0 <= k < channels.len() implies held.format_offered(
            direction,
            #[trigger] channels[k],
            requested,
        ) by {
            assert(h.format_offered(direction, channels[k], requested));
        }
    }
    assert(freed.valid_channels(direction, channels));
    assert(freed.formats_offered(direction, channels, requested)) by {
        assert forall|k: int| 0 <= k < channels.len() implies freed.format_offered(
            direction,
            #[trigger] channels[k],
            requested,
        ) by {
            assert(h.format_offered(direction, channels[k], requested));
        }
    }
    if freed.conflicts(direction, channels) {
        let k = choose|k: int| 0 <= k < channels.len() && freed.claimed(direction, #[trigger] channels[k]);
        let other = choose|other: int| #[trigger] freed.holds(other, direction, channels[k]);
        assert(other < id);
        assert(freed.sessions[other] == h.sessions[other]);
        assert(h.holds(other, direction, channels[k]));
        assert(h.claimed(direction, channels[k]));
        assert(h.conflicts(direction, channels));
    }
}

/// While a session holds a channel, no request for that channel in the same
/// direction is granted, and one that is in order otherwise is refused with
/// `ChannelConflict`.
pub proof fn lemma_held_channel_conflicts(
    h: HandleModel,
    id: int,
    direction: Direction,
    channels: Seq<usize>,
    requested: StreamFormat,
    k: int,
)
    requires
        0 <= k < channels.len(),
        h.holds(id, direction, channels[k]),
    ensures
        h.conflicts(direction, channels),
        h.create_error(direction, channels, requested) is Some,
        h.valid_channels(direction, channels) && h.formats_offered(direction, channels, requested) && (
        channels.len() == 1 || h.device.synchronized) ==> h.create_error(
            direction,
            channels,
            requested,
        ) == Some(HalError::ChannelConflict),
{
    assert(h.claimed(direction, channels[k]));
}

} // verus!
