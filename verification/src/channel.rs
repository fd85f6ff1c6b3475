//! What a device reports of itself and of each of its channels.

use vstd::prelude::*;
use crate::args::{DeviceArgs, Pairs, Text};
use crate::format::{SampleFormat, StreamFormat};
use crate::range::{intervals, Interval, Range};

verus! {

/// Which way samples flow through a channel.
#[derive(Clone, Copy, Debug, PartialEq, Eq, Structural)]
pub enum Direction {
    /// From the antenna to digital samples.
    Receive,
    /// From digital samples to the antenna.
    Transmit,
}

/// What a backend does with a frequency outside a channel's ranges.
#[derive(Clone, Copy, Debug, PartialEq, Eq, Structural)]
pub enum TuningPolicy {
    /// It refuses the request.
    Reject,
    /// It tunes to the closest frequency that the channel allows.
    Clamp,
}

/// The capabilities of one channel in one direction.
#[derive(Debug)]
pub struct ChannelInfo {
    pub frequency_ranges: Vec<Range>,
    pub sample_rate_ranges: Vec<Range>,
    pub native_format: StreamFormat,
    pub stream_formats: Vec<SampleFormat>,
    pub antennas: Vec<String>,
    pub metadata: DeviceArgs,
}

/// The mathematical value of a [`ChannelInfo`].
pub struct ChannelModel {
    pub frequency_ranges: Seq<Interval>,
    pub sample_rate_ranges: Seq<Interval>,
    pub native_format: StreamFormat,
    pub stream_formats: Seq<SampleFormat>,
    pub antennas: Seq<Text>,
    pub metadata: Pairs,
}

/// The texts that a list of strings holds.
pub open spec fn texts(v: Seq<String>) -> Seq<Text> {
    Seq::new(v.len(), |i: int| v[i]@)
}

impl View for ChannelInfo {
    type V = ChannelModel;

    open spec fn view(&self) -> ChannelModel {
        ChannelModel {
            frequency_ranges: intervals(self.frequency_ranges@),
            sample_rate_ranges: intervals(self.sample_rate_ranges@),
            native_format: self.native_format,
            stream_formats: self.stream_formats@,
            antennas: texts(self.antennas@),
            metadata: self.metadata@,
        }
    }
}

impl Clone for ChannelInfo {
    fn clone(&self) -> (copy: Self)
        ensures
            copy@ == self@,
    {
        let copy = ChannelInfo {
            frequency_ranges: self.frequency_ranges.clone(),
            sample_rate_ranges: self.sample_rate_ranges.clone(),
            native_format: self.native_format,
            stream_formats: self.stream_formats.clone(),
            antennas: self.antennas.clone(),
            metadata: self.metadata.clone(),
        };
        assert(copy@.frequency_ranges =~= self@.frequency_ranges);
        assert(copy@.sample_rate_ranges =~= self@.sample_rate_ranges);
        assert(copy@.stream_formats =~= self@.stream_formats);
        assert(copy@.antennas =~= self@.antennas);
        copy
    }
}

/// The mathematical values of a list of channels.
pub open spec fn channel_models(v: Seq<ChannelInfo>) -> Seq<ChannelModel> {
    Seq::new(v.len(), |i: int| v[i]@)
}

/// One discoverable device as its backend describes it.
#[derive(Debug)]
pub struct DeviceDescriptor {
    /// The arguments that identify the device.
    pub args: DeviceArgs,
    /// The receive channels, by index.
    pub receive: Vec<ChannelInfo>,
    /// The transmit channels, by index.
    pub transmit: Vec<ChannelInfo>,
    /// What the backend does with a frequency outside the ranges.
    pub tuning: TuningPolicy,
    /// Whether the backend keeps the channels of one stream sample-aligned.
    pub synchronized: bool,
    /// Whether the backend admits one handle at a time only.
    pub exclusive: bool,
}

/// The mathematical value of a [`DeviceDescriptor`].
pub struct DeviceModel {
    pub args: Pairs,
    pub receive: Seq<ChannelModel>,
    pub transmit: Seq<ChannelModel>,
    pub tuning: TuningPolicy,
    pub synchronized: bool,
    pub exclusive: bool,
}

impl DeviceModel {
    /// The channels of one direction.
    pub open spec fn channels(self, direction: Direction) -> Seq<ChannelModel> {
        match direction {
            Direction::Receive => self.receive,
            Direction::Transmit => self.transmit,
        }
    }
}

impl View for DeviceDescriptor {
    type V = DeviceModel;

    open spec fn view(&self) -> DeviceModel {
        DeviceModel {
            args: self.args@,
            receive: channel_models(self.receive@),
            transmit: channel_models(self.transmit@),
            tuning: self.tuning,
            synchronized: self.synchronized,
            exclusive: self.exclusive,
        }
    }
}

impl Clone for DeviceDescriptor {
    fn clone(&self) -> (copy: Self)
        ensures
            copy@ == self@,
    {
        let copy = DeviceDescriptor {
            args: self.args.clone(),
            receive: self.receive.clone(),
            transmit: self.transmit.clone(),
            tuning: self.tuning,
            synchronized: self.synchronized,
            exclusive: self.exclusive,
        };
        assert(copy@.receive =~= self@.receive);
        assert(copy@.transmit =~= self@.transmit);
        copy
    }
}

impl DeviceDescriptor {
    /// The channels of one direction.
    pub fn channels(&self, direction: Direction) -> (list: &Vec<ChannelInfo>)
        ensures
            channel_models(list@) == self@.channels(direction),
    {
        match direction {
            Direction::Receive => &self.receive,
            Direction::Transmit => &self.transmit,
        }
    }
}

} // verus!
