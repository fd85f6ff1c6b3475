use sdr_hal::args::DeviceArgs;
use sdr_hal::channel::{ChannelInfo, DeviceDescriptor, Direction, TuningPolicy};
use sdr_hal::device::DeviceHandle;
use sdr_hal::error::HalError;
use sdr_hal::format::{SampleFormat, StreamFormat};
use sdr_hal::range::Range;
use sdr_hal::session::{
    Deactivation, DriverEvent, StreamFlags, StreamState, TransferRequest, TransferResult,
};

fn cs16() -> StreamFormat {
    StreamFormat::natural(SampleFormat::CS16)
}

fn channel(native: StreamFormat, formats: Vec<SampleFormat>) -> ChannelInfo {
    ChannelInfo {
        frequency_ranges: vec![
            Range::new(400_000_000, 500_000_000, 0).unwrap(),
            Range::new(70_000_000, 100_000_000, 0).unwrap(),
            Range::new(100_000_000, 150_000_000, 0).unwrap(),
        ],
        sample_rate_ranges: vec![Range::point(2_000_000), Range::point(250_000)],
        native_format: native,
        stream_formats: formats,
        antennas: vec!["RX".to_string()],
        metadata: DeviceArgs::parse("gain=auto"),
    }
}

fn mock(receive: usize, tuning: TuningPolicy, synchronized: bool) -> DeviceDescriptor {
    let native = StreamFormat { format: SampleFormat::CS12, full_scale: 2047 };
    let formats = vec![SampleFormat::CS12, SampleFormat::CS16, SampleFormat::CF32];
    DeviceDescriptor {
        args: DeviceArgs::parse("driver=mock, serial=1"),
        receive: (0..receive).map(|_| channel(native, formats.clone())).collect(),
        transmit: vec![channel(cs16(), vec![SampleFormat::CS16])],
        tuning,
        synchronized,
        exclusive: false,
    }
}

fn handle() -> DeviceHandle {
    DeviceHandle::new(mock(2, TuningPolicy::Reject, true))
}

fn moved(samples_transferred: usize, timed_out: bool) -> TransferResult {
    TransferResult { samples_transferred, flags: StreamFlags { timed_out } }
}

#[test]
fn channel_counts_per_direction() {
    let h = handle();
    assert_eq!(h.num_channels(Direction::Receive), 2);
    assert_eq!(h.num_channels(Direction::Transmit), 1);
    assert_eq!(h.descriptor().args.get("driver"), Some("mock".to_string()));
}

#[test]
fn channel_info_of_an_index_out_of_range_is_invalid() {
    let h = handle();
    assert_eq!(
        h.stream_formats(Direction::Receive, 0),
        Ok(vec![SampleFormat::CS12, SampleFormat::CS16, SampleFormat::CF32])
    );
    assert_eq!(h.stream_formats(Direction::Receive, 2), Err(HalError::InvalidChannel));
    assert_eq!(h.native_stream_format(Direction::Transmit, 0), Ok(cs16()));
    assert_eq!(h.native_stream_format(Direction::Transmit, 1), Err(HalError::InvalidChannel));
    let info = h.channel_info(Direction::Receive, 1).unwrap();
    assert_eq!(info.antennas, vec!["RX".to_string()]);
    assert_eq!(info.native_format.format, SampleFormat::CS12);
    assert_eq!(info.metadata.get("gain"), Some("auto".to_string()));
    assert_eq!(h.channel_info(Direction::Receive, 2).unwrap_err(), HalError::InvalidChannel);
    assert_eq!(h.channel_info(Direction::Transmit, 1).unwrap_err(), HalError::InvalidChannel);
}

#[test]
fn ranges_are_exposed_in_canonical_form() {
    let h = handle();
    assert_eq!(
        h.frequency_range(Direction::Receive, 0),
        Ok(vec![
            Range::new(70_000_000, 150_000_000, 0).unwrap(),
            Range::new(400_000_000, 500_000_000, 0).unwrap(),
        ])
    );
    assert_eq!(
        h.sample_rate_range(Direction::Receive, 0),
        Ok(vec![Range::point(250_000), Range::point(2_000_000)])
    );
    assert_eq!(h.frequency_range(Direction::Receive, 2), Err(HalError::InvalidChannel));
    assert_eq!(h.sample_rate_range(Direction::Transmit, 5), Err(HalError::InvalidChannel));
}

#[test]
fn set_frequency_inside_the_ranges() {
    let mut h = handle();
    assert_eq!(h.frequency(Direction::Receive, 0), Ok(None));
    assert_eq!(h.set_frequency(Direction::Receive, 0, 433_000_000, &DeviceArgs::new()), Ok(()));
    assert_eq!(h.frequency(Direction::Receive, 0), Ok(Some(433_000_000)));
    assert_eq!(h.tuning_args(Direction::Receive, 0).unwrap().unwrap().len(), 0);
    assert!(h.tuning_args(Direction::Receive, 1).unwrap().is_none());
    assert_eq!(h.tuning_args(Direction::Receive, 2).unwrap_err(), HalError::InvalidChannel);
    assert_eq!(
        h.set_frequency(Direction::Receive, 0, 434_000_000, &DeviceArgs::parse("OFFSET=250000")),
        Ok(())
    );
    assert_eq!(h.frequency(Direction::Receive, 0), Ok(Some(434_000_000)));
    assert_eq!(
        h.tuning_args(Direction::Receive, 0).unwrap().unwrap().get("OFFSET"),
        Some("250000".to_string())
    );
    assert_eq!(h.set_frequency(Direction::Receive, 0, 433_000_000, &DeviceArgs::new()), Ok(()));
    assert_eq!(h.frequency(Direction::Receive, 1), Ok(None));
    assert_eq!(h.frequency(Direction::Transmit, 0), Ok(None));
    assert_eq!(h.set_frequency(Direction::Transmit, 0, 70_000_000, &DeviceArgs::new()), Ok(()));
    assert_eq!(h.frequency(Direction::Transmit, 0), Ok(Some(70_000_000)));
    assert_eq!(h.frequency(Direction::Receive, 0), Ok(Some(433_000_000)));
}

#[test]
fn set_frequency_outside_the_ranges_is_rejected_or_clamped() {
    let mut rejecting = DeviceHandle::new(mock(1, TuningPolicy::Reject, true));
    assert_eq!(
        rejecting.set_frequency(Direction::Receive, 0, 200_000_000, &DeviceArgs::new()),
        Err(HalError::UnsupportedFrequency)
    );
    assert_eq!(rejecting.frequency(Direction::Receive, 0), Ok(None));

    let mut clamping = DeviceHandle::new(mock(1, TuningPolicy::Clamp, true));
    assert_eq!(clamping.set_frequency(Direction::Receive, 0, 200_000_000, &DeviceArgs::new()), Ok(()));
    assert_eq!(clamping.frequency(Direction::Receive, 0), Ok(Some(150_000_000)));
    assert_eq!(clamping.set_frequency(Direction::Receive, 0, 390_000_000, &DeviceArgs::new()), Ok(()));
    assert_eq!(clamping.frequency(Direction::Receive, 0), Ok(Some(400_000_000)));
    assert_eq!(clamping.set_frequency(Direction::Receive, 0, 1, &DeviceArgs::new()), Ok(()));
    assert_eq!(clamping.frequency(Direction::Receive, 0), Ok(Some(70_000_000)));
}

#[test]
fn set_frequency_on_a_channel_without_ranges_or_out_of_range() {
    let mut descriptor = mock(1, TuningPolicy::Clamp, true);
    descriptor.receive[0].frequency_ranges = Vec::new();
    let mut h = DeviceHandle::new(descriptor);
    assert_eq!(h.set_frequency(Direction::Receive, 0, 5, &DeviceArgs::new()), Err(HalError::UnsupportedFrequency));
    assert_eq!(h.set_frequency(Direction::Receive, 1, 5, &DeviceArgs::new()), Err(HalError::InvalidChannel));
    assert_eq!(h.frequency(Direction::Receive, 1), Err(HalError::InvalidChannel));
}

#[test]
fn a_stream_is_created_read_and_stopped() {
    let mut h = DeviceHandle::new(mock(1, TuningPolicy::Reject, true));
    let id = h.create_stream(Direction::Receive, &vec![0], cs16(), &DeviceArgs::new()).unwrap();
    assert_eq!(h.session(id).unwrap().state(), StreamState::Created);
    assert_eq!(h.activate(id, None), Ok(()));
    assert_eq!(
        h.begin_read(id, 1000, 10_000_000_000),
        Ok(TransferRequest { samples: 1000, timeout_ns: 10_000_000_000 })
    );
    assert_eq!(h.finish_read(id, DriverEvent::Transferred(1000)), Ok(moved(1000, false)));
    assert_eq!(h.deactivate(id, None), Ok(Deactivation::Stopped));
    assert_eq!(h.begin_read(id, 1000, 10_000_000_000), Err(HalError::NotActive));
}

#[test]
fn a_poll_on_an_idle_mock_returns_zero_samples_timed_out() {
    let mut h = handle();
    let id = h.create_stream(Direction::Receive, &vec![1], cs16(), &DeviceArgs::new()).unwrap();
    h.activate(id, None).unwrap();
    h.begin_read(id, 1000, 0).unwrap();
    assert_eq!(h.finish_read(id, DriverEvent::Transferred(0)), Ok(moved(0, true)));
}

#[test]
fn a_claimed_channel_conflicts_until_it_is_released() {
    let mut h = handle();
    let first = h.create_stream(Direction::Receive, &vec![0], cs16(), &DeviceArgs::new()).unwrap();
    assert!(h.is_claimed(Direction::Receive, 0));
    assert!(!h.is_claimed(Direction::Receive, 1));
    assert!(!h.is_claimed(Direction::Transmit, 0));
    assert_eq!(
        h.create_stream(Direction::Receive, &vec![0], cs16(), &DeviceArgs::new()),
        Err(HalError::ChannelConflict)
    );
    assert_eq!(
        h.create_stream(Direction::Receive, &vec![1, 0], cs16(), &DeviceArgs::new()),
        Err(HalError::ChannelConflict)
    );
    let other = h.create_stream(Direction::Receive, &vec![1], cs16(), &DeviceArgs::new()).unwrap();
    assert_ne!(first, other);
    let transmit = h.create_stream(Direction::Transmit, &vec![0], cs16(), &DeviceArgs::new()).unwrap();
    assert_ne!(transmit, first);
    assert_eq!(h.release_stream(first), Ok(Deactivation::WasNotActive));
    assert!(!h.is_claimed(Direction::Receive, 0));
    let again = h.create_stream(Direction::Receive, &vec![0], cs16(), &DeviceArgs::new()).unwrap();
    assert!(h.session(again).is_some());
    assert!(h.session(first).is_none());
}

#[test]
fn an_inactive_session_still_holds_its_channels() {
    let mut h = handle();
    let id = h.create_stream(Direction::Receive, &vec![0, 1], cs16(), &DeviceArgs::new()).unwrap();
    h.activate(id, None).unwrap();
    h.deactivate(id, None).unwrap();
    assert_eq!(
        h.create_stream(Direction::Receive, &vec![1], cs16(), &DeviceArgs::new()),
        Err(HalError::ChannelConflict)
    );
    assert_eq!(h.release_stream(id), Ok(Deactivation::WasNotActive));
    assert!(h.create_stream(Direction::Receive, &vec![1], cs16(), &DeviceArgs::new()).is_ok());
}

#[test]
fn releasing_an_active_session_says_that_it_was_stopped() {
    let mut h = handle();
    let id = h.create_stream(Direction::Receive, &vec![0], cs16(), &DeviceArgs::new()).unwrap();
    h.activate(id, None).unwrap();
    assert_eq!(h.release_stream(id), Ok(Deactivation::Stopped));
    assert_eq!(h.release_stream(id), Err(HalError::SessionReleased));
}

#[test]
fn a_released_or_unknown_session_is_refused() {
    let mut h = handle();
    let id = h.create_stream(Direction::Receive, &vec![0], cs16(), &DeviceArgs::new()).unwrap();
    h.release_stream(id).unwrap();
    assert_eq!(h.activate(id, None), Err(HalError::SessionReleased));
    assert_eq!(h.deactivate(id, None), Err(HalError::SessionReleased));
    assert_eq!(h.begin_read(id, 1, 1), Err(HalError::SessionReleased));
    assert_eq!(h.finish_read(id, DriverEvent::TimedOut), Err(HalError::SessionReleased));
    assert_eq!(h.begin_write(id, 1, 1), Err(HalError::SessionReleased));
    assert_eq!(h.finish_write(id, DriverEvent::TimedOut), Err(HalError::SessionReleased));
    assert_eq!(h.activate(99, None), Err(HalError::SessionReleased));
    assert!(h.session(99).is_none());
}

#[test]
fn create_stream_checks_the_channel_list() {
    let mut h = handle();
    assert_eq!(
        h.create_stream(Direction::Receive, &vec![2], cs16(), &DeviceArgs::new()),
        Err(HalError::InvalidChannel)
    );
    assert_eq!(
        h.create_stream(Direction::Receive, &vec![0, 0], cs16(), &DeviceArgs::new()),
        Err(HalError::InvalidChannel)
    );
    assert_eq!(
        h.create_stream(Direction::Transmit, &vec![1], cs16(), &DeviceArgs::new()),
        Err(HalError::InvalidChannel)
    );
    assert!(h.session(0).is_none());
}

#[test]
fn create_stream_negotiates_the_format() {
    let mut h = handle();
    let cs8 = StreamFormat::natural(SampleFormat::CS8);
    let cf32 = StreamFormat::natural(SampleFormat::CF32);
    assert_eq!(
        h.create_stream(Direction::Receive, &vec![0], cs8, &DeviceArgs::new()),
        Err(HalError::FormatNegotiation)
    );
    assert_eq!(
        h.create_stream(Direction::Receive, &vec![0], cf32, &DeviceArgs::new()),
        Err(HalError::FormatNegotiation)
    );
    assert_eq!(
        h.create_stream(Direction::Receive, &vec![0, 5], cs8, &DeviceArgs::new()),
        Err(HalError::InvalidChannel)
    );
    let native = StreamFormat { format: SampleFormat::CS12, full_scale: 2047 };
    let id = h.create_stream(Direction::Receive, &vec![0], native, &DeviceArgs::new()).unwrap();
    assert!(h.session(id).unwrap().converter(0).unwrap().is_passthrough());
}

#[test]
fn several_channels_need_a_backend_that_aligns_them() {
    let mut unaligned = DeviceHandle::new(mock(2, TuningPolicy::Reject, false));
    assert_eq!(
        unaligned.create_stream(Direction::Receive, &vec![0, 1], cs16(), &DeviceArgs::new()),
        Err(HalError::SynchronizationUnsupported)
    );
    assert!(unaligned.create_stream(Direction::Receive, &vec![1], cs16(), &DeviceArgs::new()).is_ok());
    let mut aligned = handle();
    let id = aligned.create_stream(Direction::Receive, &vec![1, 0], cs16(), &DeviceArgs::new()).unwrap();
    assert_eq!(aligned.session(id).unwrap().channels(), &vec![1, 0]);
}

#[test]
fn writes_go_through_a_transmit_session() {
    let mut h = handle();
    let id = h
        .create_stream(Direction::Transmit, &vec![0], cs16(), &DeviceArgs::parse("WIRE=sc16"))
        .unwrap();
    assert_eq!(h.session(id).unwrap().stream_args().get("WIRE"), Some("sc16".to_string()));
    assert_eq!(h.begin_write(id, 64, 1_000), Err(HalError::NotActive));
    h.activate(id, Some(1_000_000)).unwrap();
    assert_eq!(h.session(id).unwrap().start_time(), Some(1_000_000));
    assert_eq!(h.begin_read(id, 64, 1_000), Err(HalError::WrongDirection));
    assert_eq!(h.begin_write(id, 64, 1_000), Ok(TransferRequest { samples: 64, timeout_ns: 1_000 }));
    assert_eq!(h.activate(id, None), Err(HalError::ConcurrentAccess));
    assert_eq!(h.finish_write(id, DriverEvent::Underflow), Err(HalError::Underflow));
    assert_eq!(h.begin_write(id, 64, 1_000), Ok(TransferRequest { samples: 64, timeout_ns: 1_000 }));
    assert_eq!(h.finish_write(id, DriverEvent::Transferred(64)), Ok(moved(64, false)));
    assert_eq!(h.activate(id, None), Err(HalError::AlreadyActive));
}

#[test]
fn close_deactivates_the_active_sessions_by_force() {
    let mut h = handle();
    let a = h.create_stream(Direction::Receive, &vec![0], cs16(), &DeviceArgs::new()).unwrap();
    let b = h.create_stream(Direction::Receive, &vec![1], cs16(), &DeviceArgs::new()).unwrap();
    let c = h.create_stream(Direction::Transmit, &vec![0], cs16(), &DeviceArgs::new()).unwrap();
    h.activate(a, None).unwrap();
    h.activate(c, None).unwrap();
    assert_eq!(h.session(b).unwrap().state(), StreamState::Created);
    assert_eq!(h.close(), vec![a, c]);
    assert_eq!(handle().close(), Vec::<usize>::new());
}
