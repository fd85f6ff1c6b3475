use sdr_hal::args::DeviceArgs;
use sdr_hal::channel::{ChannelInfo, DeviceDescriptor, Direction, TuningPolicy};
use sdr_hal::error::{HalError, OpenFailure};
use sdr_hal::format::{SampleFormat, StreamFormat};
use sdr_hal::range::Range;
use sdr_hal::registry::{DeviceRegistry, DriverProbe};

fn channel() -> ChannelInfo {
    ChannelInfo {
        frequency_ranges: vec![Range::new(70_000_000, 6_000_000_000, 0).unwrap()],
        sample_rate_ranges: vec![Range::new(250_000, 20_000_000, 0).unwrap()],
        native_format: StreamFormat::natural(SampleFormat::CS16),
        stream_formats: vec![SampleFormat::CS16],
        antennas: vec!["RX".to_string()],
        metadata: DeviceArgs::new(),
    }
}

fn device(args: &str, exclusive: bool) -> DeviceDescriptor {
    DeviceDescriptor {
        args: DeviceArgs::parse(args),
        receive: vec![channel()],
        transmit: Vec::new(),
        tuning: TuningPolicy::Reject,
        synchronized: true,
        exclusive,
    }
}

fn registry() -> DeviceRegistry {
    let mut r = DeviceRegistry::new();
    assert!(r.register("mock", &vec![device("driver=mock, serial=1", false)]));
    assert!(r.register(
        "lime",
        &vec![device("driver=lime, serial=1", true), device("driver=lime, serial=2", true)]
    ));
    r
}

fn shown(list: &Vec<DeviceArgs>) -> Vec<String> {
    list.iter().map(|a| a.render()).collect()
}

#[test]
fn no_backend_is_a_discovery_error() {
    let r = DeviceRegistry::new();
    assert_eq!(r.num_backends(), 0);
    assert_eq!(r.enumerate(&DeviceArgs::new()).unwrap_err(), HalError::Discovery);
    assert_eq!(r.enumerate_text("driver=mock").unwrap_err(), HalError::Discovery);
}

#[test]
fn a_backend_without_devices_lists_nothing() {
    let mut r = DeviceRegistry::new();
    assert!(r.register("mock", &Vec::new()));
    assert_eq!(r.enumerate_text("").unwrap().len(), 0);
}

#[test]
fn a_backend_name_is_registered_once() {
    let mut r = registry();
    assert!(r.has_backend("mock"));
    assert!(!r.has_backend("hackrf"));
    assert!(!r.register("mock", &vec![device("driver=mock, serial=9", false)]));
    assert_eq!(r.num_backends(), 2);
    assert_eq!(r.num_devices(), 3);
}

#[test]
fn enumerate_without_a_filter_lists_every_device_in_order() {
    let r = registry();
    assert_eq!(
        shown(&r.enumerate_text("").unwrap()),
        vec!["driver=mock, serial=1", "driver=lime, serial=1", "driver=lime, serial=2"]
    );
    assert_eq!(shown(&r.enumerate(&DeviceArgs::new()).unwrap()).len(), 3);
}

#[test]
fn enumerate_with_a_filter_lists_the_devices_that_meet_it() {
    let r = registry();
    assert_eq!(shown(&r.enumerate_text("driver=mock").unwrap()), vec!["driver=mock, serial=1"]);
    assert_eq!(
        shown(&r.enumerate_text("serial=1").unwrap()),
        vec!["driver=mock, serial=1", "driver=lime, serial=1"]
    );
    assert_eq!(
        shown(&r.enumerate_text("serial = 2 , driver = lime").unwrap()),
        vec!["driver=lime, serial=2"]
    );
    assert_eq!(r.enumerate_text("driver=hackrf").unwrap().len(), 0);
    assert_eq!(
        shown(&r.enumerate_text("driver=mock").unwrap()),
        shown(&r.enumerate_text("driver=mock").unwrap())
    );
}

#[test]
fn the_mock_device_is_found_opened_and_has_one_receive_channel() {
    let mut r = registry();
    let found = r.enumerate_text("driver=mock").unwrap();
    assert_eq!(found.len(), 1);
    assert_eq!(found[0].get("driver"), Some("mock".to_string()));
    let handle = r.open(&found[0], DriverProbe::Ready).unwrap();
    assert_eq!(handle.num_channels(Direction::Receive), 1);
    assert_eq!(handle.num_channels(Direction::Transmit), 0);
}

#[test]
fn arguments_that_were_never_listed_cannot_be_opened() {
    let mut r = registry();
    for text in ["driver=hackrf", "driver=mock", "driver=mock, serial=1, label=x", ""] {
        let args = DeviceArgs::parse(text);
        assert_eq!(
            r.open(&args, DriverProbe::Ready).unwrap_err(),
            HalError::DeviceOpen(OpenFailure::NotFound)
        );
        assert_eq!(r.resolve(&args), Err(HalError::DeviceOpen(OpenFailure::NotFound)));
    }
}

#[test]
fn arguments_resolve_whatever_their_order() {
    let r = registry();
    assert_eq!(r.resolve(&DeviceArgs::parse("serial=1, driver=lime")), Ok(1));
    assert_eq!(r.resolve(&DeviceArgs::parse("driver=lime, serial=2")), Ok(2));
}

#[test]
fn arguments_that_two_devices_share_are_ambiguous() {
    let mut r = DeviceRegistry::new();
    r.register("a", &vec![device("driver=twin", false)]);
    r.register("b", &vec![device("driver=twin", false)]);
    let args = DeviceArgs::parse("driver=twin");
    assert_eq!(
        r.open(&args, DriverProbe::Ready).unwrap_err(),
        HalError::DeviceOpen(OpenFailure::Ambiguous)
    );
}

#[test]
fn the_hardware_may_refuse() {
    let mut r = registry();
    let args = DeviceArgs::parse("driver=mock, serial=1");
    assert_eq!(r.open(&args, DriverProbe::Busy).unwrap_err(), HalError::DeviceBusy);
    assert_eq!(
        r.open(&args, DriverProbe::PermissionDenied).unwrap_err(),
        HalError::DeviceOpen(OpenFailure::PermissionDenied)
    );
    assert_eq!(
        r.open(&args, DriverProbe::FirmwareMismatch).unwrap_err(),
        HalError::DeviceOpen(OpenFailure::FirmwareMismatch)
    );
    assert_eq!(
        r.open(&args, DriverProbe::Rejected).unwrap_err(),
        HalError::DeviceOpen(OpenFailure::Rejected)
    );
    assert!(r.open(&args, DriverProbe::Ready).is_ok());
}

#[test]
fn an_exclusive_device_is_busy_while_a_handle_is_open() {
    let mut r = registry();
    let args = DeviceArgs::parse("driver=lime, serial=1");
    let first = r.open(&args, DriverProbe::Ready).unwrap();
    assert_eq!(r.open(&args, DriverProbe::Ready).unwrap_err(), HalError::DeviceBusy);
    assert!(r.open(&DeviceArgs::parse("driver=lime, serial=2"), DriverProbe::Ready).is_ok());
    assert_eq!(r.close(first), Vec::<usize>::new());
    assert!(r.open(&args, DriverProbe::Ready).is_ok());
}

#[test]
fn a_shared_device_gives_independent_handles() {
    let mut r = registry();
    let args = DeviceArgs::parse("driver=mock, serial=1");
    let mut one = r.open(&args, DriverProbe::Ready).unwrap();
    let mut other = r.open(&args, DriverProbe::Ready).unwrap();
    let format = StreamFormat::natural(SampleFormat::CS16);
    assert_eq!(one.create_stream(Direction::Receive, &vec![0], format, &DeviceArgs::new()), Ok(0));
    assert_eq!(other.create_stream(Direction::Receive, &vec![0], format, &DeviceArgs::new()), Ok(0));
}

#[test]
fn closing_a_handle_stops_its_active_sessions() {
    let mut r = registry();
    let args = DeviceArgs::parse("driver=mock, serial=1");
    let mut handle = r.open(&args, DriverProbe::Ready).unwrap();
    let format = StreamFormat::natural(SampleFormat::CS16);
    let id = handle.create_stream(Direction::Receive, &vec![0], format, &DeviceArgs::new()).unwrap();
    handle.activate(id, None).unwrap();
    assert_eq!(r.close(handle), vec![id]);
}
