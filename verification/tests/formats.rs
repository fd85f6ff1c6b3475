use num_complex::Complex;
use sdr_hal::error::HalError;
use sdr_hal::format::{FormatConverter, IqSample, SampleFormat, StreamFormat};

fn format(format: SampleFormat, full_scale: u32) -> StreamFormat {
    StreamFormat { format, full_scale }
}

fn converter(from: StreamFormat, to: StreamFormat) -> FormatConverter {
    FormatConverter::new(from, to).unwrap()
}

#[test]
fn bounds_of_the_formats() {
    assert_eq!(SampleFormat::CS16.bounds(), Some((-32768, 32767)));
    assert_eq!(SampleFormat::CU16.bounds(), Some((0, 65535)));
    assert_eq!(SampleFormat::CS12.bounds(), Some((-2048, 2047)));
    assert_eq!(SampleFormat::CU12.bounds(), Some((0, 4095)));
    assert_eq!(SampleFormat::CS8.bounds(), Some((-128, 127)));
    assert_eq!(SampleFormat::CU8.bounds(), Some((0, 255)));
    assert_eq!(SampleFormat::CS4.bounds(), Some((-8, 7)));
    assert_eq!(SampleFormat::CU4.bounds(), Some((0, 15)));
    assert_eq!(SampleFormat::CS32.bounds(), Some((-2147483648, 2147483647)));
    assert_eq!(SampleFormat::CU32.bounds(), Some((0, 4294967295)));
    assert_eq!(SampleFormat::CF32.bounds(), None);
    assert_eq!(SampleFormat::CF64.bounds(), None);
}

#[test]
fn natural_full_scale() {
    assert_eq!(StreamFormat::natural(SampleFormat::CS16), format(SampleFormat::CS16, 32767));
    assert_eq!(StreamFormat::natural(SampleFormat::CU32), format(SampleFormat::CU32, 4294967295));
    assert_eq!(StreamFormat::natural(SampleFormat::CF32), format(SampleFormat::CF32, 1));
}

#[test]
fn equal_formats_pass_through() {
    let f = format(SampleFormat::CS16, 32767);
    let c = converter(f, f);
    assert!(c.is_passthrough());
    assert_eq!(c.convert(12345), 12345);
    assert_eq!(c.convert(i64::MIN), i64::MIN);
    let floats = format(SampleFormat::CF32, 1);
    assert!(converter(floats, floats).is_passthrough());
}

#[test]
fn unsupported_pairs_are_refused() {
    let ints = format(SampleFormat::CS16, 32767);
    let floats = format(SampleFormat::CF32, 1);
    assert_eq!(FormatConverter::new(ints, floats).unwrap_err(), HalError::FormatNegotiation);
    assert_eq!(FormatConverter::new(floats, ints).unwrap_err(), HalError::FormatNegotiation);
    assert_eq!(
        FormatConverter::new(floats, format(SampleFormat::CF32, 2)).unwrap_err(),
        HalError::FormatNegotiation
    );
    assert_eq!(
        FormatConverter::new(ints, format(SampleFormat::CS8, 0)).unwrap_err(),
        HalError::FormatNegotiation
    );
    assert_eq!(
        FormatConverter::new(format(SampleFormat::CS16, 0), format(SampleFormat::CS8, 127))
            .unwrap_err(),
        HalError::FormatNegotiation
    );
}

#[test]
fn converter_remembers_its_formats() {
    let from = format(SampleFormat::CS12, 2047);
    let to = format(SampleFormat::CS16, 32767);
    let c = converter(from, to);
    assert_eq!(c.source_format(), from);
    assert_eq!(c.target_format(), to);
    assert!(!c.is_passthrough());
}

#[test]
fn scaling_up_by_the_ratio_of_the_full_scales() {
    let c = converter(format(SampleFormat::CS12, 2048), format(SampleFormat::CS16, 32768));
    assert_eq!(c.convert(1), 16);
    assert_eq!(c.convert(-1), -16);
    assert_eq!(c.convert(100), 1600);
    assert_eq!(c.convert(2047), 32752);
    assert_eq!(c.convert(-2048), -32768);
    assert_eq!(c.convert(0), 0);
}

#[test]
fn scaling_down_rounds_toward_zero() {
    let c = converter(format(SampleFormat::CS16, 32767), format(SampleFormat::CS8, 127));
    assert_eq!(c.convert(32767), 127);
    assert_eq!(c.convert(32766), 126);
    assert_eq!(c.convert(-32767), -127);
    assert_eq!(c.convert(-32766), -126);
    assert_eq!(c.convert(259), 1);
    assert_eq!(c.convert(258), 0);
    assert_eq!(c.convert(-258), 0);
    assert_eq!(c.convert(-259), -1);
}

#[test]
fn out_of_range_values_saturate() {
    let c = converter(format(SampleFormat::CS16, 127), format(SampleFormat::CS8, 127));
    assert_eq!(c.convert(1000), 127);
    assert_eq!(c.convert(-1000), -128);
    assert_eq!(c.convert(128), 127);
    assert_eq!(c.convert(-128), -128);
    assert_eq!(c.convert(-129), -128);
    let unsigned = converter(format(SampleFormat::CS16, 255), format(SampleFormat::CU8, 255));
    assert_eq!(unsigned.convert(-1), 0);
    assert_eq!(unsigned.convert(256), 255);
    assert_eq!(unsigned.convert(200), 200);
}

#[test]
fn the_widest_inputs_do_not_wrap() {
    let c = converter(format(SampleFormat::CS8, 1), format(SampleFormat::CU32, 4294967295));
    assert_eq!(c.convert(i64::MAX), 4294967295);
    assert_eq!(c.convert(i64::MIN), 0);
    let signed = converter(format(SampleFormat::CS8, 1), format(SampleFormat::CS32, 4294967295));
    assert_eq!(signed.convert(i64::MAX), 2147483647);
    assert_eq!(signed.convert(i64::MIN), -2147483648);
}

#[test]
fn round_trip_with_matching_full_scales_is_exact() {
    let native = format(SampleFormat::CS12, 2047);
    let requested = format(SampleFormat::CS16, 2047);
    let there = converter(native, requested);
    let back = converter(requested, native);
    for x in -2048..=2047 {
        assert_eq!(back.convert(there.convert(x)), x);
    }
}

#[test]
fn round_trip_to_a_finer_scale_stays_within_one_unit() {
    let native = format(SampleFormat::CS8, 127);
    let requested = format(SampleFormat::CS16, 32767);
    let there = converter(native, requested);
    let back = converter(requested, native);
    for x in -127..=127i64 {
        let again = back.convert(there.convert(x));
        assert!((again - x).abs() <= 1);
        assert!(again.abs() <= x.abs());
    }
    assert_eq!(back.convert(there.convert(100)), 99);
    assert_eq!(back.convert(there.convert(127)), 127);
}

#[test]
fn samples_are_converted_component_by_component() {
    let c = converter(format(SampleFormat::CS12, 2048), format(SampleFormat::CS16, 32768));
    assert_eq!(c.convert_sample(IqSample { re: 3, im: -5 }), IqSample { re: 48, im: -80 });
}

#[test]
fn convert_into_fills_the_front_of_the_buffer() {
    let c = converter(format(SampleFormat::CS12, 2048), format(SampleFormat::CS16, 32768));
    let src = vec![IqSample { re: 1, im: 2 }, IqSample { re: 3, im: 4 }, IqSample { re: 5, im: 6 }];
    let mut dst = vec![IqSample { re: -1, im: -1 }; 4];
    assert_eq!(c.convert_into(&src, 2, &mut dst), 2);
    assert_eq!(
        dst,
        vec![
            IqSample { re: 16, im: 32 },
            IqSample { re: 48, im: 64 },
            IqSample { re: -1, im: -1 },
            IqSample { re: -1, im: -1 },
        ]
    );
    let mut short = vec![IqSample { re: 0, im: 0 }; 1];
    assert_eq!(c.convert_into(&src, 3, &mut short), 1);
    assert_eq!(short, vec![IqSample { re: 16, im: 32 }]);
    let mut long = vec![IqSample { re: 0, im: 0 }; 5];
    assert_eq!(c.convert_into(&src, 9, &mut long), 3);
    assert_eq!(long[2], IqSample { re: 80, im: 96 });
    assert_eq!(long[3], IqSample { re: 0, im: 0 });
}

#[test]
fn samples_come_from_and_go_to_complex_numbers() {
    assert_eq!(IqSample::from_complex16(Complex::new(-32768, 32767)), IqSample { re: -32768, im: 32767 });
    assert_eq!(IqSample::from_complex16(Complex::new(0, -1)), IqSample { re: 0, im: -1 });
    assert_eq!(IqSample { re: 12, im: -34 }.to_complex16(), Complex::new(12, -34));
    assert_eq!(IqSample { re: 32768, im: -32769 }.to_complex16(), Complex::new(32767, -32768));
    assert_eq!(IqSample { re: i64::MAX, im: i64::MIN }.to_complex16(), Complex::new(32767, -32768));
    let c = Complex::new(-7i16, 9i16);
    assert_eq!(IqSample::from_complex16(c).to_complex16(), c);
}

#[test]
fn a_block_of_complex_numbers_is_rescaled() {
    let c = converter(format(SampleFormat::CS16, 32768), format(SampleFormat::CS8, 128));
    let block = vec![Complex::new(256i16, -256i16), Complex::new(32767, -32768), Complex::new(255, 1)];
    let src: Vec<IqSample> = block.iter().map(|x| IqSample::from_complex16(*x)).collect();
    let mut dst = vec![IqSample { re: 0, im: 0 }; 3];
    assert_eq!(c.convert_into(&src, 3, &mut dst), 3);
    let out: Vec<Complex<i16>> = dst.iter().map(|s| s.to_complex16()).collect();
    assert_eq!(out, vec![Complex::new(1, -1), Complex::new(127, -128), Complex::new(0, 0)]);
}
