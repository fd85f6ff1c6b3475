//! Sample formats and the conversion between a device's native format and
//! the format that a caller asked for.

use vstd::prelude::*;
use vstd::arithmetic::div_mod::{
    lemma_div_is_ordered, lemma_div_multiples_vanish, lemma_fundamental_div_mod, lemma_mod_bound,
};
use num_complex::Complex;
use crate::error::HalError;

verus! {

/// The encoding of one complex sample.
#[derive(Clone, Copy, Debug, PartialEq, Eq, Structural)]
pub enum SampleFormat {
    /// Complex 64-bit floating point.
    CF64,
    /// Complex 32-bit floating point.
    CF32,
    /// Complex signed 32-bit integers.
    CS32,
    /// Complex unsigned 32-bit integers.
    CU32,
    /// Complex signed 16-bit integers.
    CS16,
    /// Complex unsigned 16-bit integers.
    CU16,
    /// Complex signed 12-bit integers.
    CS12,
    /// Complex unsigned 12-bit integers.
    CU12,
    /// Complex signed 8-bit integers.
    CS8,
    /// Complex unsigned 8-bit integers.
    CU8,
    /// Complex signed 4-bit integers.
    CS4,
    /// Complex unsigned 4-bit integers.
    CU4,
}

impl SampleFormat {
    /// The components are integers.
    pub open spec fn is_integer(self) -> bool {
        self != SampleFormat::CF64 && self != SampleFormat::CF32
    }

    /// The least component that the format can hold (0 for a floating-point
    /// format, which this layer does not convert).
    pub open spec fn min_value(self) -> int {
        match self {
            SampleFormat::CS32 => -0x8000_0000,
            SampleFormat::CS16 => -0x8000,
            SampleFormat::CS12 => -0x800,
            SampleFormat::CS8 => -0x80,
            SampleFormat::CS4 => -8,
            _ => 0,
        }
    }

    /// The greatest component that the format can hold (0 for a
    /// floating-point format).
    pub open spec fn max_value(self) -> int {
        match self {
            SampleFormat::CF64 => 0,
            SampleFormat::CF32 => 0,
            SampleFormat::CS32 => 0x7fff_ffff,
            SampleFormat::CU32 => 0xffff_ffff,
            SampleFormat::CS16 => 0x7fff,
            SampleFormat::CU16 => 0xffff,
            SampleFormat::CS12 => 0x7ff,
            SampleFormat::CU12 => 0xfff,
            SampleFormat::CS8 => 0x7f,
            SampleFormat::CU8 => 0xff,
            SampleFormat::CS4 => 7,
            SampleFormat::CU4 => 15,
        }
    }

    /// `x` is a component that the format can hold.
    pub open spec fn fits(self, x: int) -> bool {
        self.is_integer() && self.min_value() <= x <= self.max_value()
    }

    /// The least and the greatest component of an integer format, `None` for
    /// a floating-point format.
    pub fn bounds(&self) -> (b: Option<(i64, i64)>)
        ensures
            b is Some <==> self.is_integer(),
            b matches Some((lo, hi)) ==> lo == self.min_value() && hi == self.max_value() && lo
                <= 0 < hi,
    {
        match self {
            SampleFormat::CF64 => None,
            SampleFormat::CF32 => None,
            SampleFormat::CS32 => Some((-0x8000_0000, 0x7fff_ffff)),
            SampleFormat::CU32 => Some((0, 0xffff_ffff)),
            SampleFormat::CS16 => Some((-0x8000, 0x7fff)),
            SampleFormat::CU16 => Some((0, 0xffff)),
            SampleFormat::CS12 => Some((-0x800, 0x7ff)),
            SampleFormat::CU12 => Some((0, 0xfff)),
            SampleFormat::CS8 => Some((-0x80, 0x7f)),
            SampleFormat::CU8 => Some((0, 0xff)),
            SampleFormat::CS4 => Some((-8, 7)),
            SampleFormat::CU4 => Some((0, 15)),
        }
    }
}

/// A sample format together with the magnitude that counts as full scale.
#[derive(Clone, Copy, Debug, PartialEq, Eq, Structural)]
pub struct StreamFormat {
    pub format: SampleFormat,
    pub full_scale: u32,
}

impl StreamFormat {
    /// The format with the full scale that is usual for it: the greatest
    /// component of an integer format, 1 for a floating-point format.
    pub fn natural(format: SampleFormat) -> (f: StreamFormat)
        ensures
            f.format == format,
            format.is_integer() ==> f.full_scale == format.max_value(),
            !format.is_integer() ==> f.full_scale == 1,
    {
        match format.bounds() {
            Some((_, hi)) => StreamFormat { format, full_scale: hi as u32 },
            None => StreamFormat { format, full_scale: 1 },
        }
    }
}

/// One complex sample: in-phase and quadrature component.
#[derive(Clone, Copy, Debug, PartialEq, Eq, Structural)]
pub struct IqSample {
    pub re: i64,
    pub im: i64,
}

/// A complex number of the `num_complex` crate: its two public fields, the
/// real and the imaginary part.
#[verifier::external_type_specification]
#[verifier::reject_recursive_types(T)]
pub struct ExComplex<T>(Complex<T>);

impl IqSample {
    /// The sample that a complex number of 16-bit parts stands for.
    pub fn from_complex16(c: Complex<i16>) -> (s: IqSample)
        ensures
            s.re == c.re,
            s.im == c.im,
    {
        IqSample { re: c.re as i64, im: c.im as i64 }
    }

    /// The sample as a complex number of 16-bit parts, each part held to
    /// what 16 bits can hold.
    pub fn to_complex16(self) -> (c: Complex<i16>)
        ensures
            c.re == saturated(self.re as int, i16::MIN as int, i16::MAX as int),
            c.im == saturated(self.im as int, i16::MIN as int, i16::MAX as int),
    {
        Complex { re: narrow(self.re), im: narrow(self.im) }
    }
}

/// `x` held to what 16 bits can hold.
fn narrow(x: i64) -> (y: i16)
    ensures
        y == saturated(x as int, i16::MIN as int, i16::MAX as int),
{
    if x < -32768 {
        -32768
    } else if x > 32767 {
        32767
    } else {
        x as i16
    }
}

/// `raw` rescaled from the full scale `from_full` to the full scale
/// `to_full`, rounded toward zero.
pub open spec fn scaled(raw: int, from_full: int, to_full: int) -> int {
    if raw >= 0 {
        (raw * to_full) / from_full
    } else {
        -((-raw * to_full) / from_full)
    }
}

/// `x` held to the range from `lo` to `hi`: a value beyond an end becomes
/// that end.
pub open spec fn saturated(x: int, lo: int, hi: int) -> int {
    if x < lo {
        lo
    } else if x > hi {
        hi
    } else {
        x
    }
}

/// `a` and `b` differ by one unit at most.
pub open spec fn dist_one(a: int, b: int) -> bool {
    -1 <= a - b <= 1
}

/// Whether components can be converted from `from` to `to`: both are integer
/// formats with a positive full scale.
pub open spec fn convertible(from: StreamFormat, to: StreamFormat) -> bool {
    from.format.is_integer() && to.format.is_integer() && from.full_scale > 0 && to.full_scale > 0
}

/// The component `raw` of format `from`, as format `to` holds it: unchanged
/// where the formats are the same, else rescaled by the ratio of the full
/// scales and saturated to what `to` can hold.
pub open spec fn converted(raw: int, from: StreamFormat, to: StreamFormat) -> int {
    if from == to {
        raw
    } else {
        saturated(
            scaled(raw, from.full_scale as int, to.full_scale as int),
            to.format.min_value(),
            to.format.max_value(),
        )
    }
}

/// The sample `s` converted component by component.
pub open spec fn converted_sample(s: IqSample, from: StreamFormat, to: StreamFormat) -> IqSample {
    IqSample {
        re: converted(s.re as int, from, to) as i64,
        im: converted(s.im as int, from, to) as i64,
    }
}

/// `after` is the buffer `before` with its front overwritten by the first
/// `count` samples of `src`, converted from `from` to `to`: as many of them
/// as `src` has and the buffer takes.
pub open spec fn block_converted(
    src: Seq<IqSample>,
    count: int,
    before: Seq<IqSample>,
    after: Seq<IqSample>,
    from: StreamFormat,
    to: StreamFormat,
) -> bool {
    let moved = vstd::math::min(count, vstd::math::min(src.len() as int, before.len() as int));
    &&& after.len() == before.len()
    &&& forall|i: int| 0 <= i < moved ==> #[trigger] after[i] == converted_sample(src[i], from, to)
    &&& forall|i: int| moved <= i < before.len() ==> #[trigger] after[i] == before[i]
}

/// Converts samples from one stream format to another.
#[derive(Clone, Copy, Debug, PartialEq, Eq)]
pub struct FormatConverter {
    from: StreamFormat,
    to: StreamFormat,
}

impl FormatConverter {
    #[verifier::type_invariant]
    spec fn inv(self) -> bool {
        self.from == self.to || convertible(self.from, self.to)
    }

    /// The format that the converter reads.
    pub closed spec fn source(self) -> StreamFormat {
        self.from
    }

    /// The format that the converter writes.
    pub closed spec fn target(self) -> StreamFormat {
        self.to
    }

    /// A converter from `from` to `to`. Equal formats pass samples through;
    /// different ones must both be integer formats with a positive full
    /// scale, else the pair is refused with `FormatNegotiation`.
    pub fn new(from: StreamFormat, to: StreamFormat) -> (res: Result<FormatConverter, HalError>)
        ensures
            res is Ok <==> (from == to || convertible(from, to)),
            res matches Ok(c) ==> c.source() == from && c.target() == to,
            res matches Err(e) ==> e == HalError::FormatNegotiation,
    {
        let same = from.format == to.format && from.full_scale == to.full_scale;
        let both = from.format.bounds().is_some() && to.format.bounds().is_some() && from.full_scale
            > 0 && to.full_scale > 0;
        if same || both {
            Ok(FormatConverter { from, to })
        } else {
            Err(HalError::FormatNegotiation)
        }
    }

    /// The format that the converter reads.
    pub fn source_format(&self) -> (f: StreamFormat)
        ensures
            f == self.source(),
    {
        self.from
    }

    /// The format that the converter writes.
    pub fn target_format(&self) -> (f: StreamFormat)
        ensures
            f == self.target(),
    {
        self.to
    }

    /// Whether samples pass through unchanged, so that no copy is needed.
    pub fn is_passthrough(&self) -> (b: bool)
        ensures
            b == (self.source() == self.target()),
    {
        self.from.format == self.to.format && self.from.full_scale == self.to.full_scale
    }

    /// Converts one component.
    pub fn convert(&self, raw: i64) -> (out: i64)
        ensures
            out == converted(raw as int, self.source(), self.target()),
    {
        proof {
            use_type_invariant(self);
        }
        if self.is_passthrough() {
            return raw;
        }
        let (lo, hi) = match self.to.format.bounds() {
            Some(b) => b,
            None => { return raw; },
        };
        let from_full: u128 = self.from.full_scale as u128;
        let to_full: u128 = self.to.full_scale as u128;
        let magnitude: u128 = if raw >= 0 {
            raw as u128
        } else {
            (-(raw as i128)) as u128
        };
        assert(magnitude * to_full <= 0x8000_0000_0000_0000 * 0xffff_ffff) by (nonlinear_arith)
            requires
                magnitude <= 0x8000_0000_0000_0000,
                to_full <= 0xffff_ffff,
        ;
        let quotient: u128 = (magnitude * to_full) / from_full;
        if raw >= 0 {
            if quotient > hi as u128 {
                hi
            } else {
                quotient as i64
            }
        } else {
            if quotient > (-(lo as i128)) as u128 {
                lo
            } else {
                -(quotient as i64)
            }
        }
    }

    /// Converts one sample, component by component.
    pub fn convert_sample(&self, s: IqSample) -> (out: IqSample)
        ensures
            out == converted_sample(s, self.source(), self.target()),
    {
        IqSample { re: self.convert(s.re), im: self.convert(s.im) }
    }

    /// Converts the first `count` samples of `src` into the front of `dst`, as
    /// many of them as both hold, and returns how many that were. The rest of
    /// `dst` stays as it was.
    pub fn convert_into(&self, src: &Vec<IqSample>, count: usize, dst: &mut Vec<IqSample>) -> (n: usize)
        ensures
            n == vstd::math::min(count as int, vstd::math::min(src@.len() as int, old(dst)@.len() as int)),
            block_converted(
                src@,
                count as int,
                old(dst)@,
                final(dst)@,
                self.source(),
                self.target(),
            ),
    {
        let mut n: usize = count;
        if src.len() < n {
            n = src.len();
        }
        if dst.len() < n {
            n = dst.len();
        }
        let mut i: usize = 0;
        while i < n
            invariant
                i <= n,
                n <= src@.len(),
                n <= dst@.len(),
                dst@.len() == old(dst)@.len(),
                forall|k: int|
                    0 <= k < i ==> #[trigger] dst@[k] == converted_sample(
                        src@[k],
                        self.source(),
                        self.target(),
                    ),
                forall|k: int| i <= k < dst@.len() ==> #[trigger] dst@[k] == old(dst)@[k],
            decreases n - i,
        {
            let c = self.convert_sample(src[i]);
            dst.set(i, c);
            i += 1;
        }
        n
    }
}

/// Scaling a magnitude up by `r / n` and back down by `n / r` loses at most
/// one unit, and nothing where the two scales are equal.
proof fn lemma_scale_there_and_back(x: int, n: int, r: int)
    requires
        0 <= x,
        0 < n <= r,
    ensures
        0 <= (x * r) / n,
        x - 1 <= (((x * r) / n) * n) / r <= x,
        0 <= (((x * r) / n) * n) / r,
        n == r ==> (((x * r) / n) * n) / r == x,
{
    let a = x * r;
    let y = a / n;
    lemma_fundamental_div_mod(a, n);
    lemma_mod_bound(a, n);
    assert(0 <= a) by (nonlinear_arith)
        requires
            0 <= x,
            0 < r,
            a == x * r,
    ;
    assert(y * n == n * y) by (nonlinear_arith);
    assert(0 <= y) by (nonlinear_arith)
        requires
            a == n * y + a % n,
            0 <= a,
            a % n < n,
            0 < n,
    ;
    assert(r * x == a) by (nonlinear_arith)
        requires
            a == x * r,
    ;
    assert(r * (x - 1) == a - r) by (nonlinear_arith)
        requires
            a == x * r,
    ;
    lemma_div_multiples_vanish(x, r);
    lemma_div_multiples_vanish(x - 1, r);
    lemma_div_is_ordered(y * n, a, r);
    lemma_div_is_ordered(a - r, y * n, r);
    lemma_div_is_ordered(0, y * n, r);
    assert(0 <= y * n) by (nonlinear_arith)
        requires
            0 <= y,
            0 < n,
    ;
    assert(0int / r == 0) by {
        lemma_div_multiples_vanish(0, r);
        assert(r * 0 == 0);
    }
    if n == r {
        lemma_div_multiples_vanish(y, r);
    }
}

/// An integer format holds 0, and a value above it.
proof fn lemma_bounds_straddle_zero(f: SampleFormat)
    requires
        f.is_integer(),
    ensures
        f.min_value() <= 0 < f.max_value(),
{
}

/// A component converted to a format of the same or a finer full scale and
/// back again comes out within one unit of what went in, on the side of
/// zero, provided that it did not saturate on the way.
pub proof fn lemma_round_trip_within_one(native: StreamFormat, requested: StreamFormat, x: int)
    requires
        convertible(native, requested),
        native.full_scale <= requested.full_scale,
        native.format.fits(x),
        requested.format.fits(scaled(x, native.full_scale as int, requested.full_scale as int)),
    ensures
        x >= 0 ==> x - 1 <= converted(converted(x, native, requested), requested, native) <= x,
        x <= 0 ==> x <= converted(converted(x, native, requested), requested, native) <= x + 1,
        dist_one(converted(converted(x, native, requested), requested, native), x),
{
    let n = native.full_scale as int;
    let r = requested.full_scale as int;
    lemma_bounds_straddle_zero(native.format);
    if native != requested {
        if x >= 0 {
            lemma_scale_there_and_back(x, n, r);
        } else {
            lemma_scale_there_and_back(-x, n, r);
            let y = (-x * r) / n;
            if y == 0 {
                assert(0 * n == 0);
                assert((0 * n) / r == 0);
            }
        }
    }
}

/// With the same full scale on both sides, a component that both formats can
/// hold survives the conversion there and back unchanged.
pub proof fn lemma_round_trip_same_scale(native: StreamFormat, requested: StreamFormat, x: int)
    requires
        convertible(native, requested),
        native.full_scale == requested.full_scale,
        native.format.fits(x),
        requested.format.fits(x),
    ensures
        converted(x, native, requested) == x,
        converted(converted(x, native, requested), requested, native) == x,
        dist_one(converted(converted(x, native, requested), requested, native), x),
{
    let n = native.full_scale as int;
    lemma_bounds_straddle_zero(native.format);
    if native != requested {
        if x >= 0 {
            lemma_scale_there_and_back(x, n, n);
            lemma_div_multiples_vanish(x, n);
            assert(n * x == x * n) by (nonlinear_arith);
        } else {
            lemma_scale_there_and_back(-x, n, n);
            lemma_div_multiples_vanish(-x, n);
            assert(n * (-x) == -x * n) by (nonlinear_arith);
        }
    }
}

} // verus!
