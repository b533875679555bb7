//! Analog-parameter acquisition and scaling: a raw ADC sample is corrected for
//! the inverted half-range potentiometers and mapped into a caller-supplied
//! integer range.
//!
//! The acquisition itself (sampling the ADC) is hardware work and happens
//! outside this library; these functions take the raw sample as an argument.
//! Samples outside the pots' nominal domain of `[1, 32768]` (ADC noise at the
//! rails) are not validated: they propagate as out-of-range corrected values
//! and out-of-range results, an accepted limitation.

use vstd::prelude::*;

verus! {

/// The corrected value of a raw potentiometer sample.
///
/// The pots are inverted and return only the lower half of the 16-bit range,
/// so the sample is flipped and doubled: `(32768 - raw) * 2`. Within the
/// nominal domain `[1, 32768]` this lands in `[0, 65534]`; out-of-domain
/// samples propagate (`raw == 0` gives 65536, `raw > 32768` goes negative).
pub open spec fn spec_corrected(raw: u16) -> int {
    (32768 - raw as int) * 2
}

/// Truncating division, as the machine divides signed integers: the quotient
/// is rounded toward zero.
pub open spec fn trunc_div(a: int, d: int) -> int
    recommends
        d > 0,
{
    if a >= 0 {
        a / d
    } else {
        -((-a) / d)
    }
}

/// Correct a raw potentiometer sample for inversion and half-range.
pub fn correct_raw(raw: u16) -> (c: i32)
    ensures
        c == spec_corrected(raw),
{
    (32768 - raw as i32) * 2
}

/// Where a corrected sample lands in the caller's range: the linear map
/// `min + (max - min + 1) * c / 65536`, with truncating division. For
/// corrected samples in `[0, 65535]` this lies in `[min, max]`; out-of-range
/// corrected samples extrapolate past the range's ends.
pub open spec fn spec_scale(min: int, max: int, c: int) -> int {
    min + trunc_div((max - min + 1) * c, 65536)
}

/// Calibration of one analog input: maps corrected samples into `[min, max]`.
#[derive(Clone, Copy, Debug, PartialEq, Eq, Structural)]
pub struct AdcIntParameter {
    min: i32,
    max: i32,
}

impl AdcIntParameter {
    /// The range is well-formed: its lower bound does not exceed its upper bound.
    pub closed spec fn wf(&self) -> bool {
        self.min <= self.max
    }

    pub closed spec fn spec_min(&self) -> i32 {
        self.min
    }

    pub closed spec fn spec_max(&self) -> i32 {
        self.max
    }

    /// Build a calibration for the range `[min, max]`; rejects `min > max`.
    pub fn new(min: i32, max: i32) -> (r: Option<AdcIntParameter>)
        ensures
            r is Some <==> min <= max,
            r matches Some(p) ==> p.wf() && p.spec_min() == min && p.spec_max() == max,
    {
        if min <= max {
            Some(AdcIntParameter { min, max })
        } else {
            None
        }
    }

    /// Lower bound of the range.
    pub fn min(&self) -> (r: i32)
        ensures
            r == self.spec_min(),
    {
        self.min
    }

    /// Upper bound of the range.
    pub fn max(&self) -> (r: i32)
        ensures
            r == self.spec_max(),
    {
        self.max
    }

    /// Map a corrected sample into the range. The result is the scaled value
    /// narrowed to 32 bits; for corrected samples in `[0, 65535]` it is the
    /// scaled value itself and lies in `[min, max]`.
    pub fn map_corrected(&self, c: i32) -> (r: i32)
        requires
            self.wf(),
            -65534 <= c <= 65536,
        ensures
            r == spec_scale(self.spec_min() as int, self.spec_max() as int, c as int) as i32,
            0 <= c <= 65535 ==> r == spec_scale(
                self.spec_min() as int,
                self.spec_max() as int,
                c as int,
            ) && self.spec_min() <= r <= self.spec_max(),
    {
        proof {
            if 0 <= c <= 65535 {
                lemma_scale_in_range(self.min as int, self.max as int, c as int);
            }
        }
        let value: i64 = c as i64;
        let min64: i64 = self.min as i64;
        let max64: i64 = self.max as i64;
        let range: i64 = max64 - min64 + 1;
        proof {
            assert(range * -65534 <= range * value <= range * 65536) by (nonlinear_arith)
                requires
                    range >= 1,
                    -65534 <= value <= 65536,
            ;
            assert(-((-(range * value)) / 65536) >= -range) by (nonlinear_arith)
                requires
                    range >= 1,
                    range * value >= range * -65534,
            ;
            assert(range * value / 65536 <= range) by (nonlinear_arith)
                requires
                    range >= 1,
                    range * value <= range * 65536,
            ;
        }
        let res: i64 = min64 + range * value / 65536;
        #[verifier::truncate]
        (res as i32)
    }

    /// Read the parameter from a raw ADC sample: correct the sample, then map
    /// it into the range. For samples in the nominal domain `[1, 32768]` the
    /// result lies in `[min, max]`; out-of-domain samples propagate.
    pub fn get(&self, raw: u16) -> (r: i32)
        requires
            self.wf(),
        ensures
            r == spec_scale(
                self.spec_min() as int,
                self.spec_max() as int,
                spec_corrected(raw),
            ) as i32,
            1 <= raw <= 32768 ==> r == spec_scale(
                self.spec_min() as int,
                self.spec_max() as int,
                spec_corrected(raw),
            ) && self.spec_min() <= r <= self.spec_max(),
    {
        self.map_corrected(correct_raw(raw))
    }
}

/// For every well-formed range and every corrected sample in the nominal
/// `[0, 65535]`, the scaled value lies in `[min, max]`.
pub proof fn lemma_scale_in_range(min: int, max: int, c: int)
    requires
        min <= max,
        0 <= c <= 65535,
    ensures
        min <= spec_scale(min, max, c) <= max,
{
    let range = max - min + 1;
    assert(0 <= range * c <= range * 65535) by (nonlinear_arith)
        requires
            range >= 1,
            0 <= c <= 65535,
    ;
    assert(range * c / 65536 >= 0) by (nonlinear_arith)
        requires
            range * c >= 0,
    ;
    assert(range * c / 65536 < range) by (nonlinear_arith)
        requires
            range >= 1,
            range * c <= range * 65535,
    ;
}

/// The scaled value is monotonically non-decreasing in the corrected sample,
/// over the nominal corrected domain.
pub proof fn lemma_scale_monotone(min: int, max: int, c1: int, c2: int)
    requires
        min <= max,
        0 <= c1 <= c2 <= 65535,
    ensures
        spec_scale(min, max, c1) <= spec_scale(min, max, c2),
{
    let range = max - min + 1;
    assert(range * c1 >= 0) by (nonlinear_arith)
        requires
            range >= 1,
            c1 >= 0,
    ;
    assert(range * c1 <= range * c2) by (nonlinear_arith)
        requires
            range >= 1,
            c1 <= c2,
    ;
    assert(range * c1 / 65536 <= range * c2 / 65536) by (nonlinear_arith)
        requires
            range * c1 <= range * c2,
    ;
}

/// Correction inverts the sample: as the raw sample grows, the corrected
/// value strictly falls.
pub proof fn lemma_corrected_antitone(r1: u16, r2: u16)
    requires
        r1 < r2,
    ensures
        spec_corrected(r2) < spec_corrected(r1),
{
}

/// The whole integer parameter mapping is monotonically non-increasing in the
/// raw sample over the pots' nominal domain: a higher raw sample never yields
/// a higher parameter value.
pub proof fn lemma_int_param_antitone_in_raw(min: int, max: int, r1: u16, r2: u16)
    requires
        min <= max,
        1 <= r1 < r2 <= 32768,
    ensures
        spec_scale(min, max, spec_corrected(r2)) <= spec_scale(min, max, spec_corrected(r1)),
{
    lemma_corrected_antitone(r1, r2);
    lemma_scale_monotone(min, max, spec_corrected(r2), spec_corrected(r1));
}

} // verus!
