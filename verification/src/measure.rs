//! Real quantities as integers.
//!
//! A quantity that is not negative (a distance in metres, a time in seconds, an angle in
//! radians) is held by the bit pattern of its double-precision value. Such patterns order
//! as the quantities do, so comparing the integers compares the quantities.
use vstd::prelude::*;

verus! {

/// A quantity that is not negative, by the bit pattern of its double-precision value.
pub type Measure = u64;

/// The signal-to-noise ratio that marks a report by radio: 25 dB.
pub const RADIO_PING_SNR: Measure = 0x4039_0000_0000_0000;

/// One millionth: below it a length counts as none.
pub const MILLIONTH: Measure = 0x3eb0_c6f7_a0b5_ed8d;

/// 100 metres per square second.
pub const ACCELERATION_100: Measure = 0x4059_0000_0000_0000;

/// 100 km.
pub const METERS_100_000: Measure = 0x40f8_6a00_0000_0000;

/// 200 m per second.
pub const SPEED_200: Measure = 0x4069_0000_0000_0000;

/// 500 m per second.
pub const SPEED_500: Measure = 0x407f_4000_0000_0000;

/// 10 km per second.
pub const SPEED_10_000: Measure = 0x40c3_8800_0000_0000;

/// 1 m.
pub const METERS_1: Measure = 0x3ff0_0000_0000_0000;

/// 15 m.
pub const METERS_15: Measure = 0x402e_0000_0000_0000;

/// 20 m.
pub const METERS_20: Measure = 0x4034_0000_0000_0000;

/// 30 m.
pub const METERS_30: Measure = 0x403e_0000_0000_0000;

/// 50 m.
pub const METERS_50: Measure = 0x4049_0000_0000_0000;

/// 100 m.
pub const METERS_100: Measure = 0x4059_0000_0000_0000;

/// 150 m.
pub const METERS_150: Measure = 0x4062_c000_0000_0000;

/// 500 m.
pub const METERS_500: Measure = 0x407f_4000_0000_0000;

/// A quarter of a second.
pub const SECONDS_QUARTER: Measure = 0x3fd0_0000_0000_0000;

/// Half a second.
pub const SECONDS_HALF: Measure = 0x3fe0_0000_0000_0000;

/// 3 s.
pub const SECONDS_3: Measure = 0x4008_0000_0000_0000;

/// 4 s.
pub const SECONDS_4: Measure = 0x4010_0000_0000_0000;

/// 5 s.
pub const SECONDS_5: Measure = 0x4014_0000_0000_0000;

/// 10 s.
pub const SECONDS_10: Measure = 0x4024_0000_0000_0000;

/// 0.1 degrees.
pub const DEGREES_TENTH: Measure = 0x3f5c_9871_03b7_61f5;

/// 0.15 degrees.
pub const DEGREES_015: Measure = 0x3f65_7254_c2c9_8977;

/// 0.5 degrees.
pub const DEGREES_HALF: Measure = 0x3f81_df46_a252_9d39;

/// 1 degree.
pub const DEGREES_1: Measure = 0x3f91_df46_a252_9d39;

/// 2 degrees.
pub const DEGREES_2: Measure = 0x3fa1_df46_a252_9d39;

/// 4 degrees.
pub const DEGREES_4: Measure = 0x3fb1_df46_a252_9d39;

/// 5 degrees.
pub const DEGREES_5: Measure = 0x3fb6_5718_4ae7_4487;

/// 10 degrees.
pub const DEGREES_10: Measure = 0x3fc6_5718_4ae7_4487;

/// 15 degrees.
pub const DEGREES_15: Measure = 0x3fd0_c152_382d_7365;

/// 60 degrees.
pub const DEGREES_60: Measure = 0x3ff0_c152_382d_7365;

/// 67.5 degrees.
pub const DEGREES_67: Measure = 0x3ff2_d97c_7f33_21d2;

/// A full turn, less a rounding margin of 0.00001 radians.
pub const FULL_CIRCLE: Measure = 0x4019_21f8_b52d_7bfc;

/// The order key of zero.
pub const KEY_OF_ZERO: u64 = 0x8000_0000_0000_0000;

/// The order key of 5.
pub const KEY_OF_5: u64 = 0xc014_0000_0000_0000;

/// The order key of a double-precision value given by its bit pattern: keys order as the
/// values do, negative ones included.
pub open spec fn order_key_of(bits: u64) -> u64 {
    if bits < 0x8000_0000_0000_0000 {
        (bits + 0x8000_0000_0000_0000) as u64
    } else {
        (0xffff_ffff_ffff_ffff - bits) as u64
    }
}

/// The order key of a double-precision value given by its bit pattern.
pub fn order_key(bits: u64) -> (key: u64)
    ensures
        key == order_key_of(bits),
{
    if bits < 0x8000_0000_0000_0000 {
        bits + 0x8000_0000_0000_0000
    } else {
        0xffff_ffff_ffff_ffff - bits
    }
}

/// Order keys tell all patterns apart: positive values order by their patterns, negative ones
/// the other way round, and every negative value comes before every positive one.
pub proof fn law_order_keys(a: u64, b: u64)
    ensures
        a < 0x8000_0000_0000_0000 && b < 0x8000_0000_0000_0000 ==> (order_key_of(a) < order_key_of(
            b,
        ) <==> a < b),
        a >= 0x8000_0000_0000_0000 && b >= 0x8000_0000_0000_0000 ==> (order_key_of(a)
            < order_key_of(b) <==> b < a),
        a >= 0x8000_0000_0000_0000 && b < 0x8000_0000_0000_0000 ==> order_key_of(a)
            < order_key_of(b),
{
}

} // verus!
