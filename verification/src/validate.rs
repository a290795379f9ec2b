//! The checks on weather settings. Each is a pure check of numbers; the texts
//! that name fields are added by the caller.

use crate::double::{Double, DZERO};
use crate::single::{Single, HUNDRED, ZERO};
use crate::text::{push_decimal, push_text};
use crate::time::Span;
use vstd::prelude::*;

verus! {

/// The longest cloud in seconds, a day.
pub const MAX_SECS: u32 = 0x47a8_c000;

/// The longest lag at which the sky may be read, an hour in seconds: clouds
/// are kept no longer than that after they have ended.
pub const MAX_LAG_S: u64 = 0x40ac_2000_0000_0000;

/// The most clouds per hour, one a second.
pub const MAX_PER_H: u32 = 0x4561_0000;

/// One hundred in double precision.
pub const DHUNDRED: u64 = 0x4059_0000_0000_0000;

/// Why a weather setting was refused, with the numbers at fault.
#[derive(Clone, Copy, Debug, PartialEq, Eq, Structural)]
pub enum WeatherError {
    /// A range of seconds outside zero to a day.
    SecsRange(Single, Single),
    /// A lag that is negative or not a number.
    LagNegative(Double),
    /// A lag longer than clouds are kept.
    LagTooLong(Double),
    /// A range of depths outside 0 to 100 percent.
    DepthRange(Single, Single),
    /// A peak that is negative or not finite.
    Peak(Single),
    /// A rate that is negative or not finite.
    RateNegative(Single),
    /// More than one cloud a second.
    RateTooHigh(Single),
    /// A sunrise that is not before the sunset, in seconds of the day.
    Window(u64, u64),
    /// A scripted cloud's depth outside 0 to 100 percent.
    CloudDepth(Double),
    /// A scripted cloud's duration or ramp is negative.
    CloudSpans(Double, Double),
    /// A scripted cloud's duration is no span.
    BadDuration(Double),
    /// A scripted cloud's ramp is no span.
    BadRamp(Double),
}

/// A number of seconds from zero to a day.
pub open spec fn is_cloud_secs(v: Single) -> bool {
    Single::lit(ZERO).fle(v) && v.fle(Single::lit(MAX_SECS))
}

/// A percentage from 0 to 100.
pub open spec fn is_percentage(v: Single) -> bool {
    Single::lit(ZERO).fle(v) && v.fle(Single::lit(HUNDRED))
}

/// A finite number that is not negative.
pub open spec fn is_amount(v: Single) -> bool {
    v.finite() && Single::lit(ZERO).fle(v)
}

/// Both ends of a range of seconds are within zero to a day.
pub fn secs_range(range: (Single, Single)) -> (r: Result<(), WeatherError>)
    ensures
        r is Ok <==> is_cloud_secs(range.0) && is_cloud_secs(range.1),
        r matches Err(e) ==> e == WeatherError::SecsRange(range.0, range.1),
{
    let zero = Single::from_bits(ZERO);
    let max = Single::from_bits(MAX_SECS);
    if !range.0.is_finite() || !range.1.is_finite() || range.0.lt(zero) || range.1.lt(zero)
        || max.lt(range.0) || max.lt(range.1) {
        return Err(WeatherError::SecsRange(range.0, range.1));
    }
    Ok(())
}

/// The lag in seconds as a span: not negative, and at most an hour.
pub fn weather_lag_s(v: Double) -> (r: Result<Span, WeatherError>)
    ensures
        r is Ok <==> v.finite() && Double::lit(DZERO).dle(v) && v.dle(Double::lit(MAX_LAG_S)),
        r matches Ok(s) ==> s.wf() && Some(s) == v.dspan(),
        r matches Err(e) ==> e == if v.finite() && Double::lit(DZERO).dle(v) {
            WeatherError::LagTooLong(v)
        } else {
            WeatherError::LagNegative(v)
        },
{
    if !(v.is_finite() && Double::from_bits(DZERO).le(v)) {
        return Err(WeatherError::LagNegative(v));
    }
    if Double::from_bits(MAX_LAG_S).lt(v) {
        return Err(WeatherError::LagTooLong(v));
    }
    proof {
        crate::seconds::lemma_short_lag_is_a_span(v);
    }
    match v.to_span() {
        Some(s) => Ok(s),
        None => Err(WeatherError::LagTooLong(v)),
    }
}

/// Both ends of a range of depths are within 0 to 100 percent.
pub fn depth_range(range: (Single, Single)) -> (r: Result<(), WeatherError>)
    ensures
        r is Ok <==> is_percentage(range.0) && is_percentage(range.1),
        r matches Err(e) ==> e == WeatherError::DepthRange(range.0, range.1),
{
    let zero = Single::from_bits(ZERO);
    let hundred = Single::from_bits(HUNDRED);
    if !(zero.le(range.0) && range.0.le(hundred)) || !(zero.le(range.1) && range.1.le(hundred)) {
        return Err(WeatherError::DepthRange(range.0, range.1));
    }
    Ok(())
}

/// A peak is finite and not negative.
pub fn peak_pct(v: Single) -> (r: Result<(), WeatherError>)
    ensures
        r is Ok <==> is_amount(v),
        r matches Err(e) ==> e == WeatherError::Peak(v),
{
    if !(v.is_finite() && Single::from_bits(ZERO).le(v)) {
        return Err(WeatherError::Peak(v));
    }
    Ok(())
}

/// A rate that is finite and not negative, at most one cloud a second. Zero
/// switches the generator off.
pub fn cloud_rate(v: Single) -> (r: Result<Option<Single>, WeatherError>)
    ensures
        r is Ok <==> is_amount(v) && v.fle(Single::lit(MAX_PER_H)),
        r matches Ok(x) ==> x == if Single::lit(ZERO).flt(v) {
            Some(v)
        } else {
            None
        },
        r matches Err(e) ==> e == if is_amount(v) {
            WeatherError::RateTooHigh(v)
        } else {
            WeatherError::RateNegative(v)
        },
{
    let zero = Single::from_bits(ZERO);
    if !(v.is_finite() && zero.le(v)) {
        return Err(WeatherError::RateNegative(v));
    }
    if Single::from_bits(MAX_PER_H).lt(v) {
        return Err(WeatherError::RateTooHigh(v));
    }
    Ok(
        if zero.lt(v) {
            Some(v)
        } else {
            None
        },
    )
}

/// The text for a window that is not one.
pub open spec fn window_text(sunrise_s: u64, sunset_s: u64) -> Seq<char> {
    "sunrise must be before sunset, got "@ + crate::text::decimal(sunrise_s as nat) + "s and "@
        + crate::text::decimal(sunset_s as nat) + "s"@
}

pub(crate) fn window_message(sunrise_s: u64, sunset_s: u64) -> (r: String)
    ensures
        r@ == window_text(sunrise_s, sunset_s),
{
    let mut s = String::new();
    push_text(&mut s, "sunrise must be before sunset, got ");
    push_decimal(&mut s, sunrise_s as u128);
    push_text(&mut s, "s and ");
    push_decimal(&mut s, sunset_s as u128);
    push_text(&mut s, "s");
    assert(s@ =~= window_text(sunrise_s, sunset_s));
    s
}

/// The sunrise is before the sunset.
pub fn sunrise_before_sunset(sunrise: Span, sunset: Span) -> (r: Result<(), String>)
    requires
        sunrise.wf(),
        sunset.wf(),
    ensures
        r is Ok <==> sunrise.total() < sunset.total(),
        r matches Err(e) ==> e@ == window_text(sunrise.secs, sunset.secs),
{
    if sunrise.secs > sunset.secs || (sunrise.secs == sunset.secs && sunrise.nanos
        >= sunset.nanos) {
        return Err(window_message(sunrise.secs, sunset.secs));
    }
    Ok(())
}

/// A double from 0 to 100.
pub open spec fn is_wide_percentage(v: Double) -> bool {
    Double::lit(DZERO).dle(v) && v.dle(Double::lit(DHUNDRED))
}

/// Why a scripted cloud's numbers are refused, if they are.
pub open spec fn cloud_fault(depth_pct: Double, duration_s: Double, ramp_s: Double) -> Option<
    WeatherError,
> {
    let zero = Double::lit(DZERO);
    if !is_wide_percentage(depth_pct) {
        Some(WeatherError::CloudDepth(depth_pct))
    } else if duration_s.dlt(zero) || ramp_s.dlt(zero) {
        Some(WeatherError::CloudSpans(duration_s, ramp_s))
    } else if duration_s.dspan() is None {
        Some(WeatherError::BadDuration(duration_s))
    } else if ramp_s.dspan() is None {
        Some(WeatherError::BadRamp(ramp_s))
    } else {
        None
    }
}

/// A scripted cloud's numbers: a depth within 0 to 100 percent, a duration and
/// a ramp that are spans.
pub fn pass_cloud_args(depth_pct: Double, duration_s: Double, ramp_s: Double) -> (r: Result<
    (Single, Span, Span),
    WeatherError,
>)
    ensures
        match cloud_fault(depth_pct, duration_s, ramp_s) {
            Some(e) => r == Err::<(Single, Span, Span), WeatherError>(e),
            None => r == Ok::<(Single, Span, Span), WeatherError>(
                (depth_pct.narrowed(), duration_s.dspan()->0, ramp_s.dspan()->0),
            ),
        },
        r matches Ok((_, duration, ramp)) ==> duration.wf() && ramp.wf(),
{
    let zero = Double::from_bits(DZERO);
    if !(zero.le(depth_pct) && depth_pct.le(Double::from_bits(DHUNDRED))) {
        return Err(WeatherError::CloudDepth(depth_pct));
    }
    if duration_s.lt(zero) || ramp_s.lt(zero) {
        return Err(WeatherError::CloudSpans(duration_s, ramp_s));
    }
    let duration = match duration_s.to_span() {
        Some(s) => s,
        None => {
            return Err(WeatherError::BadDuration(duration_s));
        },
    };
    let ramp = match ramp_s.to_span() {
        Some(s) => s,
        None => {
            return Err(WeatherError::BadRamp(ramp_s));
        },
    };
    Ok((depth_pct.narrow(), duration, ramp))
}

} // verus!
