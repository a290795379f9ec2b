//! Clouds only dim: what they take lies between nothing and their depth, and
//! what they leave between nothing and the clear sky.

use crate::ev_presets::EPSILON;
use crate::single::{Single, HUNDRED, ONE};
use crate::time::{Span, Timestamp, NANOS_PER_SEC};
use crate::weather::{CloudEvent, Weather};
use vstd::prelude::*;

verus! {

/// The part of a ramp that has passed is a fraction.
proof fn lemma_ramp_fraction(passed: Span, ramp: Span)
    requires
        passed.wf(),
        ramp.wf(),
        passed.total() <= ramp.total(),
    ensures
        crate::single_laws::is_fraction(
            passed.spec_seconds().fdiv(ramp.spec_seconds().fmax(Single::lit(EPSILON))),
        ),
{
    crate::single_laws::law_seconds_are_finite(passed);
    crate::single_laws::law_seconds_are_finite(ramp);
    crate::seconds_laws::law_seconds_keep_order(passed, ramp);
    crate::single_laws::law_ratio_is_a_fraction(
        passed.spec_seconds(),
        passed.spec_seconds(),
        ramp.spec_seconds().fmax(Single::lit(EPSILON)),
    );
}

/// A cloud takes away between nothing and its depth of the light, at every
/// time, and its depth is a fraction.
pub proof fn law_attenuation_is_within_depth(e: CloudEvent, t: Timestamp)
    requires
        e.wf(),
        t.wf(),
        !e.depth_pct.nan(),
    ensures
        crate::single_laws::is_fraction(e.depth()),
        0 <= e.attenuation(t).rank() <= e.depth().rank(),
{
    let depth = e.depth();
    assert(!e.depth_pct.fdiv(Single::lit(HUNDRED)).nan()) by {
        reveal(Single::fdiv);
        crate::single::lemma_single_sizes();
    }
    assert(crate::single_laws::is_fraction(depth));
    let elapsed = t.total() - e.start.total();
    let held = e.ramp_in.total() + e.plateau.total();
    if elapsed < 0 || t.total() >= e.end_total() {
    } else if elapsed < e.ramp_in.total() {
        let passed = crate::time::spec_since(t, e.start);
        lemma_ramp_fraction(passed, e.ramp_in);
        crate::single_laws::law_fraction_shrinks(
            depth,
            passed.spec_seconds().fdiv(e.ramp_in.spec_seconds().fmax(Single::lit(EPSILON))),
        );
    } else if elapsed < held {
    } else {
        let rest = elapsed - held;
        let into = Span {
            secs: (rest / NANOS_PER_SEC as int) as u64,
            nanos: (rest % NANOS_PER_SEC as int) as u32,
        };
        let gone = into.spec_seconds().fdiv(e.ramp_out.spec_seconds().fmax(Single::lit(EPSILON)));
        lemma_ramp_fraction(into, e.ramp_out);
        crate::single_laws::law_complement_is_a_fraction(gone);
        crate::single_laws::law_fraction_shrinks(depth, Single::lit(ONE).fsub(gone));
    }
}

/// The clouds together let a fraction of the light pass.
pub proof fn law_transmission_is_a_fraction(events: Seq<CloudEvent>, t: Timestamp)
    requires
        t.wf(),
        forall|i: int| 0 <= i < events.len() ==> (#[trigger] events[i]).wf(),
        forall|i: int| 0 <= i < events.len() ==> !(#[trigger] events[i]).depth_pct.nan(),
    ensures
        crate::single_laws::is_fraction(crate::weather::transmission(events, t)),
    decreases events.len(),
{
    if events.len() > 0 {
        let rest = events.drop_last();
        let last = events.last();
        assert forall|i: int| 0 <= i < rest.len() implies (#[trigger] rest[i]).wf()
            && !rest[i].depth_pct.nan() by {
            assert(rest[i] == events[i]);
        }
        law_transmission_is_a_fraction(rest, t);
        law_attenuation_is_within_depth(last, t);
        crate::single_laws::law_complement_is_a_fraction(last.attenuation(t));
        crate::single_laws::law_fraction_shrinks(
            crate::weather::transmission(rest, t),
            Single::lit(ONE).fsub(last.attenuation(t)),
        );
    }
}

/// Clouds only dim: the sunlight lies between nothing and the clear sky.
pub proof fn law_clouds_only_dim(w: Weather, t: Timestamp, sine: Single)
    requires
        w.wf(),
        t.wf(),
        forall|i: int| 0 <= i < w.events@.len() ==> !(#[trigger] w.events@[i]).depth_pct.nan(),
        w.clear_sky(t, sine).finite(),
        w.clear_sky(t, sine).rank() >= 0,
    ensures
        0 <= w.sunlight(t, sine).rank() <= w.clear_sky(t, sine).rank(),
{
    law_transmission_is_a_fraction(w.events@, t);
    crate::single_laws::law_fraction_shrinks(
        w.clear_sky(t, sine),
        crate::weather::transmission(w.events@, t),
    );
}

/// Overlapping clouds compound: one cloud more lets no more light pass.
pub proof fn law_a_cloud_more_is_no_brighter(
    events: Seq<CloudEvent>,
    e: CloudEvent,
    t: Timestamp,
)
    requires
        t.wf(),
        forall|i: int| 0 <= i < events.len() ==> (#[trigger] events[i]).wf(),
        forall|i: int| 0 <= i < events.len() ==> !(#[trigger] events[i]).depth_pct.nan(),
        e.wf(),
        !e.depth_pct.nan(),
    ensures
        crate::weather::transmission(events.push(e), t).rank() <= crate::weather::transmission(
            events,
            t,
        ).rank(),
{
    law_transmission_is_a_fraction(events, t);
    law_attenuation_is_within_depth(e, t);
    crate::single_laws::law_complement_is_a_fraction(e.attenuation(t));
    crate::single_laws::law_fraction_shrinks(
        crate::weather::transmission(events, t),
        Single::lit(ONE).fsub(e.attenuation(t)),
    );
    assert(events.push(e).drop_last() =~= events);
}

/// A cloud lasts as long as it was made for: its duration, which holds both
/// ramps, or the two ramps where they are longer. The second ramp takes as
/// long as the first.
pub proof fn law_cloud_lasts_its_duration(
    e: CloudEvent,
    start: Timestamp,
    depth_pct: Single,
    duration: Span,
    ramp: Span,
)
    requires
        crate::weather::is_cloud(e, start, depth_pct, duration, ramp),
        duration.total() <= crate::time::longest_delta(),
        2 * ramp.total() <= crate::time::longest_delta(),
        ramp.wf(),
    ensures
        e.start == start,
        e.ramp_in.total() == ramp.total(),
        e.ramp_out.total() == ramp.total(),
        2 * ramp.total() <= duration.total() ==> e.end_total() - e.start.total()
            == duration.total(),
        2 * ramp.total() > duration.total() ==> e.end_total() - e.start.total() == 2
            * ramp.total(),
        depth_pct.finite() ==> e.depth_pct.value() == crate::accuracy::limited(
            depth_pct.value(),
            0real,
            100real,
        ),
{
    crate::accuracy::lemma_val_zero();
    crate::accuracy::lemma_constants();
    if depth_pct.finite() {
        crate::charge_laws::law_clamp_limits_the_value(
            depth_pct,
            Single::lit(crate::single::ZERO),
            Single::lit(HUNDRED),
        );
    }
}

/// A range is drawn from where it holds more than a point, from its lesser end
/// to its greater one, in whichever order it was given; a point is itself.
pub proof fn law_draws_span_the_range(a: Single, b: Single, draw: Single)
    requires
        a.finite(),
        b.finite(),
    ensures
        crate::weather::draw_bounds((a, b)) is Some <==> a.value() != b.value(),
        crate::weather::draw_bounds((a, b)) matches Some((lo, hi)) ==> lo.value()
            == crate::accuracy::lesser(a.value(), b.value()) && hi.value()
            == crate::accuracy::greater(a.value(), b.value()),
        a.value() == b.value() ==> crate::weather::drawn((a, b), draw).value() == a.value(),
        a.value() != b.value() ==> crate::weather::drawn((a, b), draw) == draw,
{
    crate::accuracy::law_values_keep_order(a, b);
    crate::accuracy::law_values_keep_order(b, a);
}

/// A random cloud arrives one gap after the last.
pub proof fn law_arrival_follows_the_gap(from: Timestamp, gap: Span)
    requires
        from.wf(),
        gap.wf(),
        from.total() + gap.total() <= crate::time::last_instant(),
    ensures
        Weather::arrival(from, gap).total() == from.total() + gap.total(),
{
}

/// A cloud is remembered for an hour after its end, and not a moment longer.
pub proof fn law_cloud_is_remembered_for_an_hour(e: CloudEvent, now: Timestamp)
    ensures
        crate::weather::remembered(now)(e) <==> now.total() - e.end_total() <= 3600
            * NANOS_PER_SEC,
{
}

} // verus!
