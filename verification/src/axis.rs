//! One axis of power control, active or reactive: command delay, slew ramp
//! and published value, gated by an envelope.
//!
//! An active-power axis has a rated band. A reactive-power axis has none: its
//! static shape is the capability at the active power of the moment.

use crate::bounds::{Bounds, ComponentBounds, VecBounds};
use crate::component::SetpointError;
use crate::ramp::{CommandDelay, Ramp};
use crate::reactive::ReactiveCapability;
use crate::single::{Single, ZERO};
use crate::time::{utc_now, Span, Timestamp};
use vstd::prelude::*;

verus! {

/// The configuration of a [`PowerAxis`].
#[derive(Debug)]
pub struct AxisConfig {
    /// The rated band; `None` on a reactive axis.
    pub rated: Option<(Single, Single)>,
    /// The capability; `None` on an active axis.
    pub caps: Option<ReactiveCapability>,
    pub command_delay: Span,
    /// The slew rate per second; infinity for none.
    pub ramp_rate_per_s: Single,
    /// "W" or "VAr", named in refusals.
    pub unit: &'static str,
}

/// What an axis aims at while no command is armed.
#[derive(Clone, Copy, Debug)]
pub enum IdleTarget {
    /// The target it has.
    Hold,
    /// This value, pulled into the envelope.
    Value(Single),
}

/// What a step needs beyond the state of the axis.
#[derive(Debug)]
pub struct StepCtx<'a> {
    /// The value of the other axis; read only where there is a capability.
    pub other_axis: Single,
    /// A further envelope of the component, used for tracking only.
    pub dynamic: Option<&'a VecBounds>,
    pub idle: IdleTarget,
}

impl<'a> StepCtx<'a> {
    pub open spec fn dynamic_bands(self) -> Option<Seq<Bounds>> {
        match self.dynamic {
            Some(d) => Some(d@),
            None => None,
        }
    }
}

#[derive(Debug)]
pub struct PowerAxis {
    pub rated: Option<(Single, Single)>,
    pub augs: ComponentBounds,
    pub caps: Option<ReactiveCapability>,
    pub delay: CommandDelay,
    pub ramp: Ramp,
    pub published: Single,
    pub unit: &'static str,
}

/// Two parts of an envelope together; an absent part constrains nothing.
pub open spec fn meet_parts(a: Option<Seq<Bounds>>, b: Option<Seq<Bounds>>) -> Option<
    Seq<Bounds>,
> {
    match (a, b) {
        (Some(x), Some(y)) => Some(crate::bounds::bands_meet(x, y)),
        (Some(x), None) => Some(x),
        (None, y) => y,
    }
}

/// The value pulled into the envelope; an envelope without bands parks at
/// zero.
pub open spec fn parked(env: Seq<Bounds>, value: Single) -> Single {
    if env.len() == 0 {
        Single::lit(ZERO)
    } else {
        crate::bounds::bands_clamp(env, value)
    }
}

/// The target that a step sets: the armed command's, else the idle value's if
/// it is finite; `None` to leave the target alone.
pub open spec fn step_target(
    env: Seq<Bounds>,
    armed: Option<Single>,
    idle: IdleTarget,
) -> Option<Single> {
    match armed {
        Some(v) => Some(parked(env, v)),
        None => match idle {
            IdleTarget::Hold => None,
            IdleTarget::Value(v) => if v.finite() {
                Some(parked(env, v))
            } else {
                None
            },
        },
    }
}

/// The ramp with the target, if there is one to set, after `dt`.
pub open spec fn ramp_step(ramp: Ramp, target: Option<Single>, dt: Span) -> Ramp {
    match target {
        Some(t) => ramp.aimed(t).stepped(dt),
        None => ramp.stepped(dt),
    }
}

fn meet(a: Option<VecBounds>, b: &VecBounds) -> (r: VecBounds)
    ensures
        Some(r@) == meet_parts(
            match a {
                Some(x) => Some(x@),
                None => None,
            },
            Some(b@),
        ),
{
    match a {
        Some(x) => x.intersect(b),
        None => b.clone(),
    }
}

fn park(env: &VecBounds, value: Single) -> (r: Single)
    ensures
        r == parked(env@, value),
{
    if env.0.len() == 0 {
        Single::from_bits(ZERO)
    } else {
        env.clamp(value)
    }
}

impl PowerAxis {
    pub open spec fn wf(self) -> bool {
        self.augs.wf() && self.delay.wf()
    }

    /// The static part: the rated band and the live augmentations. An axis
    /// without a rated band and without a live augmentation has none.
    pub open spec fn static_part(self, now: Timestamp) -> Option<Seq<Bounds>> {
        let bands = self.augs.effective_spec(now);
        if self.rated is None && bands.len() == 0 && !self.augs.any_live(now) {
            None
        } else {
            Some(bands)
        }
    }

    /// The capability's band at the other axis's value.
    pub open spec fn caps_part(self, other_axis: Single) -> Option<Seq<Bounds>> {
        match self.caps {
            Some(c) => {
                let (lo, hi) = c.q_bounds(other_axis);
                Some(crate::bounds::one_band(lo, hi))
            },
            None => None,
        }
    }

    /// The envelope of all parts; without any part it has no band.
    pub open spec fn envelope_of(
        self,
        now: Timestamp,
        other_axis: Single,
        dynamic: Option<Seq<Bounds>>,
    ) -> Seq<Bounds> {
        match meet_parts(
            meet_parts(self.static_part(now), self.caps_part(other_axis)),
            dynamic,
        ) {
            Some(s) => s,
            None => Seq::empty(),
        }
    }

    /// `after` is `before` one tick later: expired augmentations have left, a
    /// due command has armed, the ramp has moved toward its new target and its
    /// output is published.
    pub open spec fn is_step(
        before: PowerAxis,
        after: PowerAxis,
        now: Timestamp,
        dt: Span,
        other_axis: Single,
        dynamic: Option<Seq<Bounds>>,
        idle: IdleTarget,
    ) -> bool {
        &&& after.augs.rated == before.augs.rated
        &&& after.augs.augmented@ == before.augs.augmented@.filter(
            |a: crate::bounds::Aug| a.live(now),
        )
        &&& after.delay == before.delay.promoted(now)
        &&& after.ramp == ramp_step(
            before.ramp,
            step_target(
                before.envelope_of(now, other_axis, dynamic),
                before.delay.promoted(now).armed,
                idle,
            ),
            dt,
        )
        &&& after.published == after.ramp.actual
        &&& after.rated == before.rated
        &&& after.caps == before.caps
        &&& after.unit == before.unit
    }

    /// `after` is `before` with one more augmentation.
    pub open spec fn is_augmented(
        before: PowerAxis,
        after: PowerAxis,
        ts: Timestamp,
        bounds: VecBounds,
        lifetime: Span,
    ) -> bool {
        &&& after.augs.rated == before.augs.rated
        &&& after.augs.augmented@ == before.augs.augmented@.push(
            crate::bounds::Aug { create_ts: ts, bounds, lifetime },
        )
        &&& after == PowerAxis { augs: after.augs, ..before }
    }

    /// `r` answers a request to augment: refused with the envelope of the
    /// moment where the new bounds are disjoint from it, else taken.
    pub open spec fn is_augment_answer(
        before: PowerAxis,
        after: PowerAxis,
        ts: Timestamp,
        bounds: VecBounds,
        lifetime: Span,
        current: Seq<Bounds>,
        r: Result<(), VecBounds>,
    ) -> bool {
        &&& r is Err <==> crate::bounds::bands_meet(current, bounds@).len() == 0
        &&& r matches Err(e) ==> e@ == current && after == before
        &&& r is Ok ==> Self::is_augmented(before, after, ts, bounds, lifetime)
    }

    /// `r` answers a command: zero is taken, and a finite value that the
    /// validation envelope covers; what is taken enters the delay.
    pub open spec fn is_command_answer(
        before: PowerAxis,
        after: PowerAxis,
        value: Single,
        now: Timestamp,
        other_axis: Single,
        r: Result<(), SetpointError>,
    ) -> bool {
        let env = before.envelope_of(now, other_axis, None);
        &&& r is Ok <==> value.finite() && (value.feq(Single::lit(ZERO)) || crate::bounds::covers(
            env,
            value,
        ))
        &&& r is Ok ==> after == PowerAxis { delay: before.delay.targeted(value), ..before }
        &&& r matches Err(e) ==> after == before && e.refuses(value, before.unit@, env)
    }

    /// The axis with its commands forgotten, aiming at `park_at`.
    pub open spec fn reset_to(self, park_at: Single) -> PowerAxis {
        PowerAxis { delay: self.delay.cleared(), ramp: self.ramp.aimed(park_at), ..self }
    }

    /// The axis after a health trip.
    pub open spec fn tripped(self) -> PowerAxis {
        PowerAxis {
            delay: self.delay.cleared(),
            ramp: self.ramp.snapped(Single::lit(ZERO)),
            published: Single::lit(ZERO),
            ..self
        }
    }

    /// The axis with its output moved at once.
    pub open spec fn snapped(self, v: Single) -> PowerAxis {
        PowerAxis { ramp: self.ramp.snapped(v), ..self }
    }

    pub fn new(cfg: AxisConfig) -> (r: Self)
        requires
            cfg.command_delay.wf(),
        ensures
            r.wf(),
            r.rated == cfg.rated,
            r.caps == cfg.caps,
            r.unit == cfg.unit,
            r.augs.rated@ == match cfg.rated {
                Some((lo, hi)) => crate::bounds::one_band(lo, hi),
                None => Seq::empty(),
            },
            r.augs.augmented@.len() == 0,
            r.delay == (CommandDelay {
                executing: None,
                waiting: None,
                armed: None,
                delay: cfg.command_delay,
            }),
            r.ramp == (Ramp {
                actual: Single::lit(ZERO),
                target: Single::lit(ZERO),
                rate_w_per_s: cfg.ramp_rate_per_s,
            }),
            r.published == Single::lit(ZERO),
    {
        let augs = match cfg.rated {
            Some((lo, hi)) => ComponentBounds::rated(lo, hi),
            None => ComponentBounds::augmentations_only(),
        };
        PowerAxis {
            rated: cfg.rated,
            augs,
            caps: cfg.caps,
            delay: CommandDelay::new(cfg.command_delay),
            ramp: Ramp::new(cfg.ramp_rate_per_s, Single::from_bits(ZERO)),
            published: Single::from_bits(ZERO),
            unit: cfg.unit,
        }
    }

    fn envelope(&self, now: Timestamp, other_axis: Single, dynamic: Option<&VecBounds>) -> (r:
        VecBounds)
        requires
            self.wf(),
            now.wf(),
        ensures
            r@ == self.envelope_of(
                now,
                other_axis,
                match dynamic {
                    Some(d) => Some(d@),
                    None => None,
                },
            ),
    {
        let mut acc: Option<VecBounds> = None;
        let bands = self.augs.effective_at(now);
        let any_live = self.augs.has_live_augmentations(now);
        if !(self.rated.is_none() && bands.0.len() == 0 && !any_live) {
            acc = Some(bands);
        }
        if let Some(caps) = self.caps {
            let (lo, hi) = caps.q_bounds_at(other_axis);
            let band = VecBounds::single(lo, hi);
            acc = Some(meet(acc, &band));
        }
        if let Some(d) = dynamic {
            acc = Some(meet(acc, d));
        }
        match acc {
            Some(v) => v,
            None => VecBounds::default(),
        }
    }

    /// The envelope that commands are held to: without the dynamic part.
    pub fn validation_envelope_at(&self, now: Timestamp, other_axis: Single) -> (r: VecBounds)
        requires
            self.wf(),
            now.wf(),
        ensures
            r@ == self.envelope_of(now, other_axis, None),
    {
        self.envelope(now, other_axis, None)
    }

    /// The envelope that the output follows: with the dynamic part.
    pub fn tracking_envelope_at(
        &self,
        now: Timestamp,
        other_axis: Single,
        dynamic: Option<&VecBounds>,
    ) -> (r: VecBounds)
        requires
            self.wf(),
            now.wf(),
        ensures
            r@ == self.envelope_of(
                now,
                other_axis,
                match dynamic {
                    Some(d) => Some(d@),
                    None => None,
                },
            ),
    {
        self.envelope(now, other_axis, dynamic)
    }

    /// Takes a command or refuses it. Zero is always taken; another value must
    /// be finite and covered by the validation envelope. What is taken enters
    /// the command delay.
    pub fn accept(&mut self, value: Single, now: Timestamp, other_axis: Single) -> (r: Result<
        (),
        SetpointError,
    >)
        requires
            old(self).wf(),
            now.wf(),
        ensures
            final(self).wf(),
            Self::is_command_answer(*old(self), *final(self), value, now, other_axis, r),
    {
        let envelope = self.validation_envelope_at(now, other_axis);
        if !value.is_finite() {
            return Err(SetpointError::OutOfBounds { value, unit: self.unit, envelope });
        }
        if !value.equals(Single::from_bits(ZERO)) && !envelope.contains(value) {
            return Err(SetpointError::OutOfBounds { value, unit: self.unit, envelope });
        }
        self.delay.set_target(value);
        Ok(())
    }

    /// One tick: expired augmentations leave, a due command arms, the armed
    /// command (or the idle value) is pulled into the tracking envelope as the
    /// ramp's target, the ramp moves, and its value is published.
    pub fn step(&mut self, now: Timestamp, dt: Span, ctx: StepCtx<'_>) -> (r: Single)
        requires
            old(self).wf(),
            now.wf(),
        ensures
            final(self).wf(),
            Self::is_step(
                *old(self),
                *final(self),
                now,
                dt,
                ctx.other_axis,
                ctx.dynamic_bands(),
                ctx.idle,
            ),
            r == final(self).published,
    {
        let ghost before = self.augs;
        self.augs.drop_expired(now);
        proof {
            crate::bounds_laws::law_reaping_is_invisible(before, self.augs, now, now);
        }
        let env = self.tracking_envelope_at(now, ctx.other_axis, ctx.dynamic);
        match self.delay.poll(now) {
            Some(armed) => {
                self.ramp.set_target(park(&env, armed));
            },
            None => {
                if let IdleTarget::Value(v) = ctx.idle {
                    if v.is_finite() {
                        self.ramp.set_target(park(&env, v));
                    }
                }
            },
        }
        let actual = self.ramp.advance(dt);
        self.published = actual;
        actual
    }

    pub fn augment(&mut self, ts: Timestamp, bounds: VecBounds, lifetime: Span)
        requires
            old(self).wf(),
            ts.wf(),
            lifetime.wf(),
        ensures
            final(self).wf(),
            Self::is_augmented(*old(self), *final(self), ts, bounds, lifetime),
    {
        self.augs.add_augmentation(ts, bounds, lifetime);
    }

    /// Augments the bounds unless that would leave nothing legal: where the
    /// new bounds are disjoint from the envelope of the moment, nothing changes
    /// and that envelope is returned.
    pub fn try_augment(
        &mut self,
        ts: Timestamp,
        bounds: VecBounds,
        lifetime: Span,
        other_axis: Single,
        dynamic: Option<&VecBounds>,
    ) -> (r: Result<(), VecBounds>)
        requires
            old(self).wf(),
            ts.wf(),
            lifetime.wf(),
        ensures
            final(self).wf(),
            Self::is_augment_answer(
                *old(self),
                *final(self),
                ts,
                bounds,
                lifetime,
                old(self).envelope_of(
                    ts,
                    other_axis,
                    match dynamic {
                        Some(d) => Some(d@),
                        None => None,
                    },
                ),
                r,
            ),
    {
        let current = self.tracking_envelope_at(ts, other_axis, dynamic);
        if current.intersect(&bounds).is_empty() {
            return Err(current);
        }
        self.augment(ts, bounds, lifetime);
        Ok(())
    }

    /// An augmentation is live at `now`.
    pub fn augmented(&self, now: Timestamp) -> (r: bool)
        requires
            self.wf(),
            now.wf(),
        ensures
            r == self.augs.any_live(now),
    {
        self.augs.has_live_augmentations(now)
    }

    /// Forgets every command and aims at `park_at`. The published value stays.
    pub fn reset(&mut self, park_at: Single)
        requires
            old(self).wf(),
        ensures
            final(self).wf(),
            *final(self) == old(self).reset_to(park_at),
    {
        self.delay.reset();
        self.ramp.set_target(park_at);
    }

    /// Moves the output to `v` at once; commands and the published value stay.
    pub fn snap_output(&mut self, v: Single)
        requires
            old(self).wf(),
        ensures
            final(self).wf(),
            *final(self) == old(self).snapped(v),
    {
        self.ramp.snap_to(v);
    }

    /// A health trip: commands forgotten, output and published value zero.
    pub fn trip(&mut self)
        requires
            old(self).wf(),
        ensures
            final(self).wf(),
            *final(self) == old(self).tripped(),
    {
        self.delay.reset();
        self.ramp.snap_to(Single::from_bits(ZERO));
        self.published = Single::from_bits(ZERO);
    }

    pub fn override_published(&mut self, v: Single)
        ensures
            *final(self) == (PowerAxis { published: v, ..*old(self) }),
    {
        self.published = v;
    }

    pub fn published(&self) -> (r: Single)
        ensures
            r == self.published,
    {
        self.published
    }

    /// The output of the ramp.
    pub fn actual(&self) -> (r: Single)
        ensures
            r == self.ramp.actual,
    {
        self.ramp.actual()
    }

    pub fn armed(&self) -> (r: Option<Single>)
        ensures
            r == self.delay.armed,
    {
        self.delay.armed()
    }

    /// The static bounds at the machine's current time.
    pub fn effective_static(&self) -> (r: VecBounds)
        requires
            self.wf(),
        ensures
            exists|now: Timestamp| now.wf() && r@ == #[trigger] self.augs.effective_spec(now),
    {
        let now = utc_now();
        self.effective_static_at(now)
    }

    pub fn effective_static_at(&self, now: Timestamp) -> (r: VecBounds)
        requires
            self.wf(),
            now.wf(),
        ensures
            r@ == self.augs.effective_spec(now),
    {
        self.augs.effective_at(now)
    }

    /// Sets the power-factor limit; nothing happens on an axis without a
    /// capability.
    pub fn set_pf_limit(&mut self, pf: Option<Single>)
        ensures
            *final(self) == (PowerAxis {
                caps: match old(self).caps {
                    Some(c) => Some(ReactiveCapability { pf_limit: pf, ..c }),
                    None => None,
                },
                ..*old(self)
            }),
    {
        if let Some(c) = self.caps {
            self.caps = Some(ReactiveCapability { pf_limit: pf, apparent_va: c.apparent_va });
        }
    }

    /// Sets the apparent-power limit; nothing happens on an axis without a
    /// capability.
    pub fn set_apparent_va(&mut self, va: Option<Single>)
        ensures
            *final(self) == (PowerAxis {
                caps: match old(self).caps {
                    Some(c) => Some(ReactiveCapability { apparent_va: va, ..c }),
                    None => None,
                },
                ..*old(self)
            }),
    {
        if let Some(c) = self.caps {
            self.caps = Some(ReactiveCapability { pf_limit: c.pf_limit, apparent_va: va });
        }
    }

    pub fn capability(&self) -> (r: Option<ReactiveCapability>)
        ensures
            r == self.caps,
    {
        self.caps
    }
}

// ---------------------------------------------------------------------------
// Laws

/// An envelope without bands lets nothing but zero through: the output is
/// parked at zero, whatever command is armed.
pub proof fn law_empty_envelope_parks(armed: Single, idle: IdleTarget)
    ensures
        step_target(Seq::empty(), Some(armed), idle) == Some(Single::lit(ZERO)),
        forall|v: Single| !crate::bounds::covers(Seq::empty(), v),
{
}

/// Augmentations that are live on an axis without a rated band and exclude one
/// another leave no legal band; they do not count as "no constraint".
pub proof fn law_disjoint_augmentations_constrain(
    axis: PowerAxis,
    now: Timestamp,
    other_axis: Single,
    v: Single,
)
    requires
        axis.rated is None,
        axis.augs.any_live(now),
        axis.augs.effective_spec(now).len() == 0,
    ensures
        !crate::bounds::covers(axis.envelope_of(now, other_axis, None), v),
        axis.envelope_of(now, other_axis, None).len() == 0,
{
    lemma_meet_with_nothing(axis.augs.effective_spec(now), axis.caps_part(other_axis));
}

proof fn lemma_meet_with_nothing(s: Seq<Bounds>, t: Option<Seq<Bounds>>)
    requires
        s.len() == 0,
    ensures
        (meet_parts(Some(s), t)->0).len() == 0,
{
    if let Some(b) = t {
        assert(crate::bounds::meets(s, b) == s);
    }
}

/// The armed command outlives a tighter envelope: the target follows the
/// envelope of the moment, so that the command's value returns when the
/// envelope covers it again.
pub proof fn law_widening_restores_the_command(
    env: Seq<Bounds>,
    armed: Single,
    idle: IdleTarget,
)
    requires
        crate::bounds::covers(env, armed),
    ensures
        step_target(env, Some(armed), idle) == Some(armed),
{
}

/// A target that a step sets is covered by its envelope, or is the park.
pub proof fn law_target_is_legal(
    env: Seq<Bounds>,
    armed: Option<Single>,
    idle: IdleTarget,
)
    requires
        crate::bounds_laws::proper(env),
    ensures
        step_target(env, armed, idle) matches Some(t) ==> crate::bounds::covers(env, t) || (
        env.len() == 0 && t == Single::lit(ZERO)),
{
    if env.len() > 0 {
        if let Some(v) = armed {
            crate::bounds_laws::law_clamp_lands_inside(env, v);
        } else if let IdleTarget::Value(v) = idle {
            crate::bounds_laws::law_clamp_lands_inside(env, v);
        }
    }
}

/// Zero is taken whatever the bounds, so that a device can always be stopped;
/// not-a-number and the infinities are never taken, and change nothing.
pub proof fn law_zero_is_always_taken(
    before: PowerAxis,
    after: PowerAxis,
    value: Single,
    now: Timestamp,
    other_axis: Single,
    r: Result<(), SetpointError>,
)
    requires
        PowerAxis::is_command_answer(before, after, value, now, other_axis, r),
    ensures
        value.feq(Single::lit(ZERO)) ==> r is Ok && after.delay == before.delay.targeted(value),
        !value.finite() ==> r is Err && after == before,
{
    assert(Single::lit(ZERO).rank() == 0);
}

} // verus!
