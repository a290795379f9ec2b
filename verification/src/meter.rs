//! A meter: it measures its children, unless a source drives it.

use crate::accuracy;
use crate::component::{
    Category, KnobKind, KnobSnapshot, ReactiveReading, ScalarReading, Telemetry, TelemetryView,
};
use crate::dynamic_scalar::{DynamicScalar, Outcome, ScalarView};
use crate::grid_state::{per_phase_apparent_current, split_per_phase, GridState};
use crate::kwargs::{add_if, millis_kw, KwValue, Kwarg};
use crate::single::{Single, MIN_POSITIVE, ONE, SIGN, ZERO};
use crate::text::numbered;
use crate::time::Span;
use vstd::prelude::*;

verus! {

/// What drives a meter's reactive power: a number, or a power factor that is
/// applied to the active power. `tan_phi` is the tangent of the angle whose
/// cosine is the power factor, as [`pf_argument`] limits it.
#[derive(Debug)]
pub enum ReactiveSource {
    Var(DynamicScalar),
    PowerFactor { pf: Single, leading: bool, tan_phi: Single },
}

/// A [`ReactiveSource`] with its scalar as a view.
pub enum ReactiveView {
    Var(ScalarView),
    PowerFactor { pf: Single, leading: bool, tan_phi: Single },
}

/// The constant reactive source that a meter was built with.
#[derive(Clone, Copy, Debug, PartialEq, Eq)]
pub enum ConstructedReactive {
    Var(Single),
    PowerFactor { pf: Single, leading: bool },
}

impl View for ReactiveSource {
    type V = ReactiveView;

    open spec fn view(&self) -> ReactiveView {
        match *self {
            ReactiveSource::Var(s) => ReactiveView::Var(s@),
            ReactiveSource::PowerFactor { pf, leading, tan_phi } => ReactiveView::PowerFactor {
                pf,
                leading,
                tan_phi,
            },
        }
    }
}

impl Clone for ReactiveSource {
    fn clone(&self) -> (r: Self)
        ensures
            r@ == self@,
    {
        match self {
            ReactiveSource::Var(s) => ReactiveSource::Var(s.clone()),
            ReactiveSource::PowerFactor { pf, leading, tan_phi } => ReactiveSource::PowerFactor {
                pf: *pf,
                leading: *leading,
                tan_phi: *tan_phi,
            },
        }
    }
}

/// The view of an optional scalar.
pub open spec fn scalar_of(s: Option<DynamicScalar>) -> Option<ScalarView> {
    match s {
        Some(x) => Some(x@),
        None => None,
    }
}

/// The view of an optional reactive source.
pub open spec fn reactive_of(s: Option<ReactiveSource>) -> Option<ReactiveView> {
    match s {
        Some(x) => Some(x@),
        None => None,
    }
}

/// The power factor whose angle is taken: between the least positive normal
/// number and one.
pub fn pf_argument(pf: Single) -> (r: Single)
    ensures
        r == pf.fclamp(Single::lit(MIN_POSITIVE), Single::lit(ONE)),
{
    pf.clamp(Single::from_bits(MIN_POSITIVE), Single::from_bits(ONE))
}

/// The reactive power at active power `p`; negative where it leads.
pub open spec fn pf_q(p: Single, tan_phi: Single, leading: bool) -> Single {
    p.fmul(tan_phi).fmul(
        if leading {
            Single::lit((ONE + SIGN) as u32)
        } else {
            Single::lit(ONE)
        },
    )
}

pub fn derive_pf_q(p: Single, tan_phi: Single, leading: bool) -> (r: Single)
    ensures
        r == pf_q(p, tan_phi, leading),
{
    p.times(tan_phi).times(
        if leading {
            Single::from_bits(ONE + SIGN)
        } else {
            Single::from_bits(ONE)
        },
    )
}

#[derive(Debug)]
pub struct Meter {
    pub id: u64,
    pub name: String,
    pub interval: Span,
    /// Drives the active power; measured from the children where absent.
    pub power_source: Option<DynamicScalar>,
    /// Drives the reactive power; measured from the children where absent.
    pub reactive_source: Option<ReactiveSource>,
    pub stream_jitter_pct: Single,
    pub hidden: bool,
    /// The constant power that the meter was built with.
    pub constructed_power: Option<Single>,
    /// The constant reactive source that the meter was built with.
    pub constructed_reactive: Option<ConstructedReactive>,
}

/// What a power source counts as for building the meter again: its value if
/// it is a constant.
pub open spec fn constant_of(s: Option<ScalarView>) -> Option<Single> {
    match s {
        Some(v) => if v.source is None {
            Some(v.cached)
        } else {
            None
        },
        None => None,
    }
}

/// What a reactive source counts as for building the meter again.
pub open spec fn constant_reactive_of(s: Option<ReactiveView>) -> Option<ConstructedReactive> {
    match s {
        Some(ReactiveView::Var(v)) => if v.source is None {
            Some(ConstructedReactive::Var(v.cached))
        } else {
            None
        },
        Some(ReactiveView::PowerFactor { pf, leading, tan_phi }) => Some(
            ConstructedReactive::PowerFactor { pf, leading },
        ),
        None => None,
    }
}

impl Meter {
    pub open spec fn wf(self) -> bool {
        self.interval.wf()
    }

    pub open spec fn active_view(self) -> (Option<ScalarView>, Option<Single>) {
        (scalar_of(self.power_source), self.constructed_power)
    }

    pub open spec fn reactive_view(self) -> (Option<ReactiveView>, Option<ConstructedReactive>) {
        (reactive_of(self.reactive_source), self.constructed_reactive)
    }

    /// Everything but the two sources is the same.
    pub open spec fn same_identity(self, other: Meter) -> bool {
        &&& self.id == other.id
        &&& self.name == other.name
        &&& self.interval == other.interval
        &&& self.stream_jitter_pct == other.stream_jitter_pct
        &&& self.hidden == other.hidden
    }

    /// The active power, given the sum over the children.
    pub open spec fn active(self, children_w: Single) -> Single {
        match scalar_of(self.power_source) {
            Some(v) => v.cached,
            None => children_w,
        }
    }

    /// The reactive power, given the active power and the sum over the
    /// children.
    pub open spec fn reactive(self, active_w: Single, children_var: Single) -> Single {
        match reactive_of(self.reactive_source) {
            Some(ReactiveView::Var(v)) => v.cached,
            Some(ReactiveView::PowerFactor { pf, leading, tan_phi }) => pf_q(
                active_w,
                tan_phi,
                leading,
            ),
            None => children_var,
        }
    }

    pub fn new(
        id: u64,
        interval: Span,
        power_source: Option<DynamicScalar>,
        reactive_source: Option<ReactiveSource>,
        stream_jitter_pct: Single,
        hidden: bool,
    ) -> (r: Self)
        requires
            interval.wf(),
        ensures
            r.wf(),
            r.id == id,
            r.name@ == "meter"@ + "-"@ + crate::text::decimal(id as nat),
            r.interval == interval,
            r.stream_jitter_pct == stream_jitter_pct,
            r.hidden == hidden,
            r.power_source == power_source,
            r.reactive_source == reactive_source,
            r.constructed_power == constant_of(scalar_of(power_source)),
            r.constructed_reactive == constant_reactive_of(reactive_of(reactive_source)),
    {
        let constructed_power = match &power_source {
            Some(s) => if s.is_dynamic() {
                None
            } else {
                Some(s.get())
            },
            None => None,
        };
        let constructed_reactive = match &reactive_source {
            Some(ReactiveSource::Var(s)) => if s.is_dynamic() {
                None
            } else {
                Some(ConstructedReactive::Var(s.get()))
            },
            Some(ReactiveSource::PowerFactor { pf, leading, tan_phi: _ }) => Some(
                ConstructedReactive::PowerFactor { pf: *pf, leading: *leading },
            ),
            None => None,
        };
        Meter {
            id,
            name: numbered("meter", id),
            interval,
            power_source,
            reactive_source,
            stream_jitter_pct,
            hidden,
            constructed_power,
            constructed_reactive,
        }
    }

    /// The active power is measured from the children.
    pub fn measures_active(&self) -> (r: bool)
        ensures
            r == (self.power_source is None),
    {
        self.power_source.is_none()
    }

    /// The reactive power is measured from the children.
    pub fn measures_reactive(&self) -> (r: bool)
        ensures
            r == (self.reactive_source is None),
    {
        self.reactive_source.is_none()
    }

    pub fn aggregate_active(&self, children_w: Single) -> (r: Single)
        ensures
            r == self.active(children_w),
    {
        match &self.power_source {
            Some(s) => s.get(),
            None => children_w,
        }
    }

    pub fn aggregate_reactive_with(&self, active_w: Single, children_var: Single) -> (r: Single)
        ensures
            r == self.reactive(active_w, children_var),
    {
        match &self.reactive_source {
            Some(ReactiveSource::Var(s)) => s.get(),
            Some(ReactiveSource::PowerFactor { pf: _, leading, tan_phi }) => derive_pf_q(
                active_w,
                *tan_phi,
                *leading,
            ),
            None => children_var,
        }
    }

    pub fn set_fixed_power(&mut self, watts: Single)
        ensures
            final(self).active_view() == (
                Some(ScalarView::constant(watts)),
                old(self).constructed_power,
            ),
            final(self).reactive_view() == old(self).reactive_view(),
            final(self).same_identity(*old(self)),
    {
        self.power_source = Some(DynamicScalar::constant(watts));
    }

    pub fn set_fixed_reactive_power(&mut self, vars: Single)
        ensures
            final(self).reactive_view() == (
                Some(ReactiveView::Var(ScalarView::constant(vars))),
                old(self).constructed_reactive,
            ),
            final(self).active_view() == old(self).active_view(),
            final(self).same_identity(*old(self)),
    {
        self.reactive_source = Some(ReactiveSource::Var(DynamicScalar::constant(vars)));
    }

    pub fn set_power_factor_source(&mut self, pf: Single, leading: bool, tan_phi: Single)
        ensures
            final(self).reactive_view() == (
                Some(ReactiveView::PowerFactor { pf, leading, tan_phi }),
                old(self).constructed_reactive,
            ),
            final(self).active_view() == old(self).active_view(),
            final(self).same_identity(*old(self)),
    {
        self.reactive_source = Some(ReactiveSource::PowerFactor { pf, leading, tan_phi });
    }

    pub fn set_active_power_source(&mut self, scalar: DynamicScalar)
        ensures
            final(self).active_view() == (Some(scalar@), old(self).constructed_power),
            final(self).reactive_view() == old(self).reactive_view(),
            final(self).same_identity(*old(self)),
    {
        self.power_source = Some(scalar);
    }

    pub fn set_reactive_power_source(&mut self, scalar: DynamicScalar)
        ensures
            final(self).reactive_view() == (
                Some(ReactiveView::Var(scalar@)),
                old(self).constructed_reactive,
            ),
            final(self).active_view() == old(self).active_view(),
            final(self).same_identity(*old(self)),
    {
        self.reactive_source = Some(ReactiveSource::Var(scalar));
    }

    /// Back to measuring; what the meter was built with goes too.
    pub fn clear_active_power_source(&mut self) -> (r: bool)
        ensures
            r,
            final(self).active_view() == (None::<ScalarView>, None::<Single>),
            final(self).reactive_view() == old(self).reactive_view(),
            final(self).same_identity(*old(self)),
    {
        self.constructed_power = None;
        self.power_source = None;
        true
    }

    /// Back to measuring; what the meter was built with goes too.
    pub fn clear_reactive_power_source(&mut self) -> (r: bool)
        ensures
            r,
            final(self).reactive_view() == (None::<ReactiveView>, None::<ConstructedReactive>),
            final(self).active_view() == old(self).active_view(),
            final(self).same_identity(*old(self)),
    {
        self.constructed_reactive = None;
        self.reactive_source = None;
        true
    }

    /// Takes over what the sources' expressions came to. A power factor has
    /// none of its own.
    pub fn refresh_inputs(&mut self, active: Outcome, reactive: Outcome)
        ensures
            final(self).active_view() == (
                match scalar_of(old(self).power_source) {
                    Some(v) => Some(v.refreshed(active)),
                    None => None,
                },
                old(self).constructed_power,
            ),
            final(self).reactive_view() == (
                match reactive_of(old(self).reactive_source) {
                    Some(ReactiveView::Var(v)) => Some(ReactiveView::Var(v.refreshed(reactive))),
                    other => other,
                },
                old(self).constructed_reactive,
            ),
            final(self).same_identity(*old(self)),
    {
        let power = self.power_source.take();
        self.power_source = match power {
            Some(mut s) => {
                s.refresh(active);
                Some(s)
            },
            None => None,
        };
        let source = self.reactive_source.take();
        self.reactive_source = match source {
            Some(ReactiveSource::Var(mut s)) => {
                s.refresh(reactive);
                Some(ReactiveSource::Var(s))
            },
            other => other,
        };
    }

    pub open spec fn reading(self, grid: GridState, p: Single, q: Single) -> TelemetryView {
        let v = grid.voltage_per_phase;
        let pp = crate::grid_state::phase_split(p, v);
        let qq = crate::grid_state::phase_split(q, v);
        TelemetryView {
            active_power_w: Some(p),
            reactive_power_var: Some(q),
            per_phase_active_w: Some(pp),
            per_phase_reactive_var: Some(qq),
            per_phase_voltage_v: Some(v),
            per_phase_current_a: Some(crate::grid_state::phase_currents(pp, qq, v)),
            frequency_hz: Some(grid.frequency_hz),
            component_state: Some("ready"@),
            ..TelemetryView::blank(self.id, Some(Category::Meter))
        }
    }

    /// The snapshot at the given total powers.
    pub fn telemetry(&self, grid: &GridState, total_p: Single, total_q: Single) -> (r: Telemetry)
        ensures
            r@ == self.reading(*grid, total_p, total_q),
    {
        let pp = split_per_phase(total_p, grid.voltage_per_phase);
        let qq = split_per_phase(total_q, grid.voltage_per_phase);
        let mut t = Telemetry::blank(self.id, Some(Category::Meter));
        t.active_power_w = Some(total_p);
        t.reactive_power_var = Some(total_q);
        t.per_phase_active_w = Some(pp);
        t.per_phase_reactive_var = Some(qq);
        t.per_phase_voltage_v = Some(grid.voltage_per_phase);
        t.per_phase_current_a = Some(per_phase_apparent_current(pp, qq, grid.voltage_per_phase));
        t.frequency_hz = Some(grid.frequency_hz);
        t.component_state = Some("ready");
        t
    }

    /// The source's value and expression; none while measuring.
    pub fn meter_power_reading(&self) -> (r: Option<ScalarReading>)
        ensures
            r is Some <==> self.power_source is Some,
            r matches Some(x) ==> x.value == (scalar_of(self.power_source)->0).cached
                && crate::dynamic_scalar::text_of(x.expr) == (scalar_of(self.power_source)->0).text,
    {
        match &self.power_source {
            Some(s) => Some(ScalarReading { value: s.get(), expr: s.source_text() }),
            None => None,
        }
    }

    /// The reactive source's reading; none while measuring.
    pub fn meter_reactive_reading(&self) -> (r: Option<ReactiveReading>)
        ensures
            match reactive_of(self.reactive_source) {
                Some(ReactiveView::Var(v)) => r matches Some(ReactiveReading::Var(x)) && x.value
                    == v.cached && crate::dynamic_scalar::text_of(x.expr) == v.text,
                Some(ReactiveView::PowerFactor { pf, leading, tan_phi }) => r == Some(
                    ReactiveReading::PowerFactor { pf, leading },
                ),
                None => r is None,
            },
    {
        match &self.reactive_source {
            Some(ReactiveSource::Var(s)) => Some(
                ReactiveReading::Var(ScalarReading { value: s.get(), expr: s.source_text() }),
            ),
            Some(ReactiveSource::PowerFactor { pf, leading, tan_phi: _ }) => Some(
                ReactiveReading::PowerFactor { pf: *pf, leading: *leading },
            ),
            None => None,
        }
    }

    /// A captured knob holds this meter's state.
    pub open spec fn is_knob(self, kind: KnobKind, snap: Option<KnobSnapshot>) -> bool {
        match kind {
            KnobKind::MeterPower => snap matches Some(
                KnobSnapshot::MeterActive { source, constructed },
            ) && (scalar_of(source), constructed) == self.active_view(),
            KnobKind::MeterReactive => snap matches Some(
                KnobSnapshot::MeterReactive { source, constructed },
            ) && (reactive_of(source), constructed) == self.reactive_view(),
            _ => snap is None,
        }
    }

    /// The meter's source and what it was built with, captured together.
    pub fn snapshot_knob(&self, kind: KnobKind) -> (r: Option<KnobSnapshot>)
        ensures
            self.is_knob(kind, r),
    {
        match kind {
            KnobKind::MeterPower => {
                let source = match &self.power_source {
                    Some(s) => Some(s.clone()),
                    None => None,
                };
                Some(KnobSnapshot::MeterActive { source, constructed: self.constructed_power })
            },
            KnobKind::MeterReactive => {
                let source = match &self.reactive_source {
                    Some(s) => Some(s.clone()),
                    None => None,
                };
                Some(KnobSnapshot::MeterReactive { source, constructed: self.constructed_reactive })
            },
            _ => None,
        }
    }

    /// The meter with a knob put back; unchanged for another kind's snapshot.
    pub open spec fn with_knob(self, snap: KnobSnapshot) -> Meter {
        match snap {
            KnobSnapshot::MeterActive { source, constructed } => Meter {
                power_source: source,
                constructed_power: constructed,
                ..self
            },
            KnobSnapshot::MeterReactive { source, constructed } => Meter {
                reactive_source: source,
                constructed_reactive: constructed,
                ..self
            },
            _ => self,
        }
    }

    pub fn restore_knob(&mut self, snap: KnobSnapshot) -> (r: bool)
        ensures
            r == (snap is MeterActive || snap is MeterReactive),
            *final(self) == old(self).with_knob(snap),
    {
        match snap {
            KnobSnapshot::MeterActive { source, constructed } => {
                self.constructed_power = constructed;
                self.power_source = source;
                true
            },
            KnobSnapshot::MeterReactive { source, constructed } => {
                self.constructed_reactive = constructed;
                self.reactive_source = source;
                true
            },
            _ => false,
        }
    }

    /// A live source that the constructor arguments do not carry.
    pub fn has_unrenderable_source(&self) -> (r: bool)
        ensures
            r == ((self.constructed_power is None && self.power_source is Some) || (
            self.constructed_reactive is None && self.reactive_source is Some)),
    {
        (self.constructed_power.is_none() && self.power_source.is_some()) || (
        self.constructed_reactive.is_none() && self.reactive_source.is_some())
    }

    pub open spec fn arguments(self) -> Seq<(Seq<char>, KwValue)> {
        let power = self.constructed_power;
        let reactive = self.constructed_reactive;
        crate::kwargs::only_if(
            crate::kwargs::unusual_interval(self.interval),
            ":interval"@,
            crate::kwargs::millis_value(self.interval),
        ) + crate::kwargs::only_if(
            power is Some,
            ":power"@,
            KwValue::Float(power->0),
        ) + (match reactive {
            Some(ConstructedReactive::Var(v)) => crate::kwargs::only_if(
                true,
                ":reactive-power"@,
                KwValue::Float(v),
            ),
            Some(ConstructedReactive::PowerFactor { pf, leading }) => crate::kwargs::only_if(
                true,
                ":power-factor"@,
                KwValue::Float(pf),
            ) + crate::kwargs::only_if(leading, ":leading"@, KwValue::True),
            None => Seq::empty(),
        }) + crate::kwargs::only_if(self.hidden, ":hidden"@, KwValue::True)
            + crate::kwargs::only_if(
            !self.stream_jitter_pct.feq(Single::lit(ZERO)),
            ":stream-jitter-pct"@,
            KwValue::Float(self.stream_jitter_pct),
        )
    }

    /// What the meter would be built from again; defaults and values that are
    /// not finite are left out.
    pub fn constructor_kwargs(&self) -> (r: Vec<Kwarg>)
        requires
            self.wf(),
        ensures
            crate::kwargs::pairs(r@) == self.arguments(),
    {
        let mut kw: Vec<Kwarg> = Vec::new();
        add_if(
            &mut kw,
            self.interval != (Span { secs: 1, nanos: 0 }),
            ":interval",
            millis_kw(self.interval),
        );
        if let Some(p) = self.constructed_power {
            add_if(&mut kw, true, ":power", KwValue::Float(p));
        }
        let ghost first = crate::kwargs::pairs(kw@);
        match self.constructed_reactive {
            Some(ConstructedReactive::Var(v)) => {
                add_if(&mut kw, true, ":reactive-power", KwValue::Float(v));
            },
            Some(ConstructedReactive::PowerFactor { pf, leading }) => {
                add_if(&mut kw, true, ":power-factor", KwValue::Float(pf));
                add_if(&mut kw, leading, ":leading", KwValue::True);
            },
            None => {},
        }
        add_if(&mut kw, self.hidden, ":hidden", KwValue::True);
        add_if(
            &mut kw,
            !self.stream_jitter_pct.equals(Single::from_bits(ZERO)),
            ":stream-jitter-pct",
            KwValue::Float(self.stream_jitter_pct),
        );
        assert(crate::kwargs::pairs(kw@) == self.arguments());
        kw
    }
}

/// A knob captured before and put back later restores both the source and
/// what the meter was built with, whatever was set or cleared meanwhile; the
/// other axis is left alone.
pub proof fn law_meter_knobs_round_trip(before: Meter, later: Meter, snap: KnobSnapshot)
    ensures
        before.is_knob(KnobKind::MeterPower, Some(snap)) ==> later.with_knob(snap).active_view()
            == before.active_view() && later.with_knob(snap).reactive_view()
            == later.reactive_view(),
        before.is_knob(KnobKind::MeterReactive, Some(snap)) ==> later.with_knob(
            snap,
        ).reactive_view() == before.reactive_view() && later.with_knob(snap).active_view()
            == later.active_view(),
{
}

/// The reactive power of a power factor is the active power times the tangent
/// of the angle, negative where it leads.
pub proof fn law_power_factor_sets_the_reactive_power(p: Single, tan_phi: Single, leading: bool)
    requires
        p.finite(),
        tan_phi.finite(),
        accuracy::dist(p.value() * tan_phi.value()) <= accuracy::ample(),
    ensures
        pf_q(p, tan_phi, leading).finite(),
        accuracy::close(
            pf_q(p, tan_phi, leading).value(),
            if leading {
                -(p.value() * tan_phi.value())
            } else {
                p.value() * tan_phi.value()
            },
            accuracy::half_ulp(),
            accuracy::speck(),
        ),
{
    let q = p.fmul(tan_phi);
    accuracy::law_product_is_accurate(p, tan_phi);
    crate::single_laws::law_unit_factors(q);
    crate::charge_laws::law_product_commutes(q, Single::lit(ONE));
    crate::charge_laws::law_product_commutes(q, Single::lit((ONE + SIGN) as u32));
    accuracy::lemma_negated_val(q);
}

/// A meter with a source of its own shows that and not its children; one
/// without shows its children.
pub proof fn law_own_source_beats_the_children(m: Meter, active_w: Single, children: Single)
    ensures
        m.power_source matches Some(s) ==> m.active(children) == s@.cached,
        m.power_source is None ==> m.active(children) == children,
        m.reactive_source matches Some(ReactiveSource::Var(s)) ==> m.reactive(active_w, children)
            == s@.cached,
        m.reactive_source is None ==> m.reactive(active_w, children) == children,
{
}

} // verus!
