//! What the components of a site have in common.

use crate::bounds::{Bounds, VecBounds};
use crate::dynamic_scalar::DynamicScalar;
use crate::ev_presets::ConnectedEv;
use crate::history::Metric;
use crate::meter::{ConstructedReactive, ReactiveSource};
use crate::single::{Single, ZERO};
use crate::solar_inverter::SunlightSource;
use crate::text::same_text;
use vstd::prelude::*;

verus! {

/// The kind of a component.
#[derive(Clone, Copy, Debug, PartialEq, Eq, Structural)]
pub enum Category {
    Grid,
    Meter,
    Inverter,
    Battery,
    EvCharger,
    Chp,
    WindTurbine,
    SteamBoiler,
    PowerTransformer,
    Breaker,
}

impl Category {
    pub open spec fn slug(self) -> Seq<char> {
        match self {
            Category::Grid => "grid"@,
            Category::Meter => "meter"@,
            Category::Inverter => "inverter"@,
            Category::Battery => "battery"@,
            Category::EvCharger => "ev-charger"@,
            Category::Chp => "chp"@,
            Category::WindTurbine => "wind-turbine"@,
            Category::SteamBoiler => "steam-boiler"@,
            Category::PowerTransformer => "power-transformer"@,
            Category::Breaker => "breaker"@,
        }
    }

    /// The lowercase name shared by the topology interface and file names.
    pub fn as_str(self) -> (r: &'static str)
        ensures
            r@ == self.slug(),
    {
        match self {
            Category::Grid => "grid",
            Category::Meter => "meter",
            Category::Inverter => "inverter",
            Category::Battery => "battery",
            Category::EvCharger => "ev-charger",
            Category::Chp => "chp",
            Category::WindTurbine => "wind-turbine",
            Category::SteamBoiler => "steam-boiler",
            Category::PowerTransformer => "power-transformer",
            Category::Breaker => "breaker",
        }
    }
}

/// The state label for the sign of a power.
pub open spec fn state_label(p: Single) -> Seq<char> {
    if Single::lit(ZERO).flt(p) {
        "charging"@
    } else if p.flt(Single::lit(ZERO)) {
        "discharging"@
    } else {
        "ready"@
    }
}

pub fn power_state(p: Single) -> (r: &'static str)
    ensures
        r@ == state_label(p),
{
    let zero = Single::from_bits(ZERO);
    if zero.lt(p) {
        "charging"
    } else if p.lt(zero) {
        "discharging"
    } else {
        "ready"
    }
}

/// What a component is declared to be capable of. A matter of configuration:
/// the runtime state depends on it.
#[derive(Clone, Copy, Debug, PartialEq, Eq, Structural)]
pub enum OperationalMode {
    /// Not declared; taken as full capability.
    Unspecified,
    /// Neither telemetry nor control.
    Inactive,
    TelemetryOnly,
    ControlOnly,
    ControlAndTelemetry,
}

impl OperationalMode {
    pub open spec fn streams(self) -> bool {
        self is Unspecified || self is TelemetryOnly || self is ControlAndTelemetry
    }

    pub open spec fn controls(self) -> bool {
        self is Unspecified || self is ControlOnly || self is ControlAndTelemetry
    }

    pub open spec fn name(self) -> Seq<char> {
        match self {
            OperationalMode::Unspecified => "unspecified"@,
            OperationalMode::Inactive => "inactive"@,
            OperationalMode::TelemetryOnly => "telemetry-only"@,
            OperationalMode::ControlOnly => "control-only"@,
            OperationalMode::ControlAndTelemetry => "control-and-telemetry"@,
        }
    }

    /// A component in this mode streams telemetry.
    pub fn provides_telemetry(self) -> (r: bool)
        ensures
            r == self.streams(),
    {
        matches!(
            self,
            OperationalMode::Unspecified | OperationalMode::TelemetryOnly
                | OperationalMode::ControlAndTelemetry
        )
    }

    /// A component in this mode takes commands.
    pub fn accepts_control(self) -> (r: bool)
        ensures
            r == self.controls(),
    {
        matches!(
            self,
            OperationalMode::Unspecified | OperationalMode::ControlOnly
                | OperationalMode::ControlAndTelemetry
        )
    }

    pub fn as_str(self) -> (r: &'static str)
        ensures
            r@ == self.name(),
    {
        match self {
            OperationalMode::Unspecified => "unspecified",
            OperationalMode::Inactive => "inactive",
            OperationalMode::TelemetryOnly => "telemetry-only",
            OperationalMode::ControlOnly => "control-only",
            OperationalMode::ControlAndTelemetry => "control-and-telemetry",
        }
    }

    /// The mode with a name; `None` for a text that names none.
    pub fn parse(s: &str) -> (r: Option<OperationalMode>)
        ensures
            r matches Some(m) ==> m.name() == s@,
            r is None ==> forall|m: OperationalMode| m.name() != s@,
    {
        if same_text(s, "unspecified") {
            Some(OperationalMode::Unspecified)
        } else if same_text(s, "inactive") {
            Some(OperationalMode::Inactive)
        } else if same_text(s, "telemetry-only") {
            Some(OperationalMode::TelemetryOnly)
        } else if same_text(s, "control-only") {
            Some(OperationalMode::ControlOnly)
        } else if same_text(s, "control-and-telemetry") {
            Some(OperationalMode::ControlAndTelemetry)
        } else {
            None
        }
    }
}

/// Different modes have different names, so a name read back is the mode that
/// it was written for.
pub proof fn law_mode_names_differ(a: OperationalMode, b: OperationalMode)
    requires
        a.name() == b.name(),
    ensures
        a == b,
{
    reveal_strlit("unspecified");
    reveal_strlit("inactive");
    reveal_strlit("telemetry-only");
    reveal_strlit("control-only");
    reveal_strlit("control-and-telemetry");
    assert("unspecified"@.len() == 11);
    assert("inactive"@.len() == 8);
    assert("telemetry-only"@.len() == 14);
    assert("control-only"@.len() == 12);
    assert("control-and-telemetry"@.len() == 21);
}

/// Different categories have different names.
pub proof fn law_category_names_differ(a: Category, b: Category)
    requires
        a.slug() == b.slug(),
    ensures
        a == b,
{
    reveal_strlit("grid");
    reveal_strlit("meter");
    reveal_strlit("inverter");
    reveal_strlit("battery");
    reveal_strlit("ev-charger");
    reveal_strlit("chp");
    reveal_strlit("wind-turbine");
    reveal_strlit("steam-boiler");
    reveal_strlit("power-transformer");
    reveal_strlit("breaker");
    assert("grid"@.len() == 4);
    assert("meter"@.len() == 5);
    assert("inverter"@.len() == 8);
    assert("battery"@.len() == 7);
    assert("ev-charger"@.len() == 10);
    assert("chp"@.len() == 3);
    assert("wind-turbine"@.len() == 12);
    assert("steam-boiler"@.len() == 12);
    assert("power-transformer"@.len() == 17);
    assert("breaker"@.len() == 7);
    assert("battery"@[1] == 'a');
    assert("breaker"@[1] == 'r');
    assert("wind-turbine"@[0] == 'w');
    assert("steam-boiler"@[0] == 's');
}

/// Why a command was refused.
#[derive(Debug)]
pub enum SetpointError {
    /// The value lies outside the envelope in force, which may be narrower
    /// than the rated one.
    OutOfBounds { value: Single, unit: &'static str, envelope: VecBounds },
    /// The component takes no such command.
    Unsupported,
}

impl SetpointError {
    /// The error names this value, unit and envelope.
    pub open spec fn refuses(self, v: Single, u: Seq<char>, bands: Seq<Bounds>) -> bool {
        self matches SetpointError::OutOfBounds { value, unit, envelope } && value == v && unit@
            == u && envelope@ == bands
    }
}

/// Why a bounds augmentation was refused.
#[derive(Debug)]
pub enum AugmentError {
    /// The proposed bands have nothing in common with the envelope in force.
    Disjoint(VecBounds),
}

/// The answer with the refusal's envelope alone.
pub open spec fn augment_answer(r: Result<(), AugmentError>) -> Result<(), VecBounds> {
    match r {
        Ok(()) => Ok(()),
        Err(AugmentError::Disjoint(envelope)) => Err(envelope),
    }
}

/// A snapshot of a component, in SI units. What a component does not have
/// stays `None`.
#[derive(Debug)]
pub struct Telemetry {
    pub id: u64,
    pub category: Option<Category>,
    pub active_power_w: Option<Single>,
    pub reactive_power_var: Option<Single>,
    pub per_phase_active_w: Option<(Single, Single, Single)>,
    pub per_phase_reactive_var: Option<(Single, Single, Single)>,
    pub per_phase_voltage_v: Option<(Single, Single, Single)>,
    pub per_phase_current_a: Option<(Single, Single, Single)>,
    pub frequency_hz: Option<Single>,
    pub soc_pct: Option<Single>,
    /// Steam pressure in bar.
    pub pressure_bar: Option<Single>,
    pub soc_lower_pct: Option<Single>,
    pub soc_upper_pct: Option<Single>,
    pub capacity_wh: Option<Single>,
    pub dc_voltage_v: Option<Single>,
    pub dc_current_a: Option<Single>,
    pub dc_power_w: Option<Single>,
    pub active_power_bounds: Option<VecBounds>,
    /// The envelope of reactive power at the present active power.
    pub reactive_power_bounds: Option<VecBounds>,
    pub component_state: Option<&'static str>,
    pub relay_state: Option<&'static str>,
    pub cable_state: Option<&'static str>,
}

/// A [`Telemetry`] with lists and texts as sequences.
pub struct TelemetryView {
    pub id: u64,
    pub category: Option<Category>,
    pub active_power_w: Option<Single>,
    pub reactive_power_var: Option<Single>,
    pub per_phase_active_w: Option<(Single, Single, Single)>,
    pub per_phase_reactive_var: Option<(Single, Single, Single)>,
    pub per_phase_voltage_v: Option<(Single, Single, Single)>,
    pub per_phase_current_a: Option<(Single, Single, Single)>,
    pub frequency_hz: Option<Single>,
    pub soc_pct: Option<Single>,
    pub pressure_bar: Option<Single>,
    pub soc_lower_pct: Option<Single>,
    pub soc_upper_pct: Option<Single>,
    pub capacity_wh: Option<Single>,
    pub dc_voltage_v: Option<Single>,
    pub dc_current_a: Option<Single>,
    pub dc_power_w: Option<Single>,
    pub active_power_bounds: Option<Seq<Bounds>>,
    pub reactive_power_bounds: Option<Seq<Bounds>>,
    pub component_state: Option<Seq<char>>,
    pub relay_state: Option<Seq<char>>,
    pub cable_state: Option<Seq<char>>,
}

/// The bands of an optional list.
pub open spec fn bands_of(b: Option<VecBounds>) -> Option<Seq<Bounds>> {
    match b {
        Some(v) => Some(v@),
        None => None,
    }
}

/// The characters of an optional text.
pub open spec fn chars_of(s: Option<&'static str>) -> Option<Seq<char>> {
    match s {
        Some(t) => Some(t@),
        None => None,
    }
}

impl View for Telemetry {
    type V = TelemetryView;

    open spec fn view(&self) -> TelemetryView {
        TelemetryView {
            id: self.id,
            category: self.category,
            active_power_w: self.active_power_w,
            reactive_power_var: self.reactive_power_var,
            per_phase_active_w: self.per_phase_active_w,
            per_phase_reactive_var: self.per_phase_reactive_var,
            per_phase_voltage_v: self.per_phase_voltage_v,
            per_phase_current_a: self.per_phase_current_a,
            frequency_hz: self.frequency_hz,
            soc_pct: self.soc_pct,
            pressure_bar: self.pressure_bar,
            soc_lower_pct: self.soc_lower_pct,
            soc_upper_pct: self.soc_upper_pct,
            capacity_wh: self.capacity_wh,
            dc_voltage_v: self.dc_voltage_v,
            dc_current_a: self.dc_current_a,
            dc_power_w: self.dc_power_w,
            active_power_bounds: bands_of(self.active_power_bounds),
            reactive_power_bounds: bands_of(self.reactive_power_bounds),
            component_state: chars_of(self.component_state),
            relay_state: chars_of(self.relay_state),
            cable_state: chars_of(self.cable_state),
        }
    }
}

impl TelemetryView {
    /// A snapshot that says nothing but who it is of.
    pub open spec fn blank(id: u64, category: Option<Category>) -> TelemetryView {
        TelemetryView {
            id,
            category,
            active_power_w: None,
            reactive_power_var: None,
            per_phase_active_w: None,
            per_phase_reactive_var: None,
            per_phase_voltage_v: None,
            per_phase_current_a: None,
            frequency_hz: None,
            soc_pct: None,
            pressure_bar: None,
            soc_lower_pct: None,
            soc_upper_pct: None,
            capacity_wh: None,
            dc_voltage_v: None,
            dc_current_a: None,
            dc_power_w: None,
            active_power_bounds: None,
            reactive_power_bounds: None,
            component_state: None,
            relay_state: None,
            cable_state: None,
        }
    }

    /// The lower edge of the first band.
    pub open spec fn outer_lower(b: Option<Seq<Bounds>>) -> Option<Single> {
        match b {
            Some(s) => if s.len() > 0 {
                s.first().lower
            } else {
                None
            },
            None => None,
        }
    }

    /// The upper edge of the last band.
    pub open spec fn outer_upper(b: Option<Seq<Bounds>>) -> Option<Single> {
        match b {
            Some(s) => if s.len() > 0 {
                s.last().upper
            } else {
                None
            },
            None => None,
        }
    }

    /// A metric of the snapshot. Bounds are the extremes of the envelope;
    /// energy is not on a snapshot, it accumulates elsewhere.
    pub open spec fn value_of(self, metric: Metric) -> Option<Single> {
        match metric {
            Metric::ActivePowerW => self.active_power_w,
            Metric::ReactivePowerVar => self.reactive_power_var,
            Metric::FrequencyHz => self.frequency_hz,
            Metric::SocPct => self.soc_pct,
            Metric::DcPowerW => self.dc_power_w,
            Metric::EnergyWh => None,
            Metric::ActivePowerLowerBoundW => Self::outer_lower(self.active_power_bounds),
            Metric::ActivePowerUpperBoundW => Self::outer_upper(self.active_power_bounds),
            Metric::ReactivePowerLowerBoundVar => Self::outer_lower(self.reactive_power_bounds),
            Metric::ReactivePowerUpperBoundVar => Self::outer_upper(self.reactive_power_bounds),
        }
    }
}

fn outer_lower(b: &Option<VecBounds>) -> (r: Option<Single>)
    ensures
        r == TelemetryView::outer_lower(bands_of(*b)),
{
    match b {
        Some(v) => if v.0.len() > 0 {
            v.0[0].lower
        } else {
            None
        },
        None => None,
    }
}

fn outer_upper(b: &Option<VecBounds>) -> (r: Option<Single>)
    ensures
        r == TelemetryView::outer_upper(bands_of(*b)),
{
    match b {
        Some(v) => if v.0.len() > 0 {
            v.0[v.0.len() - 1].upper
        } else {
            None
        },
        None => None,
    }
}

impl Telemetry {
    pub fn blank(id: u64, category: Option<Category>) -> (r: Telemetry)
        ensures
            r@ == TelemetryView::blank(id, category),
    {
        Telemetry {
            id,
            category,
            active_power_w: None,
            reactive_power_var: None,
            per_phase_active_w: None,
            per_phase_reactive_var: None,
            per_phase_voltage_v: None,
            per_phase_current_a: None,
            frequency_hz: None,
            soc_pct: None,
            pressure_bar: None,
            soc_lower_pct: None,
            soc_upper_pct: None,
            capacity_wh: None,
            dc_voltage_v: None,
            dc_current_a: None,
            dc_power_w: None,
            active_power_bounds: None,
            reactive_power_bounds: None,
            component_state: None,
            relay_state: None,
            cable_state: None,
        }
    }

    /// One metric of the snapshot; `None` where the component does not publish
    /// it.
    pub fn metric_value(&self, metric: Metric) -> (r: Option<Single>)
        ensures
            r == self@.value_of(metric),
    {
        match metric {
            Metric::ActivePowerW => self.active_power_w,
            Metric::ReactivePowerVar => self.reactive_power_var,
            Metric::FrequencyHz => self.frequency_hz,
            Metric::SocPct => self.soc_pct,
            Metric::DcPowerW => self.dc_power_w,
            Metric::EnergyWh => None,
            Metric::ActivePowerLowerBoundW => outer_lower(&self.active_power_bounds),
            Metric::ActivePowerUpperBoundW => outer_upper(&self.active_power_bounds),
            Metric::ReactivePowerLowerBoundVar => outer_lower(&self.reactive_power_bounds),
            Metric::ReactivePowerUpperBoundVar => outer_upper(&self.reactive_power_bounds),
        }
    }
}

impl Default for Telemetry {
    fn default() -> (r: Self)
        ensures
            r@ == TelemetryView::blank(0, None),
    {
        Telemetry::blank(0, None)
    }
}

/// The reading of a driven number: its value and, where an expression drives
/// it, that expression.
#[derive(Debug)]
pub struct ScalarReading {
    pub value: Single,
    pub expr: Option<String>,
}

/// The reading of a meter's reactive-power source.
#[derive(Debug)]
pub enum ReactiveReading {
    Var(ScalarReading),
    PowerFactor { pf: Single, leading: bool },
}

/// A knob that a scenario may turn and its end puts back.
#[derive(Clone, Copy, Debug, PartialEq, Eq, Structural)]
pub enum KnobKind {
    MeterPower,
    MeterReactive,
    Sunlight,
    BoilerDemand,
    Ev,
}

/// A knob's captured state. The meter's snapshots carry both the live source
/// and the value the meter was built with: clearing a source drops both.
#[derive(Debug)]
pub enum KnobSnapshot {
    Sunlight(SunlightSource),
    BoilerDemand(DynamicScalar),
    MeterActive { source: Option<DynamicScalar>, constructed: Option<Single> },
    MeterReactive { source: Option<ReactiveSource>, constructed: Option<ConstructedReactive> },
    Ev(Option<ConnectedEv>),
}

/// The first id that is handed out to components without one of their own.
pub const FIRST_AUTO_ID: u64 = 1000;

/// A mode opens the channels that it is named after, an inactive one neither
/// and an unspecified one both.
pub proof fn law_modes_open_their_channels(mode: OperationalMode)
    ensures
        mode is ControlOnly ==> mode.controls() && !mode.streams(),
        mode is TelemetryOnly ==> mode.streams() && !mode.controls(),
        mode is ControlAndTelemetry || mode is Unspecified ==> mode.controls() && mode.streams(),
        mode is Inactive ==> !mode.controls() && !mode.streams(),
{
}

} // verus!
