//! What a site tells its listeners.

use crate::setpoints::SetpointKind;
use crate::single::Single;
use vstd::prelude::*;

verus! {

#[derive(Debug)]
pub enum SiteEvent {
    /// The site changed; its topology is to be read again.
    TopologyChanged { version: u64 },
    /// The configuration could not be loaded.
    ConfigError { ts_ms: i64, message: String },
    /// A sample of an aggregated stream.
    MicrogridSample {
        stream: &'static str,
        quantity: &'static str,
        unit: &'static str,
        ts_ms: i64,
        value: Option<Single>,
    },
    /// A command arrived.
    Setpoint {
        id: u64,
        ts_ms: i64,
        setpoint_kind: SetpointKind,
        value: Single,
        accepted: bool,
        reason: Option<String>,
    },
    /// A knob reads differently.
    KnobChanged {
        id: u64,
        knob: &'static str,
        value: Option<Single>,
        expr: Option<String>,
        leading: Option<bool>,
    },
}

/// A [`SiteEvent`] with its texts as sequences.
pub enum SiteEventView {
    TopologyChanged { version: u64 },
    ConfigError { ts_ms: i64, message: Seq<char> },
    MicrogridSample {
        stream: Seq<char>,
        quantity: Seq<char>,
        unit: Seq<char>,
        ts_ms: i64,
        value: Option<Single>,
    },
    Setpoint {
        id: u64,
        ts_ms: i64,
        setpoint_kind: SetpointKind,
        value: Single,
        accepted: bool,
        reason: Option<Seq<char>>,
    },
    KnobChanged {
        id: u64,
        knob: Seq<char>,
        value: Option<Single>,
        expr: Option<Seq<char>>,
        leading: Option<bool>,
    },
}

impl View for SiteEvent {
    type V = SiteEventView;

    open spec fn view(&self) -> SiteEventView {
        match *self {
            SiteEvent::TopologyChanged { version } => SiteEventView::TopologyChanged { version },
            SiteEvent::ConfigError { ts_ms, message } => SiteEventView::ConfigError {
                ts_ms,
                message: message@,
            },
            SiteEvent::MicrogridSample {
                stream,
                quantity,
                unit,
                ts_ms,
                value,
            } => SiteEventView::MicrogridSample {
                stream: stream@,
                quantity: quantity@,
                unit: unit@,
                ts_ms,
                value,
            },
            SiteEvent::Setpoint {
                id,
                ts_ms,
                setpoint_kind,
                value,
                accepted,
                reason,
            } => SiteEventView::Setpoint {
                id,
                ts_ms,
                setpoint_kind,
                value,
                accepted,
                reason: crate::dynamic_scalar::text_of(reason),
            },
            SiteEvent::KnobChanged { id, knob, value, expr, leading } => {
                SiteEventView::KnobChanged {
                    id,
                    knob: knob@,
                    value,
                    expr: crate::dynamic_scalar::text_of(expr),
                    leading,
                }
            },
        }
    }
}

/// The events as views.
pub open spec fn views(events: Seq<SiteEvent>) -> Seq<SiteEventView> {
    events.map_values(|e: SiteEvent| e@)
}

} // verus!
