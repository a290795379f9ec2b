//! The runtime state of a component, as an operator or a script sets it.

use vstd::prelude::*;

verus! {

#[derive(Clone, Copy, Debug, PartialEq, Eq, Structural)]
pub enum Health {
    Good,
    Error,
    Standby,
}

/// What the telemetry stream does.
#[derive(Clone, Copy, Debug, PartialEq, Eq, Structural)]
pub enum TelemetryMode {
    Normal,
    Silent,
    Closed,
}

/// What happens to commands.
#[derive(Clone, Copy, Debug, PartialEq, Eq, Structural)]
pub enum CommandMode {
    Normal,
    Timeout,
    Error,
}

#[derive(Clone, Copy, Debug, PartialEq, Eq, Structural)]
pub struct ComponentRuntime {
    pub health: Health,
    pub telemetry: TelemetryMode,
    pub command: CommandMode,
}

impl ComponentRuntime {
    /// Healthy, streaming and taking commands.
    pub open spec fn normal() -> ComponentRuntime {
        ComponentRuntime {
            health: Health::Good,
            telemetry: TelemetryMode::Normal,
            command: CommandMode::Normal,
        }
    }
}

impl Default for ComponentRuntime {
    fn default() -> (r: Self)
        ensures
            r == ComponentRuntime::normal(),
    {
        ComponentRuntime {
            health: Health::Good,
            telemetry: TelemetryMode::Normal,
            command: CommandMode::Normal,
        }
    }
}

} // verus!
