//! A microgrid simulator's decision core: power envelopes, command delays and
//! ramps, the component models, the site graph and its runtime rules.
//!
//! Quantities are IEEE 754 numbers held as bit patterns ([`single::Single`]
//! and [`double::Double`]); their arithmetic is defined here as the correctly
//! rounded exact result and proved to be that.

pub mod accuracy;
pub mod axis;
pub mod battery;
pub mod boiler_laws;
pub mod bounds;
pub mod bounds_laws;
pub mod catalog_laws;
pub mod charge_laws;
pub mod component;
pub mod csv_listing;
pub mod decay;
pub mod device_laws;
pub mod double;
pub mod dynamic_scalar;
pub mod energy;
pub mod ev_charger;
pub mod ev_laws;
pub mod ev_presets;
pub mod events;
pub mod flow;
pub mod flow_laws;
pub mod graph;
pub mod grid;
pub mod grid_state;
pub mod history;
pub mod hull_laws;
pub mod ieee;
pub mod import_laws;
pub mod inverter;
pub mod kwargs;
pub mod lisp_text;
pub mod marker;
pub mod message;
pub mod meter;
pub mod microgrid_site;
pub mod phase_laws;
pub mod ramp;
pub mod reactive;
pub mod reactive_laws;
pub mod reals;
pub mod root_laws;
pub mod rounding;
pub mod rounding_laws;
pub mod runtime;
pub mod scenario;
pub mod scenarios;
pub mod seconds;
pub mod seconds_laws;
pub mod setpoints;
pub mod simulated;
pub mod single;
pub mod single_laws;
pub mod site_import;
pub mod site_power;
pub mod sky_laws;
pub mod slew_laws;
pub mod snapshot_laws;
pub mod soc_stats;
pub mod solar_inverter;
pub mod steam_boiler;
pub mod text;
pub mod time;
pub mod timeout_tracker;
pub mod validate;
pub mod weather;
pub mod weather_laws;
pub mod weather_patch;
pub mod wide_accuracy;
pub mod wide_laws;
