//! A component that stands in the topology and does nothing.

use crate::component::{Category, Telemetry, TelemetryView};
use crate::kwargs::{add_if, KwValue, Kwarg};
use crate::single::{Single, ZERO};
use crate::text::numbered;
use vstd::prelude::*;

verus! {

#[derive(Debug)]
pub struct Marker {
    pub id: u64,
    pub name: String,
    pub category: Category,
    pub stream_jitter_pct: Single,
}

/// The categories that a marker can have.
pub open spec fn is_marker(c: Category) -> bool {
    c is Chp || c is WindTurbine || c is SteamBoiler || c is PowerTransformer || c is Breaker
}

/// The first part of a marker's name.
pub open spec fn marker_prefix(c: Category) -> Seq<char> {
    match c {
        Category::Chp => "chp"@,
        Category::WindTurbine => "wind"@,
        Category::SteamBoiler => "boiler"@,
        Category::PowerTransformer => "transformer"@,
        _ => "breaker"@,
    }
}

/// The function that makes a marker of a category.
pub open spec fn marker_maker(c: Category) -> Seq<char> {
    match c {
        Category::Chp => "%make-chp"@,
        Category::WindTurbine => "%make-wind-turbine"@,
        Category::SteamBoiler => "%make-steam-boiler"@,
        Category::PowerTransformer => "%make-power-transformer"@,
        _ => "%make-breaker"@,
    }
}

impl Marker {
    pub open spec fn wf(self) -> bool {
        is_marker(self.category)
    }

    pub fn new(id: u64, category: Category, stream_jitter_pct: Single) -> (r: Self)
        requires
            is_marker(category),
        ensures
            r.wf(),
            r.id == id,
            r.name@ == marker_prefix(category) + "-"@ + crate::text::decimal(id as nat),
            r.category == category,
            r.stream_jitter_pct == stream_jitter_pct,
    {
        let prefix = match category {
            Category::Chp => "chp",
            Category::WindTurbine => "wind",
            Category::SteamBoiler => "boiler",
            Category::PowerTransformer => "transformer",
            _ => "breaker",
        };
        Marker { id, name: numbered(prefix, id), category, stream_jitter_pct }
    }

    pub fn telemetry(&self) -> (r: Telemetry)
        ensures
            r@ == TelemetryView::blank(self.id, Some(self.category)),
    {
        Telemetry::blank(self.id, Some(self.category))
    }

    pub fn make_fn(&self) -> (r: &'static str)
        requires
            self.wf(),
        ensures
            r@ == marker_maker(self.category),
    {
        match self.category {
            Category::Chp => "%make-chp",
            Category::WindTurbine => "%make-wind-turbine",
            Category::SteamBoiler => "%make-steam-boiler",
            Category::PowerTransformer => "%make-power-transformer",
            _ => "%make-breaker",
        }
    }

    pub open spec fn arguments(self) -> Seq<(Seq<char>, KwValue)> {
        crate::kwargs::only_if(
            !self.stream_jitter_pct.feq(Single::lit(ZERO)),
            ":stream-jitter-pct"@,
            KwValue::Float(self.stream_jitter_pct),
        )
    }

    pub fn constructor_kwargs(&self) -> (r: Vec<Kwarg>)
        ensures
            crate::kwargs::pairs(r@) == self.arguments(),
    {
        let mut kw: Vec<Kwarg> = Vec::new();
        add_if(
            &mut kw,
            !self.stream_jitter_pct.equals(Single::from_bits(ZERO)),
            ":stream-jitter-pct",
            KwValue::Float(self.stream_jitter_pct),
        );
        assert(crate::kwargs::pairs(kw@) == self.arguments());
        kw
    }
}

} // verus!
