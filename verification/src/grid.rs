//! The grid connection point, the root of a site's topology.

use crate::component::{Category, Telemetry, TelemetryView};
use crate::kwargs::{add_if, KwValue, Kwarg};
use crate::single::{Single, ZERO};
use crate::text::numbered;
use vstd::prelude::*;

verus! {

#[derive(Debug)]
pub struct Grid {
    pub id: u64,
    pub name: String,
    pub rated_fuse_current: u32,
    pub rated_active_bounds: Option<(Single, Single)>,
    pub stream_jitter_pct: Single,
}

impl Grid {
    pub fn new(
        id: u64,
        rated_fuse_current: u32,
        rated_active_bounds: Option<(Single, Single)>,
        stream_jitter_pct: Single,
    ) -> (r: Self)
        ensures
            r.id == id,
            r.name@ == "grid"@ + "-"@ + crate::text::decimal(id as nat),
            r.rated_fuse_current == rated_fuse_current,
            r.rated_active_bounds == rated_active_bounds,
            r.stream_jitter_pct == stream_jitter_pct,
    {
        Grid {
            id,
            name: numbered("grid", id),
            rated_fuse_current,
            rated_active_bounds,
            stream_jitter_pct,
        }
    }

    /// The snapshot: nothing is measured at the connection point itself.
    pub fn telemetry(&self) -> (r: Telemetry)
        ensures
            r@ == TelemetryView::blank(self.id, Some(Category::Grid)),
    {
        Telemetry::blank(self.id, Some(Category::Grid))
    }

    pub open spec fn arguments(self) -> Seq<(Seq<char>, KwValue)> {
        crate::kwargs::only_if(
            self.rated_fuse_current != 0,
            ":rated-fuse-current"@,
            KwValue::Integer(self.rated_fuse_current as u128),
        ) + crate::kwargs::only_if(
            self.rated_active_bounds is Some,
            ":rated-lower"@,
            KwValue::Float((self.rated_active_bounds->0).0),
        ) + crate::kwargs::only_if(
            self.rated_active_bounds is Some,
            ":rated-upper"@,
            KwValue::Float((self.rated_active_bounds->0).1),
        ) + crate::kwargs::only_if(
            !self.stream_jitter_pct.feq(Single::lit(ZERO)),
            ":stream-jitter-pct"@,
            KwValue::Float(self.stream_jitter_pct),
        )
    }

    /// What the connection point would be built from again; defaults and
    /// numbers that are not finite are left out.
    pub fn constructor_kwargs(&self) -> (r: Vec<Kwarg>)
        ensures
            crate::kwargs::pairs(r@) == self.arguments(),
    {
        let mut kw: Vec<Kwarg> = Vec::new();
        add_if(
            &mut kw,
            self.rated_fuse_current != 0,
            ":rated-fuse-current",
            KwValue::Integer(self.rated_fuse_current as u128),
        );
        if let Some((l, u)) = self.rated_active_bounds {
            add_if(&mut kw, true, ":rated-lower", KwValue::Float(l));
            add_if(&mut kw, true, ":rated-upper", KwValue::Float(u));
        }
        add_if(
            &mut kw,
            !self.stream_jitter_pct.equals(Single::from_bits(ZERO)),
            ":stream-jitter-pct",
            KwValue::Float(self.stream_jitter_pct),
        );
        assert(crate::kwargs::pairs(kw@) == self.arguments());
        kw
    }
}

} // verus!
