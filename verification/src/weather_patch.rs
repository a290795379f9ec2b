//! Updates of a site's weather settings.

use crate::microgrid_site::MicrogridSite;
use crate::single::{Single, ZERO};
use crate::text::push_text;
use crate::time::Span;
use crate::validate::{
    cloud_rate, depth_range, peak_pct, secs_range, sunrise_before_sunset, WeatherError,
};
use crate::weather::{Weather, WeatherConfig};
use vstd::prelude::*;

verus! {

/// The surface through which an update arrived. It decides how a refusal names
/// the field, and nothing else.
#[derive(Clone, Copy, Debug)]
pub enum WeatherDoor<'a> {
    /// A script's form, by its name.
    Lisp(&'a str),
    /// The web interface.
    Http,
}

impl<'a> WeatherDoor<'a> {
    pub open spec fn label_text(
        self,
        kw: Seq<char>,
        json: Seq<char>,
        with_form: bool,
    ) -> Seq<char> {
        match self {
            WeatherDoor::Lisp(form) => if with_form {
                form@ + ": "@ + kw
            } else {
                kw
            },
            WeatherDoor::Http => json + ":"@,
        }
    }

    /// How a refusal introduces a field: by its keyword, behind the name of
    /// the form where that is asked for, or by its name on the web.
    pub fn label(&self, kw: &str, json: &str, with_form: bool) -> (r: String)
        ensures
            r@ == self.label_text(kw@, json@, with_form),
    {
        let mut s = String::new();
        match self {
            WeatherDoor::Lisp(form) => {
                if with_form {
                    push_text(&mut s, form);
                    push_text(&mut s, ": ");
                }
                push_text(&mut s, kw);
            },
            WeatherDoor::Http => {
                push_text(&mut s, json);
                push_text(&mut s, ":");
            },
        }
        assert(s@ =~= self.label_text(kw@, json@, with_form));
        s
    }
}

/// The field that an update was refused for.
#[derive(Clone, Copy, Debug, PartialEq, Eq, Structural)]
pub enum WeatherField {
    Window,
    Peak,
    CloudRate,
    CloudDepth,
    CloudDuration,
    CloudRamp,
}

impl WeatherField {
    /// The field as each door names it, and whether the form's name leads.
    pub open spec fn names(self) -> (Seq<char>, Seq<char>, bool) {
        match self {
            WeatherField::Window => (":sunrise/:sunset —"@, "sunrise/sunset"@, true),
            WeatherField::Peak => (":peak%"@, "peak_pct"@, true),
            WeatherField::CloudRate => (":cloud-rate"@, "cloud_rate_per_h"@, true),
            WeatherField::CloudDepth => (":cloud-depth"@, "cloud_depth"@, false),
            WeatherField::CloudDuration => (":cloud-duration"@, "cloud_duration"@, false),
            WeatherField::CloudRamp => (":cloud-ramp"@, "cloud_ramp"@, false),
        }
    }

    /// The introduction of a refusal.
    pub open spec fn introduction(self, door: WeatherDoor<'_>) -> Seq<char> {
        door.label_text(self.names().0, self.names().1, self.names().2)
    }

    fn introduce(self, door: &WeatherDoor<'_>) -> (r: String)
        ensures
            r@ == self.introduction(*door),
    {
        match self {
            WeatherField::Window => door.label(":sunrise/:sunset —", "sunrise/sunset", true),
            WeatherField::Peak => door.label(":peak%", "peak_pct", true),
            WeatherField::CloudRate => door.label(":cloud-rate", "cloud_rate_per_h", true),
            WeatherField::CloudDepth => door.label(":cloud-depth", "cloud_depth", false),
            WeatherField::CloudDuration => door.label(":cloud-duration", "cloud_duration", false),
            WeatherField::CloudRamp => door.label(":cloud-ramp", "cloud_ramp", false),
        }
    }
}

/// A refused update: how the door names the field, and what is wrong with it.
/// Its text is the introduction, a space and the text of the cause.
#[derive(Debug)]
pub struct PatchError {
    pub at: String,
    pub cause: WeatherError,
}

fn refusal(field: WeatherField, door: &WeatherDoor<'_>, cause: WeatherError) -> (r: PatchError)
    ensures
        r.at@ == field.introduction(*door),
        r.cause == cause,
{
    PatchError { at: field.introduce(door), cause }
}

/// An update: only the fields that it carries move.
#[derive(Clone, Copy, Debug)]
pub struct WeatherPatch {
    pub sunrise: Option<Span>,
    pub sunset: Option<Span>,
    pub peak_pct: Option<Single>,
    /// Clouds per hour as they were written, zero for none.
    pub cloud_rate_per_h: Option<Single>,
    pub cloud_depth: Option<(Single, Single)>,
    pub cloud_duration: Option<(Single, Single)>,
    pub cloud_ramp: Option<(Single, Single)>,
    /// A seed starts the weather afresh.
    pub seed: Option<u64>,
}

impl Default for WeatherPatch {
    /// Nothing moves.
    fn default() -> (r: Self)
        ensures
            r == (WeatherPatch {
                sunrise: None,
                sunset: None,
                peak_pct: None,
                cloud_rate_per_h: None,
                cloud_depth: None,
                cloud_duration: None,
                cloud_ramp: None,
                seed: None,
            }),
    {
        WeatherPatch {
            sunrise: None,
            sunset: None,
            peak_pct: None,
            cloud_rate_per_h: None,
            cloud_depth: None,
            cloud_duration: None,
            cloud_ramp: None,
            seed: None,
        }
    }
}

/// What is wrong with a rate, if anything.
pub open spec fn rate_fault(v: Single) -> Option<WeatherError> {
    if !crate::validate::is_amount(v) {
        Some(WeatherError::RateNegative(v))
    } else if !v.fle(Single::lit(crate::validate::MAX_PER_H)) {
        Some(WeatherError::RateTooHigh(v))
    } else {
        None
    }
}

pub open spec fn secs_fault(range: (Single, Single)) -> Option<WeatherError> {
    if crate::validate::is_cloud_secs(range.0) && crate::validate::is_cloud_secs(range.1) {
        None
    } else {
        Some(WeatherError::SecsRange(range.0, range.1))
    }
}

pub open spec fn depth_fault(range: (Single, Single)) -> Option<WeatherError> {
    if crate::validate::is_percentage(range.0) && crate::validate::is_percentage(range.1) {
        None
    } else {
        Some(WeatherError::DepthRange(range.0, range.1))
    }
}

impl WeatherPatch {
    pub open spec fn wf(self) -> bool {
        &&& self.sunrise matches Some(s) ==> s.wf()
        &&& self.sunset matches Some(s) ==> s.wf()
    }

    /// The settings with the first fields of the update folded in: the window,
    /// then the peak, the rate, the depth, the duration, the ramp and the
    /// seed.
    pub open spec fn folded(self, cfg: WeatherConfig, fields: int) -> WeatherConfig {
        WeatherConfig {
            sunrise: match self.sunrise {
                Some(v) if fields >= 1 => v,
                _ => cfg.sunrise,
            },
            sunset: match self.sunset {
                Some(v) if fields >= 1 => v,
                _ => cfg.sunset,
            },
            peak_pct: match self.peak_pct {
                Some(v) if fields >= 2 => v,
                _ => cfg.peak_pct,
            },
            cloud_rate_per_h: match self.cloud_rate_per_h {
                Some(v) if fields >= 3 => if Single::lit(ZERO).flt(v) {
                    Some(v)
                } else {
                    None
                },
                _ => cfg.cloud_rate_per_h,
            },
            cloud_depth: match self.cloud_depth {
                Some(v) if fields >= 4 => v,
                _ => cfg.cloud_depth,
            },
            cloud_duration: match self.cloud_duration {
                Some(v) if fields >= 5 => v,
                _ => cfg.cloud_duration,
            },
            cloud_ramp: match self.cloud_ramp {
                Some(v) if fields >= 6 => v,
                _ => cfg.cloud_ramp,
            },
            seed: match self.seed {
                Some(v) if fields >= 7 => Some(v),
                _ => cfg.seed,
            },
        }
    }

    /// The first fault of the update over these settings, with the number of
    /// fields folded in ahead of it. The window is judged on the pair that the
    /// update makes.
    pub open spec fn fault(self, cfg: WeatherConfig) -> Option<(int, WeatherField, WeatherError)> {
        let pair = self.folded(cfg, 1);
        if pair.sunrise.total() >= pair.sunset.total() {
            Some((
                1,
                WeatherField::Window,
                WeatherError::Window(pair.sunrise.secs, pair.sunset.secs),
            ))
        } else if self.peak_pct is Some && !crate::validate::is_amount(self.peak_pct->0) {
            Some((1, WeatherField::Peak, WeatherError::Peak(self.peak_pct->0)))
        } else if self.cloud_rate_per_h is Some && rate_fault(self.cloud_rate_per_h->0) is Some {
            Some((2, WeatherField::CloudRate, rate_fault(self.cloud_rate_per_h->0)->0))
        } else if self.cloud_depth is Some && depth_fault(self.cloud_depth->0) is Some {
            Some((3, WeatherField::CloudDepth, depth_fault(self.cloud_depth->0)->0))
        } else if self.cloud_duration is Some && secs_fault(self.cloud_duration->0) is Some {
            Some((4, WeatherField::CloudDuration, secs_fault(self.cloud_duration->0)->0))
        } else if self.cloud_ramp is Some && secs_fault(self.cloud_ramp->0) is Some {
            Some((5, WeatherField::CloudRamp, secs_fault(self.cloud_ramp->0)->0))
        } else {
            None
        }
    }

    /// Folds the update into `cfg`, a working copy, checking on the way. The
    /// first fault ends it.
    pub fn apply_to(&self, cfg: &mut WeatherConfig, door: WeatherDoor<'_>) -> (r: Result<
        (),
        PatchError,
    >)
        requires
            self.wf(),
            old(cfg).wf(),
        ensures
            final(cfg).wf(),
            match self.fault(*old(cfg)) {
                None => r is Ok && *final(cfg) == self.folded(*old(cfg), 7),
                Some((fields, field, cause)) => {
                    &&& r matches Err(e) && e.at@ == field.introduction(door) && e.cause == cause
                    &&& *final(cfg) == self.folded(*old(cfg), fields)
                },
            },
    {
        if let Some(v) = self.sunrise {
            cfg.sunrise = v;
        }
        if let Some(v) = self.sunset {
            cfg.sunset = v;
        }
        if sunrise_before_sunset(cfg.sunrise, cfg.sunset).is_err() {
            let cause = WeatherError::Window(cfg.sunrise.secs, cfg.sunset.secs);
            return Err(refusal(WeatherField::Window, &door, cause));
        }
        if let Some(v) = self.peak_pct {
            if let Err(e) = peak_pct(v) {
                return Err(refusal(WeatherField::Peak, &door, e));
            }
            cfg.peak_pct = v;
        }
        if let Some(v) = self.cloud_rate_per_h {
            match cloud_rate(v) {
                Ok(rate) => {
                    cfg.cloud_rate_per_h = rate;
                },
                Err(e) => {
                    return Err(refusal(WeatherField::CloudRate, &door, e));
                },
            }
        }
        if let Some(range) = self.cloud_depth {
            if let Err(e) = depth_range(range) {
                return Err(refusal(WeatherField::CloudDepth, &door, e));
            }
            cfg.cloud_depth = range;
        }
        if let Some(range) = self.cloud_duration {
            if let Err(e) = secs_range(range) {
                return Err(refusal(WeatherField::CloudDuration, &door, e));
            }
            cfg.cloud_duration = range;
        }
        if let Some(range) = self.cloud_ramp {
            if let Err(e) = secs_range(range) {
                return Err(refusal(WeatherField::CloudRamp, &door, e));
            }
            cfg.cloud_ramp = range;
        }
        if let Some(seed) = self.seed {
            cfg.seed = Some(seed);
        }
        Ok(())
    }

    /// The settings that an update starts from.
    pub open spec fn base(existing: Option<WeatherConfig>) -> WeatherConfig {
        match existing {
            Some(c) => c,
            None => WeatherConfig::standard(),
        }
    }

    /// The site's weather after an accepted update over what the caller saw
    /// of it. Weather that was seen is updated where it still is; a seed
    /// starts it afresh. Weather that was not seen is created.
    pub open spec fn is_installed(
        self,
        before: Option<Weather>,
        after: Option<Weather>,
        existing: Option<WeatherConfig>,
    ) -> bool {
        let cfg = self.folded(Self::base(existing), 7);
        if existing is None || (self.seed is Some && before is Some) {
            after matches Some(w) && w.cfg == cfg && w.events@.len() == 0 && w.anchor is None
                && w.next_arrival is None
        } else {
            match (before, after) {
                (Some(b), Some(a)) => a == Weather { cfg, ..b },
                (b, a) => a == b,
            }
        }
    }

    /// Folds the update into the weather and installs the result; `existing`
    /// is the caller's own reading of the settings. A refused update changes
    /// nothing, and one over weather that has gone since is lost with it.
    pub fn install_over(
        &self,
        weather: &mut Option<Weather>,
        door: WeatherDoor<'_>,
        existing: Option<WeatherConfig>,
    ) -> (r: Result<(), PatchError>)
        requires
            self.wf(),
            *old(weather) matches Some(w) ==> w.wf(),
            existing matches Some(c) ==> c.wf(),
        ensures
            *final(weather) matches Some(w) ==> w.wf(),
            match self.fault(Self::base(existing)) {
                None => r is Ok && self.is_installed(*old(weather), *final(weather), existing),
                Some((fields, field, cause)) => {
                    &&& r matches Err(e) && e.at@ == field.introduction(door) && e.cause == cause
                    &&& *final(weather) == *old(weather)
                },
            },
    {
        let existed = existing.is_some();
        let mut cfg = match existing {
            Some(c) => c,
            None => WeatherConfig::default(),
        };
        if let Err(e) = self.apply_to(&mut cfg, door) {
            return Err(e);
        }
        if !existed {
            *weather = Some(Weather::new(cfg));
        } else if self.seed.is_some() {
            if weather.is_some() {
                *weather = Some(Weather::new(cfg));
            }
        } else {
            let present = weather.take();
            *weather = match present {
                Some(mut w) => {
                    w.cfg = cfg;
                    Some(w)
                },
                None => None,
            };
        }
        Ok(())
    }

    /// Folds the update into the site's weather as it is now.
    pub fn install(&self, site: &mut MicrogridSite, door: WeatherDoor<'_>) -> (r: Result<
        (),
        PatchError,
    >)
        requires
            self.wf(),
            old(site).wf(),
        ensures
            final(site).wf(),
            *final(site) == (MicrogridSite { weather: final(site).weather, ..*old(site) }),
            match self.fault(Self::base(old(site).weather_config())) {
                None => r is Ok && self.is_installed(
                    old(site).weather,
                    final(site).weather,
                    old(site).weather_config(),
                ),
                Some((fields, field, cause)) => {
                    &&& r matches Err(e) && e.at@ == field.introduction(door) && e.cause == cause
                    &&& *final(site) == *old(site)
                },
            },
    {
        let existing = match &site.weather {
            Some(w) => Some(w.cfg),
            None => None,
        };
        self.install_over(&mut site.weather, door, existing)
    }
}

/// An update without a fault that moves nothing leaves the settings alone.
pub proof fn law_empty_update_changes_nothing(cfg: WeatherConfig)
    ensures
        (WeatherPatch {
            sunrise: None,
            sunset: None,
            peak_pct: None,
            cloud_rate_per_h: None,
            cloud_depth: None,
            cloud_duration: None,
            cloud_ramp: None,
            seed: None,
        }).folded(cfg, 7) == cfg,
{
}

/// Weather that has gone since the caller saw it is not brought back.
pub proof fn law_gone_weather_stays_gone(
    patch: WeatherPatch,
    after: Option<Weather>,
    seen: WeatherConfig,
)
    requires
        patch.is_installed(None, after, Some(seen)),
    ensures
        after is None,
{
}

/// An update sets each field that it names, and keeps the rest. A rate that is
/// not positive turns the clouds off.
pub proof fn law_update_sets_what_it_names(p: WeatherPatch, cfg: WeatherConfig)
    ensures
        ({
            let after = p.folded(cfg, 7);
            &&& after.sunrise == if p.sunrise is Some {
                p.sunrise->0
            } else {
                cfg.sunrise
            }
            &&& after.sunset == if p.sunset is Some {
                p.sunset->0
            } else {
                cfg.sunset
            }
            &&& after.peak_pct == if p.peak_pct is Some {
                p.peak_pct->0
            } else {
                cfg.peak_pct
            }
            &&& after.cloud_depth == if p.cloud_depth is Some {
                p.cloud_depth->0
            } else {
                cfg.cloud_depth
            }
            &&& after.cloud_duration == if p.cloud_duration is Some {
                p.cloud_duration->0
            } else {
                cfg.cloud_duration
            }
            &&& after.cloud_ramp == if p.cloud_ramp is Some {
                p.cloud_ramp->0
            } else {
                cfg.cloud_ramp
            }
            &&& after.seed == if p.seed is Some {
                p.seed
            } else {
                cfg.seed
            }
            &&& p.cloud_rate_per_h is None ==> after.cloud_rate_per_h == cfg.cloud_rate_per_h
            &&& p.cloud_rate_per_h matches Some(r) ==> (r.finite() ==> after.cloud_rate_per_h
                == if r.value() > 0real {
                Some(r)
            } else {
                None
            })
        }),
{
    crate::accuracy::lemma_val_zero();
    if let Some(r) = p.cloud_rate_per_h {
        if r.finite() {
            crate::accuracy::law_values_keep_order(r, Single::lit(ZERO));
        }
    }
}

} // verus!
