//! The texts of errors and bounds, as pieces: words, and numbers that are
//! still to be written out in their shortest decimal notation.

use crate::bounds::{Bounds, VecBounds};
use crate::component::SetpointError;
use crate::double::Double;
use crate::ev_presets::{EvError, EvField};
use crate::single::Single;
use crate::text::push_decimal;
use crate::validate::WeatherError;
use crate::weather_patch::PatchError;
use vstd::prelude::*;
use vstd::string::*;

verus! {

#[derive(Debug)]
pub enum Piece {
    Words(String),
    Number(Single),
    WideNumber(Double),
    /// The reason for which a number of seconds is no span of time.
    SpanFault(Double),
}

pub enum PieceView {
    Words(Seq<char>),
    Number(Single),
    WideNumber(Double),
    SpanFault(Double),
}

impl View for Piece {
    type V = PieceView;

    open spec fn view(&self) -> PieceView {
        match self {
            Piece::Words(s) => PieceView::Words(s@),
            Piece::Number(v) => PieceView::Number(*v),
            Piece::WideNumber(v) => PieceView::WideNumber(*v),
            Piece::SpanFault(v) => PieceView::SpanFault(*v),
        }
    }
}

/// The pieces as their views.
pub open spec fn piece_views(p: Seq<Piece>) -> Seq<PieceView> {
    p.map_values(|x: Piece| x@)
}

pub open spec fn words(s: Seq<char>) -> PieceView {
    PieceView::Words(s)
}

fn say(out: &mut Vec<Piece>, s: &str)
    ensures
        piece_views(final(out)@) == piece_views(old(out)@).push(words(s@)),
{
    out.push(Piece::Words(String::from_str(s)));
    assert(piece_views(out@) =~= piece_views(old(out)@).push(words(s@)));
}

fn say_number(out: &mut Vec<Piece>, v: Single)
    ensures
        piece_views(final(out)@) == piece_views(old(out)@).push(PieceView::Number(v)),
{
    out.push(Piece::Number(v));
    assert(piece_views(out@) =~= piece_views(old(out)@).push(PieceView::Number(v)));
}

fn say_wide(out: &mut Vec<Piece>, v: Double)
    ensures
        piece_views(final(out)@) == piece_views(old(out)@).push(PieceView::WideNumber(v)),
{
    out.push(Piece::WideNumber(v));
    assert(piece_views(out@) =~= piece_views(old(out)@).push(PieceView::WideNumber(v)));
}

fn say_fault(out: &mut Vec<Piece>, v: Double)
    ensures
        piece_views(final(out)@) == piece_views(old(out)@).push(PieceView::SpanFault(v)),
{
    out.push(Piece::SpanFault(v));
    assert(piece_views(out@) =~= piece_views(old(out)@).push(PieceView::SpanFault(v)));
}

/// One side of a band; a star where it is open.
pub open spec fn side_piece(v: Option<Single>) -> PieceView {
    match v {
        Some(v) => PieceView::Number(v),
        None => words("*"@),
    }
}

pub open spec fn band_pieces(b: Bounds) -> Seq<PieceView> {
    seq![words("["@), side_piece(b.lower), words(", "@), side_piece(b.upper), words("]"@)]
}

/// The bands with commas between them.
pub open spec fn joined_pieces(bands: Seq<Bounds>) -> Seq<PieceView>
    decreases bands.len(),
{
    if bands.len() == 0 {
        Seq::empty()
    } else if bands.len() == 1 {
        band_pieces(bands[0])
    } else {
        joined_pieces(bands.drop_last()).push(words(", "@)) + band_pieces(bands.last())
    }
}

/// Bounds as a text; a pair of brackets without any.
pub open spec fn bounds_pieces(bands: Seq<Bounds>) -> Seq<PieceView> {
    if bands.len() == 0 {
        seq![words("[]"@)]
    } else {
        joined_pieces(bands)
    }
}

fn say_side(out: &mut Vec<Piece>, v: Option<Single>)
    ensures
        piece_views(final(out)@) == piece_views(old(out)@).push(side_piece(v)),
{
    match v {
        Some(v) => {
            say_number(out, v);
        },
        None => {
            say(out, "*");
        },
    }
}

fn say_bounds(out: &mut Vec<Piece>, bands: &Vec<Bounds>)
    ensures
        piece_views(final(out)@) == piece_views(old(out)@) + bounds_pieces(bands@),
{
    let ghost before = piece_views(out@);
    if bands.len() == 0 {
        say(out, "[]");
        assert(piece_views(out@) =~= before + bounds_pieces(bands@));
        return;
    }
    let mut i: usize = 0;
    assert(bands@.take(0) =~= Seq::empty());
    assert(piece_views(out@) =~= before + joined_pieces(bands@.take(0)));
    while i < bands.len()
        invariant
            i <= bands@.len(),
            piece_views(out@) == before + joined_pieces(bands@.take(i as int)),
        decreases bands@.len() - i,
    {
        let ghost so_far = piece_views(out@);
        if i > 0 {
            say(out, ", ");
        }
        let b = bands[i];
        say(out, "[");
        say_side(out, b.lower);
        say(out, ", ");
        say_side(out, b.upper);
        say(out, "]");
        proof {
            let now = bands@.take(i + 1);
            assert(now.drop_last() =~= bands@.take(i as int));
            assert(now.last() == b);
            if i == 0 {
                assert(now[0] == b);
                assert(joined_pieces(bands@.take(0)) =~= Seq::empty());
                assert(piece_views(out@) =~= before + band_pieces(b));
            } else {
                assert(piece_views(out@) =~= so_far.push(words(", "@)) + band_pieces(b));
                assert(piece_views(out@) =~= before + joined_pieces(now));
            }
        }
        i += 1;
    }
    assert(bands@.take(bands@.len() as int) =~= bands@);
}

impl VecBounds {
    /// The bounds as a text.
    pub fn message(&self) -> (r: Vec<Piece>)
        ensures
            piece_views(r@) == bounds_pieces(self@),
    {
        let mut out: Vec<Piece> = Vec::new();
        say_bounds(&mut out, &self.0);
        assert(piece_views(out@) =~= bounds_pieces(self@));
        out
    }
}

impl SetpointError {
    pub open spec fn pieces(self) -> Seq<PieceView> {
        match self {
            SetpointError::OutOfBounds { value, unit, envelope } => seq![
                words("set-point "@),
                PieceView::Number(value),
                words(" "@),
                words(unit@),
                words(" out of bounds "@),
            ] + bounds_pieces(envelope@),
            SetpointError::Unsupported => seq![
                words("operation not supported by this component type"@),
            ],
        }
    }

    pub fn message(&self) -> (r: Vec<Piece>)
        ensures
            piece_views(r@) == self.pieces(),
    {
        let mut out: Vec<Piece> = Vec::new();
        match self {
            SetpointError::OutOfBounds { value, unit, envelope } => {
                say(&mut out, "set-point ");
                say_number(&mut out, *value);
                say(&mut out, " ");
                say(&mut out, unit);
                say(&mut out, " out of bounds ");
                say_bounds(&mut out, &envelope.0);
            },
            SetpointError::Unsupported => {
                say(&mut out, "operation not supported by this component type");
            },
        }
        assert(piece_views(out@) =~= self.pieces());
        out
    }
}

/// A pair of numbers in brackets behind `got`.
pub open spec fn pair_pieces(a: Single, b: Single) -> Seq<PieceView> {
    seq![words("("@), PieceView::Number(a), words(", "@), PieceView::Number(b), words(")"@)]
}

impl WeatherError {
    pub open spec fn pieces(self) -> Seq<PieceView> {
        match self {
            WeatherError::SecsRange(a, b) => seq![
                words(
                    "must be a non-negative number of seconds no greater than 86400 (one day), got "@,
                ),
            ] + pair_pieces(a, b),
            WeatherError::LagNegative(v) => seq![
                words("must be a non-negative number of seconds, got "@),
                PieceView::WideNumber(v),
            ],
            WeatherError::LagTooLong(v) => seq![
                words(
                    "must be no more than 3600 s: cloud events are pruned an hour after they end, so a longer lag reads a sky with no clouds left in it; got "@,
                ),
                PieceView::WideNumber(v),
            ],
            WeatherError::DepthRange(a, b) => seq![words("must be within [0, 100], got "@)]
                + pair_pieces(a, b),
            WeatherError::Peak(v) => seq![
                words("must be a non-negative percentage, got "@),
                PieceView::Number(v),
            ],
            WeatherError::RateNegative(v) => seq![
                words("must be a non-negative rate (0 disables), got "@),
                PieceView::Number(v),
            ],
            WeatherError::RateTooHigh(v) => seq![
                words("must be no more than 3600 (one cloud a second), got "@),
                PieceView::Number(v),
            ],
            WeatherError::Window(rise, set) => seq![
                words(crate::validate::window_text(rise, set)),
            ],
            WeatherError::CloudDepth(v) => seq![
                words("depth must be within [0, 100], got "@),
                PieceView::WideNumber(v),
            ],
            WeatherError::CloudSpans(duration, ramp) => seq![
                words("duration and ramp must be non-negative, got "@),
                PieceView::WideNumber(duration),
                words(" and "@),
                PieceView::WideNumber(ramp),
            ],
            WeatherError::BadDuration(v) => seq![
                words("bad duration: "@),
                PieceView::SpanFault(v),
            ],
            WeatherError::BadRamp(v) => seq![words("bad ramp: "@), PieceView::SpanFault(v)],
        }
    }

    pub fn message(&self) -> (r: Vec<Piece>)
        ensures
            piece_views(r@) == self.pieces(),
    {
        let mut out: Vec<Piece> = Vec::new();
        self.say_into(&mut out);
        assert(piece_views(out@) =~= self.pieces());
        out
    }

    fn say_into(&self, out: &mut Vec<Piece>)
        ensures
            piece_views(final(out)@) == piece_views(old(out)@) + self.pieces(),
    {
        let ghost before = piece_views(out@);
        match self {
            WeatherError::SecsRange(a, b) => {
                say(
                    out,
                    "must be a non-negative number of seconds no greater than 86400 (one day), got ",
                );
                say_pair(out, *a, *b);
            },
            WeatherError::LagNegative(v) => {
                say(out, "must be a non-negative number of seconds, got ");
                say_wide(out, *v);
            },
            WeatherError::LagTooLong(v) => {
                say(
                    out,
                    "must be no more than 3600 s: cloud events are pruned an hour after they end, so a longer lag reads a sky with no clouds left in it; got ",
                );
                say_wide(out, *v);
            },
            WeatherError::DepthRange(a, b) => {
                say(out, "must be within [0, 100], got ");
                say_pair(out, *a, *b);
            },
            WeatherError::Peak(v) => {
                say(out, "must be a non-negative percentage, got ");
                say_number(out, *v);
            },
            WeatherError::RateNegative(v) => {
                say(out, "must be a non-negative rate (0 disables), got ");
                say_number(out, *v);
            },
            WeatherError::RateTooHigh(v) => {
                say(out, "must be no more than 3600 (one cloud a second), got ");
                say_number(out, *v);
            },
            WeatherError::Window(rise, set) => {
                let text = crate::validate::window_message(*rise, *set);
                say(out, text.as_str());
            },
            WeatherError::CloudDepth(v) => {
                say(out, "depth must be within [0, 100], got ");
                say_wide(out, *v);
            },
            WeatherError::CloudSpans(duration, ramp) => {
                say(out, "duration and ramp must be non-negative, got ");
                say_wide(out, *duration);
                say(out, " and ");
                say_wide(out, *ramp);
            },
            WeatherError::BadDuration(v) => {
                say(out, "bad duration: ");
                say_fault(out, *v);
            },
            WeatherError::BadRamp(v) => {
                say(out, "bad ramp: ");
                say_fault(out, *v);
            },
        }
        assert(piece_views(out@) =~= before + self.pieces());
    }
}

fn say_pair(out: &mut Vec<Piece>, a: Single, b: Single)
    ensures
        piece_views(final(out)@) == piece_views(old(out)@) + pair_pieces(a, b),
{
    let ghost before = piece_views(out@);
    say(out, "(");
    say_number(out, a);
    say(out, ", ");
    say_number(out, b);
    say(out, ")");
    assert(piece_views(out@) =~= before + pair_pieces(a, b));
}

impl PatchError {
    pub fn message(&self) -> (r: Vec<Piece>)
        ensures
            piece_views(r@) == seq![words(self.at@), words(" "@)] + self.cause.pieces(),
    {
        let mut out: Vec<Piece> = Vec::new();
        say(&mut out, self.at.as_str());
        say(&mut out, " ");
        self.cause.say_into(&mut out);
        assert(piece_views(out@) =~= seq![words(self.at@), words(" "@)] + self.cause.pieces());
        out
    }
}

impl EvField {
    /// The field as an override names it.
    pub open spec fn label_text(self) -> Seq<char> {
        match self {
            EvField::Capacity => "capacity"@,
            EvField::Soc => "soc"@,
            EvField::TargetSoc => "target-soc"@,
            EvField::MaxCurrent => "max-current-a"@,
            EvField::TaperStart => "taper-start"@,
        }
    }

    pub fn label(self) -> (r: &'static str)
        ensures
            r@ == self.label_text(),
    {
        match self {
            EvField::Capacity => "capacity",
            EvField::Soc => "soc",
            EvField::TargetSoc => "target-soc",
            EvField::MaxCurrent => "max-current-a",
            EvField::TaperStart => "taper-start",
        }
    }
}

impl EvError {
    pub open spec fn pieces(self) -> Seq<PieceView> {
        match self {
            EvError::Phases(n) => seq![
                words("phases must be 1, 2 or 3, got "@),
                words(crate::text::decimal(n as nat)),
            ],
            EvError::TaperFloor(v) => seq![
                words("taper-floor must be within 0..=1, got "@),
                PieceView::Number(v),
            ],
            EvError::NotPositive(field, v) => seq![
                words(field.label_text()),
                words(" must be a positive number, got "@),
                PieceView::Number(v),
            ],
            EvError::NotPercent(field, v) => seq![
                words(field.label_text()),
                words(" must be within 0..=100, got "@),
                PieceView::Number(v),
            ],
        }
    }

    pub fn message(&self) -> (r: Vec<Piece>)
        ensures
            piece_views(r@) == self.pieces(),
    {
        let mut out: Vec<Piece> = Vec::new();
        match self {
            EvError::Phases(n) => {
                say(&mut out, "phases must be 1, 2 or 3, got ");
                let mut digits = String::new();
                push_decimal(&mut digits, *n as u128);
                assert(digits@ =~= crate::text::decimal(*n as nat));
                say(&mut out, digits.as_str());
            },
            EvError::TaperFloor(v) => {
                say(&mut out, "taper-floor must be within 0..=1, got ");
                say_number(&mut out, *v);
            },
            EvError::NotPositive(field, v) => {
                say(&mut out, field.label());
                say(&mut out, " must be a positive number, got ");
                say_number(&mut out, *v);
            },
            EvError::NotPercent(field, v) => {
                say(&mut out, field.label());
                say(&mut out, " must be within 0..=100, got ");
                say_number(&mut out, *v);
            },
        }
        assert(piece_views(out@) =~= self.pieces());
        out
    }
}

} // verus!
