//! Power bounds: lists of bands, and a component's rated band narrowed by
//! time-limited augmentations.

use crate::component::SetpointError;
use crate::single::{Single, INFINITY, LOWEST, NEG_INFINITY, ZERO};
use crate::time::{utc_now, Span, Timestamp};
use std::collections::VecDeque;
use vstd::prelude::*;

verus! {

/// One band of values. A side without an edge is unbounded.
#[derive(Clone, Copy, Debug, PartialEq, Eq)]
pub struct Bounds {
    pub lower: Option<Single>,
    pub upper: Option<Single>,
}

/// A list of bands; a value is legal where some band covers it.
#[derive(Debug, PartialEq, Eq)]
pub struct VecBounds(pub Vec<Bounds>);

impl View for VecBounds {
    type V = Seq<Bounds>;

    open spec fn view(&self) -> Seq<Bounds> {
        self.0@
    }
}

impl Clone for VecBounds {
    fn clone(&self) -> (r: Self)
        ensures
            r@ == self@,
    {
        let mut out: Vec<Bounds> = Vec::new();
        let mut i: usize = 0;
        while i < self.0.len()
            invariant
                i <= self.0.len(),
                out@ == self@.take(i as int),
            decreases self.0.len() - i,
        {
            out.push(self.0[i]);
            i = i + 1;
            assert(self@.take(i as int) == self@.take(i - 1).push(self@[i - 1]));
        }
        assert(self@.take(i as int) == self@);
        VecBounds(out)
    }
}

impl Default for VecBounds {
    fn default() -> (r: Self)
        ensures
            r@ == Seq::<Bounds>::empty(),
    {
        VecBounds(Vec::new())
    }
}

// ---------------------------------------------------------------------------
// Bands

/// No edge excludes the value. Not-a-number compares with no edge, so no edge
/// excludes it.
pub open spec fn band_covers(b: Bounds, value: Single) -> bool {
    &&& !(b.lower matches Some(l) && value.flt(l))
    &&& !(b.upper matches Some(u) && u.flt(value))
}

/// Some band covers the value.
pub open spec fn covers(s: Seq<Bounds>, value: Single) -> bool {
    exists|i: int| 0 <= i < s.len() && band_covers(#[trigger] s[i], value)
}

/// The one band from `lower` to `upper`.
pub open spec fn one_band(lower: Single, upper: Single) -> Seq<Bounds> {
    seq![Bounds { lower: Some(lower), upper: Some(upper) }]
}

/// The larger lower edge; an absent edge gives way.
pub open spec fn tighter_lower(a: Option<Single>, b: Option<Single>) -> Option<Single> {
    match (a, b) {
        (Some(x), Some(y)) => Some(x.fmax(y)),
        (Some(x), None) => Some(x),
        (None, y) => y,
    }
}

/// The smaller upper edge; an absent edge gives way.
pub open spec fn tighter_upper(a: Option<Single>, b: Option<Single>) -> Option<Single> {
    match (a, b) {
        (Some(x), Some(y)) => Some(x.fmin(y)),
        (Some(x), None) => Some(x),
        (None, y) => y,
    }
}

/// The common part of two bands; `None` where they are disjoint.
pub open spec fn band_meet(a: Bounds, b: Bounds) -> Option<Bounds> {
    let lower = tighter_lower(a.lower, b.lower);
    let upper = tighter_upper(a.upper, b.upper);
    if lower is Some && upper is Some && upper->0.flt(lower->0) {
        None
    } else {
        Some(Bounds { lower, upper })
    }
}

/// The hull of two bands that have a common part; `None` where they are
/// disjoint.
pub open spec fn band_join(a: Bounds, b: Bounds) -> Option<Bounds> {
    if band_meet(a, b) is Some {
        Some(
            Bounds {
                lower: if a.lower is Some && b.lower is Some {
                    Some(a.lower->0.fmin(b.lower->0))
                } else {
                    None
                },
                upper: if a.upper is Some && b.upper is Some {
                    Some(a.upper->0.fmax(b.upper->0))
                } else {
                    None
                },
            },
        )
    } else {
        None
    }
}

/// What a band is ordered by: its lower edge, the lowest finite number where
/// it has none.
pub open spec fn sort_key(b: Bounds) -> Single {
    match b.lower {
        Some(l) => l,
        None => Single::lit(LOWEST),
    }
}

/// `b` put in front of the first band with a larger key.
pub open spec fn band_inserted(s: Seq<Bounds>, b: Bounds) -> Seq<Bounds>
    decreases s.len(),
{
    if s.len() == 0 {
        seq![b]
    } else if sort_key(b).flt(sort_key(s[0])) {
        seq![b] + s
    } else {
        seq![s[0]] + band_inserted(s.skip(1), b)
    }
}

/// The bands in the order of their keys, equal keys in the order given.
pub open spec fn bands_sorted(s: Seq<Bounds>) -> Seq<Bounds>
    decreases s.len(),
{
    if s.len() == 0 {
        s
    } else {
        band_inserted(bands_sorted(s.drop_last()), s.last())
    }
}

/// `current` and the bands after it, each run of overlapping bands joined.
pub open spec fn bands_fused(current: Bounds, rest: Seq<Bounds>) -> Seq<Bounds>
    decreases rest.len(),
{
    if rest.len() == 0 {
        seq![current]
    } else {
        match band_join(current, rest[0]) {
            Some(joined) => bands_fused(joined, rest.skip(1)),
            None => seq![current] + bands_fused(rest[0], rest.skip(1)),
        }
    }
}

/// The bands sorted, with overlapping ones joined.
pub open spec fn bands_squashed(s: Seq<Bounds>) -> Seq<Bounds> {
    let sorted = bands_sorted(s);
    if sorted.len() == 0 {
        sorted
    } else {
        bands_fused(sorted[0], sorted.skip(1))
    }
}

/// The common parts of `b` with each band of `s`, in order.
pub open spec fn meets_with(b: Bounds, s: Seq<Bounds>) -> Seq<Bounds>
    decreases s.len(),
{
    if s.len() == 0 {
        s
    } else {
        let before = meets_with(b, s.drop_last());
        match band_meet(b, s.last()) {
            Some(m) => before.push(m),
            None => before,
        }
    }
}

/// The common parts of every pair of bands, in order.
pub open spec fn meets(s: Seq<Bounds>, t: Seq<Bounds>) -> Seq<Bounds>
    decreases s.len(),
{
    if s.len() == 0 {
        s
    } else {
        meets(s.drop_last(), t) + meets_with(s.last(), t)
    }
}

/// The intersection of two lists of bands.
pub open spec fn bands_meet(s: Seq<Bounds>, t: Seq<Bounds>) -> Seq<Bounds> {
    bands_squashed(meets(s, t))
}

/// The index of the first band whose lower edge is above the value.
pub open spec fn first_above(s: Seq<Bounds>, value: Single) -> int
    decreases s.len(),
{
    if s.len() == 0 {
        0
    } else if s[0].lower matches Some(l) && value.flt(l) {
        0
    } else {
        1 + first_above(s.skip(1), value)
    }
}

/// The upper edge of the last band that has one.
pub open spec fn last_upper(s: Seq<Bounds>) -> Option<Single>
    decreases s.len(),
{
    if s.len() == 0 {
        None
    } else if s.last().upper is Some {
        s.last().upper
    } else {
        last_upper(s.drop_last())
    }
}

/// The value itself where it is covered or no band exists; else the nearer of
/// the upper edge below it and the lower edge above it, the upper edge on a
/// tie.
pub open spec fn bands_clamp(s: Seq<Bounds>, value: Single) -> Single {
    if s.len() == 0 || covers(s, value) {
        value
    } else {
        let i = first_above(s, value);
        let below = last_upper(s.take(i));
        if i < s.len() {
            let above = s[i].lower->0;
            match below {
                Some(b) => if value.fsub(b).fabs().fle(above.fsub(value).fabs()) {
                    b
                } else {
                    above
                },
                None => above,
            }
        } else {
            match below {
                Some(b) => b,
                None => value,
            }
        }
    }
}

/// The lowest lower edge, where every band has one.
pub open spec fn hull_lower(s: Seq<Bounds>) -> Option<Single>
    decreases s.len(),
{
    if s.len() == 0 {
        Some(Single::lit(INFINITY))
    } else {
        match (hull_lower(s.drop_last()), s.last().lower) {
            (Some(a), Some(l)) => Some(a.fmin(l)),
            _ => None,
        }
    }
}

/// The highest upper edge, where every band has one.
pub open spec fn hull_upper(s: Seq<Bounds>) -> Option<Single>
    decreases s.len(),
{
    if s.len() == 0 {
        Some(Single::lit(NEG_INFINITY))
    } else {
        match (hull_upper(s.drop_last()), s.last().upper) {
            (Some(a), Some(u)) => Some(a.fmax(u)),
            _ => None,
        }
    }
}

/// The sum of the hulls' lower edges, in order; absent edges and lists
/// without bands add nothing.
pub open spec fn lower_sum(items: Seq<Seq<Bounds>>) -> Single
    decreases items.len(),
{
    if items.len() == 0 {
        Single::lit(ZERO)
    } else {
        let before = lower_sum(items.drop_last());
        let last = items.last();
        if last.len() > 0 && hull_lower(last) is Some {
            before.fadd(hull_lower(last)->0)
        } else {
            before
        }
    }
}

/// The sum of the hulls' upper edges, in order; absent edges and lists
/// without bands add nothing.
pub open spec fn upper_sum(items: Seq<Seq<Bounds>>) -> Single
    decreases items.len(),
{
    if items.len() == 0 {
        Single::lit(ZERO)
    } else {
        let before = upper_sum(items.drop_last());
        let last = items.last();
        if last.len() > 0 && hull_upper(last) is Some {
            before.fadd(hull_upper(last)->0)
        } else {
            before
        }
    }
}

/// Some list has a band.
pub open spec fn any_bands(items: Seq<Seq<Bounds>>) -> bool {
    exists|i: int| 0 <= i < items.len() && (#[trigger] items[i]).len() > 0
}

/// The lists summed into one band; no band where no list has one.
pub open spec fn bands_sum(items: Seq<Seq<Bounds>>) -> Seq<Bounds> {
    if any_bands(items) {
        one_band(lower_sum(items), upper_sum(items))
    } else {
        Seq::empty()
    }
}

fn bounds_contains(b: &Bounds, value: Single) -> (r: bool)
    ensures
        r == band_covers(*b, value),
{
    if let Some(l) = b.lower {
        if value.lt(l) {
            return false;
        }
    }
    if let Some(u) = b.upper {
        if u.lt(value) {
            return false;
        }
    }
    true
}

fn bounds_intersect(a: &Bounds, b: &Bounds) -> (r: Option<Bounds>)
    ensures
        r == band_meet(*a, *b),
{
    let lower = match (a.lower, b.lower) {
        (Some(x), Some(y)) => Some(x.max(y)),
        (Some(x), None) => Some(x),
        (None, y) => y,
    };
    let upper = match (a.upper, b.upper) {
        (Some(x), Some(y)) => Some(x.min(y)),
        (Some(x), None) => Some(x),
        (None, y) => y,
    };
    if let (Some(l), Some(u)) = (lower, upper) {
        if u.lt(l) {
            return None;
        }
    }
    Some(Bounds { lower, upper })
}

fn merge_if_overlapping(a: &Bounds, b: &Bounds) -> (r: Option<Bounds>)
    ensures
        r == band_join(*a, *b),
{
    match bounds_intersect(a, b) {
        Some(_) => {
            let lower = match (a.lower, b.lower) {
                (Some(x), Some(y)) => Some(x.min(y)),
                _ => None,
            };
            let upper = match (a.upper, b.upper) {
                (Some(x), Some(y)) => Some(x.max(y)),
                _ => None,
            };
            Some(Bounds { lower, upper })
        },
        None => None,
    }
}

fn key_of(b: &Bounds) -> (r: Single)
    ensures
        r == sort_key(*b),
{
    match b.lower {
        Some(l) => l,
        None => Single::from_bits(LOWEST),
    }
}

proof fn lemma_inserted_at(s: Seq<Bounds>, b: Bounds, j: int)
    requires
        0 <= j <= s.len(),
        forall|i: int| 0 <= i < j ==> !sort_key(b).flt(sort_key(#[trigger] s[i])),
        j < s.len() ==> sort_key(b).flt(sort_key(s[j])),
    ensures
        band_inserted(s, b) == s.insert(j, b),
    decreases s.len(),
{
    if j == 0 {
        assert(s.insert(0, b) == if s.len() == 0 {
            seq![b]
        } else {
            seq![b] + s
        });
    } else {
        let t = s.skip(1);
        assert forall|i: int| 0 <= i < j - 1 implies !sort_key(b).flt(sort_key(#[trigger] t[i])) by {
            assert(t[i] == s[i + 1]);
        }
        lemma_inserted_at(t, b, j - 1);
        assert(seq![s[0]] + t.insert(j - 1, b) == s.insert(j, b));
    }
}

fn sort_bands(input: &Vec<Bounds>) -> (out: Vec<Bounds>)
    ensures
        out@ == bands_sorted(input@),
{
    let mut out: Vec<Bounds> = Vec::new();
    let mut n: usize = 0;
    assert(input@.take(0) == Seq::<Bounds>::empty());
    while n < input.len()
        invariant
            n <= input.len(),
            out@ == bands_sorted(input@.take(n as int)),
        decreases input.len() - n,
    {
        let b = input[n];
        let key = key_of(&b);
        let mut j: usize = 0;
        while j < out.len() && !key.lt(key_of(&out[j]))
            invariant
                j <= out.len(),
                key == sort_key(b),
                forall|i: int|
                    0 <= i < j ==> !sort_key(b).flt(sort_key(#[trigger] out@[i])),
            decreases out.len() - j,
        {
            j = j + 1;
        }
        proof {
            lemma_inserted_at(out@, b, j as int);
            let t = input@.take(n + 1);
            assert(t.drop_last() == input@.take(n as int));
            assert(t.last() == b);
        }
        out.insert(j, b);
        n = n + 1;
    }
    assert(input@.take(n as int) == input@);
    out
}

fn squash(input: Vec<Bounds>) -> (r: VecBounds)
    ensures
        r@ == bands_squashed(input@),
{
    let sorted = sort_bands(&input);
    if sorted.len() == 0 {
        return VecBounds(sorted);
    }
    let mut done: Vec<Bounds> = Vec::new();
    let mut current = sorted[0];
    let mut i: usize = 1;
    assert(done@ + bands_fused(current, sorted@.skip(1)) == bands_fused(current, sorted@.skip(1)));
    while i < sorted.len()
        invariant
            1 <= i <= sorted.len(),
            sorted@ == bands_sorted(input@),
            bands_squashed(input@) == done@ + bands_fused(current, sorted@.skip(i as int)),
        decreases sorted.len() - i,
    {
        let next = sorted[i];
        proof {
            let rest = sorted@.skip(i as int);
            assert(rest[0] == next);
            assert(rest.skip(1) == sorted@.skip(i + 1));
        }
        match merge_if_overlapping(&current, &next) {
            Some(joined) => {
                current = joined;
            },
            None => {
                assert(done@ + (seq![current] + bands_fused(next, sorted@.skip(i + 1)))
                    == done@.push(current) + bands_fused(next, sorted@.skip(i + 1)));
                done.push(current);
                current = next;
            },
        }
        i = i + 1;
    }
    assert(sorted@.skip(i as int) == Seq::<Bounds>::empty());
    assert(done@ + seq![current] == done@.push(current));
    done.push(current);
    VecBounds(done)
}

impl VecBounds {
    pub fn single(lower: Single, upper: Single) -> (r: Self)
        ensures
            r@ == one_band(lower, upper),
    {
        let mut v: Vec<Bounds> = Vec::new();
        v.push(Bounds { lower: Some(lower), upper: Some(upper) });
        assert(v@ == one_band(lower, upper));
        VecBounds(v)
    }

    /// The bands in the order of their lower edges.
    pub fn new(bounds: Vec<Bounds>) -> (r: Self)
        ensures
            r@ == bands_sorted(bounds@),
    {
        VecBounds(sort_bands(&bounds))
    }

    pub fn is_empty(&self) -> (r: bool)
        ensures
            r == (self@.len() == 0),
    {
        self.0.len() == 0
    }

    pub fn contains(&self, value: Single) -> (r: bool)
        ensures
            r == covers(self@, value),
    {
        let mut i: usize = 0;
        while i < self.0.len()
            invariant
                i <= self.0.len(),
                forall|j: int| 0 <= j < i ==> !band_covers(#[trigger] self@[j], value),
            decreases self.0.len() - i,
        {
            if bounds_contains(&self.0[i], value) {
                assert(band_covers(self@[i as int], value));
                return true;
            }
            i = i + 1;
        }
        false
    }

    /// No band becomes the single band at zero: an envelope that is known and
    /// leaves no room, told apart from one that is not known.
    pub fn or_zero_band(self) -> (r: Self)
        ensures
            r@ == if self@.len() == 0 {
                one_band(Single::lit(ZERO), Single::lit(ZERO))
            } else {
                self@
            },
    {
        if self.0.len() == 0 {
            Self::single(Single::from_bits(ZERO), Single::from_bits(ZERO))
        } else {
            self
        }
    }

    /// Pulls a value that no band covers to the nearest edge.
    pub fn clamp(&self, value: Single) -> (r: Single)
        ensures
            r == bands_clamp(self@, value),
    {
        if self.0.len() == 0 || self.contains(value) {
            return value;
        }
        let mut below: Option<Single> = None;
        let mut i: usize = 0;
        assert(self@.take(0) == Seq::<Bounds>::empty());
        assert(self@.skip(0) == self@);
        while i < self.0.len()
            invariant
                i <= self.0.len(),
                self@.len() > 0,
                !covers(self@, value),
                below == last_upper(self@.take(i as int)),
                first_above(self@, value) == i + first_above(self@.skip(i as int), value),
            decreases self.0.len() - i,
        {
            let b = self.0[i];
            assert(self@.skip(i as int)[0] == b);
            if let Some(lower) = b.lower {
                if value.lt(lower) {
                    return match below {
                        Some(edge) => {
                            if value.minus(edge).abs().le(lower.minus(value).abs()) {
                                edge
                            } else {
                                lower
                            }
                        },
                        None => lower,
                    };
                }
            }
            if b.upper.is_some() {
                below = b.upper;
            }
            assert(self@.skip(i as int).skip(1) == self@.skip(i + 1));
            assert(self@.take(i + 1).drop_last() == self@.take(i as int));
            assert(self@.take(i + 1).last() == b);
            i = i + 1;
        }
        assert(self@.skip(i as int) == Seq::<Bounds>::empty());
        assert(self@.take(i as int) == self@);
        match below {
            Some(edge) => edge,
            None => value,
        }
    }

    /// The lists added up into one band; see [`bands_sum`].
    pub fn sum_single(items: &Vec<VecBounds>) -> (r: Self)
        ensures
            r@ == bands_sum(items@.map_values(|v: VecBounds| v@)),
    {
        let ghost bands = items@.map_values(|v: VecBounds| v@);
        let mut lower = Single::from_bits(ZERO);
        let mut upper = Single::from_bits(ZERO);
        let mut any = false;
        let mut i: usize = 0;
        assert(bands.take(0) == Seq::<Seq<Bounds>>::empty());
        while i < items.len()
            invariant
                i <= items.len(),
                bands == items@.map_values(|v: VecBounds| v@),
                lower == lower_sum(bands.take(i as int)),
                upper == upper_sum(bands.take(i as int)),
                any == (exists|j: int| 0 <= j < i && (#[trigger] bands[j]).len() > 0),
            decreases items.len() - i,
        {
            let item = &items[i];
            proof {
                let t = bands.take(i + 1);
                assert(t.drop_last() == bands.take(i as int));
                assert(t.last() == items@[i as int]@);
                assert(bands[i as int] == items@[i as int]@);
            }
            if item.0.len() > 0 {
                any = true;
                if let Some(l) = item.lower_hull() {
                    lower = lower.plus(l);
                }
                if let Some(u) = item.upper_hull() {
                    upper = upper.plus(u);
                }
            }
            i = i + 1;
        }
        assert(bands.take(i as int) == bands);
        if any {
            Self::single(lower, upper)
        } else {
            Self::default()
        }
    }

    fn lower_hull(&self) -> (r: Option<Single>)
        ensures
            r == hull_lower(self@),
    {
        let mut acc = Some(Single::from_bits(INFINITY));
        let mut i: usize = 0;
        assert(self@.take(0) == Seq::<Bounds>::empty());
        while i < self.0.len()
            invariant
                i <= self.0.len(),
                acc == hull_lower(self@.take(i as int)),
            decreases self.0.len() - i,
        {
            proof {
                let t = self@.take(i + 1);
                assert(t.drop_last() == self@.take(i as int));
                assert(t.last() == self@[i as int]);
            }
            acc = match (acc, self.0[i].lower) {
                (Some(a), Some(l)) => Some(a.min(l)),
                _ => None,
            };
            i = i + 1;
        }
        assert(self@.take(i as int) == self@);
        acc
    }

    fn upper_hull(&self) -> (r: Option<Single>)
        ensures
            r == hull_upper(self@),
    {
        let mut acc = Some(Single::from_bits(NEG_INFINITY));
        let mut i: usize = 0;
        assert(self@.take(0) == Seq::<Bounds>::empty());
        while i < self.0.len()
            invariant
                i <= self.0.len(),
                acc == hull_upper(self@.take(i as int)),
            decreases self.0.len() - i,
        {
            proof {
                let t = self@.take(i + 1);
                assert(t.drop_last() == self@.take(i as int));
                assert(t.last() == self@[i as int]);
            }
            acc = match (acc, self.0[i].upper) {
                (Some(a), Some(u)) => Some(a.max(u)),
                _ => None,
            };
            i = i + 1;
        }
        assert(self@.take(i as int) == self@);
        acc
    }

    /// The values that both lists cover.
    pub fn intersect(&self, other: &Self) -> (r: Self)
        ensures
            r@ == bands_meet(self@, other@),
    {
        let mut result: Vec<Bounds> = Vec::new();
        let mut i: usize = 0;
        assert(self@.take(0) == Seq::<Bounds>::empty());
        while i < self.0.len()
            invariant
                i <= self.0.len(),
                result@ == meets(self@.take(i as int), other@),
            decreases self.0.len() - i,
        {
            let b = self.0[i];
            let ghost before = result@;
            let mut j: usize = 0;
            assert(other@.take(0) == Seq::<Bounds>::empty());
            assert(before + Seq::<Bounds>::empty() == before);
            while j < other.0.len()
                invariant
                    j <= other.0.len(),
                    result@ == before + meets_with(b, other@.take(j as int)),
                decreases other.0.len() - j,
            {
                proof {
                    let t = other@.take(j + 1);
                    assert(t.drop_last() == other@.take(j as int));
                    assert(t.last() == other@[j as int]);
                }
                if let Some(m) = bounds_intersect(&b, &other.0[j]) {
                    assert(before + meets_with(b, other@.take(j as int)).push(m) == (before
                        + meets_with(b, other@.take(j as int))).push(m));
                    result.push(m);
                }
                j = j + 1;
            }
            proof {
                assert(other@.take(j as int) == other@);
                let t = self@.take(i + 1);
                assert(t.drop_last() == self@.take(i as int));
                assert(t.last() == b);
            }
            i = i + 1;
        }
        assert(self@.take(i as int) == self@);
        squash(result)
    }
}

// ---------------------------------------------------------------------------
// Rated bounds and augmentations

/// A narrowing of a component's bounds, in force for `lifetime` from
/// `create_ts` on.
#[derive(Debug)]
pub struct Aug {
    pub create_ts: Timestamp,
    pub bounds: VecBounds,
    pub lifetime: Span,
}

impl Aug {
    pub open spec fn wf(self) -> bool {
        self.create_ts.wf() && self.lifetime.wf()
    }

    /// `now` is before the end of the lifetime.
    pub open spec fn live(self, now: Timestamp) -> bool {
        now.total() < self.create_ts.total() + self.lifetime.total()
    }

    /// A lifetime that runs past the end of the calendar never ends.
    fn live_at(&self, now: Timestamp) -> (r: bool)
        requires
            self.wf(),
            now.wf(),
        ensures
            r == self.live(now),
    {
        match self.create_ts.after(self.lifetime) {
            Some(until) => now.before(until),
            None => true,
        }
    }
}

/// Rated bounds with a queue of time-limited augmentations. Without a rated
/// band the augmentations alone bound the values.
#[derive(Debug)]
pub struct ComponentBounds {
    pub rated: VecBounds,
    pub augmented: VecDeque<Aug>,
}

/// `start` intersected with the augmentations that are live, in order.
pub open spec fn augs_narrow(start: Seq<Bounds>, augs: Seq<Aug>, now: Timestamp) -> Seq<Bounds>
    decreases augs.len(),
{
    if augs.len() == 0 {
        start
    } else {
        let before = augs_narrow(start, augs.drop_last(), now);
        if augs.last().live(now) {
            bands_meet(before, augs.last().bounds@)
        } else {
            before
        }
    }
}

/// The live augmentations intersected with one another; `None` if none is
/// live.
pub open spec fn augs_alone(augs: Seq<Aug>, now: Timestamp) -> Option<Seq<Bounds>>
    decreases augs.len(),
{
    if augs.len() == 0 {
        None
    } else {
        let before = augs_alone(augs.drop_last(), now);
        if augs.last().live(now) {
            match before {
                None => Some(augs.last().bounds@),
                Some(acc) => Some(bands_meet(acc, augs.last().bounds@)),
            }
        } else {
            before
        }
    }
}

impl ComponentBounds {
    pub open spec fn wf(self) -> bool {
        forall|i: int| 0 <= i < self.augmented@.len() ==> (#[trigger] self.augmented@[i]).wf()
    }

    /// The bounds in force at `now`.
    pub open spec fn effective_spec(self, now: Timestamp) -> Seq<Bounds> {
        if self.rated@.len() == 0 {
            match augs_alone(self.augmented@, now) {
                Some(s) => s,
                None => Seq::empty(),
            }
        } else {
            augs_narrow(self.rated@, self.augmented@, now)
        }
    }

    pub open spec fn any_live(self, now: Timestamp) -> bool {
        exists|i: int|
            0 <= i < self.augmented@.len() && (#[trigger] self.augmented@[i]).live(now)
    }

    /// `r` is the answer to an active-power command at `now`: zero passes, and
    /// what a band in force covers; the refusal names the bands in force.
    pub open spec fn verdict(
        self,
        power_w: Single,
        now: Timestamp,
        r: Result<(), SetpointError>,
    ) -> bool {
        &&& r is Ok <==> power_w.feq(Single::lit(ZERO)) || covers(
            self.effective_spec(now),
            power_w,
        )
        &&& r matches Err(e) ==> e.refuses(power_w, "W"@, self.effective_spec(now))
    }

    pub fn rated(lower: Single, upper: Single) -> (r: Self)
        ensures
            r.wf(),
            r.rated@ == one_band(lower, upper),
            r.augmented@.len() == 0,
    {
        ComponentBounds { rated: VecBounds::single(lower, upper), augmented: VecDeque::new() }
    }

    /// Bounds without a rated band: unconstrained until augmented.
    pub fn augmentations_only() -> (r: Self)
        ensures
            r.wf(),
            r.rated@.len() == 0,
            r.augmented@.len() == 0,
    {
        ComponentBounds { rated: VecBounds::default(), augmented: VecDeque::new() }
    }

    pub fn add_augmentation(&mut self, create_ts: Timestamp, bounds: VecBounds, lifetime: Span)
        requires
            old(self).wf(),
            create_ts.wf(),
            lifetime.wf(),
        ensures
            final(self).wf(),
            final(self).rated == old(self).rated,
            final(self).augmented@ == old(self).augmented@.push(
                Aug { create_ts, bounds, lifetime },
            ),
    {
        self.augmented.push_back(Aug { create_ts, bounds, lifetime });
    }

    /// Removes the augmentations that are no longer live. Lifetimes differ, so
    /// the queue is not in the order of expiry and is searched whole.
    pub fn drop_expired(&mut self, now: Timestamp)
        requires
            old(self).wf(),
            now.wf(),
        ensures
            final(self).wf(),
            final(self).rated == old(self).rated,
            final(self).augmented@ == old(self).augmented@.filter(|a: Aug| a.live(now)),
    {
        let ghost all = self.augmented@;
        let mut i: usize = 0;
        let ghost mut seen: int = 0;
        proof {
            assert(all.take(0).filter(|a: Aug| a.live(now)) == Seq::<Aug>::empty()) by {
                reveal(Seq::filter);
            }
            assert(all.skip(0) == all);
            assert(self.augmented@ == Seq::<Aug>::empty() + all);
        }
        while i < self.augmented.len()
            invariant
                now.wf(),
                self.rated == old(self).rated,
                forall|j: int| 0 <= j < all.len() ==> (#[trigger] all[j]).wf(),
                0 <= seen <= all.len(),
                i == all.take(seen).filter(|a: Aug| a.live(now)).len(),
                self.augmented@ == all.take(seen).filter(|a: Aug| a.live(now)) + all.skip(seen),
            decreases all.len() - seen,
        {
            let ghost kept = all.take(seen).filter(|a: Aug| a.live(now));
            proof {
                assert(self.augmented@[i as int] == all.skip(seen)[0]);
                assert(all.skip(seen)[0] == all[seen]);
                let t = all.take(seen + 1);
                assert(t.drop_last() == all.take(seen));
                assert(t.last() == all[seen]);
                reveal(Seq::filter);
            }
            if self.augmented[i].live_at(now) {
                i = i + 1;
                proof {
                    assert(kept + all.skip(seen) == kept.push(all[seen]) + all.skip(seen + 1));
                }
            } else {
                let _expired = self.augmented.remove(i);
                proof {
                    assert(self.augmented@ == kept + all.skip(seen + 1));
                }
            }
            proof {
                seen = seen + 1;
            }
        }
        proof {
            assert(seen == all.len());
            assert(all.take(seen) == all);
            assert(all.skip(seen) == Seq::<Aug>::empty());
            let kept = all.filter(|a: Aug| a.live(now));
            assert(kept + Seq::<Aug>::empty() == kept);
            assert forall|j: int| 0 <= j < kept.len() implies (#[trigger] kept[j]).wf() by {
                lemma_filter_from(all, now, j);
            }
        }
    }

    /// The rated band intersected with the augmentations live at `now`,
    /// whether or not the expired ones were removed.
    pub fn effective_at(&self, now: Timestamp) -> (r: VecBounds)
        requires
            self.wf(),
            now.wf(),
        ensures
            r@ == self.effective_spec(now),
    {
        let augs = &self.augmented;
        let mut i: usize = 0;
        assert(augs@.take(0) == Seq::<Aug>::empty());
        if self.rated.0.len() == 0 {
            let mut out: Option<VecBounds> = None;
            while i < augs.len()
                invariant
                    i <= augs.len(),
                    self.wf(),
                    augs@ == self.augmented@,
                    now.wf(),
                    out is Some == augs_alone(augs@.take(i as int), now) is Some,
                    out matches Some(v) ==> v@ == augs_alone(augs@.take(i as int), now)->0,
                decreases augs.len() - i,
            {
                let a = &augs[i];
                proof {
                    let t = augs@.take(i + 1);
                    assert(t.drop_last() == augs@.take(i as int));
                    assert(t.last() == augs@[i as int]);
                }
                if a.live_at(now) {
                    out = match out {
                        None => Some(a.bounds.clone()),
                        Some(acc) => Some(acc.intersect(&a.bounds)),
                    };
                }
                i = i + 1;
            }
            assert(augs@.take(i as int) == augs@);
            return match out {
                Some(v) => v,
                None => VecBounds::default(),
            };
        }
        let mut out = self.rated.clone();
        while i < augs.len()
            invariant
                i <= augs.len(),
                self.wf(),
                augs@ == self.augmented@,
                now.wf(),
                out@ == augs_narrow(self.rated@, augs@.take(i as int), now),
            decreases augs.len() - i,
        {
            let a = &augs[i];
            proof {
                let t = augs@.take(i + 1);
                assert(t.drop_last() == augs@.take(i as int));
                assert(t.last() == augs@[i as int]);
            }
            if a.live_at(now) {
                out = out.intersect(&a.bounds);
            }
            i = i + 1;
        }
        assert(augs@.take(i as int) == augs@);
        out
    }

    /// Some augmentation is live at `now`. Without a rated band an empty
    /// effective list means "no constraint" only where this is false.
    pub fn has_live_augmentations(&self, now: Timestamp) -> (r: bool)
        requires
            self.wf(),
            now.wf(),
        ensures
            r == self.any_live(now),
    {
        let mut i: usize = 0;
        while i < self.augmented.len()
            invariant
                i <= self.augmented.len(),
                self.wf(),
                now.wf(),
                forall|j: int| 0 <= j < i ==> !(#[trigger] self.augmented@[j]).live(now),
            decreases self.augmented.len() - i,
        {
            if self.augmented[i].live_at(now) {
                return true;
            }
            i = i + 1;
        }
        false
    }

    /// The bounds in force at the machine's current time.
    pub fn effective(&self) -> (r: VecBounds)
        requires
            self.wf(),
        ensures
            exists|now: Timestamp| now.wf() && r@ == #[trigger] self.effective_spec(now),
    {
        let now = utc_now();
        self.effective_at(now)
    }

    /// Whether the bounds in force at the machine's current time cover the
    /// value.
    pub fn contains(&self, value: Single) -> (r: bool)
        requires
            self.wf(),
        ensures
            exists|now: Timestamp|
                now.wf() && r == covers(#[trigger] self.effective_spec(now), value),
    {
        let e = self.effective();
        e.contains(value)
    }

    /// Gates an active-power command at `now`. Zero, the park, is always
    /// accepted; another value needs a band that covers it.
    pub fn validate_active_setpoint_at(&self, power_w: Single, now: Timestamp) -> (r: Result<
        (),
        SetpointError,
    >)
        requires
            self.wf(),
            now.wf(),
        ensures
            self.verdict(power_w, now, r),
    {
        let envelope = self.effective_at(now);
        if !power_w.equals(Single::from_bits(ZERO)) && !envelope.contains(power_w) {
            return Err(SetpointError::OutOfBounds { value: power_w, unit: "W", envelope });
        }
        Ok(())
    }

    /// Gates an active-power command at the machine's current time.
    pub fn validate_active_setpoint(&self, power_w: Single) -> (r: Result<(), SetpointError>)
        requires
            self.wf(),
        ensures
            power_w.feq(Single::lit(ZERO)) ==> r is Ok,
            exists|now: Timestamp| now.wf() && #[trigger] self.verdict(power_w, now, r),
    {
        let now = utc_now();
        self.validate_active_setpoint_at(power_w, now)
    }

    /// The value pulled into the bounds in force at the machine's current
    /// time.
    pub fn clamp(&self, value: Single) -> (r: Single)
        requires
            self.wf(),
        ensures
            exists|now: Timestamp|
                now.wf() && r == bands_clamp(#[trigger] self.effective_spec(now), value),
    {
        let e = self.effective();
        e.clamp(value)
    }
}

proof fn lemma_filter_from(all: Seq<Aug>, now: Timestamp, j: int)
    requires
        forall|i: int| 0 <= i < all.len() ==> (#[trigger] all[i]).wf(),
        0 <= j < all.filter(|a: Aug| a.live(now)).len(),
    ensures
        all.filter(|a: Aug| a.live(now))[j].wf(),
    decreases all.len(),
{
    reveal(Seq::filter);
    if all.len() > 0 {
        let rest = all.drop_last();
        if j < rest.filter(|a: Aug| a.live(now)).len() {
            lemma_filter_from(rest, now, j);
        }
    }
}

} // verus!
