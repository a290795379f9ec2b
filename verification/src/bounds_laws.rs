//! Laws of the bounds: what intersecting, joining and clamping do to the set
//! of legal values.

use crate::bounds::{Aug, Bounds, ComponentBounds};
use crate::single::{Single, INFINITY, NEG_INFINITY, ZERO};
use crate::time::Timestamp;
use vstd::prelude::*;

verus! {

/// Neither edge is not-a-number.
pub open spec fn numeric_band(b: Bounds) -> bool {
    &&& b.lower matches Some(l) ==> !l.nan()
    &&& b.upper matches Some(u) ==> !u.nan()
}

pub open spec fn numeric(s: Seq<Bounds>) -> bool {
    forall|i: int| 0 <= i < s.len() ==> numeric_band(#[trigger] s[i])
}

/// A numeric band whose upper edge is above negative infinity.
pub open spec fn open_band(b: Bounds) -> bool {
    &&& numeric_band(b)
    &&& b.upper matches Some(u) ==> u.rank() > Single::lit(NEG_INFINITY).rank()
}

pub open spec fn open_bands(s: Seq<Bounds>) -> bool {
    forall|i: int| 0 <= i < s.len() ==> open_band(#[trigger] s[i])
}

/// A numeric band that covers some number above negative infinity.
pub open spec fn proper_band(b: Bounds) -> bool {
    &&& open_band(b)
    &&& b.lower is Some && b.upper is Some ==> (b.lower->0).rank() <= (b.upper->0).rank()
}

pub open spec fn proper(s: Seq<Bounds>) -> bool {
    forall|i: int| 0 <= i < s.len() ==> proper_band(#[trigger] s[i])
}

/// Each band ends before the next one starts.
pub open spec fn separated(s: Seq<Bounds>) -> bool {
    forall|i: int, j: int|
        #![trigger s[i], s[j]]
        0 <= i < j < s.len() ==> s[i].upper is Some && s[j].lower is Some && (
        s[i].upper->0).rank() < (s[j].lower->0).rank()
}

pub open spec fn keys_ascend(s: Seq<Bounds>) -> bool {
    forall|i: int, j: int|
        #![trigger s[i], s[j]]
        0 <= i < j < s.len() ==> crate::bounds::sort_key(s[i]).rank()
            <= crate::bounds::sort_key(s[j]).rank()
}

// ---------------------------------------------------------------------------
// Sorting

/// Sorting changes the order of the bands only: for every property of bands,
/// the sorted list has a band with it exactly if the given one has.
pub proof fn law_sorting_keeps_bands(s: Seq<Bounds>)
    ensures
        crate::bounds::bands_sorted(s).to_multiset() == s.to_multiset(),
        crate::bounds::bands_sorted(s).len() == s.len(),
    decreases s.len(),
{
    broadcast use vstd::seq_lib::group_to_multiset_ensures;

    if s.len() > 0 {
        law_sorting_keeps_bands(s.drop_last());
        lemma_inserted_multiset(crate::bounds::bands_sorted(s.drop_last()), s.last());
        assert(s.drop_last().push(s.last()) == s);
    }
}

proof fn lemma_inserted_multiset(s: Seq<Bounds>, b: Bounds)
    ensures
        crate::bounds::band_inserted(s, b).to_multiset() == s.to_multiset().insert(b),
        crate::bounds::band_inserted(s, b).len() == s.len() + 1,
    decreases s.len(),
{
    broadcast use vstd::seq_lib::group_to_multiset_ensures;

    if s.len() == 0 {
        assert(seq![b] == Seq::<Bounds>::empty().push(b));
        assert(s == Seq::<Bounds>::empty());
    } else if crate::bounds::sort_key(b).flt(crate::bounds::sort_key(s[0])) {
        assert(seq![b] + s == s.insert(0, b));
        s.to_multiset_ensures();
    } else {
        let t = s.skip(1);
        lemma_inserted_multiset(t, b);
        let u = crate::bounds::band_inserted(t, b);
        assert(seq![s[0]] + u == u.insert(0, s[0]));
        u.to_multiset_ensures();
        assert(t.insert(0, s[0]) == s);
        t.to_multiset_ensures();
        assert(u.insert(0, s[0]).to_multiset() == s.to_multiset().insert(b));
    }
}

/// Bands with numeric edges are sorted by their keys.
pub proof fn law_sorting_orders(s: Seq<Bounds>)
    requires
        numeric(s),
    ensures
        keys_ascend(crate::bounds::bands_sorted(s)),
        numeric(crate::bounds::bands_sorted(s)),
    decreases s.len(),
{
    if s.len() > 0 {
        law_sorting_orders(s.drop_last());
        lemma_inserted_orders(crate::bounds::bands_sorted(s.drop_last()), s.last());
    }
}

proof fn lemma_inserted_orders(s: Seq<Bounds>, b: Bounds)
    requires
        keys_ascend(s),
        numeric(s),
        numeric_band(b),
    ensures
        keys_ascend(crate::bounds::band_inserted(s, b)),
        numeric(crate::bounds::band_inserted(s, b)),
        crate::bounds::band_inserted(s, b).len() == s.len() + 1,
        forall|i: int|
            0 <= i < s.len() + 1 ==> #[trigger] crate::bounds::band_inserted(s, b)[i] == b || exists|
                j: int,
            |
                0 <= j < s.len() && crate::bounds::band_inserted(s, b)[i] == s[j],
    decreases s.len(),
{
    let r = crate::bounds::band_inserted(s, b);
    if s.len() == 0 {
    } else if crate::bounds::sort_key(b).flt(crate::bounds::sort_key(s[0])) {
        assert forall|i: int| 0 <= i < s.len() + 1 implies #[trigger] r[i] == b || exists|j: int|
            0 <= j < s.len() && r[i] == s[j] by {
            if i > 0 {
                assert(r[i] == s[i - 1]);
            }
        }
    } else {
        let t = s.skip(1);
        assert(forall|i: int| 0 <= i < t.len() ==> #[trigger] t[i] == s[i + 1]);
        lemma_inserted_orders(t, b);
        let u = crate::bounds::band_inserted(t, b);
        assert(r == seq![s[0]] + u);
        assert forall|i: int| 0 <= i < s.len() + 1 implies #[trigger] r[i] == b || exists|j: int|
            0 <= j < s.len() && r[i] == s[j] by {
            if i > 0 {
                assert(r[i] == u[i - 1]);
                if u[i - 1] != b {
                    let j = choose|j: int| 0 <= j < t.len() && u[i - 1] == t[j];
                    assert(r[i] == s[j + 1]);
                }
            }
        }
        assert forall|i: int, j: int|
            #![trigger r[i], r[j]]
            0 <= i < j < r.len() implies crate::bounds::sort_key(r[i]).rank()
            <= crate::bounds::sort_key(r[j]).rank() by {
            assert(r[j] == u[j - 1]);
            if i > 0 {
                assert(r[i] == u[i - 1]);
            } else {
                if u[j - 1] != b {
                    let m = choose|m: int| 0 <= m < t.len() && u[j - 1] == t[m];
                    assert(t[m] == s[m + 1]);
                }
            }
        }
    }
}

proof fn lemma_inserted_covers(s: Seq<Bounds>, b: Bounds, v: Single)
    ensures
        crate::bounds::covers(crate::bounds::band_inserted(s, b), v) <==> crate::bounds::covers(
            s,
            v,
        ) || crate::bounds::band_covers(b, v),
    decreases s.len(),
{
    if s.len() == 0 {
        assert(seq![b][0] == b);
    } else if crate::bounds::sort_key(b).flt(crate::bounds::sort_key(s[0])) {
        lemma_cons_covers(b, s, v);
    } else {
        let t = s.skip(1);
        lemma_inserted_covers(t, b, v);
        lemma_cons_covers(s[0], crate::bounds::band_inserted(t, b), v);
        lemma_cons_covers(s[0], t, v);
        assert(seq![s[0]] + t == s);
    }
}

proof fn lemma_cons_covers(b: Bounds, s: Seq<Bounds>, v: Single)
    ensures
        crate::bounds::covers(seq![b] + s, v) <==> crate::bounds::band_covers(b, v)
            || crate::bounds::covers(s, v),
{
    let r = seq![b] + s;
    assert(r[0] == b);
    assert(forall|i: int| 0 <= i < s.len() ==> r[i + 1] == #[trigger] s[i]);
    if crate::bounds::covers(s, v) {
        let i = choose|i: int|
            0 <= i < s.len() && crate::bounds::band_covers(#[trigger] s[i], v);
        assert(r[i + 1] == s[i]);
    }
    if crate::bounds::covers(r, v) && !crate::bounds::band_covers(b, v) {
        let i = choose|i: int|
            0 <= i < r.len() && crate::bounds::band_covers(#[trigger] r[i], v);
        assert(r[i] == s[i - 1]);
    }
}

proof fn lemma_sorted_covers(s: Seq<Bounds>, v: Single)
    ensures
        crate::bounds::covers(crate::bounds::bands_sorted(s), v) <==> crate::bounds::covers(s, v),
    decreases s.len(),
{
    if s.len() > 0 {
        lemma_sorted_covers(s.drop_last(), v);
        lemma_inserted_covers(crate::bounds::bands_sorted(s.drop_last()), s.last(), v);
        lemma_push_covers(s.drop_last(), s.last(), v);
        assert(s.drop_last().push(s.last()) == s);
    }
}

proof fn lemma_push_covers(s: Seq<Bounds>, b: Bounds, v: Single)
    ensures
        crate::bounds::covers(s.push(b), v) <==> crate::bounds::covers(s, v)
            || crate::bounds::band_covers(b, v),
{
    let r = s.push(b);
    assert(r[s.len() as int] == b);
    if crate::bounds::covers(s, v) {
        let i = choose|i: int|
            0 <= i < s.len() && crate::bounds::band_covers(#[trigger] s[i], v);
        assert(r[i] == s[i]);
    }
    if crate::bounds::covers(r, v) && !crate::bounds::band_covers(b, v) {
        let i = choose|i: int|
            0 <= i < r.len() && crate::bounds::band_covers(#[trigger] r[i], v);
        assert(r[i] == s[i]);
    }
}

// ---------------------------------------------------------------------------
// Joining

proof fn lemma_fused_covers(current: Bounds, rest: Seq<Bounds>, v: Single)
    requires
        numeric_band(current),
        numeric(rest),
        !v.nan(),
    ensures
        crate::bounds::covers(crate::bounds::bands_fused(current, rest), v)
            <==> crate::bounds::band_covers(current, v) || crate::bounds::covers(rest, v),
    decreases rest.len(),
{
    if rest.len() == 0 {
        assert(seq![current][0] == current);
    } else {
        let tail = rest.skip(1);
        assert(forall|i: int| 0 <= i < tail.len() ==> #[trigger] tail[i] == rest[i + 1]);
        assert(rest == seq![rest[0]] + tail);
        lemma_cons_covers(rest[0], tail, v);
        assert(numeric_band(rest[0]));
        match crate::bounds::band_join(current, rest[0]) {
            Some(joined) => {
                lemma_fused_covers(joined, tail, v);
            },
            None => {
                lemma_fused_covers(rest[0], tail, v);
                lemma_cons_covers(current, crate::bounds::bands_fused(rest[0], tail), v);
            },
        }
    }
}

/// Squashing a list of bands keeps the set of numbers it covers.
pub proof fn law_squash_keeps_the_union(s: Seq<Bounds>, v: Single)
    requires
        numeric(s),
        !v.nan(),
    ensures
        crate::bounds::covers(crate::bounds::bands_squashed(s), v) <==> crate::bounds::covers(s, v),
{
    let t = crate::bounds::bands_sorted(s);
    law_sorting_orders(s);
    lemma_sorted_covers(s, v);
    if t.len() > 0 {
        let tail = t.skip(1);
        assert(forall|i: int| 0 <= i < tail.len() ==> #[trigger] tail[i] == t[i + 1]);
        lemma_fused_covers(t[0], tail, v);
        lemma_cons_covers(t[0], tail, v);
        assert(t == seq![t[0]] + tail);
    }
}

proof fn lemma_join_proper(a: Bounds, b: Bounds)
    requires
        proper_band(a),
        proper_band(b),
        crate::bounds::sort_key(a).rank() <= crate::bounds::sort_key(b).rank(),
    ensures
        crate::bounds::band_join(a, b) matches Some(c) ==> proper_band(c)
            && crate::bounds::sort_key(c).rank() <= crate::bounds::sort_key(b).rank(),
        crate::bounds::band_join(a, b) is None ==> a.upper is Some && b.lower is Some && (
        a.upper->0).rank() < (b.lower->0).rank(),
{
}

proof fn lemma_fused_from(current: Bounds, rest: Seq<Bounds>, t: int)
    requires
        proper_band(current),
        proper(rest),
        keys_ascend(rest),
        rest.len() > 0 ==> crate::bounds::sort_key(current).rank() <= crate::bounds::sort_key(
            rest[0],
        ).rank(),
        current.lower is Some && (current.lower->0).rank() >= t,
        t > Single::lit(NEG_INFINITY).rank() + 1,
        forall|i: int|
            0 <= i < rest.len() ==> (#[trigger] rest[i]).lower is Some && (
            rest[i].lower->0).rank() >= t,
    ensures
        forall|i: int|
            0 <= i < crate::bounds::bands_fused(current, rest).len() ==> (
            #[trigger] crate::bounds::bands_fused(current, rest)[i]).lower is Some && (
            crate::bounds::bands_fused(current, rest)[i].lower->0).rank() >= t,
    decreases rest.len(),
{
    if rest.len() > 0 {
        let tail = rest.skip(1);
        assert(forall|i: int| 0 <= i < tail.len() ==> #[trigger] tail[i] == rest[i + 1]);
        lemma_join_proper(current, rest[0]);
        match crate::bounds::band_join(current, rest[0]) {
            Some(joined) => {
                if tail.len() > 0 {
                    assert(tail[0] == rest[1]);
                }
                lemma_fused_from(joined, tail, t);
            },
            None => {
                lemma_fused_from(rest[0], tail, t);
                let u = crate::bounds::bands_fused(rest[0], tail);
                let r = seq![current] + u;
                assert forall|i: int| 0 <= i < r.len() implies (#[trigger] r[i]).lower is Some && (
                r[i].lower->0).rank() >= t by {
                    if i > 0 {
                        assert(r[i] == u[i - 1]);
                    }
                }
            },
        }
    }
}

proof fn lemma_fused_separated(current: Bounds, rest: Seq<Bounds>)
    requires
        proper_band(current),
        proper(rest),
        keys_ascend(rest),
        rest.len() > 0 ==> crate::bounds::sort_key(current).rank() <= crate::bounds::sort_key(
            rest[0],
        ).rank(),
    ensures
        separated(crate::bounds::bands_fused(current, rest)),
        proper(crate::bounds::bands_fused(current, rest)),
        crate::bounds::bands_fused(current, rest).len() > 0,
    decreases rest.len(),
{
    if rest.len() > 0 {
        let tail = rest.skip(1);
        assert(forall|i: int| 0 <= i < tail.len() ==> #[trigger] tail[i] == rest[i + 1]);
        lemma_join_proper(current, rest[0]);
        match crate::bounds::band_join(current, rest[0]) {
            Some(joined) => {
                if tail.len() > 0 {
                    assert(tail[0] == rest[1]);
                }
                lemma_fused_separated(joined, tail);
            },
            None => {
                if tail.len() > 0 {
                    assert(tail[0] == rest[1]);
                }
                lemma_fused_separated(rest[0], tail);
                let u = crate::bounds::bands_fused(rest[0], tail);
                let t = (rest[0].lower->0).rank();
                assert forall|i: int| 0 <= i < tail.len() implies (
                #[trigger] tail[i]).lower is Some && (tail[i].lower->0).rank() >= t by {
                    assert(tail[i] == rest[i + 1]);
                    assert(crate::bounds::sort_key(rest[0]).rank() <= crate::bounds::sort_key(
                        rest[i + 1],
                    ).rank());
                }
                lemma_fused_from(rest[0], tail, t);
                let r = seq![current] + u;
                assert forall|i: int, j: int|
                    #![trigger r[i], r[j]]
                    0 <= i < j < r.len() implies r[i].upper is Some && r[j].lower is Some && (
                r[i].upper->0).rank() < (r[j].lower->0).rank() by {
                    assert(r[j] == u[j - 1]);
                    if i > 0 {
                        assert(r[i] == u[i - 1]);
                    }
                }
                assert forall|i: int| 0 <= i < r.len() implies proper_band(#[trigger] r[i]) by {
                    if i > 0 {
                        assert(r[i] == u[i - 1]);
                    }
                }
            },
        }
    }
}

// ---------------------------------------------------------------------------
// Intersecting

proof fn lemma_meet_covers(a: Bounds, b: Bounds, v: Single)
    requires
        numeric_band(a),
        numeric_band(b),
        !v.nan(),
    ensures
        crate::bounds::band_meet(a, b) matches Some(c) ==> numeric_band(c) && (
        crate::bounds::band_covers(c, v) <==> crate::bounds::band_covers(a, v)
            && crate::bounds::band_covers(b, v)),
        crate::bounds::band_meet(a, b) is None ==> !(crate::bounds::band_covers(a, v)
            && crate::bounds::band_covers(b, v)),
{
}

proof fn lemma_meets_with_covers(b: Bounds, s: Seq<Bounds>, v: Single)
    requires
        numeric_band(b),
        numeric(s),
        !v.nan(),
    ensures
        numeric(crate::bounds::meets_with(b, s)),
        crate::bounds::covers(crate::bounds::meets_with(b, s), v) <==> crate::bounds::band_covers(
            b,
            v,
        ) && crate::bounds::covers(s, v),
    decreases s.len(),
{
    if s.len() > 0 {
        let t = s.drop_last();
        lemma_meets_with_covers(b, t, v);
        lemma_push_covers(t, s.last(), v);
        assert(t.push(s.last()) == s);
        lemma_meet_covers(b, s.last(), v);
        if let Some(m) = crate::bounds::band_meet(b, s.last()) {
            lemma_push_covers(crate::bounds::meets_with(b, t), m, v);
        }
    }
}

proof fn lemma_meets_covers(s: Seq<Bounds>, t: Seq<Bounds>, v: Single)
    requires
        numeric(s),
        numeric(t),
        !v.nan(),
    ensures
        numeric(crate::bounds::meets(s, t)),
        crate::bounds::covers(crate::bounds::meets(s, t), v) <==> crate::bounds::covers(s, v)
            && crate::bounds::covers(t, v),
    decreases s.len(),
{
    if s.len() > 0 {
        let before = crate::bounds::meets(s.drop_last(), t);
        let added = crate::bounds::meets_with(s.last(), t);
        lemma_meets_covers(s.drop_last(), t, v);
        lemma_meets_with_covers(s.last(), t, v);
        lemma_push_covers(s.drop_last(), s.last(), v);
        assert(s.drop_last().push(s.last()) == s);
        lemma_append_covers(before, added, v);
    }
}

proof fn lemma_append_covers(s: Seq<Bounds>, t: Seq<Bounds>, v: Single)
    ensures
        crate::bounds::covers(s + t, v) <==> crate::bounds::covers(s, v) || crate::bounds::covers(
            t,
            v,
        ),
{
    let r = s + t;
    if crate::bounds::covers(s, v) {
        let i = choose|i: int|
            0 <= i < s.len() && crate::bounds::band_covers(#[trigger] s[i], v);
        assert(r[i] == s[i]);
    }
    if crate::bounds::covers(t, v) {
        let i = choose|i: int|
            0 <= i < t.len() && crate::bounds::band_covers(#[trigger] t[i], v);
        assert(r[s.len() + i] == t[i]);
    }
    if crate::bounds::covers(r, v) {
        let i = choose|i: int|
            0 <= i < r.len() && crate::bounds::band_covers(#[trigger] r[i], v);
        if i < s.len() {
            assert(r[i] == s[i]);
        } else {
            assert(r[i] == t[i - s.len()]);
        }
    }
}

/// The intersection of two lists covers exactly the numbers that both cover.
pub proof fn law_intersection_is_exact(s: Seq<Bounds>, t: Seq<Bounds>, v: Single)
    requires
        numeric(s),
        numeric(t),
        !v.nan(),
    ensures
        crate::bounds::covers(crate::bounds::bands_meet(s, t), v) <==> crate::bounds::covers(s, v)
            && crate::bounds::covers(t, v),
{
    lemma_meets_covers(s, t, v);
    law_squash_keeps_the_union(crate::bounds::meets(s, t), v);
}

proof fn lemma_meets_proper(s: Seq<Bounds>, t: Seq<Bounds>)
    requires
        open_bands(s),
        open_bands(t),
    ensures
        proper(crate::bounds::meets(s, t)),
    decreases s.len(),
{
    if s.len() > 0 {
        lemma_meets_proper(s.drop_last(), t);
        lemma_meets_with_proper(s.last(), t);
    }
}

proof fn lemma_meets_with_proper(b: Bounds, s: Seq<Bounds>)
    requires
        open_band(b),
        open_bands(s),
    ensures
        proper(crate::bounds::meets_with(b, s)),
    decreases s.len(),
{
    if s.len() > 0 {
        lemma_meets_with_proper(b, s.drop_last());
        assert(open_band(s.last()));
    }
}

proof fn lemma_sorted_proper(s: Seq<Bounds>)
    requires
        proper(s),
    ensures
        proper(crate::bounds::bands_sorted(s)),
    decreases s.len(),
{
    if s.len() > 0 {
        let t = crate::bounds::bands_sorted(s.drop_last());
        lemma_sorted_proper(s.drop_last());
        law_sorting_orders(s.drop_last());
        lemma_inserted_orders(t, s.last());
        assert(proper_band(s.last()));
    }
}

/// An intersection is normal: its bands are proper, in ascending order, and
/// disjoint. Bands whose edges are the wrong way round vanish in it.
pub proof fn law_intersection_is_normal(s: Seq<Bounds>, t: Seq<Bounds>)
    requires
        open_bands(s),
        open_bands(t),
    ensures
        separated(crate::bounds::bands_meet(s, t)),
        proper(crate::bounds::bands_meet(s, t)),
{
    let m = crate::bounds::meets(s, t);
    lemma_meets_proper(s, t);
    lemma_sorted_proper(m);
    law_sorting_orders(m);
    let sorted = crate::bounds::bands_sorted(m);
    if sorted.len() > 0 {
        let tail = sorted.skip(1);
        assert(forall|i: int| 0 <= i < tail.len() ==> #[trigger] tail[i] == sorted[i + 1]);
        lemma_fused_separated(sorted[0], tail);
    }
}

// ---------------------------------------------------------------------------
// Clamping

proof fn lemma_first_above(s: Seq<Bounds>, v: Single)
    ensures
        0 <= crate::bounds::first_above(s, v) <= s.len(),
        forall|i: int|
            0 <= i < crate::bounds::first_above(s, v) ==> !((#[trigger] s[i]).lower matches Some(l)
                && v.flt(l)),
        crate::bounds::first_above(s, v) < s.len() ==> (s[crate::bounds::first_above(
            s,
            v,
        )].lower matches Some(l) && v.flt(l)),
    decreases s.len(),
{
    if s.len() > 0 && !(s[0].lower matches Some(l) && v.flt(l)) {
        let t = s.skip(1);
        lemma_first_above(t, v);
        assert forall|i: int| 0 <= i < crate::bounds::first_above(s, v) implies !((
        #[trigger] s[i]).lower matches Some(l) && v.flt(l)) by {
            if i > 0 {
                assert(t[i - 1] == s[i]);
            }
        }
        let k = crate::bounds::first_above(t, v);
        if k < t.len() {
            assert(t[k] == s[k + 1]);
        }
    }
}

/// A value that some band covers is left alone; any other number is pulled to
/// a value that the bands cover.
pub proof fn law_clamp_lands_inside(s: Seq<Bounds>, v: Single)
    requires
        s.len() > 0,
        proper(s),
    ensures
        crate::bounds::covers(s, crate::bounds::bands_clamp(s, v)),
        crate::bounds::covers(s, v) ==> crate::bounds::bands_clamp(s, v) == v,
        !v.nan() ==> !crate::bounds::bands_clamp(s, v).nan(),
{
    if !crate::bounds::covers(s, v) {
        let i = crate::bounds::first_above(s, v);
        lemma_first_above(s, v);
        assert(!v.nan()) by {
            if v.nan() {
                assert(crate::bounds::band_covers(s[0], v));
            }
        }
        if i > 0 {
            // the band before is not above the value and does not cover it
            let b = s[i - 1];
            assert(!crate::bounds::band_covers(b, v));
            assert(s.take(i).last() == b);
            assert(crate::bounds::last_upper(s.take(i)) == b.upper);
            assert(proper_band(b));
            assert(crate::bounds::band_covers(s[i - 1], b.upper->0));
        }
        if i < s.len() {
            assert(proper_band(s[i]));
            assert(crate::bounds::band_covers(s[i], s[i].lower->0));
        }
    }
}

/// A band's own clamp is the nearest of its two edges: values below go to the
/// lower edge, values above to the upper one.
pub proof fn law_clamp_to_one_band(lo: Single, hi: Single, v: Single)
    requires
        lo.fle(hi),
    ensures
        crate::bounds::bands_clamp(crate::bounds::one_band(lo, hi), v) == v.fclamp(lo, hi),
{
    let s = crate::bounds::one_band(lo, hi);
    lemma_first_above(s, v);
    assert(s[0] == Bounds { lower: Some(lo), upper: Some(hi) });
    assert(crate::bounds::covers(s, v) <==> crate::bounds::band_covers(s[0], v));
    if !crate::bounds::covers(s, v) {
        let i = crate::bounds::first_above(s, v);
        if i == 1 {
            assert(s.take(1).last() == s[0]);
        } else {
            assert(s.take(0).len() == 0);
        }
    }
}

/// How far apart two numbers are, rounded.
pub open spec fn distance(x: Single, y: Single) -> Single {
    x.fsub(y).fabs()
}

/// The rank of the distance.
spec fn gap(x: Single, y: Single) -> int {
    if !x.finite() || !y.finite() {
        INFINITY as int
    } else if x.units() >= y.units() {
        crate::single_laws::nearest(x.units() - y.units())
    } else {
        crate::single_laws::nearest(y.units() - x.units())
    }
}

proof fn lemma_gap(x: Single, y: Single)
    requires
        !x.nan(),
        !y.nan(),
        x.rank() != y.rank(),
    ensures
        !distance(x, y).nan(),
        distance(x, y).rank() == gap(x, y),
{
    crate::single::lemma_single_sizes();
    if x.finite() && y.finite() {
        crate::single_laws::lemma_negated_units(y);
        crate::single_laws::law_sum_is_nearest(x, y.fneg());
        let z = Single::lit(ZERO);
        crate::ieee::lemma_mag_zero(crate::single::single_spec(), z.spec_num());
        crate::single_laws::law_nearest_of_number(z);
        if x.units() >= y.units() {
            crate::single_laws::law_nearest_is_monotone(0, x.units() - y.units());
        } else {
            crate::single_laws::law_nearest_is_monotone(x.units() - y.units(), 0);
        }
    } else {
        reveal(Single::fadd);
    }
}

/// A number further on is no nearer.
proof fn lemma_further_is_no_nearer(v: Single, a: Single, b: Single)
    requires
        !v.nan(),
        !a.nan(),
        !b.nan(),
        v.rank() < a.rank() <= b.rank() || v.rank() > a.rank() >= b.rank(),
    ensures
        gap(v, a) <= gap(v, b),
{
    crate::single::lemma_single_sizes();
    if v.finite() && a.finite() {
        if b.finite() {
            crate::single_laws::law_rank_orders_values(v, a);
            crate::single_laws::law_rank_orders_values(a, v);
            crate::single_laws::law_rank_orders_values(a, b);
            crate::single_laws::law_rank_orders_values(b, a);
            if v.rank() < a.rank() {
                crate::single_laws::law_nearest_is_monotone(
                    a.units() - v.units(),
                    b.units() - v.units(),
                );
            } else {
                crate::single_laws::law_nearest_is_monotone(
                    v.units() - a.units(),
                    v.units() - b.units(),
                );
            }
        }
    }
}

/// Clamping to separate bands in order picks a nearest legal value: of a value
/// that no band covers, no covered number is nearer than what it is pulled to.
pub proof fn law_clamp_is_nearest(s: Seq<Bounds>, v: Single, w: Single)
    requires
        proper(s),
        separated(s),
        !crate::bounds::covers(s, v),
        crate::bounds::covers(s, w),
        !w.nan(),
    ensures
        distance(v, crate::bounds::bands_clamp(s, v)).fle(distance(v, w)),
{
    let i = crate::bounds::first_above(s, v);
    let j = choose|j: int| 0 <= j < s.len() && crate::bounds::band_covers(#[trigger] s[j], w);
    lemma_first_above(s, v);
    assert(!v.nan()) by {
        if v.nan() {
            assert(crate::bounds::band_covers(s[0], v));
        }
    }
    assert(v.rank() != w.rank()) by {
        if v.rank() == w.rank() {
            assert(crate::bounds::band_covers(s[j], v));
        }
    }
    assert(proper_band(s[j]));
    lemma_gap(v, w);
    if i > 0 {
        let b = s[i - 1];
        assert(!crate::bounds::band_covers(b, v));
        assert(s.take(i).last() == b);
        assert(crate::bounds::last_upper(s.take(i)) == b.upper);
        assert(proper_band(b));
        lemma_gap(v, b.upper->0);
        if j < i {
            if j < i - 1 {
                assert(s[j].upper is Some && b.lower is Some);
            }
            lemma_further_is_no_nearer(v, b.upper->0, w);
        }
    } else {
        assert(s.take(i).len() == 0);
    }
    if i < s.len() {
        let a = s[i];
        assert(proper_band(a));
        lemma_gap(v, a.lower->0);
        lemma_gap(a.lower->0, v);
        if j >= i {
            if j > i {
                assert(a.upper is Some && s[j].lower is Some);
            }
            lemma_further_is_no_nearer(v, a.lower->0, w);
        }
    }
}

// ---------------------------------------------------------------------------
// Augmentations

/// An augmentation that has expired stays expired.
pub proof fn law_expiry_is_final(a: Aug, now: Timestamp, t: Timestamp)
    requires
        now.total() <= t.total(),
        !a.live(now),
    ensures
        !a.live(t),
{
}

/// An augmentation narrows a rated band for its lifetime from its creation on,
/// and then no more.
pub proof fn law_augmentation_lasts_its_lifetime(
    c: ComponentBounds,
    a: Aug,
    now: Timestamp,
    v: Single,
)
    requires
        c.rated@.len() > 0,
        c.augmented@ == seq![a],
        numeric(c.rated@),
        numeric(a.bounds@),
        !v.nan(),
    ensures
        now.total() - a.create_ts.total() < a.lifetime.total() ==> (crate::bounds::covers(
            c.effective_spec(now),
            v,
        ) <==> crate::bounds::covers(c.rated@, v) && crate::bounds::covers(a.bounds@, v)),
        now.total() - a.create_ts.total() >= a.lifetime.total() ==> (crate::bounds::covers(
            c.effective_spec(now),
            v,
        ) <==> crate::bounds::covers(c.rated@, v)),
{
    assert(c.augmented@[0] == a);
    law_effective_is_the_common_part(c, now, v);
}

/// Removing what expired by `now` changes the bounds in force at no later
/// time.
pub proof fn law_reaping_is_invisible(
    before: ComponentBounds,
    after: ComponentBounds,
    now: Timestamp,
    t: Timestamp,
)
    requires
        after.rated == before.rated,
        after.augmented@ == before.augmented@.filter(|a: Aug| a.live(now)),
        now.total() <= t.total(),
    ensures
        after.effective_spec(t) == before.effective_spec(t),
        after.any_live(t) == before.any_live(t),
{
    lemma_reaping_narrow(before.rated@, before.augmented@, now, t);
    lemma_reaping_alone(before.augmented@, now, t);
    lemma_live_in_alone(before.augmented@, t);
    lemma_live_in_alone(after.augmented@, t);
}

proof fn lemma_reaping_narrow(
    start: Seq<Bounds>,
    augs: Seq<Aug>,
    now: Timestamp,
    t: Timestamp,
)
    requires
        now.total() <= t.total(),
    ensures
        crate::bounds::augs_narrow(start, augs.filter(|a: Aug| a.live(now)), t)
            == crate::bounds::augs_narrow(start, augs, t),
    decreases augs.len(),
{
    reveal(Seq::filter);
    if augs.len() > 0 {
        let rest = augs.drop_last();
        lemma_reaping_narrow(start, rest, now, t);
        let kept = rest.filter(|a: Aug| a.live(now));
        if augs.last().live(now) {
            assert(kept.push(augs.last()).drop_last() == kept);
        }
    }
}

proof fn lemma_reaping_alone(augs: Seq<Aug>, now: Timestamp, t: Timestamp)
    requires
        now.total() <= t.total(),
    ensures
        crate::bounds::augs_alone(augs.filter(|a: Aug| a.live(now)), t)
            == crate::bounds::augs_alone(augs, t),
    decreases augs.len(),
{
    reveal(Seq::filter);
    if augs.len() > 0 {
        let rest = augs.drop_last();
        lemma_reaping_alone(rest, now, t);
        let kept = rest.filter(|a: Aug| a.live(now));
        if augs.last().live(now) {
            assert(kept.push(augs.last()).drop_last() == kept);
        }
    }
}

proof fn lemma_live_in_alone(augs: Seq<Aug>, t: Timestamp)
    ensures
        crate::bounds::augs_alone(augs, t) is Some <==> exists|i: int|
            0 <= i < augs.len() && (#[trigger] augs[i]).live(t),
    decreases augs.len(),
{
    if augs.len() > 0 {
        let rest = augs.drop_last();
        lemma_live_in_alone(rest, t);
        assert(forall|i: int| 0 <= i < rest.len() ==> #[trigger] rest[i] == augs[i]);
        if exists|i: int| 0 <= i < augs.len() && (#[trigger] augs[i]).live(t) {
            let i = choose|i: int| 0 <= i < augs.len() && (#[trigger] augs[i]).live(t);
            if i < rest.len() {
                assert(rest[i].live(t));
            }
        }
        if exists|i: int| 0 <= i < rest.len() && (#[trigger] rest[i]).live(t) {
            let i = choose|i: int| 0 <= i < rest.len() && (#[trigger] rest[i]).live(t);
            assert(augs[i].live(t));
        }
        if augs.last().live(t) {
            assert(augs[augs.len() - 1].live(t));
        }
    }
}

/// The bounds in force are the rated band cut down: a number they cover, the
/// rated band and every live augmentation cover, and no other number.
pub proof fn law_effective_is_the_common_part(c: ComponentBounds, now: Timestamp, v: Single)
    requires
        c.rated@.len() > 0,
        numeric(c.rated@),
        forall|i: int|
            0 <= i < c.augmented@.len() ==> numeric((#[trigger] c.augmented@[i]).bounds@),
        !v.nan(),
    ensures
        crate::bounds::covers(c.effective_spec(now), v) <==> crate::bounds::covers(c.rated@, v)
            && (forall|i: int|
            0 <= i < c.augmented@.len() && (#[trigger] c.augmented@[i]).live(now)
                ==> crate::bounds::covers(c.augmented@[i].bounds@, v)),
{
    lemma_narrow_common(c.rated@, c.augmented@, now, v);
}

proof fn lemma_narrow_common(start: Seq<Bounds>, augs: Seq<Aug>, now: Timestamp, v: Single)
    requires
        numeric(start),
        forall|i: int| 0 <= i < augs.len() ==> numeric((#[trigger] augs[i]).bounds@),
        !v.nan(),
    ensures
        numeric(crate::bounds::augs_narrow(start, augs, now)),
        crate::bounds::covers(crate::bounds::augs_narrow(start, augs, now), v)
            <==> crate::bounds::covers(start, v) && (forall|i: int|
            0 <= i < augs.len() && (#[trigger] augs[i]).live(now) ==> crate::bounds::covers(
                augs[i].bounds@,
                v,
            )),
    decreases augs.len(),
{
    if augs.len() > 0 {
        let rest = augs.drop_last();
        assert(forall|i: int| 0 <= i < rest.len() ==> #[trigger] rest[i] == augs[i]);
        lemma_narrow_common(start, rest, now, v);
        let before = crate::bounds::augs_narrow(start, rest, now);
        let last = augs[augs.len() - 1];
        assert(last == augs.last());
        if last.live(now) {
            law_intersection_is_exact(before, last.bounds@, v);
            lemma_meet_numeric(before, last.bounds@);
        }
        let all_rest = forall|i: int|
            0 <= i < rest.len() && (#[trigger] rest[i]).live(now) ==> crate::bounds::covers(
                rest[i].bounds@,
                v,
            );
        let all = forall|i: int|
            0 <= i < augs.len() && (#[trigger] augs[i]).live(now) ==> crate::bounds::covers(
                augs[i].bounds@,
                v,
            );
        assert(all <==> all_rest && (last.live(now) ==> crate::bounds::covers(last.bounds@, v)))
            by {
            if all {
                assert forall|i: int| 0 <= i < rest.len() && (#[trigger] rest[i]).live(
                    now,
                ) implies crate::bounds::covers(rest[i].bounds@, v) by {
                    assert(augs[i].live(now));
                }
            }
            if all_rest && (last.live(now) ==> crate::bounds::covers(last.bounds@, v)) {
                assert forall|i: int| 0 <= i < augs.len() && (#[trigger] augs[i]).live(
                    now,
                ) implies crate::bounds::covers(augs[i].bounds@, v) by {
                    if i < rest.len() {
                        assert(rest[i].live(now));
                    }
                }
            }
        }
    }
}

proof fn lemma_meet_numeric(s: Seq<Bounds>, t: Seq<Bounds>)
    requires
        numeric(s),
        numeric(t),
    ensures
        numeric(crate::bounds::bands_meet(s, t)),
{
    let z = Single::lit(ZERO);
    lemma_meets_covers(s, t, z);
    let m = crate::bounds::meets(s, t);
    law_sorting_orders(m);
    let sorted = crate::bounds::bands_sorted(m);
    if sorted.len() > 0 {
        let tail = sorted.skip(1);
        assert(forall|i: int| 0 <= i < tail.len() ==> #[trigger] tail[i] == sorted[i + 1]);
        lemma_fused_numeric(sorted[0], tail);
    }
}

proof fn lemma_fused_numeric(current: Bounds, rest: Seq<Bounds>)
    requires
        numeric_band(current),
        numeric(rest),
    ensures
        numeric(crate::bounds::bands_fused(current, rest)),
    decreases rest.len(),
{
    if rest.len() > 0 {
        let tail = rest.skip(1);
        assert(forall|i: int| 0 <= i < tail.len() ==> #[trigger] tail[i] == rest[i + 1]);
        assert(numeric_band(rest[0]));
        match crate::bounds::band_join(current, rest[0]) {
            Some(joined) => {
                lemma_fused_numeric(joined, tail);
            },
            None => {
                lemma_fused_numeric(rest[0], tail);
                let u = crate::bounds::bands_fused(rest[0], tail);
                let r = seq![current] + u;
                assert forall|i: int| 0 <= i < r.len() implies numeric_band(#[trigger] r[i]) by {
                    if i > 0 {
                        assert(r[i] == u[i - 1]);
                    }
                }
            },
        }
    }
}

} // verus!
