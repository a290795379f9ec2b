//! The sum of bounds rejects nothing that its parts can reach together.

use crate::accuracy;
use crate::bounds::Bounds;
use crate::single::{Single, INFINITY, NEG_INFINITY, ZERO};
use vstd::prelude::*;

verus! {

/// Every band has two finite edges.
pub open spec fn closed_bands(s: Seq<Bounds>) -> bool {
    forall|i: int|
        0 <= i < s.len() ==> {
            let b = #[trigger] s[i];
            &&& b.lower matches Some(l) && l.finite()
            &&& b.upper matches Some(u) && u.finite()
        }
}

/// The values of the parts that have bounds, added up in order.
pub open spec fn value_sum(items: Seq<Seq<Bounds>>, values: Seq<Single>) -> Single
    decreases items.len(),
{
    if items.len() == 0 {
        Single::lit(ZERO)
    } else {
        let before = value_sum(items.drop_last(), values.drop_last());
        if items.last().len() > 0 {
            before.fadd(values.last())
        } else {
            before
        }
    }
}

/// A larger sum so far and a larger finite addend give a larger sum, past the
/// largest finite number too.
proof fn lemma_sums_keep_order(a: Single, b: Single, c: Single, d: Single)
    requires
        !a.nan(),
        !b.nan(),
        a.rank() <= b.rank(),
        c.finite(),
        d.finite(),
        c.rank() <= d.rank(),
    ensures
        !a.fadd(c).nan(),
        !b.fadd(d).nan(),
        a.fadd(c).rank() <= b.fadd(d).rank(),
{
    crate::single::lemma_single_sizes();
    if a.finite() {
        crate::single_laws::law_sum_is_nearest(a, c);
    } else {
        assert(a.fadd(c) == a) by {
            reveal(Single::fadd);
        }
    }
    if b.finite() {
        crate::single_laws::law_sum_is_nearest(b, d);
    } else {
        assert(b.fadd(d) == b) by {
            reveal(Single::fadd);
        }
    }
    if a.finite() && b.finite() {
        crate::single_laws::law_rank_orders_values(a, b);
        crate::single_laws::law_rank_orders_values(c, d);
        crate::single_laws::law_nearest_is_monotone(a.units() + c.units(), b.units() + d.units());
    }
}

/// The hull of closed bands reaches past each of them.
proof fn lemma_hull(s: Seq<Bounds>, i: int)
    requires
        closed_bands(s),
        0 <= i < s.len(),
    ensures
        crate::bounds::hull_lower(s) matches Some(l) && l.finite() && l.rank() <= (
        s[i].lower->0).rank(),
        crate::bounds::hull_upper(s) matches Some(u) && u.finite() && u.rank() >= (
        s[i].upper->0).rank(),
    decreases s.len(),
{
    let rest = s.drop_last();
    assert forall|j: int| 0 <= j < rest.len() implies {
        let b = #[trigger] rest[j];
        &&& b.lower matches Some(l) && l.finite()
        &&& b.upper matches Some(u) && u.finite()
    } by {
        assert(rest[j] == s[j]);
    }
    assert(s.last() == s[s.len() - 1]);
    if rest.len() > 0 {
        lemma_hull(
            rest,
            if i < rest.len() {
                i
            } else {
                0
            },
        );
    } else {
        assert(crate::bounds::hull_lower(rest) == Some(Single::lit(INFINITY)));
        assert(crate::bounds::hull_upper(rest) == Some(Single::lit(NEG_INFINITY)));
    }
}

proof fn lemma_sum_within(items: Seq<Seq<Bounds>>, values: Seq<Single>)
    requires
        values.len() == items.len(),
        forall|i: int| 0 <= i < items.len() ==> closed_bands(#[trigger] items[i]),
        forall|i: int|
            0 <= i < items.len() && items[i].len() > 0 ==> !(#[trigger] values[i]).nan()
                && crate::bounds::covers(items[i], values[i]),
    ensures
        !crate::bounds::lower_sum(items).nan(),
        !value_sum(items, values).nan(),
        !crate::bounds::upper_sum(items).nan(),
        crate::bounds::lower_sum(items).rank() <= value_sum(items, values).rank()
            <= crate::bounds::upper_sum(items).rank(),
    decreases items.len(),
{
    if items.len() > 0 {
        let (rest, rest_values) = (items.drop_last(), values.drop_last());
        assert forall|i: int| 0 <= i < rest.len() implies closed_bands(#[trigger] rest[i]) by {
            assert(rest[i] == items[i]);
        }
        assert forall|i: int| 0 <= i < rest.len() && rest[i].len() > 0 implies !(
        #[trigger] rest_values[i]).nan() && crate::bounds::covers(rest[i], rest_values[i]) by {
            assert(rest[i] == items[i] && rest_values[i] == values[i]);
        }
        lemma_sum_within(rest, rest_values);
        let last = items[items.len() - 1];
        let v = values[items.len() - 1];
        if last.len() > 0 {
            let k = choose|k: int|
                0 <= k < last.len() && crate::bounds::band_covers(#[trigger] last[k], v);
            lemma_hull(last, k);
            let l = crate::bounds::hull_lower(last)->0;
            let u = crate::bounds::hull_upper(last)->0;
            lemma_sums_keep_order(
                crate::bounds::lower_sum(rest),
                value_sum(rest, rest_values),
                l,
                v,
            );
            lemma_sums_keep_order(
                value_sum(rest, rest_values),
                crate::bounds::upper_sum(rest),
                v,
                u,
            );
        }
    }
}

/// The summed band rejects no reachable value: where every part takes a value
/// that its bounds cover, the sum of the values lies in the sum of the bounds.
/// A side without an edge adds nothing to the sum, so the bands are closed
/// ones.
pub proof fn law_sum_rejects_no_reachable_value(items: Seq<Seq<Bounds>>, values: Seq<Single>)
    requires
        values.len() == items.len(),
        crate::bounds::any_bands(items),
        forall|i: int| 0 <= i < items.len() ==> closed_bands(#[trigger] items[i]),
        forall|i: int|
            0 <= i < items.len() && items[i].len() > 0 ==> !(#[trigger] values[i]).nan()
                && crate::bounds::covers(items[i], values[i]),
    ensures
        crate::bounds::covers(crate::bounds::bands_sum(items), value_sum(items, values)),
{
    lemma_sum_within(items, values);
    let sum = crate::bounds::bands_sum(items);
    assert(crate::bounds::band_covers(sum[0], value_sum(items, values)));
}

/// The hull of closed bands is no wider than they are: its edges are the edges
/// of bands, the lowest and the highest.
pub proof fn law_hull_is_tight(s: Seq<Bounds>)
    requires
        s.len() > 0,
        closed_bands(s),
    ensures
        crate::bounds::hull_lower(s) is Some,
        crate::bounds::hull_upper(s) is Some,
        exists|i: int|
            0 <= i < s.len() && (#[trigger] s[i]).lower->0 == crate::bounds::hull_lower(s)->0,
        exists|i: int|
            0 <= i < s.len() && (#[trigger] s[i]).upper->0 == crate::bounds::hull_upper(s)->0,
        forall|i: int|
            0 <= i < s.len() ==> crate::bounds::hull_lower(s)->0.value() <= (
            #[trigger] s[i]).lower->0.value() && s[i].upper->0.value() <= crate::bounds::hull_upper(
                s,
            )->0.value(),
    decreases s.len(),
{
    let rest = s.drop_last();
    let last = s.last();
    assert(s[s.len() - 1] == last);
    assert forall|i: int| 0 <= i < rest.len() implies (#[trigger] rest[i]) == s[i] by {}
    if rest.len() == 0 {
        assert(crate::bounds::hull_lower(rest) == Some(Single::lit(INFINITY)));
        assert(crate::bounds::hull_upper(rest) == Some(Single::lit(NEG_INFINITY)));
        lemma_limits(last.lower->0);
        lemma_limits(last.upper->0);
    } else {
        law_hull_is_tight(rest);
        let a = crate::bounds::hull_lower(rest)->0;
        let b = crate::bounds::hull_upper(rest)->0;
        let i = choose|i: int| 0 <= i < rest.len() && (#[trigger] rest[i]).lower->0 == a;
        let j = choose|j: int| 0 <= j < rest.len() && (#[trigger] rest[j]).upper->0 == b;
        assert(s[i].lower->0 == a && s[j].upper->0 == b);
        accuracy::law_values_keep_order(a, last.lower->0);
        accuracy::law_values_keep_order(last.lower->0, a);
        accuracy::law_values_keep_order(b, last.upper->0);
        accuracy::law_values_keep_order(last.upper->0, b);
        assert forall|k: int| 0 <= k < s.len() implies crate::bounds::hull_lower(s)->0.value() <= (
        #[trigger] s[k]).lower->0.value() && s[k].upper->0.value() <= crate::bounds::hull_upper(
            s,
        )->0.value() by {
            if k < rest.len() {
                assert(rest[k] == s[k]);
            }
        }
    }
}

/// A finite number lies between the infinities.
proof fn lemma_limits(v: Single)
    requires
        v.finite(),
    ensures
        Single::lit(INFINITY).fmin(v) == v,
        Single::lit(NEG_INFINITY).fmax(v) == v,
{
}

/// The upper edges of the hulls of the lists that have bands.
pub open spec fn upper_edges(items: Seq<Seq<Bounds>>) -> Seq<real>
    decreases items.len(),
{
    if items.len() == 0 {
        Seq::empty()
    } else if items.last().len() == 0 {
        upper_edges(items.drop_last())
    } else {
        upper_edges(items.drop_last()).push(
            crate::bounds::hull_upper(items.last())->0.value(),
        )
    }
}

/// The lower edges of the hulls of the lists that have bands.
pub open spec fn lower_edges(items: Seq<Seq<Bounds>>) -> Seq<real>
    decreases items.len(),
{
    if items.len() == 0 {
        Seq::empty()
    } else if items.last().len() == 0 {
        lower_edges(items.drop_last())
    } else {
        lower_edges(items.drop_last()).push(
            crate::bounds::hull_lower(items.last())->0.value(),
        )
    }
}

proof fn lemma_edges_are_few(items: Seq<Seq<Bounds>>)
    ensures
        upper_edges(items).len() <= items.len(),
        lower_edges(items).len() <= items.len(),
    decreases items.len(),
{
    if items.len() > 0 {
        lemma_edges_are_few(items.drop_last());
    }
}

/// The summed band is no wider than its parts together: its edges are the sums
/// of their edges.
pub proof fn law_summed_edges_add_up(items: Seq<Seq<Bounds>>)
    requires
        items.len() <= 1000,
        forall|i: int| 0 <= i < items.len() ==> closed_bands(#[trigger] items[i]),
        crate::wide_laws::exact_reach(upper_edges(items)) <= accuracy::ample() / 16real,
        crate::wide_laws::exact_reach(lower_edges(items)) <= accuracy::ample() / 16real,
    ensures
        crate::bounds::upper_sum(items).finite(),
        crate::bounds::lower_sum(items).finite(),
        crate::wide_laws::adds_up(
            crate::bounds::upper_sum(items).value(),
            upper_edges(items),
            0,
        ),
        crate::wide_laws::adds_up(
            crate::bounds::lower_sum(items).value(),
            lower_edges(items),
            0,
        ),
    decreases items.len(),
{
    let ups = upper_edges(items);
    let lows = lower_edges(items);
    accuracy::lemma_ample();
    accuracy::lemma_val_zero();
    lemma_edges_are_few(items);
    crate::wide_laws::lemma_reach(ups);
    crate::wide_laws::lemma_reach(lows);
    if items.len() == 0 {
        crate::wide_laws::lemma_empty_sum(0real, ups, 0);
        crate::wide_laws::lemma_empty_sum(0real, lows, 0);
    } else {
        let rest = items.drop_last();
        let last = items.last();
        assert(items[items.len() - 1] == last);
        assert forall|i: int| 0 <= i < rest.len() implies (#[trigger] rest[i]) == items[i] by {}
        if last.len() == 0 {
            law_summed_edges_add_up(rest);
        } else {
            assert(ups.drop_last() =~= upper_edges(rest));
            assert(lows.drop_last() =~= lower_edges(rest));
            law_summed_edges_add_up(rest);
            law_hull_is_tight(last);
            lemma_edge_added(
                crate::bounds::upper_sum(rest),
                crate::bounds::hull_upper(last)->0,
                ups,
            );
            lemma_edge_added(
                crate::bounds::lower_sum(rest),
                crate::bounds::hull_lower(last)->0,
                lows,
            );
        }
    }
}

proof fn lemma_edge_added(before: Single, edge: Single, edges: Seq<real>)
    requires
        before.finite(),
        edge.finite(),
        0 < edges.len() <= 1000,
        edges.last() == edge.value(),
        crate::wide_laws::adds_up(before.value(), edges.drop_last(), 0),
        crate::wide_laws::exact_reach(edges) <= accuracy::ample() / 16real,
    ensures
        before.fadd(edge).finite(),
        crate::wide_laws::adds_up(before.fadd(edge).value(), edges, 0),
{
    accuracy::lemma_ample();
    crate::wide_laws::lemma_reach(edges);
    crate::wide_laws::lemma_reach(edges.drop_last());
    crate::wide_laws::lemma_adds_up_ample(before.value(), edges.drop_last(), 0);
    accuracy::lemma_exact_is_close(edge.value());
    accuracy::law_sum_is_accurate(before, edge);
    crate::wide_laws::lemma_added_term(
        before.fadd(edge).value(),
        before.value(),
        edge.value(),
        edges,
        0,
    );
}

} // verus!
