//! Statistics over the states of charge of a site's batteries.

use crate::double::{Double, DSIGN};
use crate::single::{Single, HUNDRED, ZERO};
use vstd::prelude::*;

verus! {

/// The numbers in ascending order, equal ones in the order they had.
pub open spec fn ascending(s: Seq<Single>) -> Seq<Single>
    decreases s.len(),
{
    if s.len() == 0 {
        Seq::empty()
    } else {
        let rest = ascending(s.drop_last());
        rest.insert(slot(rest, s.last()), s.last())
    }
}

/// Where a number goes: behind the last one that is not greater.
pub open spec fn slot(s: Seq<Single>, v: Single) -> int
    decreases s.len(),
{
    if s.len() == 0 || !v.flt(s.last()) {
        s.len() as int
    } else {
        slot(s.drop_last(), v)
    }
}

proof fn lemma_slot(s: Seq<Single>, v: Single)
    ensures
        0 <= slot(s, v) <= s.len(),
        slot(s, v) > 0 ==> !v.flt(s[slot(s, v) - 1]),
        forall|i: int| slot(s, v) <= i < s.len() ==> v.flt(#[trigger] s[i]),
    decreases s.len(),
{
    if s.len() != 0 && v.flt(s.last()) {
        let rest = s.drop_last();
        lemma_slot(rest, v);
        assert forall|i: int| slot(s, v) <= i < s.len() implies v.flt(#[trigger] s[i]) by {
            if i < rest.len() {
                assert(rest[i] == s[i]);
            }
        }
        if slot(rest, v) > 0 {
            assert(rest[slot(rest, v) - 1] == s[slot(rest, v) - 1]);
        }
    }
}

/// The sum in double precision, in order; that of none is a negative zero.
pub open spec fn wide_sum(s: Seq<Single>) -> Double
    decreases s.len(),
{
    if s.len() == 0 {
        Double::lit(DSIGN)
    } else {
        wide_sum(s.drop_last()).dadd(s.last().widened())
    }
}

/// The whole percent that a state of charge counts as; what is not a number
/// counts as zero.
pub open spec fn bucket(v: Single) -> nat {
    if v.nan() {
        0
    } else {
        v.fclamp(Single::lit(ZERO), Single::lit(HUNDRED)).rounded()
    }
}

/// How many states of charge count as a whole percent.
pub open spec fn tally(s: Seq<Single>, percent: nat) -> nat
    decreases s.len(),
{
    if s.len() == 0 {
        0
    } else {
        tally(s.drop_last(), percent) + if bucket(s.last()) == percent {
            1nat
        } else {
            0
        }
    }
}

/// The whole percent that most states of charge count as, the lowest such.
pub open spec fn is_mode(s: Seq<Single>, percent: nat) -> bool {
    &&& percent <= 100
    &&& forall|p: nat| p <= 100 ==> tally(s, p) <= tally(s, percent)
    &&& forall|p: nat| p < percent ==> #[trigger] tally(s, p) < tally(s, percent)
}

/// The position of the median: the lower one of two in the middle.
pub open spec fn middle(n: nat) -> int {
    if n % 2 == 0 {
        n / 2 - 1
    } else {
        n as int / 2
    }
}

#[derive(Clone, Copy, Debug)]
pub struct SocStats {
    pub mean_pct: Double,
    pub median_pct: Double,
    pub mode_pct: Option<u8>,
}

/// A list without anything that is not a number.
pub open spec fn all_numbers(s: Seq<Single>) -> bool {
    forall|i: int| 0 <= i < s.len() ==> !(#[trigger] s[i]).nan()
}

fn sorted(socs: &Vec<Single>) -> (r: Vec<Single>)
    ensures
        r@ == ascending(socs@),
        r@.len() == socs@.len(),
{
    let mut out: Vec<Single> = Vec::new();
    let mut i: usize = 0;
    assert(socs@.take(0) =~= Seq::empty());
    while i < socs.len()
        invariant
            i <= socs@.len(),
            out@ == ascending(socs@.take(i as int)),
            out@.len() == i,
        decreases socs@.len() - i,
    {
        let v = socs[i];
        proof {
            assert(socs@.take(i + 1).drop_last() =~= socs@.take(i as int));
            assert(socs@.take(i + 1).last() == v);
            lemma_slot(out@, v);
        }
        let mut at: usize = out.len();
        assert(out@.take(at as int) =~= out@);
        while at > 0 && v.lt(out[at - 1])
            invariant
                at <= out@.len(),
                slot(out@, v) == slot(out@.take(at as int), v),
            decreases at,
        {
            proof {
                assert(out@.take(at as int).last() == out@[at - 1]);
                assert(out@.take(at as int).drop_last() =~= out@.take(at - 1));
            }
            at -= 1;
        }
        proof {
            if at > 0 {
                assert(out@.take(at as int).last() == out@[at - 1]);
            }
        }
        out.insert(at, v);
        i += 1;
    }
    assert(socs@.take(socs@.len() as int) =~= socs@);
    out
}

fn mean(socs: &Vec<Single>) -> (r: Double)
    ensures
        r == wide_sum(socs@).ddiv(Double::dint(socs@.len())),
{
    let mut sum = Double::from_bits(DSIGN);
    let mut i: usize = 0;
    assert(socs@.take(0) =~= Seq::empty());
    while i < socs.len()
        invariant
            i <= socs@.len(),
            sum == wide_sum(socs@.take(i as int)),
        decreases socs@.len() - i,
    {
        assert(socs@.take(i + 1).drop_last() =~= socs@.take(i as int));
        assert(socs@.take(i + 1).last() == socs@[i as int]);
        sum = sum.plus(socs[i].widen());
        i += 1;
    }
    assert(socs@.take(socs@.len() as int) =~= socs@);
    sum.over(Double::of_integer(socs.len() as u64))
}

fn count(socs: &Vec<Single>, percent: u64) -> (r: usize)
    ensures
        r == tally(socs@, percent as nat),
{
    let mut n: usize = 0;
    let mut i: usize = 0;
    assert(socs@.take(0) =~= Seq::empty());
    while i < socs.len()
        invariant
            i <= socs@.len(),
            n <= i,
            n == tally(socs@.take(i as int), percent as nat),
        decreases socs@.len() - i,
    {
        assert(socs@.take(i + 1).drop_last() =~= socs@.take(i as int));
        assert(socs@.take(i + 1).last() == socs@[i as int]);
        let whole: u64 = if socs[i].is_nan() {
            0
        } else {
            socs[i].clamp(Single::from_bits(ZERO), Single::from_bits(HUNDRED)).round_percent()
        };
        if whole == percent {
            n += 1;
        }
        i += 1;
    }
    assert(socs@.take(socs@.len() as int) =~= socs@);
    n
}

fn mode(socs: &Vec<Single>) -> (r: u8)
    requires
        socs@.len() > 0,
    ensures
        is_mode(socs@, r as nat),
{
    let mut best: u8 = 0;
    let mut best_count: usize = count(socs, 0);
    let mut percent: u8 = 1;
    while percent <= 100
        invariant
            1 <= percent <= 101,
            best < percent,
            best_count == tally(socs@, best as nat),
            forall|p: nat| p < percent ==> #[trigger] tally(socs@, p) <= best_count,
            forall|p: nat| p < best ==> #[trigger] tally(socs@, p) < best_count,
        decreases 101 - percent,
    {
        let n = count(socs, percent as u64);
        if n > best_count {
            best = percent;
            best_count = n;
        }
        percent += 1;
    }
    best
}

/// Mean, median and mode of the states of charge; nothing of none.
pub fn compute_soc_stats(socs: &Vec<Single>) -> (r: Option<SocStats>)
    ensures
        r is None <==> socs@.len() == 0,
        r matches Some(x) ==> {
            &&& x.mean_pct == wide_sum(socs@).ddiv(Double::dint(socs@.len()))
            &&& x.median_pct == ascending(socs@)[middle(socs@.len())].widened()
            &&& x.mode_pct matches Some(m) && is_mode(socs@, m as nat)
        },
{
    let n = socs.len();
    if n == 0 {
        return None;
    }
    let order = sorted(socs);
    let at: usize = if n % 2 == 0 {
        n / 2 - 1
    } else {
        n / 2
    };
    Some(
        SocStats {
            mean_pct: mean(socs),
            median_pct: order[at].widen(),
            mode_pct: Some(mode(socs)),
        },
    )
}

/// The order is ascending, where all are numbers.
pub proof fn law_order_is_ascending(s: Seq<Single>)
    requires
        all_numbers(s),
    ensures
        ascending(s).len() == s.len(),
        all_numbers(ascending(s)),
        forall|i: int, j: int|
            0 <= i <= j < s.len() ==> (#[trigger] ascending(s)[i]).fle(#[trigger] ascending(s)[j]),
    decreases s.len(),
{
    if s.len() > 0 {
        let front = s.drop_last();
        assert forall|i: int| 0 <= i < front.len() implies !(#[trigger] front[i]).nan() by {
            assert(front[i] == s[i]);
        }
        law_order_is_ascending(front);
        let rest = ascending(front);
        let v = s.last();
        assert(!s[s.len() - 1].nan());
        lemma_slot(rest, v);
        let k = slot(rest, v);
        let all = ascending(s);
        assert forall|i: int| 0 <= i < all.len() implies (#[trigger] all[i]) == if i < k {
            rest[i]
        } else if i == k {
            v
        } else {
            rest[i - 1]
        } by {}
        assert forall|i: int, j: int| 0 <= i <= j < all.len() implies (#[trigger] all[i]).fle(
            #[trigger] all[j],
        ) by {
            if i < k && k > 0 {
                assert(rest[i].fle(rest[k - 1]));
            }
            if j > k {
                assert(v.flt(rest[j - 1]));
            }
        }
    }
}

/// The order is the same numbers.
pub proof fn law_order_keeps_the_numbers(s: Seq<Single>)
    ensures
        ascending(s).to_multiset() == s.to_multiset(),
    decreases s.len(),
{
    if s.len() > 0 {
        let front = s.drop_last();
        law_order_keeps_the_numbers(front);
        let rest = ascending(front);
        let v = s.last();
        lemma_slot(rest, v);
        vstd::seq_lib::to_multiset_insert(rest, slot(rest, v), v);
        vstd::seq_lib::to_multiset_build(front, v);
        assert(s =~= front.push(v));
    } else {
        assert(s =~= Seq::<Single>::empty());
    }
}

} // verus!
