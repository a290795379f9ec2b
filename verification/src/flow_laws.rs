//! What meters measure, in real numbers.

use crate::accuracy;
use crate::graph::Edge;
use crate::reals;
use crate::simulated::SimulatedComponent;
use crate::single::{Single, SIGN};
use vstd::prelude::*;

verus! {

/// The number of parents that share a flow, at least one.
pub open spec fn sharers(parents: nat) -> real {
    if parents == 0 {
        1real
    } else {
        parents as real
    }
}

/// The parents of a component share its flow equally.
pub proof fn law_parents_share_equally(flow: Single, parents: nat)
    requires
        flow.finite(),
        parents <= u64::MAX,
        accuracy::dist(flow.value()) <= accuracy::ample() / 4real,
    ensures
        crate::flow::share(flow, parents).finite(),
        accuracy::close(
            crate::flow::share(flow, parents).value(),
            flow.value() / sharers(parents),
            accuracy::steps(4),
            accuracy::speck(),
        ),
{
    let k = if parents == 0 {
        1nat
    } else {
        parents
    };
    let n = sharers(parents);
    let x = flow.value();
    accuracy::law_integer_is_accurate(k);
    accuracy::lemma_one_step(Single::fint(k).value(), n, 0real);
    accuracy::lemma_exact_is_close(x);
    reals::lemma_over_is_times(0real, n);
    reals::lemma_zero(1real / n);
    crate::wide_laws::lemma_smaller(x, n);
    accuracy::lemma_step_ratio(flow, Single::fint(k), x, n, 0, 1, 0real);
}

/// The parts of the children's active power that a meter measures, exactly.
pub open spec fn exact_parts(
    components: Seq<SimulatedComponent>,
    edges: Seq<Edge>,
    kids: Seq<(u64, nat)>,
) -> Seq<real>
    decreases kids.len(),
{
    if kids.len() == 0 {
        Seq::empty()
    } else {
        let before = exact_parts(components, edges, kids.drop_last());
        match crate::flow::found(components, kids.last().0) {
            Some(c) => before.push(
                crate::flow::power(components, edges, c).value() / sharers(kids.last().1),
            ),
            None => before,
        }
    }
}

/// The children that are registered report finite power, and have a number of
/// parents that a machine can count.
pub open spec fn sound_children(
    components: Seq<SimulatedComponent>,
    edges: Seq<Edge>,
    kids: Seq<(u64, nat)>,
) -> bool {
    forall|i: int|
        0 <= i < kids.len() ==> (#[trigger] kids[i]).1 <= u64::MAX && (crate::flow::found(
            components,
            kids[i].0,
        ) matches Some(c) ==> crate::flow::power(components, edges, c).finite()
            && accuracy::dist(crate::flow::power(components, edges, c).value())
            <= accuracy::ample() / 16real)
}

proof fn lemma_parts_are_few(
    components: Seq<SimulatedComponent>,
    edges: Seq<Edge>,
    kids: Seq<(u64, nat)>,
)
    ensures
        exact_parts(components, edges, kids).len() <= kids.len(),
    decreases kids.len(),
{
    if kids.len() > 0 {
        lemma_parts_are_few(components, edges, kids.drop_last());
    }
}

/// A meter without a source of its own measures the sum of its children's
/// active power, of each the part that falls to one of its parents, to the
/// precision of adding them up one by one.
pub proof fn law_meter_adds_up_its_children(
    components: Seq<SimulatedComponent>,
    edges: Seq<Edge>,
    kids: Seq<(u64, nat)>,
)
    requires
        kids.len() <= 1000,
        sound_children(components, edges, kids),
        crate::wide_laws::exact_reach(exact_parts(components, edges, kids)) <= accuracy::ample()
            / 16real,
    ensures
        crate::flow::children_power(components, edges, kids).finite(),
        crate::wide_laws::adds_up(
            crate::flow::children_power(components, edges, kids).value(),
            exact_parts(components, edges, kids),
            4,
        ),
    decreases kids.len(),
{
    let parts = exact_parts(components, edges, kids);
    accuracy::lemma_ample();
    lemma_parts_are_few(components, edges, kids);
    crate::wide_laws::lemma_reach(parts);
    if kids.len() == 0 {
        let zero = Single::lit(SIGN);
        accuracy::lemma_val_zero();
        accuracy::law_values_keep_order(zero, Single::lit(0));
        crate::wide_laws::lemma_empty_sum(0real, parts, 4);
    } else {
        let rest = kids.drop_last();
        assert forall|i: int| 0 <= i < rest.len() implies (#[trigger] rest[i]) == kids[i] by {}
        assert(kids[kids.len() - 1] == kids.last());
        match crate::flow::found(components, kids.last().0) {
            None => {
                law_meter_adds_up_its_children(components, edges, rest);
            },
            Some(c) => {
                let flow = crate::flow::power(components, edges, c);
                let n = sharers(kids.last().1);
                let part = flow.value() / n;
                let earlier = exact_parts(components, edges, rest);
                assert(parts.drop_last() =~= earlier);
                law_meter_adds_up_its_children(components, edges, rest);
                let before = crate::flow::children_power(components, edges, rest);
                let share = crate::flow::share(flow, kids.last().1);
                law_parents_share_equally(flow, kids.last().1);
                crate::wide_laws::lemma_smaller(flow.value(), n);
                lemma_parts_are_few(components, edges, rest);
                crate::wide_laws::lemma_adds_up_ample(before.value(), earlier, 4);
                accuracy::lemma_stays_ample(
                    share.value(),
                    part,
                    4,
                    accuracy::speck(),
                    accuracy::ample() / 4real,
                );
                accuracy::law_sum_is_accurate(before, share);
                crate::wide_laws::lemma_added_term(
                    before.fadd(share).value(),
                    before.value(),
                    share.value(),
                    parts,
                    4,
                );
            },
        }
    }
}

/// The parts of the children's reactive power that a meter measures, exactly.
pub open spec fn exact_reactive_parts(
    components: Seq<SimulatedComponent>,
    edges: Seq<Edge>,
    kids: Seq<(u64, nat)>,
) -> Seq<real>
    decreases kids.len(),
{
    if kids.len() == 0 {
        Seq::empty()
    } else {
        let before = exact_reactive_parts(components, edges, kids.drop_last());
        match crate::flow::found(components, kids.last().0) {
            Some(c) => before.push(
                crate::flow::reactive(components, edges, c).value() / sharers(kids.last().1),
            ),
            None => before,
        }
    }
}

/// The registered children report finite reactive power.
pub open spec fn sound_reactive_children(
    components: Seq<SimulatedComponent>,
    edges: Seq<Edge>,
    kids: Seq<(u64, nat)>,
) -> bool {
    forall|i: int|
        0 <= i < kids.len() ==> (#[trigger] kids[i]).1 <= u64::MAX && (crate::flow::found(
            components,
            kids[i].0,
        ) matches Some(c) ==> crate::flow::reactive(components, edges, c).finite()
            && accuracy::dist(crate::flow::reactive(components, edges, c).value())
            <= accuracy::ample() / 16real)
}

proof fn lemma_reactive_parts_are_few(
    components: Seq<SimulatedComponent>,
    edges: Seq<Edge>,
    kids: Seq<(u64, nat)>,
)
    ensures
        exact_reactive_parts(components, edges, kids).len() <= kids.len(),
    decreases kids.len(),
{
    if kids.len() > 0 {
        lemma_reactive_parts_are_few(components, edges, kids.drop_last());
    }
}

/// The same of the reactive power.
pub proof fn law_meter_adds_up_the_reactive_power(
    components: Seq<SimulatedComponent>,
    edges: Seq<Edge>,
    kids: Seq<(u64, nat)>,
)
    requires
        kids.len() <= 1000,
        sound_reactive_children(components, edges, kids),
        crate::wide_laws::exact_reach(exact_reactive_parts(components, edges, kids))
            <= accuracy::ample() / 16real,
    ensures
        crate::flow::children_reactive(components, edges, kids).finite(),
        crate::wide_laws::adds_up(
            crate::flow::children_reactive(components, edges, kids).value(),
            exact_reactive_parts(components, edges, kids),
            4,
        ),
    decreases kids.len(),
{
    let parts = exact_reactive_parts(components, edges, kids);
    accuracy::lemma_ample();
    lemma_reactive_parts_are_few(components, edges, kids);
    crate::wide_laws::lemma_reach(parts);
    if kids.len() == 0 {
        let zero = Single::lit(SIGN);
        accuracy::lemma_val_zero();
        accuracy::law_values_keep_order(zero, Single::lit(0));
        crate::wide_laws::lemma_empty_sum(0real, parts, 4);
    } else {
        let rest = kids.drop_last();
        assert forall|i: int| 0 <= i < rest.len() implies (#[trigger] rest[i]) == kids[i] by {}
        assert(kids[kids.len() - 1] == kids.last());
        match crate::flow::found(components, kids.last().0) {
            None => {
                law_meter_adds_up_the_reactive_power(components, edges, rest);
            },
            Some(c) => {
                let flow = crate::flow::reactive(components, edges, c);
                let n = sharers(kids.last().1);
                let part = flow.value() / n;
                let earlier = exact_reactive_parts(components, edges, rest);
                assert(parts.drop_last() =~= earlier);
                law_meter_adds_up_the_reactive_power(components, edges, rest);
                let before = crate::flow::children_reactive(components, edges, rest);
                let share = crate::flow::share(flow, kids.last().1);
                law_parents_share_equally(flow, kids.last().1);
                crate::wide_laws::lemma_smaller(flow.value(), n);
                lemma_reactive_parts_are_few(components, edges, rest);
                crate::wide_laws::lemma_adds_up_ample(before.value(), earlier, 4);
                accuracy::lemma_stays_ample(
                    share.value(),
                    part,
                    4,
                    accuracy::speck(),
                    accuracy::ample() / 4real,
                );
                accuracy::law_sum_is_accurate(before, share);
                crate::wide_laws::lemma_added_term(
                    before.fadd(share).value(),
                    before.value(),
                    share.value(),
                    parts,
                    4,
                );
            },
        }
    }
}

} // verus!
