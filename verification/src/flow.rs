//! The power that flows at the components of a topology.
//!
//! A meter without a source of its own measures its children. A child with
//! several parents counts in equal shares at each of them.

use crate::graph::{children_with_parent_counts, Edge};
use crate::meter::Meter;
use crate::simulated::SimulatedComponent;
use crate::single::{Single, SIGN};
use vstd::prelude::*;

verus! {

/// The component with an id; the one that was registered last.
pub open spec fn found(components: Seq<SimulatedComponent>, id: u64) -> Option<SimulatedComponent>
    decreases components.len(),
{
    if components.len() == 0 {
        None
    } else if components.last().spec_id() == id {
        Some(components.last())
    } else {
        found(components.drop_last(), id)
    }
}

/// One share of a flow among `parents`.
pub open spec fn share(flow: Single, parents: nat) -> Single {
    flow.fdiv(
        Single::fint(
            if parents == 0 {
                1
            } else {
                parents
            },
        ),
    )
}

/// The sum of the shares of the registered children, in order, down to a depth
/// of the topology. The sum of none is a negative zero, the neutral element of
/// the addition.
pub open spec fn power_sum(
    components: Seq<SimulatedComponent>,
    edges: Seq<Edge>,
    kids: Seq<(u64, nat)>,
    depth: nat,
) -> Single
    decreases depth, kids.len(),
{
    if kids.len() == 0 {
        Single::lit(SIGN)
    } else {
        let before = power_sum(components, edges, kids.drop_last(), depth);
        match found(components, kids.last().0) {
            Some(c) => before.fadd(
                share(power_within(components, edges, c, depth), kids.last().1),
            ),
            None => before,
        }
    }
}

/// The active power at a component, down to a depth of the topology.
pub open spec fn power_within(
    components: Seq<SimulatedComponent>,
    edges: Seq<Edge>,
    c: SimulatedComponent,
    depth: nat,
) -> Single
    decreases depth, 0nat,
{
    match c {
        SimulatedComponent::Meter(m) => m.active(
            if depth == 0 {
                Single::lit(SIGN)
            } else {
                power_sum(
                    components,
                    edges,
                    crate::graph::weighted_children(edges, m.id),
                    (depth - 1) as nat,
                )
            },
        ),
        _ => c.own_power(),
    }
}

/// The sum of the shares of the registered children, in order, down to a depth
/// of the topology. The sum of none is a negative zero, the neutral element of
/// the addition.
pub open spec fn reactive_sum(
    components: Seq<SimulatedComponent>,
    edges: Seq<Edge>,
    kids: Seq<(u64, nat)>,
    depth: nat,
) -> Single
    decreases depth, kids.len(),
{
    if kids.len() == 0 {
        Single::lit(SIGN)
    } else {
        let before = reactive_sum(components, edges, kids.drop_last(), depth);
        match found(components, kids.last().0) {
            Some(c) => before.fadd(
                share(reactive_within(components, edges, c, depth), kids.last().1),
            ),
            None => before,
        }
    }
}

/// The reactive power at a component, down to a depth of the topology.
pub open spec fn reactive_within(
    components: Seq<SimulatedComponent>,
    edges: Seq<Edge>,
    c: SimulatedComponent,
    depth: nat,
) -> Single
    decreases depth, 0nat,
{
    match c {
        SimulatedComponent::Meter(m) => m.reactive(
            power_within(components, edges, c, depth),
            if depth == 0 {
                Single::lit(SIGN)
            } else {
                reactive_sum(
                    components,
                    edges,
                    crate::graph::weighted_children(edges, m.id),
                    (depth - 1) as nat,
                )
            },
        ),
        _ => c.own_reactive(),
    }
}

/// The active power at a component. In a topology without loops no walk is
/// longer than this depth: see [`law_meter_measures_its_children`].
pub open spec fn power(
    components: Seq<SimulatedComponent>,
    edges: Seq<Edge>,
    c: SimulatedComponent,
) -> Single {
    power_within(components, edges, c, edges.len() + 1)
}

/// The reactive power at a component.
pub open spec fn reactive(
    components: Seq<SimulatedComponent>,
    edges: Seq<Edge>,
    c: SimulatedComponent,
) -> Single {
    reactive_within(components, edges, c, edges.len() + 1)
}

/// The sum of the shares of the active power at the registered children, in
/// order.
pub open spec fn children_power(
    components: Seq<SimulatedComponent>,
    edges: Seq<Edge>,
    kids: Seq<(u64, nat)>,
) -> Single
    decreases kids.len(),
{
    if kids.len() == 0 {
        Single::lit(SIGN)
    } else {
        let before = children_power(components, edges, kids.drop_last());
        match found(components, kids.last().0) {
            Some(c) => before.fadd(share(power(components, edges, c), kids.last().1)),
            None => before,
        }
    }
}

/// The sum of the shares of the reactive power at the registered children, in
/// order.
pub open spec fn children_reactive(
    components: Seq<SimulatedComponent>,
    edges: Seq<Edge>,
    kids: Seq<(u64, nat)>,
) -> Single
    decreases kids.len(),
{
    if kids.len() == 0 {
        Single::lit(SIGN)
    } else {
        let before = children_reactive(components, edges, kids.drop_last());
        match found(components, kids.last().0) {
            Some(c) => before.fadd(share(reactive(components, edges, c), kids.last().1)),
            None => before,
        }
    }
}

pub proof fn lemma_found(components: Seq<SimulatedComponent>, id: u64)
    ensures
        found(components, id) matches Some(c) ==> c.spec_id() == id && components.contains(c),
        found(components, id) is None <==> forall|i: int|
            0 <= i < components.len() ==> (#[trigger] components[i]).spec_id() != id,
    decreases components.len(),
{
    if components.len() > 0 {
        let rest = components.drop_last();
        lemma_found(rest, id);
        assert(components[components.len() - 1] == components.last());
        if components.last().spec_id() != id {
            if let Some(c) = found(rest, id) {
                let i = choose|i: int| 0 <= i < rest.len() && rest[i] == c;
                assert(components[i] == c);
            } else {
                assert forall|i: int| 0 <= i < components.len() implies (
                #[trigger] components[i]).spec_id() != id by {
                    if i < rest.len() {
                        assert(rest[i] == components[i]);
                    }
                }
            }
        }
    }
}

/// Every walk from a node has fewer than `depth` edges.
pub open spec fn shallow(edges: Seq<Edge>, node: u64, depth: nat) -> bool {
    forall|nodes: Seq<u64>| #[trigger]
        crate::graph::is_walk(edges, nodes) && nodes[0] == node ==> nodes.len() <= depth
}

proof fn lemma_child_is_shallower(edges: Seq<Edge>, parent: u64, i: int, depth: nat)
    requires
        shallow(edges, parent, depth),
        0 <= i < crate::graph::children(edges, parent).len(),
    ensures
        depth > 0,
        shallow(edges, crate::graph::children(edges, parent)[i], (depth - 1) as nat),
{
    let child = crate::graph::children(edges, parent)[i];
    let e = edges.filter(crate::graph::starts_at(parent))[i];
    edges.lemma_filter_pred(crate::graph::starts_at(parent), i);
    edges.lemma_filter_contains_rev(crate::graph::starts_at(parent), e);
    assert(e == (parent, child));
    crate::graph::lemma_leads_reflexive(edges, parent);
    assert(crate::graph::is_walk(edges, seq![parent]));
    assert forall|nodes: Seq<u64>| #[trigger]
        crate::graph::is_walk(edges, nodes) && nodes[0] == child implies nodes.len() <= depth
        - 1 by {
        let longer = seq![parent] + nodes;
        assert forall|a: int, b: int|
            #![trigger longer[a], longer[b]]
            0 <= a && b == a + 1 && b < longer.len() implies edges.contains(
            (longer[a], longer[b]),
        ) by {
            if a > 0 {
                assert(longer[a] == nodes[a - 1] && longer[b] == nodes[b - 1]);
            } else {
                assert(longer[b] == nodes[0]);
            }
        }
        assert(crate::graph::is_walk(edges, longer));
        assert(longer[0] == parent);
    }
}

/// Each of the children is shallow.
spec fn all_shallow(edges: Seq<Edge>, kids: Seq<(u64, nat)>, depth: nat) -> bool {
    forall|i: int| 0 <= i < kids.len() ==> shallow(edges, (#[trigger] kids[i]).0, depth)
}

proof fn lemma_children_are_shallower(edges: Seq<Edge>, parent: u64, depth: nat)
    requires
        shallow(edges, parent, depth),
    ensures
        depth > 0,
        all_shallow(edges, crate::graph::weighted_children(edges, parent), (depth - 1) as nat),
{
    assert(crate::graph::is_walk(edges, seq![parent]));
    assert(seq![parent][0] == parent);
    let kids = crate::graph::weighted_children(edges, parent);
    assert forall|i: int| 0 <= i < kids.len() implies shallow(
        edges,
        (#[trigger] kids[i]).0,
        (depth - 1) as nat,
    ) by {
        lemma_child_is_shallower(edges, parent, i, depth);
    }
}

/// Past the longest walk the depth makes no difference.
proof fn lemma_depth_is_enough(
    components: Seq<SimulatedComponent>,
    edges: Seq<Edge>,
    c: SimulatedComponent,
    depth: nat,
)
    requires
        shallow(edges, c.spec_id(), depth),
    ensures
        power_within(components, edges, c, depth) == power_within(
            components,
            edges,
            c,
            depth + 1,
        ),
        reactive_within(components, edges, c, depth) == reactive_within(
            components,
            edges,
            c,
            depth + 1,
        ),
    decreases depth, 0nat,
{
    if let SimulatedComponent::Meter(m) = c {
        lemma_children_are_shallower(edges, m.id, depth);
        lemma_sum_depth_is_enough(
            components,
            edges,
            crate::graph::weighted_children(edges, m.id),
            (depth - 1) as nat,
        );
    }
}

proof fn lemma_sum_depth_is_enough(
    components: Seq<SimulatedComponent>,
    edges: Seq<Edge>,
    kids: Seq<(u64, nat)>,
    depth: nat,
)
    requires
        all_shallow(edges, kids, depth),
    ensures
        power_sum(components, edges, kids, depth) == power_sum(
            components,
            edges,
            kids,
            depth + 1,
        ),
        reactive_sum(components, edges, kids, depth) == reactive_sum(
            components,
            edges,
            kids,
            depth + 1,
        ),
    decreases depth, kids.len(),
{
    if kids.len() > 0 {
        let rest = kids.drop_last();
        assert forall|i: int| 0 <= i < rest.len() implies shallow(
            edges,
            (#[trigger] rest[i]).0,
            depth,
        ) by {
            assert(kids[i] == rest[i]);
        }
        lemma_sum_depth_is_enough(components, edges, rest, depth);
        assert(kids[kids.len() - 1] == kids.last());
        lemma_found(components, kids.last().0);
        if let Some(c) = found(components, kids.last().0) {
            lemma_depth_is_enough(components, edges, c, depth);
        }
    }
}

proof fn lemma_sum_of_powers(
    components: Seq<SimulatedComponent>,
    edges: Seq<Edge>,
    kids: Seq<(u64, nat)>,
)
    ensures
        power_sum(components, edges, kids, edges.len() + 1) == children_power(
            components,
            edges,
            kids,
        ),
        reactive_sum(components, edges, kids, edges.len() + 1) == children_reactive(
            components,
            edges,
            kids,
        ),
    decreases kids.len(),
{
    if kids.len() > 0 {
        lemma_sum_of_powers(components, edges, kids.drop_last());
    }
}

/// The active power at a meter is what its source says or, without one, the
/// sum of the shares of its children's power: the depth of the topology plays
/// no part where it has no loops. The same holds of the reactive power.
pub proof fn law_meter_measures_its_children(
    components: Seq<SimulatedComponent>,
    edges: Seq<Edge>,
    m: Meter,
)
    requires
        crate::graph::acyclic(edges),
    ensures
        power(components, edges, SimulatedComponent::Meter(m)) == m.active(
            children_power(components, edges, crate::graph::weighted_children(edges, m.id)),
        ),
        reactive(components, edges, SimulatedComponent::Meter(m)) == m.reactive(
            power(components, edges, SimulatedComponent::Meter(m)),
            children_reactive(components, edges, crate::graph::weighted_children(edges, m.id)),
        ),
{
    let depth: nat = edges.len() + 1;
    let kids = crate::graph::weighted_children(edges, m.id);
    assert(shallow(edges, m.id, depth)) by {
        assert forall|nodes: Seq<u64>| #[trigger]
            crate::graph::is_walk(edges, nodes) && nodes[0] == m.id implies nodes.len()
            <= depth by {
            crate::graph::law_walks_are_bounded(edges, nodes);
        }
    }
    lemma_children_are_shallower(edges, m.id, depth);
    lemma_sum_depth_is_enough(components, edges, kids, (depth - 1) as nat);
    lemma_sum_of_powers(components, edges, kids);
}

/// No later component has the same id.
pub open spec fn is_last(components: Seq<SimulatedComponent>, i: int) -> bool {
    forall|j: int|
        i < j < components.len() ==> (#[trigger] components[j]).spec_id()
            != components[i].spec_id()
}

/// The component with an id is the last one that has it.
pub proof fn lemma_found_is_last(components: Seq<SimulatedComponent>, i: int)
    requires
        0 <= i < components.len(),
        is_last(components, i),
    ensures
        found(components, components[i].spec_id()) == Some(components[i]),
    decreases components.len(),
{
    if i < components.len() - 1 {
        let rest = components.drop_last();
        assert(components[components.len() - 1].spec_id() != components[i].spec_id());
        assert forall|j: int| i < j < rest.len() implies (#[trigger] rest[j]).spec_id()
            != rest[i].spec_id() by {
            assert(rest[j] == components[j]);
        }
        lemma_found_is_last(rest, i);
    }
}

/// A registered id has a last component.
pub proof fn lemma_last_of(components: Seq<SimulatedComponent>, id: u64)
    requires
        found(components, id) is Some,
    ensures
        exists|k: int|
            0 <= k < components.len() && is_last(components, k)
                && #[trigger] components[k].spec_id() == id,
    decreases components.len(),
{
    let n = components.len() - 1;
    if components.last().spec_id() == id {
        assert(is_last(components, n) && components[n].spec_id() == id);
    } else {
        let rest = components.drop_last();
        lemma_last_of(rest, id);
        let k = choose|k: int|
            0 <= k < rest.len() && is_last(rest, k) && #[trigger] rest[k].spec_id() == id;
        assert forall|j: int| k < j < components.len() implies (
        #[trigger] components[j]).spec_id() != components[k].spec_id() by {
            if j < rest.len() {
                assert(rest[j] == components[j]);
            }
        }
        assert(is_last(components, k) && components[k].spec_id() == id);
    }
}

/// The position of the component with an id, the last one registered.
pub fn position(components: &Vec<SimulatedComponent>, id: u64) -> (r: Option<usize>)
    ensures
        r is None <==> found(components@, id) is None,
        r matches Some(i) ==> i < components@.len() && found(components@, id) == Some(
            components@[i as int],
        ) && components@[i as int].spec_id() == id && is_last(components@, i as int),
{
    let mut i: usize = components.len();
    assert(components@.take(i as int) =~= components@);
    while i > 0
        invariant
            i <= components@.len(),
            found(components@, id) == found(components@.take(i as int), id),
            forall|j: int| i <= j < components@.len() ==> (#[trigger] components@[j]).spec_id() != id,
        decreases i,
    {
        i -= 1;
        assert(components@.take(i + 1).drop_last() =~= components@.take(i as int));
        assert(components@.take(i + 1).last() == components@[i as int]);
        if components[i].id() == id {
            return Some(i);
        }
    }
    None
}

/// The active power at `c`, down to `depth`.
pub fn aggregate_power_w(
    components: &Vec<SimulatedComponent>,
    edges: &Vec<Edge>,
    c: &SimulatedComponent,
    depth: u128,
) -> (r: Single)
    ensures
        r == power_within(components@, edges@, *c, depth as nat),
    decreases depth,
{
    match c {
        SimulatedComponent::Meter(m) => {
            let neutral = Single::from_bits(SIGN);
            if !m.measures_active() || depth == 0 {
                return m.aggregate_active(neutral);
            }
            let kids = children_with_parent_counts(edges, m.id);
            let ghost weighted = crate::graph::weighted_children(edges@, m.id);
            let mut sum = neutral;
            let mut i: usize = 0;
            assert(weighted.take(0) =~= Seq::empty());
            while i < kids.len()
                invariant
                    i <= kids@.len(),
                    depth > 0,
                    kids@.map_values(|x: (u64, usize)| (x.0, x.1 as nat)) == weighted,
                    sum == power_sum(
                        components@,
                        edges@,
                        weighted.take(i as int),
                        (depth - 1) as nat,
                    ),
                decreases kids@.len() - i,
            {
                let (id, parents) = kids[i];
                proof {
                    assert(weighted.take(i + 1).drop_last() =~= weighted.take(i as int));
                    assert(weighted.take(i + 1).last() == weighted[i as int]);
                    assert(weighted[i as int] == (id, parents as nat));
                }
                if let Some(at) = position(components, id) {
                    let p = aggregate_power_w(components, edges, &components[at], depth - 1);
                    sum = sum.plus(shared(p, parents));
                }
                i += 1;
            }
            assert(weighted.take(weighted.len() as int) =~= weighted);
            m.aggregate_active(sum)
        },
        _ => c.own_power_w(),
    }
}

fn shared(flow: Single, parents: usize) -> (r: Single)
    ensures
        r == share(flow, parents as nat),
{
    let n: u64 = if parents == 0 {
        1
    } else {
        parents as u64
    };
    flow.over(Single::of_integer(n))
}

/// The reactive power at `c`, down to `depth`.
pub fn aggregate_reactive_var(
    components: &Vec<SimulatedComponent>,
    edges: &Vec<Edge>,
    c: &SimulatedComponent,
    depth: u128,
) -> (r: Single)
    ensures
        r == reactive_within(components@, edges@, *c, depth as nat),
    decreases depth,
{
    match c {
        SimulatedComponent::Meter(m) => {
            let p = aggregate_power_w(components, edges, c, depth);
            let neutral = Single::from_bits(SIGN);
            if !m.measures_reactive() || depth == 0 {
                return m.aggregate_reactive_with(p, neutral);
            }
            let kids = children_with_parent_counts(edges, m.id);
            let ghost weighted = crate::graph::weighted_children(edges@, m.id);
            let mut sum = neutral;
            let mut i: usize = 0;
            assert(weighted.take(0) =~= Seq::empty());
            while i < kids.len()
                invariant
                    i <= kids@.len(),
                    depth > 0,
                    kids@.map_values(|x: (u64, usize)| (x.0, x.1 as nat)) == weighted,
                    sum == reactive_sum(
                        components@,
                        edges@,
                        weighted.take(i as int),
                        (depth - 1) as nat,
                    ),
                decreases kids@.len() - i,
            {
                let (id, parents) = kids[i];
                proof {
                    assert(weighted.take(i + 1).drop_last() =~= weighted.take(i as int));
                    assert(weighted.take(i + 1).last() == weighted[i as int]);
                    assert(weighted[i as int] == (id, parents as nat));
                }
                if let Some(at) = position(components, id) {
                    let q = aggregate_reactive_var(components, edges, &components[at], depth - 1);
                    sum = sum.plus(shared(q, parents));
                }
                i += 1;
            }
            assert(weighted.take(weighted.len() as int) =~= weighted);
            m.aggregate_reactive_with(p, sum)
        },
        _ => c.own_reactive_var(),
    }
}

/// Of the components with an id the one that was registered last counts, and
/// one is found wherever there is one.
pub proof fn law_last_registration_counts(components: Seq<SimulatedComponent>, id: u64)
    ensures
        found(components, id) matches Some(c) ==> exists|i: int|
            0 <= i < components.len() && #[trigger] components[i] == c && c.spec_id() == id && (
            forall|j: int|
                i < j < components.len() ==> (#[trigger] components[j]).spec_id() != id),
        found(components, id) is None ==> forall|j: int|
            0 <= j < components.len() ==> (#[trigger] components[j]).spec_id() != id,
    decreases components.len(),
{
    if components.len() > 0 {
        let rest = components.drop_last();
        let last = components.last();
        assert(components[components.len() - 1] == last);
        if last.spec_id() != id {
            law_last_registration_counts(rest, id);
            assert forall|j: int| 0 <= j < rest.len() implies #[trigger] components[j]
                == rest[j] by {}
            if let Some(c) = found(rest, id) {
                let i = choose|i: int|
                    0 <= i < rest.len() && #[trigger] rest[i] == c && c.spec_id() == id && (
                    forall|j: int|
                        i < j < rest.len() ==> (#[trigger] rest[j]).spec_id() != id);
                assert(components[i] == c);
                assert forall|j: int| i < j < components.len() implies (
                #[trigger] components[j]).spec_id() != id by {
                    if j < rest.len() {
                        assert(rest[j].spec_id() != id);
                    }
                }
            }
        }
    }
}

} // verus!
