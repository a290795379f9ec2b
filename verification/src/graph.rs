//! The topology as a list of edges from parent to child.

use std::collections::HashSet;
use vstd::prelude::*;

verus! {

broadcast use vstd::std_specs::hash::group_hash_axioms;

/// A parent and a child.
pub type Edge = (u64, u64);

/// The nodes follow the edges.
pub open spec fn is_walk(edges: Seq<Edge>, nodes: Seq<u64>) -> bool {
    &&& nodes.len() >= 1
    &&& forall|i: int, j: int|
        #![trigger nodes[i], nodes[j]]
        0 <= i && j == i + 1 && j < nodes.len() ==> edges.contains((nodes[i], nodes[j]))
}

/// A walk, perhaps without edges, leads from one node to the other.
pub open spec fn leads(edges: Seq<Edge>, from: u64, to: u64) -> bool {
    exists|nodes: Seq<u64>| #[trigger]
        is_walk(edges, nodes) && nodes[0] == from && nodes.last() == to
}

/// No edge lies on a loop: nothing leads from its child back to its parent.
pub open spec fn acyclic(edges: Seq<Edge>) -> bool {
    forall|parent: u64, child: u64| #[trigger]
        edges.contains((parent, child)) ==> !leads(edges, child, parent)
}

pub open spec fn ends_in(node: u64) -> spec_fn(Edge) -> bool {
    |e: Edge| e.1 == node
}

pub open spec fn starts_at(node: u64) -> spec_fn(Edge) -> bool {
    |e: Edge| e.0 == node
}

pub open spec fn avoids(node: u64) -> spec_fn(Edge) -> bool {
    |e: Edge| e.0 != node && e.1 != node
}

pub open spec fn differs(edge: Edge) -> spec_fn(Edge) -> bool {
    |e: Edge| e != edge
}

/// How many edges end in a node.
pub open spec fn in_degree(edges: Seq<Edge>, node: u64) -> nat {
    edges.filter(ends_in(node)).len()
}

/// The children of a node, in the order of the edges.
pub open spec fn children(edges: Seq<Edge>, parent: u64) -> Seq<u64> {
    edges.filter(starts_at(parent)).map_values(|e: Edge| e.1)
}

/// The children of a node, each with the number of its parents.
pub open spec fn weighted_children(edges: Seq<Edge>, parent: u64) -> Seq<(u64, nat)> {
    children(edges, parent).map_values(|c: u64| (c, in_degree(edges, c)))
}

/// The edges without those that touch a node.
pub open spec fn without_node(edges: Seq<Edge>, node: u64) -> Seq<Edge> {
    edges.filter(avoids(node))
}

/// The edges without the copies of one.
pub open spec fn without_edge(edges: Seq<Edge>, edge: Edge) -> Seq<Edge> {
    edges.filter(differs(edge))
}

pub proof fn lemma_leads_reflexive(edges: Seq<Edge>, a: u64)
    ensures
        leads(edges, a, a),
{
    assert(is_walk(edges, seq![a]));
}

pub proof fn lemma_leads_extend(edges: Seq<Edge>, a: u64, b: u64, c: u64)
    requires
        leads(edges, a, b),
        edges.contains((b, c)),
    ensures
        leads(edges, a, c),
{
    let nodes = choose|nodes: Seq<u64>| #[trigger]
        is_walk(edges, nodes) && nodes[0] == a && nodes.last() == b;
    let more = nodes.push(c);
    assert forall|i: int, j: int|
        #![trigger more[i], more[j]]
        0 <= i && j == i + 1 && j < more.len() implies edges.contains((more[i], more[j])) by {
        if j < nodes.len() {
            assert(more[i] == nodes[i] && more[j] == nodes[j]);
        }
    }
    assert(is_walk(edges, more));
    assert(more[0] == a && more.last() == c);
}

/// Walks compose.
pub proof fn lemma_leads_transitive(edges: Seq<Edge>, a: u64, b: u64, c: u64)
    requires
        leads(edges, a, b),
        leads(edges, b, c),
    ensures
        leads(edges, a, c),
{
    let nodes = choose|nodes: Seq<u64>| #[trigger]
        is_walk(edges, nodes) && nodes[0] == b && nodes.last() == c;
    lemma_walk_within(edges, nodes, nodes.len() - 1);
    lemma_append(edges, a, nodes);
}

/// The first nodes of a walk are a walk.
proof fn lemma_walk_within(edges: Seq<Edge>, nodes: Seq<u64>, k: int)
    requires
        is_walk(edges, nodes),
        0 <= k < nodes.len(),
    ensures
        is_walk(edges, nodes.take(k + 1)),
        leads(edges, nodes[0], nodes[k]),
{
    let part = nodes.take(k + 1);
    assert forall|i: int, j: int|
        #![trigger part[i], part[j]]
        0 <= i && j == i + 1 && j < part.len() implies edges.contains((part[i], part[j])) by {
        assert(part[i] == nodes[i] && part[j] == nodes[j]);
    }
    assert(is_walk(edges, part) && part[0] == nodes[0] && part.last() == nodes[k]);
}

/// The last nodes of a walk are a walk.
proof fn lemma_walk_from(edges: Seq<Edge>, nodes: Seq<u64>, k: int)
    requires
        is_walk(edges, nodes),
        0 <= k < nodes.len(),
    ensures
        is_walk(edges, nodes.skip(k)),
        leads(edges, nodes[k], nodes.last()),
{
    let part = nodes.skip(k);
    assert forall|i: int, j: int|
        #![trigger part[i], part[j]]
        0 <= i && j == i + 1 && j < part.len() implies edges.contains((part[i], part[j])) by {
        assert(part[i] == nodes[i + k] && part[j] == nodes[j + k]);
    }
    assert(is_walk(edges, part) && part[0] == nodes[k] && part.last() == nodes.last());
}

proof fn lemma_append(edges: Seq<Edge>, a: u64, nodes: Seq<u64>)
    requires
        is_walk(edges, nodes),
        leads(edges, a, nodes[0]),
    ensures
        leads(edges, a, nodes.last()),
    decreases nodes.len(),
{
    if nodes.len() > 1 {
        let k = nodes.len() - 2;
        lemma_walk_within(edges, nodes, k);
        let part = nodes.take(k + 1);
        assert(part[0] == nodes[0] && part.last() == nodes[k]);
        lemma_append(edges, a, part);
        assert(edges.contains((nodes[k], nodes[k + 1])));
        lemma_leads_extend(edges, a, nodes[k], nodes[k + 1]);
    }
}

/// A walk in some of the edges is a walk in all of them.
pub proof fn lemma_leads_monotone(part: Seq<Edge>, edges: Seq<Edge>, a: u64, b: u64)
    requires
        leads(part, a, b),
        forall|e: Edge| #[trigger] part.contains(e) ==> edges.contains(e),
    ensures
        leads(edges, a, b),
{
    let nodes = choose|nodes: Seq<u64>| #[trigger]
        is_walk(part, nodes) && nodes[0] == a && nodes.last() == b;
    assert forall|i: int, j: int|
        #![trigger nodes[i], nodes[j]]
        0 <= i && j == i + 1 && j < nodes.len() implies edges.contains((nodes[i], nodes[j])) by {
        assert(part.contains((nodes[i], nodes[j])));
    }
    assert(is_walk(edges, nodes));
}

/// From a set that the edges do not leave, no walk leaves.
proof fn lemma_closed(edges: Seq<Edge>, inside: Set<u64>, from: u64, to: u64)
    requires
        inside.contains(from),
        forall|a: u64, b: u64| #[trigger]
            edges.contains((a, b)) && inside.contains(a) ==> inside.contains(b),
        leads(edges, from, to),
    ensures
        inside.contains(to),
{
    let nodes = choose|nodes: Seq<u64>| #[trigger]
        is_walk(edges, nodes) && nodes[0] == from && nodes.last() == to;
    lemma_closed_walk(edges, inside, nodes, nodes.len() - 1);
}

proof fn lemma_closed_walk(edges: Seq<Edge>, inside: Set<u64>, nodes: Seq<u64>, k: int)
    requires
        is_walk(edges, nodes),
        inside.contains(nodes[0]),
        forall|a: u64, b: u64| #[trigger]
            edges.contains((a, b)) && inside.contains(a) ==> inside.contains(b),
        0 <= k < nodes.len(),
    ensures
        inside.contains(nodes[k]),
    decreases k,
{
    if k > 0 {
        lemma_closed_walk(edges, inside, nodes, k - 1);
        assert(edges.contains((nodes[k - 1], nodes[k])));
    }
}

/// `to` can be reached from `from` along the edges; every node reaches itself.
pub fn reachable(edges: &Vec<Edge>, from: u64, to: u64) -> (r: bool)
    ensures
        r == leads(edges@, from, to),
{
    let mut stack: Vec<u64> = Vec::new();
    stack.push(from);
    let mut visited: HashSet<u64> = HashSet::new();
    let ghost universe: Set<u64> = edges@.map_values(|e: Edge| e.1).to_set().insert(from);
    proof {
        lemma_leads_reflexive(edges@, from);
        assert forall|a: u64, b: u64| #[trigger] edges@.contains((a, b)) implies universe.contains(
            b,
        ) by {
            let k = choose|k: int| 0 <= k < edges@.len() && edges@[k] == (a, b);
            assert(edges@.map_values(|e: Edge| e.1)[k] == b);
        }
        vstd::seq_lib::seq_to_set_is_finite(edges@.map_values(|e: Edge| e.1));
        assert(stack@[0] == from);
        assert(stack@.contains(from));
    }
    while stack.len() > 0
        invariant
            universe.finite(),
            universe.contains(from),
            forall|a: u64, b: u64| #[trigger] edges@.contains((a, b)) ==> universe.contains(b),
            visited@.subset_of(universe),
            forall|i: int|
                0 <= i < stack@.len() ==> universe.contains(#[trigger] stack@[i]) && leads(
                    edges@,
                    from,
                    stack@[i],
                ),
            forall|v: u64| #[trigger] visited@.contains(v) ==> v != to,
            visited@.contains(from) || stack@.contains(from),
            forall|a: u64, b: u64| #[trigger]
                edges@.contains((a, b)) && visited@.contains(a) ==> visited@.contains(b)
                    || stack@.contains(b),
        decreases universe.len() - visited@.len(), stack@.len(),
    {
        let ghost stack_before = stack@;
        let ghost visited_before = visited@;
        let node: u64 = stack.pop().unwrap();
        proof {
            assert(node == stack_before.last());
            assert(stack@ == stack_before.drop_last());
            vstd::set_lib::lemma_len_subset(visited_before, universe);
            assert forall|x: u64| stack_before.contains(x) && x != node implies stack@.contains(
                x,
            ) by {
                let k = choose|k: int| 0 <= k < stack_before.len() && stack_before[k] == x;
                assert(stack@[k] == x);
            }
        }
        if node == to {
            return true;
        }
        let fresh = visited.insert(node);
        if fresh {
            proof {
                assert(visited@ == visited_before.insert(node));
                vstd::set_lib::lemma_len_subset(visited@, universe);
            }
            let ghost base = stack@;
            let mut i: usize = 0;
            while i < edges.len()
                invariant
                    i <= edges@.len(),
                    leads(edges@, from, node),
                    forall|a: u64, b: u64| #[trigger]
                        edges@.contains((a, b)) ==> universe.contains(b),
                    forall|k: int|
                        0 <= k < stack@.len() ==> universe.contains(#[trigger] stack@[k])
                            && leads(edges@, from, stack@[k]),
                    forall|x: u64| #[trigger] base.contains(x) ==> stack@.contains(x),
                    forall|k: int|
                        0 <= k < i && (#[trigger] edges@[k]).0 == node ==> stack@.contains(
                            edges@[k].1,
                        ),
                decreases edges@.len() - i,
            {
                let e = edges[i];
                if e.0 == node {
                    let ghost before = stack@;
                    stack.push(e.1);
                    proof {
                        assert(edges@[i as int] == (node, e.1));
                        assert(edges@.contains((node, e.1)));
                        lemma_leads_extend(edges@, from, node, e.1);
                        assert(stack@ == before.push(e.1));
                        assert forall|x: u64| before.contains(x) implies stack@.contains(x) by {
                            let k = choose|k: int| 0 <= k < before.len() && before[k] == x;
                            assert(stack@[k] == x);
                        }
                        assert(stack@[before.len() as int] == e.1);
                    }
                }
                i += 1;
            }
            proof {
                assert forall|a: u64, b: u64| #[trigger]
                    edges@.contains((a, b)) && visited@.contains(a) implies visited@.contains(b)
                    || stack@.contains(b) by {
                    let k = choose|k: int| 0 <= k < edges@.len() && edges@[k] == (a, b);
                    if a == node {
                        assert(edges@[k].0 == node);
                    } else {
                        assert(visited_before.contains(a));
                        if !visited_before.contains(b) {
                            assert(stack_before.contains(b));
                            if b != node {
                                assert(base.contains(b));
                            }
                        }
                    }
                }
            }
        } else {
            assert(visited@ =~= visited_before);
        }
    }
    proof {
        if leads(edges@, from, to) {
            assert(!stack@.contains(from));
            lemma_closed(edges@, visited@, from, to);
        }
    }
    false
}

/// A walk with one more edge than before either did without it or came to its
/// parent and went on from its child.
proof fn lemma_walk_with_new_edge(
    edges: Seq<Edge>,
    parent: u64,
    child: u64,
    nodes: Seq<u64>,
    k: int,
)
    requires
        is_walk(edges.push((parent, child)), nodes),
        0 <= k < nodes.len(),
    ensures
        leads(edges, nodes[0], nodes[k]) || (leads(edges, nodes[0], parent) && leads(
            edges,
            child,
            nodes[k],
        )),
    decreases k,
{
    lemma_leads_reflexive(edges, nodes[0]);
    lemma_leads_reflexive(edges, child);
    if k > 0 {
        lemma_walk_with_new_edge(edges, parent, child, nodes, k - 1);
        let more = edges.push((parent, child));
        let e = (nodes[k - 1], nodes[k]);
        assert(more.contains(e));
        let m = choose|m: int| 0 <= m < more.len() && more[m] == e;
        if m < edges.len() {
            assert(edges[m] == e);
            assert(edges.contains(e));
            if leads(edges, nodes[0], nodes[k - 1]) {
                lemma_leads_extend(edges, nodes[0], nodes[k - 1], nodes[k]);
            } else {
                lemma_leads_extend(edges, child, nodes[k - 1], nodes[k]);
            }
        }
    }
}

/// An edge whose parent cannot be reached from its child closes no loop.
pub proof fn law_connecting_keeps_acyclic(edges: Seq<Edge>, parent: u64, child: u64)
    requires
        acyclic(edges),
        !leads(edges, child, parent),
    ensures
        acyclic(edges.push((parent, child))),
{
    let more = edges.push((parent, child));
    assert forall|p: u64, c: u64| #[trigger] more.contains((p, c)) implies !leads(more, c, p) by {
        if leads(more, c, p) {
            let nodes = choose|nodes: Seq<u64>| #[trigger]
                is_walk(more, nodes) && nodes[0] == c && nodes.last() == p;
            lemma_walk_with_new_edge(edges, parent, child, nodes, nodes.len() - 1);
            let m = choose|m: int| 0 <= m < more.len() && more[m] == (p, c);
            if m < edges.len() {
                assert(edges[m] == (p, c));
                assert(edges.contains((p, c)));
                if leads(edges, c, parent) && leads(edges, child, p) {
                    lemma_leads_extend(edges, child, p, c);
                    lemma_leads_transitive(edges, child, c, parent);
                }
            }
        }
    }
}

/// An edge whose parent can be reached from its child closes a loop.
pub proof fn law_refused_edge_closes_a_loop(edges: Seq<Edge>, parent: u64, child: u64)
    requires
        leads(edges, child, parent),
    ensures
        !acyclic(edges.push((parent, child))),
{
    let more = edges.push((parent, child));
    assert(more[edges.len() as int] == (parent, child));
    assert(more.contains((parent, child)));
    assert forall|e: Edge| #[trigger] edges.contains(e) implies more.contains(e) by {
        let m = choose|m: int| 0 <= m < edges.len() && edges[m] == e;
        assert(more[m] == e);
    }
    lemma_leads_monotone(edges, more, child, parent);
}

/// Leaving edges out closes no loop.
pub proof fn law_removing_keeps_acyclic(edges: Seq<Edge>, keep: spec_fn(Edge) -> bool)
    requires
        acyclic(edges),
    ensures
        acyclic(edges.filter(keep)),
{
    let part = edges.filter(keep);
    assert forall|e: Edge| #[trigger] part.contains(e) implies edges.contains(e) by {
        edges.lemma_filter_contains_rev(keep, e);
    }
    assert forall|p: u64, c: u64| #[trigger] part.contains((p, c)) implies !leads(part, c, p) by {
        if leads(part, c, p) {
            lemma_leads_monotone(part, edges, c, p);
        }
    }
}

/// A walk without loops has no more edges than the list.
pub proof fn law_walks_are_bounded(edges: Seq<Edge>, nodes: Seq<u64>)
    requires
        acyclic(edges),
        is_walk(edges, nodes),
    ensures
        nodes.len() <= edges.len() + 1,
{
    let k = nodes.len() - 1;
    let starts = nodes.take(k);
    let parents = edges.map_values(|e: Edge| e.0);
    assert(starts.no_duplicates()) by {
        assert forall|i: int, j: int| 0 <= i < j < starts.len() implies starts[i] != starts[j] by {
            if nodes[i] == nodes[j] {
                assert(edges.contains((nodes[i], nodes[i + 1])));
                lemma_walk_from(edges, nodes, i + 1);
                let tail = nodes.skip(i + 1);
                lemma_walk_within(edges, tail, j - i - 1);
                assert(tail[0] == nodes[i + 1]);
                assert(tail[j - i - 1] == nodes[j]);
            }
        }
    }
    starts.unique_seq_to_set();
    vstd::seq_lib::seq_to_set_is_finite(parents);
    parents.lemma_cardinality_of_set();
    assert forall|x: u64| starts.to_set().contains(x) implies parents.to_set().contains(x) by {
        let i = choose|i: int| 0 <= i < starts.len() && starts[i] == x;
        assert(edges.contains((nodes[i], nodes[i + 1])));
        let m = choose|m: int| 0 <= m < edges.len() && edges[m] == (nodes[i], nodes[i + 1]);
        assert(parents[m] == x);
    }
    vstd::set_lib::lemma_len_subset(starts.to_set(), parents.to_set());
}

/// How many edges end in `node`.
pub fn parent_count(edges: &Vec<Edge>, node: u64) -> (r: usize)
    ensures
        r == in_degree(edges@, node),
{
    let mut n: usize = 0;
    let mut i: usize = 0;
    while i < edges.len()
        invariant
            i <= edges@.len(),
            n <= i,
            n == in_degree(edges@.take(i as int), node),
        decreases edges@.len() - i,
    {
        proof {
            assert(edges@.take(i + 1) =~= edges@.take(i as int).push(edges@[i as int]));
            edges@.take(i as int).lemma_filter_push(edges@[i as int], ends_in(node));
        }
        if edges[i].1 == node {
            n += 1;
        }
        i += 1;
    }
    assert(edges@.take(edges@.len() as int) =~= edges@);
    n
}

/// The children of `parent`, in the order of the edges.
pub fn children_of(edges: &Vec<Edge>, parent: u64) -> (r: Vec<u64>)
    ensures
        r@ == children(edges@, parent),
{
    let mut kids: Vec<u64> = Vec::new();
    let mut i: usize = 0;
    while i < edges.len()
        invariant
            i <= edges@.len(),
            kids@ == children(edges@.take(i as int), parent),
        decreases edges@.len() - i,
    {
        proof {
            assert(edges@.take(i + 1) =~= edges@.take(i as int).push(edges@[i as int]));
            edges@.take(i as int).lemma_filter_push(edges@[i as int], starts_at(parent));
        }
        if edges[i].0 == parent {
            kids.push(edges[i].1);
        }
        assert(kids@ =~= children(edges@.take(i + 1), parent));
        i += 1;
    }
    assert(edges@.take(edges@.len() as int) =~= edges@);
    kids
}

/// The children of `parent`, each with the number of its parents.
pub fn children_with_parent_counts(edges: &Vec<Edge>, parent: u64) -> (r: Vec<(u64, usize)>)
    ensures
        r@.map_values(|x: (u64, usize)| (x.0, x.1 as nat)) == weighted_children(edges@, parent),
{
    let kids = children_of(edges, parent);
    let mut r: Vec<(u64, usize)> = Vec::new();
    let mut i: usize = 0;
    while i < kids.len()
        invariant
            i <= kids@.len(),
            kids@ == children(edges@, parent),
            r@.len() == i,
            forall|k: int|
                0 <= k < i ==> (#[trigger] r@[k]).0 == kids@[k] && r@[k].1 == in_degree(
                    edges@,
                    kids@[k],
                ),
        decreases kids@.len() - i,
    {
        r.push((kids[i], parent_count(edges, kids[i])));
        i += 1;
    }
    assert(r@.map_values(|x: (u64, usize)| (x.0, x.1 as nat)) =~= weighted_children(
        edges@,
        parent,
    ));
    r
}

/// Connecting two nodes adds the child behind the parent's children and one to
/// the number of the child's parents, and changes nothing else.
pub proof fn law_connecting_adds_one_parent(edges: Seq<Edge>, parent: u64, child: u64, other: u64)
    ensures
        children(edges.push((parent, child)), parent) == children(edges, parent).push(child),
        in_degree(edges.push((parent, child)), child) == in_degree(edges, child) + 1,
        other != parent ==> children(edges.push((parent, child)), other) == children(edges, other),
        other != child ==> in_degree(edges.push((parent, child)), other) == in_degree(edges, other),
{
    let e = (parent, child);
    let more = edges.push(e);
    assert(more.drop_last() =~= edges);
    reveal(Seq::filter);
    assert(more.filter(starts_at(parent)) == edges.filter(starts_at(parent)).push(e));
    assert(more.filter(ends_in(child)) == edges.filter(ends_in(child)).push(e));
    assert(children(more, parent) =~= children(edges, parent).push(child));
    if other != parent {
        assert(more.filter(starts_at(other)) == edges.filter(starts_at(other)));
    }
    if other != child {
        assert(more.filter(ends_in(other)) == edges.filter(ends_in(other)));
    }
}

/// A meter's children come with the number of parents that share them.
pub proof fn law_children_come_with_their_parents(edges: Seq<Edge>, parent: u64, i: int)
    requires
        0 <= i < children(edges, parent).len(),
    ensures
        weighted_children(edges, parent).len() == children(edges, parent).len(),
        weighted_children(edges, parent)[i].0 == children(edges, parent)[i],
        weighted_children(edges, parent)[i].1 == in_degree(edges, children(edges, parent)[i]),
{
}

} // verus!
