//! The deadlines at which the latest power command of each component and axis
//! expires. Active and reactive commands expire independently.
//!
//! Time here is the reading of a steady clock: the span since its origin.

use crate::time::{Span, NANOS_PER_SEC};
use vstd::prelude::*;

verus! {

/// The axis that a command acts on.
#[derive(Clone, Copy, Debug, PartialEq, Eq, Hash, Structural)]
pub enum SetpointAxis {
    Active,
    Reactive,
}

impl SetpointAxis {
    pub open spec fn unit_text(self) -> Seq<char> {
        match self {
            SetpointAxis::Active => "W"@,
            SetpointAxis::Reactive => "VAr"@,
        }
    }

    /// The unit of the axis, as refusals name it.
    pub fn unit(self) -> (r: &'static str)
        ensures
            r@ == self.unit_text(),
    {
        match self {
            SetpointAxis::Active => "W",
            SetpointAxis::Reactive => "VAr",
        }
    }
}

/// An armed deadline.
#[derive(Clone, Copy, Debug, PartialEq, Eq, Structural)]
pub struct Deadline {
    pub id: u64,
    pub axis: SetpointAxis,
    pub at: Span,
}

impl Deadline {
    pub open spec fn key(self) -> (u64, SetpointAxis) {
        (self.id, self.axis)
    }
}

/// A component and an axis.
pub type TimeoutKey = (u64, SetpointAxis);

/// The keys of a list of deadlines.
pub open spec fn keys(deadlines: Seq<Deadline>) -> Seq<TimeoutKey> {
    deadlines.map_values(|d: Deadline| d.key())
}

/// The deadline of a key in the list; the last one wins.
pub open spec fn deadline_map(deadlines: Seq<Deadline>) -> Map<TimeoutKey, Span>
    decreases deadlines.len(),
{
    if deadlines.len() == 0 {
        Map::empty()
    } else {
        deadline_map(deadlines.drop_last()).insert(deadlines.last().key(), deadlines.last().at)
    }
}

/// `now + lifetime`, where it fits.
pub open spec fn deadline_at(now: Span, lifetime: Span) -> Span {
    let total = now.total() + lifetime.total();
    Span {
        secs: (total / NANOS_PER_SEC as int) as u64,
        nanos: (total % NANOS_PER_SEC as int) as u32,
    }
}

/// The sum of two spans, where it fits.
pub fn span_sum(a: Span, b: Span) -> (r: Span)
    requires
        a.wf(),
        b.wf(),
        a.total() + b.total() < (u64::MAX + 1) * NANOS_PER_SEC,
    ensures
        r.wf(),
        r.total() == a.total() + b.total(),
        r == deadline_at(a, b),
{
    let nanos: u32 = a.nanos + b.nanos;
    let r = if nanos >= NANOS_PER_SEC {
        Span { secs: (a.secs as u128 + b.secs as u128 + 1) as u64, nanos: nanos - NANOS_PER_SEC }
    } else {
        Span { secs: (a.secs as u128 + b.secs as u128) as u64, nanos }
    };
    r
}

/// `a - b`, where `b` is not longer.
pub fn span_difference(a: Span, b: Span) -> (r: Option<Span>)
    requires
        a.wf(),
        b.wf(),
    ensures
        r is Some <==> b.total() <= a.total(),
        r matches Some(d) ==> d.wf() && d.total() == a.total() - b.total(),
{
    if a.secs < b.secs || (a.secs == b.secs && a.nanos < b.nanos) {
        None
    } else if a.nanos >= b.nanos {
        Some(Span { secs: a.secs - b.secs, nanos: a.nanos - b.nanos })
    } else {
        Some(Span { secs: a.secs - b.secs - 1, nanos: a.nanos + NANOS_PER_SEC - b.nanos })
    }
}

#[derive(Debug)]
pub struct TimeoutTracker {
    pub deadlines: Vec<Deadline>,
}

impl View for TimeoutTracker {
    type V = Map<TimeoutKey, Span>;

    /// The deadline of each key that has one.
    open spec fn view(&self) -> Map<TimeoutKey, Span> {
        deadline_map(self.deadlines@)
    }
}

/// The deadlines that have come at `now`.
pub open spec fn expired(m: Map<TimeoutKey, Span>, now: Span) -> Set<TimeoutKey> {
    m.dom().filter(|k: TimeoutKey| m[k].total() <= now.total())
}

proof fn lemma_map_members(deadlines: Seq<Deadline>, k: TimeoutKey)
    requires
        keys(deadlines).no_duplicates(),
    ensures
        deadline_map(deadlines).dom().contains(k) <==> exists|i: int|
            0 <= i < deadlines.len() && #[trigger] deadlines[i].key() == k,
        forall|i: int|
            0 <= i < deadlines.len() && #[trigger] deadlines[i].key() == k ==> deadline_map(
                deadlines,
            )[k] == deadlines[i].at,
    decreases deadlines.len(),
{
    if deadlines.len() > 0 {
        let rest = deadlines.drop_last();
        assert forall|i: int, j: int|
            0 <= i < keys(rest).len() && 0 <= j < keys(rest).len() && i != j implies keys(
            rest,
        )[i] != keys(rest)[j] by {
            assert(keys(deadlines)[i] != keys(deadlines)[j]);
        }
        lemma_map_members(rest, k);
        assert forall|i: int| 0 <= i < rest.len() implies #[trigger] rest[i] == deadlines[i] by {}
        if deadlines.last().key() == k {
            assert(deadlines[deadlines.len() - 1].key() == k);
            assert forall|i: int|
                0 <= i < deadlines.len() && #[trigger] deadlines[i].key() == k implies i
                == deadlines.len() - 1 by {
                assert(keys(deadlines)[i] == keys(deadlines)[deadlines.len() - 1]);
            }
        } else {
            if exists|i: int| 0 <= i < deadlines.len() && #[trigger] deadlines[i].key() == k {
                let i = choose|i: int|
                    0 <= i < deadlines.len() && #[trigger] deadlines[i].key() == k;
                assert(rest[i].key() == k);
            }
            if exists|i: int| 0 <= i < rest.len() && #[trigger] rest[i].key() == k {
                let i = choose|i: int| 0 <= i < rest.len() && #[trigger] rest[i].key() == k;
                assert(deadlines[i].key() == k);
            }
            assert forall|i: int|
                0 <= i < deadlines.len() && #[trigger] deadlines[i].key() == k implies deadline_map(
                deadlines,
            )[k] == deadlines[i].at by {
                assert(rest[i].key() == k);
            }
        }
    }
}

impl TimeoutTracker {
    /// No key is armed twice.
    pub open spec fn wf(self) -> bool {
        &&& keys(self.deadlines@).no_duplicates()
        &&& forall|i: int| 0 <= i < self.deadlines@.len() ==> (#[trigger] self.deadlines@[i]).at.wf()
    }

    pub fn new() -> (r: Self)
        ensures
            r.wf(),
            r@ == Map::<TimeoutKey, Span>::empty(),
    {
        TimeoutTracker { deadlines: Vec::new() }
    }

    fn position(&self, id: u64, axis: SetpointAxis) -> (r: Option<usize>)
        requires
            self.wf(),
        ensures
            r matches Some(i) ==> i < self.deadlines@.len() && self.deadlines@[i as int].key() == (
                id,
                axis,
            ) && self@.dom().contains((id, axis)) && self@[(id, axis)]
                == self.deadlines@[i as int].at,
            r is None ==> !self@.dom().contains((id, axis)) && forall|j: int|
                0 <= j < self.deadlines@.len() ==> (#[trigger] self.deadlines@[j]).key() != (
                    id,
                    axis,
                ),
    {
        proof {
            lemma_map_members(self.deadlines@, (id, axis));
        }
        let mut i: usize = 0;
        while i < self.deadlines.len()
            invariant
                i <= self.deadlines@.len(),
                self.wf(),
                self@.dom().contains((id, axis)) <==> exists|j: int|
                    0 <= j < self.deadlines@.len() && #[trigger] self.deadlines@[j].key() == (
                        id,
                        axis,
                    ),
                forall|j: int|
                    0 <= j < self.deadlines@.len() && #[trigger] self.deadlines@[j].key() == (
                        id,
                        axis,
                    ) ==> self@[(id, axis)] == self.deadlines@[j].at,
                forall|j: int|
                    0 <= j < i ==> (#[trigger] self.deadlines@[j]).key() != (id, axis),
            decreases self.deadlines@.len() - i,
        {
            let d = self.deadlines[i];
            if d.id == id && d.axis == axis {
                assert(self.deadlines@[i as int].key() == (id, axis));
                return Some(i);
            }
            i += 1;
        }
        None
    }

    /// The time left before the command expires. Nothing where none is
    /// tracked or its deadline has passed.
    pub fn remaining(&self, id: u64, axis: SetpointAxis, now: Span) -> (r: Option<Span>)
        requires
            self.wf(),
            now.wf(),
        ensures
            r is Some <==> self@.dom().contains((id, axis)) && now.total() <= self@[(
                id,
                axis,
            )].total(),
            r matches Some(left) ==> left.wf() && left.total() == self@[(id, axis)].total()
                - now.total(),
    {
        match self.position(id, axis) {
            Some(i) => span_difference(self.deadlines[i].at, now),
            None => None,
        }
    }

    /// Arms the deadline of a key; one that it had is replaced.
    pub fn arm(&mut self, id: u64, axis: SetpointAxis, at: Span)
        requires
            old(self).wf(),
            at.wf(),
        ensures
            final(self).wf(),
            final(self)@ == old(self)@.insert((id, axis), at),
    {
        let ghost before = self.deadlines@;
        let found = self.position(id, axis);
        match found {
            Some(i) => {
                self.deadlines.set(i, Deadline { id, axis, at });
            },
            None => {
                self.deadlines.push(Deadline { id, axis, at });
            },
        }
        proof {
            let after = self.deadlines@;
            assert(keys(after).no_duplicates()) by {
                assert forall|a: int, b: int|
                    0 <= a < after.len() && 0 <= b < after.len() && a != b implies keys(after)[a]
                    != keys(after)[b] by {
                    if found is Some {
                        assert(keys(before)[a] != keys(before)[b]);
                        assert(keys(after)[a] == keys(before)[a]);
                        assert(keys(after)[b] == keys(before)[b]);
                    } else {
                        if a < before.len() && b < before.len() {
                            assert(keys(before)[a] != keys(before)[b]);
                            assert(keys(after)[a] == keys(before)[a]);
                            assert(keys(after)[b] == keys(before)[b]);
                        } else if a < before.len() {
                            assert(before[a].key() != (id, axis));
                            assert(after[a] == before[a]);
                        } else {
                            assert(before[b].key() != (id, axis));
                            assert(after[b] == before[b]);
                        }
                    }
                }
            }
            assert forall|k: TimeoutKey|
                #![trigger deadline_map(after).dom().contains(k)]
                #![trigger deadline_map(after)[k]]
                deadline_map(after).dom().contains(k) == deadline_map(before).insert(
                    (id, axis),
                    at,
                ).dom().contains(k) && (deadline_map(after).dom().contains(k) ==> deadline_map(
                    after,
                )[k] == deadline_map(before).insert((id, axis), at)[k]) by {
                lemma_map_members(after, k);
                lemma_map_members(before, k);
                if k == (id, axis) {
                    let w = if found is Some {
                        found->0 as int
                    } else {
                        before.len() as int
                    };
                    assert(after[w].key() == k);
                } else {
                    if deadline_map(after).dom().contains(k) {
                        let j = choose|j: int|
                            0 <= j < after.len() && #[trigger] after[j].key() == k;
                        assert(after[j] == before[j]);
                        assert(before[j].key() == k);
                    }
                    if deadline_map(before).dom().contains(k) {
                        let j = choose|j: int|
                            0 <= j < before.len() && #[trigger] before[j].key() == k;
                        assert(after[j] == before[j]);
                        assert(after[j].key() == k);
                    }
                }
            }
            assert(deadline_map(after) =~= deadline_map(before).insert((id, axis), at));
        }
    }

    /// Runs the actuation and, where it succeeds, arms its deadline at `now`
    /// plus the lifetime. A failed actuation arms nothing: the deadline of the
    /// previous command stays.
    pub fn actuate_and_arm<E, F: FnOnce() -> Result<(), E>>(
        &mut self,
        id: u64,
        axis: SetpointAxis,
        lifetime: Span,
        now: Span,
        f: F,
    ) -> (r: Result<(), E>)
        requires
            old(self).wf(),
            now.wf(),
            lifetime.wf(),
            now.total() + lifetime.total() < (u64::MAX + 1) * NANOS_PER_SEC,
            f.requires(()),
        ensures
            final(self).wf(),
            f.ensures((), r),
            r is Ok ==> final(self)@ == old(self)@.insert((id, axis), deadline_at(now, lifetime)),
            r is Err ==> *final(self) == *old(self),
    {
        let r = f();
        if r.is_ok() {
            let at = span_sum(now, lifetime);
            self.arm(id, axis, at);
        }
        r
    }

    /// Drops the deadlines that have come at `now` and returns their keys.
    pub fn reset_expired_with(&mut self, now: Span) -> (r: Vec<TimeoutKey>)
        requires
            old(self).wf(),
            now.wf(),
        ensures
            final(self).wf(),
            final(self)@ == old(self)@.remove_keys(expired(old(self)@, now)),
            r@.no_duplicates(),
            r@.to_set() == expired(old(self)@, now),
    {
        let ghost before = self.deadlines@;
        let mut kept: Vec<Deadline> = Vec::new();
        let mut gone: Vec<TimeoutKey> = Vec::new();
        let mut i: usize = 0;
        while i < self.deadlines.len()
            invariant
                i <= before.len(),
                now.wf(),
                self.deadlines@ == before,
                self.wf(),
                kept@ == before.take(i as int).filter(|d: Deadline| d.at.total() > now.total()),
                gone@ == keys(
                    before.take(i as int).filter(|d: Deadline| d.at.total() <= now.total()),
                ),
            decreases before.len() - i,
        {
            let d = self.deadlines[i];
            proof {
                assert(before.take(i + 1) =~= before.take(i as int).push(d));
                before.take(i as int).lemma_filter_push(
                    d,
                    |d: Deadline| d.at.total() > now.total(),
                );
                before.take(i as int).lemma_filter_push(
                    d,
                    |d: Deadline| d.at.total() <= now.total(),
                );
            }
            let due = d.at.secs < now.secs || (d.at.secs == now.secs && d.at.nanos <= now.nanos);
            if due {
                gone.push((d.id, d.axis));
            } else {
                kept.push(d);
            }
            assert(gone@ =~= keys(
                before.take(i + 1).filter(|d: Deadline| d.at.total() <= now.total()),
            ));
            i += 1;
        }
        proof {
            assert(before.take(before.len() as int) =~= before);
            lemma_split(before, kept@, gone@, now);
        }
        self.deadlines = kept;
        gone
    }

    /// Drops every deadline; nothing is actuated.
    pub fn clear(&mut self)
        ensures
            final(self).wf(),
            final(self)@ == Map::<TimeoutKey, Span>::empty(),
    {
        self.deadlines = Vec::new();
    }

    /// Drops both deadlines of a component.
    pub fn remove_component(&mut self, id: u64)
        requires
            old(self).wf(),
        ensures
            final(self).wf(),
            final(self)@ == old(self)@.remove((id, SetpointAxis::Active)).remove(
                (id, SetpointAxis::Reactive),
            ),
    {
        let ghost before = self.deadlines@;
        let mut kept: Vec<Deadline> = Vec::new();
        let mut i: usize = 0;
        while i < self.deadlines.len()
            invariant
                i <= before.len(),
                self.deadlines@ == before,
                kept@ == before.take(i as int).filter(|d: Deadline| d.id != id),
            decreases before.len() - i,
        {
            let d = self.deadlines[i];
            proof {
                assert(before.take(i + 1) =~= before.take(i as int).push(d));
                before.take(i as int).lemma_filter_push(d, |d: Deadline| d.id != id);
            }
            if d.id != id {
                kept.push(d);
            }
            i += 1;
        }
        proof {
            assert(before.take(before.len() as int) =~= before);
            let p = |d: Deadline| d.id != id;
            lemma_filtered(before, p);
            let after = kept@;
            assert forall|k: TimeoutKey|
                #![trigger deadline_map(after).dom().contains(k)]
                #![trigger deadline_map(after)[k]]
                deadline_map(after).dom().contains(k) == (deadline_map(before).dom().contains(k)
                    && k.0 != id) && (deadline_map(after).dom().contains(k) ==> deadline_map(
                    after,
                )[k] == deadline_map(before)[k]) by {
                lemma_map_members(after, k);
                lemma_map_members(before, k);
                lemma_filtered_members(before, p, k);
            }
            assert forall|k: TimeoutKey| k.0 == id implies k == (id, SetpointAxis::Active) || k == (
                id,
                SetpointAxis::Reactive,
            ) by {
                match k.1 {
                    SetpointAxis::Active => {},
                    SetpointAxis::Reactive => {},
                }
            }
            assert(deadline_map(after) =~= deadline_map(before).remove(
                (id, SetpointAxis::Active),
            ).remove((id, SetpointAxis::Reactive)));
        }
        self.deadlines = kept;
    }
}

/// A part of a list without repeated keys has none either.
proof fn lemma_filtered(s: Seq<Deadline>, p: spec_fn(Deadline) -> bool)
    requires
        keys(s).no_duplicates(),
        forall|i: int| 0 <= i < s.len() ==> (#[trigger] s[i]).at.wf(),
    ensures
        keys(s.filter(p)).no_duplicates(),
        forall|i: int| 0 <= i < s.filter(p).len() ==> (#[trigger] s.filter(p)[i]).at.wf(),
    decreases s.len(),
{
    reveal(Seq::filter);
    if s.len() > 0 {
        let rest = s.drop_last();
        assert forall|i: int, j: int|
            0 <= i < keys(rest).len() && 0 <= j < keys(rest).len() && i != j implies keys(
            rest,
        )[i] != keys(rest)[j] by {
            assert(keys(s)[i] != keys(s)[j]);
        }
        lemma_filtered(rest, p);
        let f = rest.filter(p);
        if p(s.last()) {
            assert(s.filter(p) == f.push(s.last()));
            assert forall|i: int| 0 <= i < f.len() implies #[trigger] f[i].key()
                != s.last().key() by {
                rest.lemma_filter_contains_rev(p, f[i]);
                let j = choose|j: int| 0 <= j < rest.len() && rest[j] == f[i];
                assert(keys(s)[j] != keys(s)[s.len() - 1]);
            }
            assert forall|i: int, j: int|
                0 <= i < s.filter(p).len() && 0 <= j < s.filter(p).len() && i != j implies keys(
                s.filter(p),
            )[i] != keys(s.filter(p))[j] by {
                if i < f.len() && j < f.len() {
                    assert(keys(f)[i] != keys(f)[j]);
                } else if i < f.len() {
                    assert(f[i].key() != s.last().key());
                } else {
                    assert(f[j].key() != s.last().key());
                }
            }
        } else {
            assert(s.filter(p) == f);
        }
    }
}

/// The keys of a part are those of its members.
proof fn lemma_filtered_members(s: Seq<Deadline>, p: spec_fn(Deadline) -> bool, k: TimeoutKey)
    requires
        keys(s).no_duplicates(),
    ensures
        forall|i: int|
            0 <= i < s.filter(p).len() && #[trigger] s.filter(p)[i].key() == k ==> p(
                s.filter(p)[i],
            ) && exists|j: int| 0 <= j < s.len() && #[trigger] s[j] == s.filter(p)[i],
        forall|j: int|
            0 <= j < s.len() && #[trigger] s[j].key() == k && p(s[j]) ==> exists|i: int|
                0 <= i < s.filter(p).len() && #[trigger] s.filter(p)[i] == s[j],
{
    assert forall|i: int|
        0 <= i < s.filter(p).len() && #[trigger] s.filter(p)[i].key() == k implies p(
        s.filter(p)[i],
    ) && exists|j: int| 0 <= j < s.len() && #[trigger] s[j] == s.filter(p)[i] by {
        s.lemma_filter_contains_rev(p, s.filter(p)[i]);
        s.lemma_filter_pred(p, i);
    }
    assert forall|j: int|
        0 <= j < s.len() && #[trigger] s[j].key() == k && p(s[j]) implies exists|i: int|
        0 <= i < s.filter(p).len() && #[trigger] s.filter(p)[i] == s[j] by {
        s.lemma_filter_contains(p, j);
    }
}

/// What a sweep keeps and what it returns.
proof fn lemma_split(
    before: Seq<Deadline>,
    kept: Seq<Deadline>,
    gone: Seq<TimeoutKey>,
    now: Span,
)
    requires
        keys(before).no_duplicates(),
        forall|i: int| 0 <= i < before.len() ==> (#[trigger] before[i]).at.wf(),
        kept == before.filter(|d: Deadline| d.at.total() > now.total()),
        gone == keys(before.filter(|d: Deadline| d.at.total() <= now.total())),
    ensures
        keys(kept).no_duplicates(),
        forall|i: int| 0 <= i < kept.len() ==> (#[trigger] kept[i]).at.wf(),
        deadline_map(kept) == deadline_map(before).remove_keys(
            expired(deadline_map(before), now),
        ),
        gone.no_duplicates(),
        gone.to_set() == expired(deadline_map(before), now),
{
    let live = |d: Deadline| d.at.total() > now.total();
    let due = |d: Deadline| d.at.total() <= now.total();
    let lapsed = before.filter(due);
    let m = deadline_map(before);
    lemma_filtered(before, live);
    lemma_filtered(before, due);
    assert forall|k: TimeoutKey|
        #![trigger deadline_map(kept).dom().contains(k)]
        #![trigger deadline_map(kept)[k]]
        deadline_map(kept).dom().contains(k) == m.remove_keys(expired(m, now)).dom().contains(k)
            && (deadline_map(kept).dom().contains(k) ==> deadline_map(kept)[k] == m[k]) by {
        lemma_map_members(kept, k);
        lemma_map_members(before, k);
        lemma_filtered_members(before, live, k);
    }
    assert(deadline_map(kept) =~= m.remove_keys(expired(m, now)));
    assert forall|k: TimeoutKey| gone.to_set().contains(k) == expired(m, now).contains(k) by {
        lemma_map_members(before, k);
        lemma_filtered_members(before, due, k);
        if gone.to_set().contains(k) {
            let i = choose|i: int| 0 <= i < gone.len() && gone[i] == k;
            assert(lapsed[i].key() == k);
        }
        if expired(m, now).contains(k) {
            let j = choose|j: int| 0 <= j < before.len() && #[trigger] before[j].key() == k;
            assert(due(before[j]));
            let i = choose|i: int| 0 <= i < lapsed.len() && #[trigger] lapsed[i] == before[j];
            assert(gone[i] == k);
        }
    }
    assert(gone.to_set() =~= expired(m, now));
}

/// A command that was renewed before a sweep survives it: its deadline lies
/// past the sweep's time.
pub proof fn law_renewed_command_survives(
    m: Map<TimeoutKey, Span>,
    k: TimeoutKey,
    renewed: Span,
    now: Span,
)
    requires
        now.total() < renewed.total(),
    ensures
        m.insert(k, renewed).remove_keys(expired(m.insert(k, renewed), now)).dom().contains(k),
{
}

/// An axis expires alone: a sweep that takes one axis of a component leaves
/// the other one while its deadline is ahead.
pub proof fn law_axes_expire_independently(m: Map<TimeoutKey, Span>, id: u64, now: Span)
    requires
        m.dom().contains((id, SetpointAxis::Active)),
        now.total() < m[(id, SetpointAxis::Active)].total(),
    ensures
        m.remove_keys(expired(m, now)).dom().contains((id, SetpointAxis::Active)),
        m.remove_keys(expired(m, now))[(id, SetpointAxis::Active)] == m[(
            id,
            SetpointAxis::Active,
        )],
{
}

/// A command expires when its lifetime has passed, and not before.
pub proof fn law_command_lasts_its_lifetime(
    m: Map<TimeoutKey, Span>,
    k: TimeoutKey,
    now: Span,
    lifetime: Span,
    later: Span,
)
    requires
        now.wf(),
        lifetime.wf(),
        now.total() + lifetime.total() < (u64::MAX + 1) * NANOS_PER_SEC,
    ensures
        expired(m.insert(k, deadline_at(now, lifetime)), later).contains(k) <==> later.total()
            >= now.total() + lifetime.total(),
{
    crate::sky_laws::lemma_span(now.total() + lifetime.total(), deadline_at(now, lifetime));
}

} // verus!
