//! The log of the commands that a component received.

use crate::single::Single;
use crate::text::push_text;
use crate::time::Timestamp;
use vstd::prelude::*;

verus! {

/// What a request asked for.
#[derive(Clone, Copy, Debug, PartialEq, Eq, Structural)]
pub enum SetpointKind {
    ActivePower,
    ReactivePower,
    AugmentBounds,
}

/// What became of a request.
#[derive(Debug)]
pub enum SetpointOutcome {
    Accepted { effective_value: Option<Single> },
    Rejected { reason: String },
}

#[derive(Debug)]
pub struct SetpointEvent {
    pub ts: Timestamp,
    pub kind: SetpointKind,
    pub value: Single,
    pub ttl_s: Option<u64>,
    pub outcome: SetpointOutcome,
}

/// A [`SetpointOutcome`] with its text as a sequence.
pub enum OutcomeView {
    Accepted { effective_value: Option<Single> },
    Rejected { reason: Seq<char> },
}

/// A [`SetpointEvent`] with its text as a sequence.
pub struct SetpointView {
    pub ts: Timestamp,
    pub kind: SetpointKind,
    pub value: Single,
    pub ttl_s: Option<u64>,
    pub outcome: OutcomeView,
}

impl View for SetpointEvent {
    type V = SetpointView;

    open spec fn view(&self) -> SetpointView {
        SetpointView {
            ts: self.ts,
            kind: self.kind,
            value: self.value,
            ttl_s: self.ttl_s,
            outcome: match self.outcome {
                SetpointOutcome::Accepted { effective_value } => OutcomeView::Accepted {
                    effective_value,
                },
                SetpointOutcome::Rejected { reason } => OutcomeView::Rejected {
                    reason: reason@,
                },
            },
        }
    }
}

impl SetpointView {
    pub open spec fn accepted(self) -> bool {
        self.outcome is Accepted
    }

    /// Why the request was refused, if it was.
    pub open spec fn reason(self) -> Option<Seq<char>> {
        match self.outcome {
            OutcomeView::Accepted { effective_value } => None,
            OutcomeView::Rejected { reason } => Some(reason),
        }
    }
}

/// A copy of a text.
pub(crate) fn copy_string(s: &String) -> (r: String)
    ensures
        r@ == s@,
{
    let mut out = String::new();
    push_text(&mut out, s.as_str());
    assert(Seq::<char>::empty() + s@ =~= s@);
    out
}

impl SetpointEvent {
    pub(crate) fn copy(&self) -> (r: SetpointEvent)
        ensures
            r@ == self@,
    {
        let outcome = match &self.outcome {
            SetpointOutcome::Accepted { effective_value } => SetpointOutcome::Accepted {
                effective_value: *effective_value,
            },
            SetpointOutcome::Rejected { reason } => SetpointOutcome::Rejected {
                reason: copy_string(reason),
            },
        };
        SetpointEvent { ts: self.ts, kind: self.kind, value: self.value, ttl_s: self.ttl_s, outcome }
    }

    pub(crate) fn rejection(&self) -> (r: Option<String>)
        ensures
            crate::dynamic_scalar::text_of(r) == self@.reason(),
    {
        match &self.outcome {
            SetpointOutcome::Accepted { effective_value: _ } => None,
            SetpointOutcome::Rejected { reason } => Some(copy_string(reason)),
        }
    }
}

/// The latest events, at most `capacity` of them.
#[derive(Debug)]
pub struct SetpointLog {
    pub capacity: usize,
    pub events: Vec<SetpointEvent>,
}

/// The events as views.
pub open spec fn event_views(events: Seq<SetpointEvent>) -> Seq<SetpointView> {
    events.map_values(|e: SetpointEvent| e@)
}

/// The last `capacity` items.
pub open spec fn latest<T>(items: Seq<T>, capacity: nat) -> Seq<T> {
    if items.len() <= capacity {
        items
    } else {
        items.skip(items.len() - capacity)
    }
}

/// An event from `since` on.
pub open spec fn recent(since: Timestamp) -> spec_fn(SetpointView) -> bool {
    |e: SetpointView| e.ts.total() >= since.total()
}

impl SetpointLog {
    pub open spec fn wf(self) -> bool {
        &&& 0 < self.capacity
        &&& self.events@.len() <= self.capacity
        &&& forall|i: int| 0 <= i < self.events@.len() ==> (#[trigger] self.events@[i]).ts.wf()
    }

    pub fn new(capacity: usize) -> (r: Self)
        requires
            0 < capacity,
        ensures
            r.wf(),
            r.capacity == capacity,
            r.events@.len() == 0,
    {
        SetpointLog { capacity, events: Vec::new() }
    }

    /// Appends an event; the oldest leaves where there is no more room.
    pub fn push(&mut self, event: SetpointEvent)
        requires
            old(self).wf(),
            event.ts.wf(),
        ensures
            final(self).wf(),
            final(self).capacity == old(self).capacity,
            final(self).events@ == latest(
                old(self).events@.push(event),
                old(self).capacity as nat,
            ),
    {
        if self.events.len() == self.capacity {
            let _ = self.events.remove(0);
        }
        self.events.push(event);
        assert(self.events@ =~= latest(old(self).events@.push(event), self.capacity as nat));
    }

    /// Copies of the events from `since` on, oldest first.
    pub fn window(&self, since: Timestamp) -> (r: Vec<SetpointEvent>)
        requires
            self.wf(),
            since.wf(),
        ensures
            event_views(r@) == event_views(self.events@).filter(recent(since)),
    {
        let ghost all = event_views(self.events@);
        let mut out: Vec<SetpointEvent> = Vec::new();
        let mut i: usize = 0;
        assert(event_views(out@) =~= all.take(0).filter(recent(since))) by {
            reveal(Seq::filter);
        }
        while i < self.events.len()
            invariant
                i <= self.events@.len(),
                self.wf(),
                since.wf(),
                all == event_views(self.events@),
                event_views(out@) == all.take(i as int).filter(recent(since)),
            decreases self.events@.len() - i,
        {
            let e = &self.events[i];
            let ghost before = out@;
            proof {
                assert(all.take(i + 1) =~= all.take(i as int).push(e@));
                all.take(i as int).lemma_filter_push(e@, recent(since));
            }
            if !e.ts.before(since) {
                let c = e.copy();
                out.push(c);
                assert(event_views(out@) =~= event_views(before).push(e@));
            }
            i += 1;
        }
        assert(all.take(all.len() as int) =~= all);
        out
    }
}

/// A log never forgets an event before a later one.
pub proof fn law_log_keeps_the_latest(events: Seq<SetpointEvent>, e: SetpointEvent, capacity: nat)
    requires
        0 < capacity,
        events.len() <= capacity,
    ensures
        latest(events.push(e), capacity).last() == e,
        latest(events.push(e), capacity).len() <= capacity,
        events.len() < capacity ==> latest(events.push(e), capacity) == events.push(e),
        events.len() == capacity ==> latest(events.push(e), capacity) == events.skip(1).push(e),
{
    if events.len() == capacity {
        assert(latest(events.push(e), capacity) =~= events.skip(1).push(e));
    }
}

/// The recent events are those that came at a time or after it, no fewer and
/// no others.
pub proof fn law_recent_events_are_the_later_ones(
    events: Seq<SetpointView>,
    since: Timestamp,
    e: SetpointView,
)
    ensures
        events.filter(recent(since)).contains(e) <==> events.contains(e) && since.total()
            <= e.ts.total(),
{
    let kept = events.filter(recent(since));
    if kept.contains(e) {
        let i = kept.index_of(e);
        events.lemma_filter_pred(recent(since), i);
        lemma_kept_was_there(events, recent(since), i);
    }
    if events.contains(e) && since.total() <= e.ts.total() {
        events.lemma_filter_contains(recent(since), events.index_of(e));
    }
}

proof fn lemma_kept_was_there(
    events: Seq<SetpointView>,
    p: spec_fn(SetpointView) -> bool,
    i: int,
)
    requires
        0 <= i < events.filter(p).len(),
    ensures
        events.contains(events.filter(p)[i]),
    decreases events.len(),
{
    reveal(Seq::filter);
    let rest = events.drop_last();
    if i < rest.filter(p).len() {
        lemma_kept_was_there(rest, p, i);
        let e = rest.filter(p)[i];
        assert(events[rest.index_of(e)] == e);
    } else {
        assert(events[events.len() - 1] == events.last());
    }
}

} // verus!
