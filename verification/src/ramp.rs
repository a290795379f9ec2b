//! Two control-loop parts shared by everything that does not respond to a
//! command at once: the delay before a command takes effect, and the slew
//! toward a target.

use crate::single::Single;
use crate::time::{Span, Timestamp};
use vstd::prelude::*;

verus! {

/// A command with the tick at which it was first seen; `None` until then.
pub type Command = (Option<Timestamp>, Single);

/// Holds a command until `delay` has passed on the tick clock.
///
/// A command carries no time when it is submitted: the first poll after it
/// stamps it, and it arms one `delay` later on that same clock. While one
/// command executes, only the newest later one is kept, and no arrival
/// restarts the executing command's clock.
#[derive(Debug)]
pub struct CommandDelay {
    /// The command being executed.
    pub executing: Option<Command>,
    /// The newest command that arrived meanwhile.
    pub waiting: Option<Command>,
    /// The value of the last command that was executed.
    pub armed: Option<Single>,
    pub delay: Span,
}

/// The command with its stamp, `now` where it had none.
pub open spec fn stamped(c: Option<Command>, now: Timestamp) -> Option<Command> {
    match c {
        Some((None, v)) => Some((Some(now), v)),
        other => other,
    }
}

/// One delay has passed since the command was stamped.
pub open spec fn due(c: Option<Command>, now: Timestamp, delay: Span) -> bool {
    c matches Some((Some(at), _)) && at.total() + delay.total() <= now.total()
}

fn stamp(c: Option<Command>, now: Timestamp) -> (r: Option<Command>)
    ensures
        r == stamped(c, now),
{
    match c {
        Some((None, v)) => Some((Some(now), v)),
        other => other,
    }
}

impl CommandDelay {
    /// Every stamp is a point in time.
    pub open spec fn wf(self) -> bool {
        &&& self.delay.wf()
        &&& self.executing matches Some((Some(t), _)) ==> t.wf()
        &&& self.waiting matches Some((Some(t), _)) ==> t.wf()
    }

    /// The state after a command was submitted.
    pub open spec fn targeted(self, value: Single) -> CommandDelay {
        if self.delay.total() == 0 {
            CommandDelay { armed: Some(value), executing: None, waiting: None, ..self }
        } else if self.executing is None {
            CommandDelay { executing: Some((None, value)), ..self }
        } else {
            CommandDelay { waiting: Some((None, value)), ..self }
        }
    }

    /// The state after a poll at `now`: commands without a stamp get one, and
    /// the executing command arms if it is due. At most one arms per poll.
    pub open spec fn promoted(self, now: Timestamp) -> CommandDelay {
        let executing = stamped(self.executing, now);
        let waiting = stamped(self.waiting, now);
        if due(executing, now, self.delay) {
            CommandDelay {
                armed: Some((executing->0).1),
                executing: waiting,
                waiting: None,
                ..self
            }
        } else {
            CommandDelay { executing, waiting, ..self }
        }
    }

    pub open spec fn cleared(self) -> CommandDelay {
        CommandDelay { armed: None, executing: None, waiting: None, ..self }
    }

    pub fn new(delay: Span) -> (r: Self)
        requires
            delay.wf(),
        ensures
            r.wf(),
            r == (CommandDelay { executing: None, waiting: None, armed: None, delay }),
    {
        CommandDelay { executing: None, waiting: None, armed: None, delay }
    }

    pub fn set_target(&mut self, value: Single)
        requires
            old(self).wf(),
        ensures
            final(self).wf(),
            *final(self) == old(self).targeted(value),
    {
        if self.delay.is_zero() {
            self.armed = Some(value);
            self.executing = None;
            self.waiting = None;
            return;
        }
        if self.executing.is_none() {
            self.executing = Some((None, value));
        } else {
            self.waiting = Some((None, value));
        }
    }

    /// Stamps and promotes, then returns the armed value.
    pub fn poll(&mut self, now: Timestamp) -> (r: Option<Single>)
        requires
            old(self).wf(),
            now.wf(),
        ensures
            final(self).wf(),
            *final(self) == old(self).promoted(now),
            r == final(self).armed,
    {
        self.executing = stamp(self.executing, now);
        self.waiting = stamp(self.waiting, now);
        if let Some((Some(at), v)) = self.executing {
            // a delay past the end of the calendar never ends
            let due_now = match at.after(self.delay) {
                Some(t) => !now.before(t),
                None => false,
            };
            if due_now {
                self.armed = Some(v);
                self.executing = self.waiting;
                self.waiting = None;
            }
        }
        self.armed
    }

    pub fn reset(&mut self)
        requires
            old(self).wf(),
        ensures
            final(self).wf(),
            *final(self) == old(self).cleared(),
    {
        self.armed = None;
        self.executing = None;
        self.waiting = None;
    }

    /// The armed value, without a poll.
    pub fn armed(&self) -> (r: Option<Single>)
        ensures
            r == self.armed,
    {
        self.armed
    }
}

/// Tracks a target, moving at most `rate_w_per_s` per second. A rate that is
/// not finite makes it follow at once.
#[derive(Debug)]
pub struct Ramp {
    pub actual: Single,
    pub target: Single,
    pub rate_w_per_s: Single,
}

impl Ramp {
    /// Where `actual` stands after `dt`.
    pub open spec fn slewed(self, dt: Span) -> Single {
        let max_step = self.rate_w_per_s.fmul(dt.spec_seconds());
        let diff = self.target.fsub(self.actual);
        if !self.rate_w_per_s.finite() || diff.fabs().fle(max_step) {
            self.target
        } else {
            self.actual.fadd(diff.fsignum().fmul(max_step))
        }
    }

    /// The ramp with a new target; not-a-number is ignored.
    pub open spec fn aimed(self, target: Single) -> Ramp {
        if target.nan() {
            self
        } else {
            Ramp { target, ..self }
        }
    }

    /// The ramp moved to a value at once; not-a-number is ignored.
    pub open spec fn snapped(self, value: Single) -> Ramp {
        if value.nan() {
            self
        } else {
            Ramp { target: value, actual: value, ..self }
        }
    }

    pub open spec fn stepped(self, dt: Span) -> Ramp {
        Ramp { actual: self.slewed(dt), ..self }
    }

    pub fn new(rate_w_per_s: Single, initial: Single) -> (r: Self)
        ensures
            r == (Ramp { actual: initial, target: initial, rate_w_per_s }),
    {
        Ramp { actual: initial, target: initial, rate_w_per_s }
    }

    pub fn set_target(&mut self, target: Single)
        ensures
            *final(self) == old(self).aimed(target),
    {
        if target.is_nan() {
            return;
        }
        self.target = target;
    }

    pub fn snap_to(&mut self, value: Single)
        ensures
            *final(self) == old(self).snapped(value),
    {
        if value.is_nan() {
            return;
        }
        self.target = value;
        self.actual = value;
    }

    pub fn actual(&self) -> (r: Single)
        ensures
            r == self.actual,
    {
        self.actual
    }

    pub fn target(&self) -> (r: Single)
        ensures
            r == self.target,
    {
        self.target
    }

    /// Moves `actual` as far as `dt` allows.
    pub fn advance(&mut self, dt: Span) -> (r: Single)
        ensures
            *final(self) == old(self).stepped(dt),
            r == final(self).actual,
            crate::slew_laws::is_movable(*old(self), dt) ==> crate::slew_laws::is_reached(
                *old(self),
                dt,
                r,
            ),
    {
        proof {
            if crate::slew_laws::is_movable(*self, dt) {
                crate::slew_laws::law_ramp_moves_at_its_rate(*self, dt);
            }
        }
        if !self.rate_w_per_s.is_finite() {
            self.actual = self.target;
            return self.actual;
        }
        let max_step = self.rate_w_per_s.times(dt.seconds());
        let diff = self.target.minus(self.actual);
        if diff.abs().le(max_step) {
            self.actual = self.target;
        } else {
            self.actual = self.actual.plus(diff.signum().times(max_step));
        }
        self.actual
    }
}

// ---------------------------------------------------------------------------
// Laws

/// Without a delay a command is armed as soon as it is submitted.
pub proof fn law_zero_delay_arms_at_once(c: CommandDelay, value: Single)
    requires
        c.delay.total() == 0,
    ensures
        c.targeted(value).armed == Some(value),
        c.targeted(value).executing is None,
{
}

/// A command in execution arms once its delay has passed, whatever commands
/// arrived meanwhile.
pub proof fn law_arrivals_do_not_restart_the_clock(
    c: CommandDelay,
    at: Timestamp,
    value: Single,
    newer: Single,
    now: Timestamp,
)
    requires
        c.delay.total() > 0,
        c.executing == Some((Some(at), value)),
        at.total() + c.delay.total() <= now.total(),
    ensures
        c.promoted(now).armed == Some(value),
        c.targeted(newer).promoted(now).armed == Some(value),
        c.targeted(newer).promoted(now).executing == Some((Some(now), newer)),
{
}

/// A command arms once its delay has passed since the poll that first saw it,
/// and the one that waited takes its place.
pub proof fn law_command_arms_after_its_delay(
    c: CommandDelay,
    value: Single,
    first: Timestamp,
    now: Timestamp,
)
    requires
        c.executing is None,
        c.waiting is None,
        c.delay.total() > 0,
        first.total() <= now.total(),
    ensures
        ({
            let seen = c.targeted(value).promoted(first);
            &&& seen.armed == c.armed
            &&& now.total() - first.total() >= c.delay.total() ==> seen.promoted(now).armed
                == Some(value) && seen.promoted(now).executing is None
            &&& now.total() - first.total() < c.delay.total() ==> seen.promoted(now) == seen
        }),
{
}

/// A command still in execution arms nothing, and a poll leaves the armed
/// value in place.
pub proof fn law_poll_before_due_arms_nothing(
    c: CommandDelay,
    at: Timestamp,
    value: Single,
    now: Timestamp,
)
    requires
        c.executing == Some((Some(at), value)),
        now.total() < at.total() + c.delay.total(),
    ensures
        c.promoted(now).armed == c.armed,
        c.promoted(now).executing == c.executing,
{
}

/// Of several commands that arrive during an execution the newest is kept.
pub proof fn law_newest_waiting_command_wins(c: CommandDelay, older: Single, newer: Single)
    requires
        c.delay.total() > 0,
        c.executing is Some,
    ensures
        c.targeted(older).targeted(newer) == c.targeted(newer),
        c.targeted(newer).waiting == Some((None::<Timestamp>, newer)),
        c.targeted(newer).executing == c.executing,
{
}

/// One poll arms at most one command: the value armed afterwards is the one
/// armed before or the executing command's.
pub proof fn law_one_command_per_poll(c: CommandDelay, now: Timestamp)
    ensures
        c.promoted(now).armed == c.armed || (c.executing is Some && c.promoted(now).armed == Some(
            (c.executing->0).1,
        )),
        c.promoted(now).armed != c.armed ==> c.promoted(now).waiting is None,
{
}

/// A target or an output that is not a number leaves the ramp as it is.
pub proof fn law_ramp_ignores_nan(r: Ramp, value: Single)
    requires
        value.nan(),
    ensures
        r.aimed(value) == r,
        r.snapped(value) == r,
{
}

/// A ramp between finite values never passes its target: after a step it
/// stands between where it was and the target, both included.
pub proof fn law_ramp_never_overshoots(r: Ramp, dt: Span)
    requires
        dt.wf(),
        r.actual.finite(),
        r.target.finite(),
        !r.rate_w_per_s.nan(),
        r.rate_w_per_s.rank() >= 0,
    ensures
        !r.slewed(dt).nan(),
        r.actual.rank() <= r.target.rank() ==> r.actual.rank() <= r.slewed(dt).rank()
            <= r.target.rank(),
        r.target.rank() <= r.actual.rank() ==> r.target.rank() <= r.slewed(dt).rank()
            <= r.actual.rank(),
{
    let a = r.actual;
    let t = r.target;
    let rate = r.rate_w_per_s;
    let secs = dt.spec_seconds();
    let step = rate.fmul(secs);
    let diff = t.fsub(a);
    crate::single_laws::law_seconds_are_finite(dt);
    crate::single_laws::lemma_negated_units(a);
    crate::single_laws::law_sum_is_nearest(t, a.fneg());
    crate::single_laws::law_nearest_of_number(a);
    crate::single_laws::law_nearest_of_number(t);
    if rate.finite() {
        crate::single_laws::law_product_of_nonnegative(rate, secs);
        if !diff.fabs().fle(step) {
            assert(step.finite());
            crate::single_laws::law_unit_factors(step);
            crate::single_laws::lemma_negated_units(step);
            let zero = Single::lit(crate::single::ZERO);
            crate::single_laws::law_rank_orders_values(zero, step);
            assert(zero.units() == 0) by {
                crate::single::lemma_single_sizes();
                crate::ieee::lemma_mag_zero(
                    crate::single::single_spec(),
                    zero.spec_num(),
                );
            }
            if diff.rank() > 0 {
                crate::single_laws::law_difference_beyond(t, a, step);
                crate::single_laws::law_sum_is_nearest(a, step);
                let v = a.units() + step.units();
                crate::single_laws::law_nearest_is_monotone(a.units(), v);
                crate::single_laws::law_nearest_is_monotone(v, t.units());
            } else {
                crate::single_laws::lemma_negated_units(t);
                crate::single_laws::law_sum_is_nearest(a, t.fneg());
                crate::single_laws::law_difference_beyond(a, t, step);
                crate::single_laws::law_sum_is_nearest(a, step.fneg());
                let v = a.units() - step.units();
                crate::single_laws::law_nearest_is_monotone(v, a.units());
                crate::single_laws::law_nearest_is_monotone(t.units(), v);
            }
        }
    }
    crate::single_laws::law_rank_orders_values(a, t);
    crate::single_laws::law_rank_orders_values(t, a);
}

} // verus!
