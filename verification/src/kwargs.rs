//! Constructor arguments: what a component would be built from again.

use crate::ev_charger::EvIdle;
use crate::lisp_text::lisp_float;
use crate::single::Single;
use crate::text::{push_decimal, push_text};
use crate::time::Span;
use vstd::prelude::*;
use vstd::string::*;

verus! {

/// The value of a constructor argument.
#[derive(Clone, Copy, Debug, PartialEq, Eq)]
pub enum KwValue {
    /// A number, written so that it is read back as the same number.
    Float(Single),
    /// An integer.
    Integer(u128),
    /// The truth value `t`.
    True,
    /// The literal `0` that switches a limit off.
    Off,
    /// A quoted idle mode.
    Idle(EvIdle),
}

impl KwValue {
    /// A number that is not finite has no notation to be read back from.
    pub open spec fn is_writable(self) -> bool {
        self matches KwValue::Float(v) ==> v.finite()
    }

    pub fn writable(self) -> (r: bool)
        ensures
            r == self.is_writable(),
    {
        match self {
            KwValue::Float(v) => v.is_finite(),
            _ => true,
        }
    }

    /// The value in Lisp syntax; `shown` is the shortest decimal notation of
    /// a number.
    pub open spec fn lisp(self, shown: Seq<char>) -> Seq<char> {
        match self {
            KwValue::Float(v) => crate::lisp_text::number_text(v.widened(), shown),
            KwValue::Integer(n) => crate::text::decimal(n as nat),
            KwValue::True => "t"@,
            KwValue::Off => "0"@,
            KwValue::Idle(idle) => "'"@ + idle.name(),
        }
    }

    pub fn text(&self, shown: &str) -> (r: String)
        ensures
            r@ == self.lisp(shown@),
    {
        match self {
            KwValue::Float(v) => lisp_float(v.widen(), shown),
            KwValue::Integer(n) => {
                let mut out = String::new();
                push_decimal(&mut out, *n);
                assert(out@ =~= crate::text::decimal(*n as nat));
                out
            },
            KwValue::True => String::from_str("t"),
            KwValue::Off => String::from_str("0"),
            KwValue::Idle(idle) => {
                let mut out = String::from_str("'");
                push_text(&mut out, idle.as_str());
                out
            },
        }
    }
}

/// One constructor argument.
#[derive(Clone, Copy, Debug, PartialEq, Eq)]
pub struct Kwarg {
    pub key: &'static str,
    pub value: KwValue,
}

/// The arguments as pairs of key text and value.
pub open spec fn pairs(kw: Seq<Kwarg>) -> Seq<(Seq<char>, KwValue)> {
    Seq::new(kw.len(), |i: int| (kw[i].key@, kw[i].value))
}

/// The argument, where the condition holds and the value can be written.
pub open spec fn only_if(cond: bool, key: Seq<char>, value: KwValue) -> Seq<(Seq<char>, KwValue)> {
    if cond && value.is_writable() {
        seq![(key, value)]
    } else {
        Seq::empty()
    }
}

/// Appends an argument where the condition holds and the value can be written.
pub fn add_if(kw: &mut Vec<Kwarg>, cond: bool, key: &'static str, value: KwValue)
    ensures
        pairs(final(kw)@) == pairs(old(kw)@) + only_if(cond, key@, value),
{
    if cond && value.writable() {
        kw.push(Kwarg { key, value });
    }
    assert(pairs(kw@) == pairs(old(kw)@) + only_if(cond, key@, value));
}

/// A span in whole milliseconds.
pub open spec fn spec_millis(span: Span) -> nat {
    (span.total() / 1_000_000) as nat
}

pub fn millis(span: Span) -> (r: u128)
    requires
        span.wf(),
    ensures
        r == spec_millis(span),
{
    proof {
        assert((span.secs * 1_000_000_000 + span.nanos) / 1_000_000 == span.secs * 1000
            + span.nanos / 1_000_000) by (nonlinear_arith)
            requires
                span.nanos < 1_000_000_000,
        ;
    }
    span.secs as u128 * 1000 + (span.nanos / 1_000_000) as u128
}

/// A span in milliseconds as an argument.
pub open spec fn millis_value(span: Span) -> KwValue {
    KwValue::Integer(spec_millis(span) as u128)
}

pub fn millis_kw(span: Span) -> (r: KwValue)
    requires
        span.wf(),
    ensures
        r == millis_value(span),
{
    KwValue::Integer(millis(span))
}

/// Not the stream interval of one second.
pub open spec fn unusual_interval(span: Span) -> bool {
    span != Span { secs: 1, nanos: 0 }
}

/// Every argument can be written.
pub open spec fn all_writable(args: Seq<(Seq<char>, KwValue)>) -> bool {
    forall|i: int| 0 <= i < args.len() ==> (#[trigger] args[i]).1.is_writable()
}

pub(crate) broadcast proof fn lemma_only_if_is_writable(cond: bool, key: Seq<char>, value: KwValue)
    ensures
        all_writable(#[trigger] only_if(cond, key, value)),
{
}

pub(crate) broadcast proof fn lemma_joined_are_writable(
    a: Seq<(Seq<char>, KwValue)>,
    b: Seq<(Seq<char>, KwValue)>,
)
    requires
        all_writable(a),
        all_writable(b),
    ensures
        all_writable(#[trigger] (a + b)),
{
    assert forall|i: int| 0 <= i < (a + b).len() implies (#[trigger] (a + b)[i]).1.is_writable() by {
        if i < a.len() {
            assert((a + b)[i] == a[i]);
        } else {
            assert((a + b)[i] == b[i - a.len()]);
        }
    }
}

} // verus!
