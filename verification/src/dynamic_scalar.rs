//! A number that is either fixed or driven by a Lisp expression.
//!
//! The interpreter's objects stay with the caller, who knows each one by a
//! handle; what an evaluation came to is handed in.

use crate::double::Double;
use crate::single::Single;
use vstd::prelude::*;

verus! {

/// What drives a scalar: an expression to evaluate or a function to call, by
/// the caller's handle.
#[derive(Clone, Copy, Debug, PartialEq, Eq, Structural)]
pub enum Source {
    Eval(u64),
    Funcall(u64),
}

/// A Lisp value by its kind. All but nil and numbers are known by a handle and
/// their printed text.
#[derive(Debug)]
pub enum LispValue {
    Nil,
    Number(Double),
    Symbol { handle: u64, text: String },
    Cons { handle: u64, text: String },
    Str { handle: u64, text: String },
    /// A function or an opaque object.
    Other { handle: u64, text: String },
}

/// What an evaluation came to.
#[derive(Clone, Copy, Debug)]
pub enum Outcome {
    Number(Double),
    NotANumber,
    Failed,
}

#[derive(Debug)]
pub struct DynamicScalar {
    pub cached: Single,
    pub source: Option<Source>,
    pub source_text: Option<String>,
}

/// A [`DynamicScalar`] with its text as a sequence.
pub struct ScalarView {
    pub cached: Single,
    pub source: Option<Source>,
    pub text: Option<Seq<char>>,
}

/// The characters of an optional text.
pub open spec fn text_of(s: Option<String>) -> Option<Seq<char>> {
    match s {
        Some(t) => Some(t@),
        None => None,
    }
}

pub fn copy_text(s: &Option<String>) -> (r: Option<String>)
    ensures
        text_of(r) == text_of(*s),
{
    match s {
        Some(t) => Some(t.clone()),
        None => None,
    }
}

impl View for DynamicScalar {
    type V = ScalarView;

    open spec fn view(&self) -> ScalarView {
        ScalarView {
            cached: self.cached,
            source: self.source,
            text: text_of(self.source_text),
        }
    }
}

impl Clone for DynamicScalar {
    /// An independent scalar with the same value and the same source.
    fn clone(&self) -> (r: Self)
        ensures
            r@ == self@,
    {
        DynamicScalar {
            cached: self.cached,
            source: self.source,
            source_text: copy_text(&self.source_text),
        }
    }
}

impl ScalarView {
    pub open spec fn constant(v: Single) -> ScalarView {
        ScalarView { cached: v, source: None, text: None }
    }

    /// The scalar after an evaluation of its source: a finite number becomes
    /// the value, anything else leaves the value in place.
    pub open spec fn refreshed(self, outcome: Outcome) -> ScalarView {
        match (self.source, outcome) {
            (Some(_), Outcome::Number(v)) => if v.finite() {
                ScalarView { cached: v.narrowed(), ..self }
            } else {
                self
            },
            _ => self,
        }
    }
}

impl DynamicScalar {
    pub fn constant(v: Single) -> (r: Self)
        ensures
            r@ == ScalarView::constant(v),
    {
        DynamicScalar { cached: v, source: None, source_text: None }
    }

    /// A scalar driven by an expression; `fallback` until it is evaluated.
    pub fn from_eval(handle: u64, text: String, fallback: Single) -> (r: Self)
        ensures
            r@ == (ScalarView {
                cached: fallback,
                source: Some(Source::Eval(handle)),
                text: Some(text@),
            }),
    {
        DynamicScalar {
            cached: fallback,
            source: Some(Source::Eval(handle)),
            source_text: Some(text),
        }
    }

    /// A scalar driven by a function; `fallback` until it is called.
    pub fn from_funcall(handle: u64, text: String, fallback: Single) -> (r: Self)
        ensures
            r@ == (ScalarView {
                cached: fallback,
                source: Some(Source::Funcall(handle)),
                text: Some(text@),
            }),
    {
        DynamicScalar {
            cached: fallback,
            source: Some(Source::Funcall(handle)),
            source_text: Some(text),
        }
    }

    /// The scalar that a Lisp value stands for; none for nil. A number is a
    /// constant. A symbol, a list or a string is evaluated as an expression,
    /// and anything else is called without arguments.
    pub fn from_lisp(value: LispValue, fallback: Single) -> (r: Option<Self>)
        ensures
            match value {
                LispValue::Nil => r is None,
                LispValue::Number(n) => r is Some && (r->0)@ == ScalarView::constant(n.narrowed()),
                LispValue::Symbol { handle, text } | LispValue::Cons { handle, text }
                | LispValue::Str { handle, text } => r is Some && (r->0)@ == (ScalarView {
                    cached: fallback,
                    source: Some(Source::Eval(handle)),
                    text: Some(text@),
                }),
                LispValue::Other { handle, text } => r is Some && (r->0)@ == (ScalarView {
                    cached: fallback,
                    source: Some(Source::Funcall(handle)),
                    text: Some(text@),
                }),
            },
    {
        match value {
            LispValue::Nil => None,
            LispValue::Number(n) => Some(Self::constant(n.narrow())),
            LispValue::Symbol { handle, text } | LispValue::Cons { handle, text }
            | LispValue::Str { handle, text } => Some(Self::from_eval(handle, text, fallback)),
            LispValue::Other { handle, text } => Some(Self::from_funcall(handle, text, fallback)),
        }
    }

    pub fn get(&self) -> (r: Single)
        ensures
            r == self@.cached,
    {
        self.cached
    }

    pub fn set(&mut self, v: Single)
        ensures
            final(self)@ == (ScalarView { cached: v, ..old(self)@ }),
    {
        self.cached = v;
    }

    pub fn is_dynamic(&self) -> (r: bool)
        ensures
            r == (self@.source is Some),
    {
        self.source.is_some()
    }

    /// The printed source, captured when the scalar was made.
    pub fn source_text(&self) -> (r: Option<String>)
        ensures
            text_of(r) == self@.text,
    {
        copy_text(&self.source_text)
    }

    /// Takes over what an evaluation of the source came to.
    pub fn refresh(&mut self, outcome: Outcome)
        ensures
            final(self)@ == old(self)@.refreshed(outcome),
    {
        if self.source.is_none() {
            return;
        }
        if let Outcome::Number(v) = outcome {
            if v.is_finite() {
                self.cached = v.narrow();
            }
        }
    }
}

/// An evaluation that fails or gives no finite number keeps the last value,
/// and a constant keeps its value whatever is evaluated.
pub proof fn law_bad_outcome_keeps_the_value(s: ScalarView, outcome: Outcome)
    requires
        s.source is None || !(outcome matches Outcome::Number(v) && v.finite()),
    ensures
        s.refreshed(outcome) == s,
{
}

/// A number that the source evaluates to is shown, to the precision of the
/// numbers; a scalar without a source keeps its value.
pub proof fn law_good_outcome_is_shown(s: ScalarView, v: Double)
    requires
        v.finite(),
        crate::accuracy::dist(v.value()) <= crate::accuracy::ample(),
    ensures
        s.source is Some ==> s.refreshed(Outcome::Number(v)).cached.finite()
            && crate::accuracy::close(
            s.refreshed(Outcome::Number(v)).cached.value(),
            v.value(),
            crate::accuracy::half_ulp(),
            crate::accuracy::speck(),
        ),
        s.source is None ==> s.refreshed(Outcome::Number(v)).cached == s.cached,
        s.refreshed(Outcome::Number(v)).source == s.source,
        s.refreshed(Outcome::Number(v)).text == s.text,
{
    crate::wide_accuracy::law_narrowing_is_accurate(v);
}

} // verus!
