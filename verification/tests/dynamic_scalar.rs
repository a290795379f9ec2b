//! Scalars that are fixed or driven by Lisp expressions.

use macrocosim::double::Double;
use macrocosim::dynamic_scalar::{DynamicScalar, LispValue, Outcome, Source};
use macrocosim::single::Single;
use tulisp::{TulispContext, TulispObject};

fn f(x: f32) -> Single {
    Single::from_bits(x.to_bits())
}

fn n(x: Single) -> f32 {
    f32::from_bits(x.to_bits())
}

/// An interpreter with the objects that scalars hold by handle.
struct Lisp {
    ctx: TulispContext,
    objects: Vec<TulispObject>,
}

impl Lisp {
    fn new() -> Self {
        Lisp { ctx: TulispContext::new(), objects: Vec::new() }
    }

    fn eval(&mut self, source: &str) -> TulispObject {
        self.ctx.eval_string(source).unwrap()
    }

    fn keep(&mut self, obj: &TulispObject) -> u64 {
        self.objects.push(obj.clone());
        self.objects.len() as u64 - 1
    }

    fn value(&mut self, obj: &TulispObject) -> LispValue {
        if obj.null() {
            return LispValue::Nil;
        }
        if obj.numberp() {
            let v = f64::try_from(obj).unwrap();
            return LispValue::Number(Double::from_bits(v.to_bits()));
        }
        let text = obj.to_string();
        let handle = self.keep(obj);
        if obj.symbolp() {
            LispValue::Symbol { handle, text }
        } else if obj.consp() {
            LispValue::Cons { handle, text }
        } else if obj.stringp() {
            LispValue::Str { handle, text }
        } else {
            LispValue::Other { handle, text }
        }
    }

    fn from_eval(&mut self, obj: &TulispObject, fallback: f32) -> DynamicScalar {
        let handle = self.keep(obj);
        DynamicScalar::from_eval(handle, obj.to_string(), f(fallback))
    }

    fn from_lisp(&mut self, obj: &TulispObject, fallback: f32) -> Option<DynamicScalar> {
        let value = self.value(obj);
        DynamicScalar::from_lisp(value, f(fallback))
    }

    fn refresh(&mut self, s: &mut DynamicScalar) {
        let result = match s.source {
            None => return s.refresh(Outcome::Failed),
            Some(Source::Eval(h)) => self.ctx.eval(&self.objects[h as usize].clone()),
            Some(Source::Funcall(h)) => {
                self.ctx.funcall(&self.objects[h as usize].clone(), ())
            }
        };
        let outcome = match result {
            Ok(obj) => match f64::try_from(&obj) {
                Ok(v) => Outcome::Number(Double::from_bits(v.to_bits())),
                Err(_) => Outcome::NotANumber,
            },
            Err(_) => Outcome::Failed,
        };
        s.refresh(outcome);
    }
}

#[test]
fn constant_get_returns_initial_value() {
    let s = DynamicScalar::constant(f(123.5));
    assert_eq!(n(s.get()), 123.5);
}

#[test]
fn constant_refresh_is_noop() {
    let mut s = DynamicScalar::constant(f(7.0));
    let mut lisp = Lisp::new();
    lisp.refresh(&mut s);
    assert_eq!(n(s.get()), 7.0);
    s.refresh(Outcome::Number(Double::from_bits(3.0f64.to_bits())));
    assert_eq!(n(s.get()), 7.0);
}

#[test]
fn set_overrides_cached() {
    let mut s = DynamicScalar::constant(f(0.0));
    s.set(f(99.5));
    assert_eq!(n(s.get()), 99.5);
}

#[test]
fn from_eval_runs_arithmetic_each_refresh() {
    let mut lisp = Lisp::new();
    let src = lisp.eval("'(* 3 14.0)");
    let mut s = lisp.from_eval(&src, 0.0);
    assert_eq!(n(s.get()), 0.0);
    lisp.refresh(&mut s);
    assert_eq!(n(s.get()), 42.0);
}

#[test]
fn from_eval_keeps_fallback_on_non_finite_result() {
    let mut lisp = Lisp::new();
    let src = lisp.eval("'(/ 1.0 0.0)");
    let mut s = lisp.from_eval(&src, 7.5);
    lisp.refresh(&mut s);
    assert_eq!(n(s.get()), 7.5);
}

#[test]
fn from_eval_keeps_fallback_on_non_numeric() {
    let mut lisp = Lisp::new();
    let src = lisp.eval("'\"not a number\"");
    let mut s = lisp.from_eval(&src, 1.5);
    lisp.refresh(&mut s);
    assert_eq!(n(s.get()), 1.5);
}

#[test]
fn from_eval_derefs_a_symbol() {
    let mut lisp = Lisp::new();
    lisp.eval("(setq consumer-power 1500.0)");
    let sym = lisp.eval("'consumer-power");
    let mut s = lisp.from_eval(&sym, 0.0);
    lisp.refresh(&mut s);
    assert_eq!(n(s.get()), 1500.0);
    lisp.eval("(setq consumer-power 2750.0)");
    lisp.refresh(&mut s);
    assert_eq!(n(s.get()), 2750.0);
}

#[test]
fn from_funcall_invokes_a_lambda() {
    let mut lisp = Lisp::new();
    let lambda = lisp.eval("(lambda () 17.5)");
    let handle = lisp.keep(&lambda);
    let mut s = DynamicScalar::from_funcall(handle, lambda.to_string(), f(0.0));
    lisp.refresh(&mut s);
    assert_eq!(n(s.get()), 17.5);
}

#[test]
fn from_lisp_dispatches_on_kind() {
    let mut lisp = Lisp::new();

    let num = lisp.eval("42.0");
    let s = lisp.from_lisp(&num, 0.0).unwrap();
    assert!(!s.is_dynamic());
    assert_eq!(n(s.get()), 42.0);

    let l = lisp.eval("(lambda () 9.5)");
    let mut s = lisp.from_lisp(&l, 0.0).unwrap();
    assert!(s.is_dynamic());
    lisp.refresh(&mut s);
    assert_eq!(n(s.get()), 9.5);

    lisp.eval("(setq pv-cap 8000.0)");
    let sym = lisp.eval("'pv-cap");
    let mut s = lisp.from_lisp(&sym, 0.0).unwrap();
    assert!(s.is_dynamic());
    lisp.refresh(&mut s);
    assert_eq!(n(s.get()), 8000.0);

    let expr = lisp.eval("'(* 2 21)");
    let mut s = lisp.from_lisp(&expr, 0.0).unwrap();
    lisp.refresh(&mut s);
    assert_eq!(n(s.get()), 42.0);

    let nil = lisp.eval("nil");
    assert!(lisp.from_lisp(&nil, 0.0).is_none());
}

#[test]
fn constant_has_no_source_text() {
    let s = DynamicScalar::constant(f(42.0));
    assert_eq!(s.source_text(), None);
}

#[test]
fn clone_is_independent_of_the_original() {
    let mut lisp = Lisp::new();
    lisp.eval("(setq clone-src 10.0)");
    let sym = lisp.eval("'clone-src");
    let mut s = lisp.from_eval(&sym, 0.0);
    lisp.refresh(&mut s);
    assert_eq!(n(s.get()), 10.0);

    let mut cloned = s.clone();
    assert_eq!(n(cloned.get()), 10.0);
    assert_eq!(cloned.source_text(), s.source_text());
    assert!(cloned.is_dynamic());

    // Poking the original's cache doesn't touch the clone.
    s.set(f(999.0));
    assert_eq!(n(cloned.get()), 10.0);

    // Re-resolving the clone leaves the original's cache alone.
    lisp.eval("(setq clone-src 20.0)");
    lisp.refresh(&mut cloned);
    assert_eq!(n(cloned.get()), 20.0);
    assert_eq!(n(s.get()), 999.0);
}

#[test]
fn from_lisp_captures_printed_source() {
    let mut lisp = Lisp::new();
    let obj = lisp.eval("'(lambda () 5)");
    let s = lisp.from_lisp(&obj, 0.0).unwrap();
    let text = s.source_text().expect("dynamic scalar has source text");
    assert!(text.contains("lambda"), "got: {text}");
}

/// An evaluation that fails keeps the value.
#[test]
fn a_failed_evaluation_keeps_the_value() {
    let mut s = DynamicScalar::from_eval(0, "boom".to_string(), f(3.0));
    s.refresh(Outcome::Failed);
    s.refresh(Outcome::NotANumber);
    s.refresh(Outcome::Number(Double::from_bits(f64::NAN.to_bits())));
    assert_eq!(n(s.get()), 3.0);
}

#[test]
fn forms_are_evaluated_and_everything_else_is_called() {
    let text = || "x".to_string();
    let source = |v: LispValue| DynamicScalar::from_lisp(v, f(1.5)).unwrap().source;
    assert_eq!(source(LispValue::Symbol { handle: 1, text: text() }), Some(Source::Eval(1)));
    assert_eq!(source(LispValue::Cons { handle: 2, text: text() }), Some(Source::Eval(2)));
    assert_eq!(source(LispValue::Str { handle: 3, text: text() }), Some(Source::Eval(3)));
    assert_eq!(source(LispValue::Other { handle: 4, text: text() }), Some(Source::Funcall(4)));
}
