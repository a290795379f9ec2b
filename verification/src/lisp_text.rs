//! Values in Lisp syntax: numbers and the insides of string literals.

use crate::double::{double_format, Double, DINFINITY};
use crate::ieee::take_apart;
use crate::rounding::two_to;
use crate::text::{push_decimal, push_text};
use vstd::arithmetic::div_mod::*;
use vstd::arithmetic::mul::*;
use vstd::arithmetic::power2::*;
use vstd::prelude::*;
use vstd::string::*;

verus! {

/// The magnitudes from which on whole numbers are written out as they are
/// shown.
pub const WHOLE_LIMIT: u64 = 1_000_000_000_000_000;

/// A finite number without a fractional part.
pub open spec fn is_whole(v: Double) -> bool {
    v.finite() && crate::double::double_spec().mag(v.spec_num()) % pow2(1074) == 0
}

/// The magnitude of a whole number below the limit; none for another number.
pub open spec fn small_whole(v: Double) -> Option<nat> {
    let n = crate::double::double_spec().mag(v.spec_num()) / pow2(1074);
    if is_whole(v) && n < WHOLE_LIMIT {
        Some(n)
    } else {
        None
    }
}

/// A number in Lisp syntax, where `shown` is its shortest decimal notation
/// without an exponent. A whole number gets a decimal point, so that it reads
/// back as a float; another number has one already.
pub open spec fn number_text(v: Double, shown: Seq<char>) -> Seq<char> {
    match small_whole(v) {
        Some(n) => if v.is_negative() {
            "-"@ + crate::text::decimal(n) + ".0"@
        } else {
            crate::text::decimal(n) + ".0"@
        },
        None => if is_whole(v) {
            shown + ".0"@
        } else {
            shown
        },
    }
}

/// What writing a number asks of it.
enum Whole {
    /// It has a fractional part, or is not finite.
    No,
    /// It is whole, with this magnitude below the limit.
    Small(u64),
    /// It is whole, and not below the limit.
    Large,
}

fn whole_part(v: Double) -> (r: Whole)
    ensures
        r is No <==> !is_whole(v),
        r is Small <==> small_whole(v) is Some,
        r matches Whole::Small(n) ==> small_whole(v) == Some(n as nat),
{
    let num = v.num();
    if num.code >= DINFINITY {
        return Whole::No;
    }
    let f = double_format();
    proof {
        crate::double::lemma_double_sizes();
    }
    let parts = take_apart(f, num);
    let ghost mag = f.mag(num);
    let ghost one = pow2(1074);
    let ghost low = pow2(parts.exp as nat);
    proof {
        lemma2_to64();
        lemma2_to64_rest();
        lemma_pow2_pos(1074);
        lemma_pow2_pos(parts.exp as nat);
        assert(f.half() == 0x10_0000_0000_0000);
    }
    if parts.exp >= 1074 {
        proof {
            let k = (parts.exp - 1074) as nat;
            lemma_pow2_pos(k);
            lemma_pow2_adds(1074, k);
            let high = pow2(k);
            assert(mag == one * (parts.sig * high)) by (nonlinear_arith)
                requires
                    mag == parts.sig * low,
                    low == one * high,
            ;
            assert(parts.sig * high >= parts.sig) by (nonlinear_arith)
                requires
                    high >= 1,
            ;
            lemma_fundamental_div_mod_converse(
                mag as int,
                one as int,
                parts.sig * high,
                0,
            );
        }
        if parts.sig == 0 {
            return Whole::Small(0);
        }
        return Whole::Large;
    }
    let k: u32 = 1074 - parts.exp;
    let ghost step = pow2(k as nat);
    proof {
        lemma_pow2_pos(k as nat);
        lemma_pow2_adds(parts.exp as nat, k as nat);
        assert(one == low * step);
        lemma_mul_is_commutative(parts.sig as int, low as int);
        lemma_truncate_middle(parts.sig as int, low as int, step as int);
        lemma_div_multiples_vanish_quotient(low as int, parts.sig as int, step as int);
        assert(mag % one == low * (parts.sig as nat % step));
        assert(mag / one == parts.sig as nat / step);
        let rem: nat = parts.sig as nat % step;
        assert(low * rem == 0 <==> rem == 0) by (nonlinear_arith)
            requires
                low > 0,
        ;
    }
    if k >= 53 {
        proof {
            crate::rounding::lemma_pow2_monotone(53, k as nat);
            lemma_small_mod(parts.sig as nat, step);
            lemma_basic_div(parts.sig as int, step as int);
        }
        if parts.sig == 0 {
            Whole::Small(0)
        } else {
            Whole::No
        }
    } else {
        let s: u128 = two_to(k);
        let sig: u128 = parts.sig as u128;
        if sig % s != 0 {
            return Whole::No;
        }
        let n: u128 = sig / s;
        if n < WHOLE_LIMIT as u128 {
            Whole::Small(n as u64)
        } else {
            Whole::Large
        }
    }
}

/// Writes a number so that it reads back as a float.
pub fn lisp_float(v: Double, shown: &str) -> (r: String)
    ensures
        r@ == number_text(v, shown@),
{
    let mut out = String::new();
    match whole_part(v) {
        Whole::Small(n) => {
            if v.to_bits() >= crate::double::DSIGN {
                push_text(&mut out, "-");
            }
            push_decimal(&mut out, n as u128);
            push_text(&mut out, ".0");
            assert(Seq::<char>::empty() + crate::text::decimal(n as nat) =~= crate::text::decimal(
                n as nat,
            ));
            assert(Seq::<char>::empty() + "-"@ =~= "-"@);
        },
        Whole::Large => {
            push_text(&mut out, shown);
            push_text(&mut out, ".0");
            assert(Seq::<char>::empty() + shown@ =~= shown@);
        },
        Whole::No => {
            push_text(&mut out, shown);
            assert(Seq::<char>::empty() + shown@ =~= shown@);
        },
    }
    out
}

/// Every whole number is written with a point and a zero behind it.
pub proof fn law_whole_numbers_have_a_point(v: Double, shown: Seq<char>)
    requires
        is_whole(v),
    ensures
        number_text(v, shown).len() >= 2,
        number_text(v, shown).skip(number_text(v, shown).len() - 2) == seq!['.', '0'],
{
    reveal_strlit(".0");
    let t = number_text(v, shown);
    assert(t.skip(t.len() - 2) =~= seq!['.', '0']);
}

/// One character inside a string literal: control characters are dropped, a
/// backslash and a quote are escaped.
pub open spec fn escaped_char(c: char) -> Seq<char> {
    if crate::text::is_control(c) {
        Seq::empty()
    } else if c == '\\' || c == '"' {
        seq!['\\', c]
    } else {
        seq![c]
    }
}

/// A text inside a string literal.
pub open spec fn escaped(s: Seq<char>) -> Seq<char>
    decreases s.len(),
{
    if s.len() == 0 {
        Seq::empty()
    } else {
        escaped_char(s[0]) + escaped(s.skip(1))
    }
}

/// The text without its control characters.
pub open spec fn printable(s: Seq<char>) -> Seq<char>
    decreases s.len(),
{
    if s.len() == 0 {
        Seq::empty()
    } else if crate::text::is_control(s[0]) {
        printable(s.skip(1))
    } else {
        seq![s[0]] + printable(s.skip(1))
    }
}

/// What the inside of a string literal reads as; none where it would end the
/// literal or leave an escape open.
pub open spec fn literal_value(s: Seq<char>) -> Option<Seq<char>>
    decreases s.len(),
{
    if s.len() == 0 {
        Some(Seq::empty())
    } else if s[0] == '"' {
        None
    } else if s[0] == '\\' {
        if s.len() == 1 {
            None
        } else {
            match literal_value(s.skip(2)) {
                Some(rest) => Some(seq![s[1]] + rest),
                None => None,
            }
        }
    } else {
        match literal_value(s.skip(1)) {
            Some(rest) => Some(seq![s[0]] + rest),
            None => None,
        }
    }
}

/// Escapes a text for a string literal.
pub fn esc(s: &str) -> (r: String)
    ensures
        r@ == escaped(s@),
{
    let n = s.unicode_len();
    let mut out = String::new();
    let mut i: usize = 0;
    assert(s@.skip(0) =~= s@);
    assert(out@ + escaped(s@.skip(0)) =~= escaped(s@));
    while i < n
        invariant
            i <= n,
            n == s@.len(),
            out@ + escaped(s@.skip(i as int)) == escaped(s@),
        decreases n - i,
    {
        let c = s.get_char(i);
        let ghost before = out@;
        let ghost rest = s@.skip(i as int);
        if !(c <= '\u{1f}' || ('\u{7f}' <= c && c <= '\u{9f}')) {
            if c == '\\' || c == '"' {
                out.push('\\');
            }
            out.push(c);
        }
        proof {
            assert(rest[0] == c);
            assert(rest.skip(1) =~= s@.skip(i + 1));
            assert(out@ =~= before + escaped_char(c));
            assert(out@ + escaped(s@.skip(i + 1)) =~= before + escaped(rest));
        }
        i += 1;
    }
    assert(out@ + escaped(s@.skip(n as int)) =~= out@);
    out
}

/// An escaped text stays inside its literal, whatever it holds, and reads back
/// as the text without its control characters.
pub proof fn law_escaped_text_reads_back(s: Seq<char>)
    ensures
        literal_value(escaped(s)) == Some(printable(s)),
    decreases s.len(),
{
    if s.len() > 0 {
        law_escaped_text_reads_back(s.skip(1));
        let c = s[0];
        let rest = escaped(s.skip(1));
        let all = escaped(s);
        if crate::text::is_control(c) {
            assert(all =~= rest);
        } else if c == '\\' || c == '"' {
            assert(all[0] == '\\' && all[1] == c);
            assert(all.skip(2) =~= rest);
        } else {
            assert(all[0] == c);
            assert(all.skip(1) =~= rest);
        }
    }
}

} // verus!
