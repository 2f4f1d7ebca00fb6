//! Exact decimal numbers.
//!
//! Metric values and scale factors are decimals `(-1)^neg * mantissa /
//! 10^scale10`.  Multiplication is exact; a result whose mantissa would
//! not fit reports overflow instead of rounding.

use vstd::prelude::*;
use crate::text::{
    all_digits, digits_value, digits_part, digit_val, split_text, split_by, is_digit_char,
    chars_of, lemma_digits_value_prefix_le,
};

verus! {

#[derive(Debug, Clone, Copy)]
pub struct Decimal {
    pub neg: bool,
    pub mantissa: u64,
    pub scale10: u32,
}

/// The signed numerator of `d` (its value times `10^scale10`).
pub open spec fn dec_scaled(d: Decimal) -> int {
    if d.neg {
        -(d.mantissa as int)
    } else {
        d.mantissa as int
    }
}

pub open spec fn pow10(e: nat) -> nat
    decreases e,
{
    if e == 0 {
        1
    } else {
        10 * pow10((e - 1) as nat)
    }
}

pub proof fn lemma_pow10_add(a: nat, b: nat)
    ensures
        pow10(a + b) == pow10(a) * pow10(b),
    decreases a,
{
    if a == 0 {
        assert(pow10(b) == 1 * pow10(b));
    } else {
        lemma_pow10_add((a - 1) as nat, b);
        assert(pow10(a + b) == 10 * pow10((a + b - 1) as nat));
        assert(pow10(a) * pow10(b) == 10 * (pow10((a - 1) as nat) * pow10(b)))
            by (nonlinear_arith)
            requires
                pow10(a) == 10 * pow10((a - 1) as nat),
        ;
    }
}

impl Decimal {
    /// The number one.
    pub fn one() -> (r: Decimal)
        ensures
            r.mantissa == 1 && r.scale10 == 0 && !r.neg,
    {
        Decimal { neg: false, mantissa: 1, scale10: 0 }
    }

    pub open spec fn is_one(self) -> bool {
        self.mantissa == 1 && self.scale10 == 0 && !self.neg
    }

    /// Exact product; `None` exactly when the mantissa or scale leaves
    /// the representable range.
    pub fn checked_mul(&self, o: &Decimal) -> (r: Option<Decimal>)
        ensures
            r matches Some(p) ==> {
                &&& p.mantissa == self.mantissa * o.mantissa
                &&& p.scale10 == self.scale10 + o.scale10
                &&& p.neg == (self.neg != o.neg)
            },
            r is None <==> (self.mantissa * o.mantissa > u64::MAX || self.scale10 + o.scale10
                > u32::MAX),
    {
        let m = match self.mantissa.checked_mul(o.mantissa) {
            Some(m) => m,
            None => {
                return None;
            },
        };
        let s = match self.scale10.checked_add(o.scale10) {
            Some(s) => s,
            None => {
                return None;
            },
        };
        Some(Decimal { neg: self.neg != o.neg, mantissa: m, scale10: s })
    }
}

/// Law: decimal multiplication is exact.  The product's numerator is
/// the product of the numerators and its denominator the product of the
/// denominators, so the rational value of the product is exactly the
/// product of the rational values.
pub proof fn lemma_dec_mul_exact(a: Decimal, b: Decimal, p: Decimal)
    requires
        p.mantissa == a.mantissa * b.mantissa,
        p.scale10 == a.scale10 + b.scale10,
        p.neg == (a.neg != b.neg),
    ensures
        dec_scaled(p) == dec_scaled(a) * dec_scaled(b),
        pow10(p.scale10 as nat) == pow10(a.scale10 as nat) * pow10(b.scale10 as nat),
{
    lemma_pow10_add(a.scale10 as nat, b.scale10 as nat);
    assert(dec_scaled(p) == dec_scaled(a) * dec_scaled(b)) by (nonlinear_arith)
        requires
            p.mantissa == a.mantissa * b.mantissa,
            p.neg == (a.neg != b.neg),
            dec_scaled(p) == if p.neg {
                -(p.mantissa as int)
            } else {
                p.mantissa as int
            },
            dec_scaled(a) == if a.neg {
                -(a.mantissa as int)
            } else {
                a.mantissa as int
            },
            dec_scaled(b) == if b.neg {
                -(b.mantissa as int)
            } else {
                b.mantissa as int
            },
    ;
}

/// Multiplying by one changes nothing.
pub proof fn lemma_dec_mul_one(a: Decimal, one: Decimal, p: Decimal)
    requires
        one.is_one(),
        p.mantissa == a.mantissa * one.mantissa,
        p.scale10 == a.scale10 + one.scale10,
        p.neg == (a.neg != one.neg),
    ensures
        p == a,
{
    assert(p.mantissa == a.mantissa);
}

/// `s` is a decimal text: an optional sign, then digits with at most
/// one decimal point and at least one digit overall.
pub open spec fn is_decimal_text(s: Seq<char>) -> bool {
    let d = digits_part(s);
    let parts = split_text(d, seq!['.']);
    ||| (parts.len() == 1 && d.len() > 0 && all_digits(d))
    ||| (parts.len() == 2 && all_digits(parts[0]) && all_digits(parts[1]) && parts[0].len()
        + parts[1].len() > 0)
}

/// The digits of a decimal text with the point removed, as an integer.
pub open spec fn decimal_text_mantissa(s: Seq<char>) -> int {
    let d = digits_part(s);
    let parts = split_text(d, seq!['.']);
    if parts.len() == 2 {
        digits_value(parts[0] + parts[1])
    } else {
        digits_value(d)
    }
}

/// How many digits follow the decimal point.
pub open spec fn decimal_text_scale(s: Seq<char>) -> int {
    let parts = split_text(digits_part(s), seq!['.']);
    if parts.len() == 2 {
        parts[1].len() as int
    } else {
        0
    }
}

pub open spec fn decimal_text_neg(s: Seq<char>) -> bool {
    s.len() > 0 && s[0] == '-'
}

/// Accumulate a digit string into a `u64`; exact when it fits.
fn parse_digits_u64(v: &Vec<char>, from: usize) -> (r: Option<u64>)
    requires
        from <= v@.len(),
    ensures
        r matches Some(n) ==> all_digits(v@.skip(from as int)) && n == digits_value(
            v@.skip(from as int),
        ),
        (all_digits(v@.skip(from as int)) && digits_value(v@.skip(from as int)) <= u64::MAX) ==> r
            is Some,
{
    let n: usize = v.len();
    let ghost d = v@.skip(from as int);
    let mut acc: u64 = 0;
    let mut i: usize = from;
    while i < n
        invariant
            from <= i <= n,
            n == v@.len(),
            d == v@.skip(from as int),
            all_digits(d.subrange(0, i - from)),
            acc == digits_value(d.subrange(0, i - from)),
        decreases n - i,
    {
        let c = v[i];
        let u: u32 = c as u32;
        if !(48 <= u && u <= 57) {
            proof {
                assert(d[i - from] == c);
            }
            return None;
        }
        let dv: u64 = (u as u64) - 48;
        let ghost pre = d.subrange(0, i - from);
        let ghost cur = d.subrange(0, i + 1 - from);
        proof {
            assert(cur.drop_last() =~= pre);
            assert(cur.last() == d[i - from]);
            assert(d[i - from] == v@[i as int]);
            assert(all_digits(cur));
            assert(digits_value(cur) == digits_value(pre) * 10 + digit_val(c));
            assert(digit_val(c) == dv);
        }
        let acc10 = match acc.checked_mul(10) {
            Some(x) => x,
            None => {
                proof {
                    assert(digits_value(cur) > u64::MAX as int);
                    if all_digits(d) && digits_value(d) <= u64::MAX {
                        lemma_digits_value_prefix_le(d, (i + 1 - from) as int);
                    }
                }
                return None;
            },
        };
        let acc2 = match acc10.checked_add(dv) {
            Some(x) => x,
            None => {
                proof {
                    assert(digits_value(cur) > u64::MAX as int);
                    if all_digits(d) && digits_value(d) <= u64::MAX {
                        lemma_digits_value_prefix_le(d, (i + 1 - from) as int);
                    }
                }
                return None;
            },
        };
        acc = acc2;
        i = i + 1;
    }
    proof {
        assert(d.subrange(0, n - from) =~= d);
    }
    Some(acc)
}

/// Parse a decimal text.  Returns the exact decimal when the text is
/// well-formed and its mantissa and scale are representable.
pub fn parse_decimal(text: &str) -> (r: Option<Decimal>)
    ensures
        r matches Some(dec) ==> {
            &&& is_decimal_text(text@)
            &&& dec.mantissa == decimal_text_mantissa(text@)
            &&& dec.scale10 == decimal_text_scale(text@)
            &&& dec.neg == decimal_text_neg(text@)
        },
        (is_decimal_text(text@) && decimal_text_mantissa(text@) <= u64::MAX && decimal_text_scale(
            text@,
        ) <= u32::MAX) ==> r is Some,
{
    let v = chars_of(text);
    let n: usize = v.len();
    let neg: bool = n > 0 && v[0] == '-';
    let start: usize = if n > 0 && (v[0] == '-' || v[0] == '+') {
        1
    } else {
        0
    };
    let ghost d = digits_part(text@);
    proof {
        if start == 1 {
            assert(d =~= v@.skip(1));
        } else {
            assert(d =~= v@.skip(0));
        }
    }
    let unsigned = crate::text::vec_slice(&v, start, n);
    let mut dot: Vec<char> = Vec::new();
    dot.push('.');
    proof {
        assert(dot@ =~= seq!['.']);
        assert(unsigned@ =~= d);
    }
    let parts = split_by(&unsigned, &dot);
    let ghost gparts = split_text(d, seq!['.']);
    proof {
        assert(parts@.map_values(|f: Vec<char>| f@) == gparts);
    }
    if parts.len() == 1 {
        if unsigned.len() == 0 {
            return None;
        }
        match parse_digits_u64(&unsigned, 0) {
            Some(m) => {
                proof {
                    assert(unsigned@.skip(0) =~= d);
                }
                Some(Decimal { neg, mantissa: m, scale10: 0 })
            },
            None => {
                proof {
                    assert(unsigned@.skip(0) =~= d);
                }
                None
            },
        }
    } else if parts.len() == 2 {
        let ghost p0 = gparts[0];
        let ghost p1 = gparts[1];
        proof {
            assert(parts@[0]@ == p0);
            assert(parts@[1]@ == p1);
        }
        if parts[0].len() == 0 && parts[1].len() == 0 {
            return None;
        }
        if parts[1].len() > u32::MAX as usize {
            return None;
        }
        let mut joined = crate::text::vec_slice(&parts[0], 0, parts[0].len());
        let mut k: usize = 0;
        let frac_len: usize = parts[1].len();
        while k < frac_len
            invariant
                k <= frac_len,
                frac_len == p1.len(),
                parts@.len() == 2,
                parts@[1]@ == p1,
                joined@ == p0 + p1.subrange(0, k as int),
            decreases frac_len - k,
        {
            joined.push(parts[1][k]);
            k = k + 1;
            proof {
                assert(joined@ =~= p0 + p1.subrange(0, k as int));
            }
        }
        proof {
            assert(p1.subrange(0, frac_len as int) =~= p1);
            assert(joined@ == p0 + p1);
        }
        match parse_digits_u64(&joined, 0) {
            Some(m) => {
                proof {
                    assert(joined@.skip(0) =~= p0 + p1);
                    if all_digits(p0 + p1) {
                        assert forall|t: int| 0 <= t < p0.len() implies is_digit_char(
                            #[trigger] p0[t],
                        ) by {
                            assert((p0 + p1)[t] == p0[t]);
                        }
                        assert forall|t: int| 0 <= t < p1.len() implies is_digit_char(
                            #[trigger] p1[t],
                        ) by {
                            assert((p0 + p1)[p0.len() + t] == p1[t]);
                        }
                    }
                }
                Some(Decimal { neg, mantissa: m, scale10: frac_len as u32 })
            },
            None => {
                proof {
                    assert(joined@.skip(0) =~= p0 + p1);
                    if all_digits(p0) && all_digits(p1) {
                        assert forall|t: int| 0 <= t < (p0 + p1).len() implies is_digit_char(
                            #[trigger] (p0 + p1)[t],
                        ) by {
                            if t < p0.len() {
                                assert((p0 + p1)[t] == p0[t]);
                            } else {
                                assert((p0 + p1)[t] == p1[t - p0.len()]);
                            }
                        }
                    }
                }
                None
            },
        }
    } else {
        None
    }
}

} // verus!
