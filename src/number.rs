//! Exact decimal numbers, the numeric values of the expression language.
use vstd::prelude::*;
use vstd::arithmetic::div_mod::lemma_fundamental_div_mod_converse;
use crate::natural::{
    digits_ok, val, pow10, plus, sub_borrow, times, shift, divmod, is_zero, pad, trim, copy,
    lemma_val_split, lemma_val_bound, lemma_val_zero, lemma_val_cons, lemma_val_skip_step,
    lemma_pow10_add, lemma_pow10_positive,
};

verus! {

/// A decimal number: the digits (little-endian) with a point before the lowest
/// `scale` of them, and a sign. Well-formed values have decimal digits and at
/// least `scale` of them.
#[derive(Debug)]
pub struct Number {
    pub negative: bool,
    pub digits: Vec<u8>,
    pub scale: usize,
}

/// What a `Number` denotes: `mantissa / 10^scale`.
pub struct Decimal {
    pub mantissa: int,
    pub scale: nat,
}

impl View for Number {
    type V = Decimal;

    open spec fn view(&self) -> Decimal {
        Decimal {
            mantissa: if self.negative {
                -(val(self.digits@) as int)
            } else {
                val(self.digits@) as int
            },
            scale: self.scale as nat,
        }
    }
}

/// Fractional digits that a quotient keeps.
pub const DIV_SCALE: usize = 16;

pub open spec fn abs(n: int) -> nat {
    if n < 0 {
        (-n) as nat
    } else {
        n as nat
    }
}

pub open spec fn max_nat(a: nat, b: nat) -> nat {
    if a >= b {
        a
    } else {
        b
    }
}

impl Decimal {
    /// The mantissa at a larger scale `s`.
    pub open spec fn aligned(self, s: nat) -> int {
        self.mantissa * pow10((s - self.scale) as nat) as int
    }

    pub open spec fn common_scale(self, o: Decimal) -> nat {
        max_nat(self.scale, o.scale)
    }

    /// Equality of values, whatever the scales.
    pub open spec fn same_value(self, o: Decimal) -> bool {
        self.aligned(self.common_scale(o)) == o.aligned(self.common_scale(o))
    }

    pub open spec fn less_than(self, o: Decimal) -> bool {
        self.aligned(self.common_scale(o)) < o.aligned(self.common_scale(o))
    }

    pub open spec fn is_zero(self) -> bool {
        self.mantissa == 0
    }

    /// The exact sum, at the larger of the two scales.
    pub open spec fn sum(self, o: Decimal) -> Decimal {
        let s = self.common_scale(o);
        Decimal { mantissa: self.aligned(s) + o.aligned(s), scale: s }
    }

    /// The exact difference, at the larger of the two scales.
    pub open spec fn difference(self, o: Decimal) -> Decimal {
        let s = self.common_scale(o);
        Decimal { mantissa: self.aligned(s) - o.aligned(s), scale: s }
    }

    /// The exact product.
    pub open spec fn product(self, o: Decimal) -> Decimal {
        Decimal { mantissa: self.mantissa * o.mantissa, scale: self.scale + o.scale }
    }

    /// The quotient cut after `DIV_SCALE` fractional digits, towards zero; for a
    /// non-zero divisor.
    pub open spec fn quotient(self, o: Decimal) -> Decimal {
        let n = abs(self.mantissa) * pow10(o.scale + DIV_SCALE as nat);
        let d = abs(o.mantissa) * pow10(self.scale);
        let q = (n / d) as int;
        Decimal {
            mantissa: if (self.mantissa < 0) != (o.mantissa < 0) {
                -q
            } else {
                q
            },
            scale: DIV_SCALE as nat,
        }
    }

    pub open spec fn negation(self) -> Decimal {
        Decimal { mantissa: -self.mantissa, scale: self.scale }
    }
}

pub open spec fn digit_text(d: int) -> Seq<char> {
    if d == 0 {
        "0"@
    } else if d == 1 {
        "1"@
    } else if d == 2 {
        "2"@
    } else if d == 3 {
        "3"@
    } else if d == 4 {
        "4"@
    } else if d == 5 {
        "5"@
    } else if d == 6 {
        "6"@
    } else if d == 7 {
        "7"@
    } else if d == 8 {
        "8"@
    } else {
        "9"@
    }
}

/// Decimal digits of `n`, without leading zeros.
pub open spec fn nat_text(n: nat) -> Seq<char>
    decreases n,
{
    if n < 10 {
        digit_text(n as int)
    } else {
        nat_text(n / 10) + digit_text((n % 10) as int)
    }
}

/// The lowest `s` decimal digits of `f`, highest first, zeros included.
pub open spec fn padded(f: nat, s: nat) -> Seq<char>
    decreases s,
{
    if s == 0 {
        Seq::empty()
    } else {
        padded(f / 10, (s - 1) as nat) + digit_text((f % 10) as int)
    }
}

/// `t` without its trailing zeros.
pub open spec fn strip_zeros(t: Seq<char>) -> Seq<char>
    decreases t.len(),
{
    if t.len() > 0 && t.last() == '0' {
        strip_zeros(t.drop_last())
    } else {
        t
    }
}

pub open spec fn sign_text(x: Decimal) -> Seq<char> {
    if x.mantissa < 0 {
        "-"@
    } else {
        Seq::empty()
    }
}

/// Digits of the integral part.
pub open spec fn integral_text(x: Decimal) -> Seq<char> {
    nat_text(abs(x.mantissa) / pow10(x.scale))
}

/// Digits of the fractional part, without trailing zeros (empty for an integral
/// number).
pub open spec fn fraction_text(x: Decimal) -> Seq<char> {
    strip_zeros(padded(abs(x.mantissa) % pow10(x.scale), x.scale))
}

/// Decimal form with at least one digit after the point (`3.0`, `-0.25`).
pub open spec fn number_text(x: Decimal) -> Seq<char> {
    sign_text(x) + integral_text(x) + "."@ + if fraction_text(x).len() == 0 {
        "0"@
    } else {
        fraction_text(x)
    }
}

/// Decimal form of a result: an integral number shows no point (`3`), any other
/// is shown as by `number_text`.
pub open spec fn result_text(x: Decimal) -> Seq<char> {
    sign_text(x) + integral_text(x) + if fraction_text(x).len() == 0 {
        Seq::empty()
    } else {
        "."@ + fraction_text(x)
    }
}

/// Digits `d[hi]` down to `d[lo]` as text.
pub open spec fn desc_text(d: Seq<u8>, lo: int, hi: int) -> Seq<char>
    decreases hi - lo + 1,
{
    if lo > hi || lo < 0 {
        Seq::empty()
    } else {
        desc_text(d, lo + 1, hi) + digit_text(d[lo] as int)
    }
}

proof fn lemma_digit_text(d: int)
    requires
        0 <= d < 10,
    ensures
        digit_text(d).len() == 1,
        d > 0 ==> digit_text(d)[0] != '0',
        digit_text(d)[0] != '.',
{
    reveal_strlit("0");
    reveal_strlit("1");
    reveal_strlit("2");
    reveal_strlit("3");
    reveal_strlit("4");
    reveal_strlit("5");
    reveal_strlit("6");
    reveal_strlit("7");
    reveal_strlit("8");
    reveal_strlit("9");
}

proof fn lemma_div10(v: nat, low: nat, high: nat)
    requires
        v == low + 10 * high,
        low < 10,
    ensures
        v / 10 == high,
        v % 10 == low,
{
    lemma_fundamental_div_mod_converse(v as int, 10, high as int, low as int);
}

/// The text of the digits from `from` on is the digits from the top non-zero one
/// down.
proof fn lemma_integral_digits(d: Seq<u8>, from: int, top: int)
    requires
        digits_ok(d),
        0 <= from <= top < d.len(),
        d[top] != 0,
        forall|j: int| top < j < d.len() ==> #[trigger] d[j] == 0,
    ensures
        nat_text(val(d.skip(from))) == desc_text(d, from, top),
    decreases top - from,
{
    lemma_val_skip_step(d, from);
    lemma_val_zero(d.skip(top + 1));
    assert forall|j: int| 0 <= j < d.skip(top + 1).len() implies #[trigger] d.skip(top + 1)[j]
        == 0 by {
        assert(d.skip(top + 1)[j] == d[top + 1 + j]);
    }
    if from == top {
        assert(desc_text(d, top + 1, top) == Seq::<char>::empty());
    } else {
        lemma_integral_digits(d, from + 1, top);
        lemma_val_zero(d.skip(from + 1));
        assert(d.skip(from + 1)[top - from - 1] == d[top]);
        let w = val(d.skip(from + 1));
        assert(w > 0);
        lemma_div10(val(d.skip(from)), d[from] as nat, w);
    }
}

/// The lowest digits as text, zeros included.
proof fn lemma_padded_digits(d: Seq<u8>, lo: int, h: int)
    requires
        digits_ok(d),
        0 <= lo <= h <= d.len(),
    ensures
        padded(val(d.subrange(lo, h)), (h - lo) as nat) == desc_text(d, lo, h - 1),
    decreases h - lo,
{
    if lo < h {
        assert(d.subrange(lo, h) =~= seq![d[lo]] + d.subrange(lo + 1, h));
        lemma_val_cons(d[lo], d.subrange(lo + 1, h));
        lemma_div10(val(d.subrange(lo, h)), d[lo] as nat, val(d.subrange(lo + 1, h)));
        lemma_padded_digits(d, lo + 1, h);
    }
}

/// Trailing zeros of a digit text are its lowest zero digits.
proof fn lemma_strip_digits(d: Seq<u8>, from: int, lo: int, hi: int)
    requires
        digits_ok(d),
        0 <= from <= lo,
        hi < d.len(),
        forall|j: int| from <= j < lo ==> #[trigger] d[j] == 0,
        lo <= hi ==> d[lo] != 0,
        lo <= hi + 1,
    ensures
        strip_zeros(desc_text(d, from, hi)) == desc_text(d, lo, hi),
    decreases lo - from,
{
    if from < lo {
        lemma_strip_digits(d, from + 1, lo, hi);
        lemma_digit_text(0);
        reveal_strlit("0");
        let t = desc_text(d, from, hi);
        assert(t == desc_text(d, from + 1, hi) + digit_text(0));
        assert(t.drop_last() =~= desc_text(d, from + 1, hi));
    } else if lo <= hi {
        lemma_digit_text(d[lo] as int);
    }
}

proof fn lemma_strip_zeros_last(t: Seq<char>)
    ensures
        strip_zeros(t).len() > 0 ==> strip_zeros(t).last() != '0',
    decreases t.len(),
{
    if t.len() > 0 && t.last() == '0' {
        lemma_strip_zeros_last(t.drop_last());
    }
}

fn digit_str(d: u64) -> (r: &'static str)
    requires
        d < 10,
    ensures
        r@ == digit_text(d as int),
{
    if d == 0 {
        "0"
    } else if d == 1 {
        "1"
    } else if d == 2 {
        "2"
    } else if d == 3 {
        "3"
    } else if d == 4 {
        "4"
    } else if d == 5 {
        "5"
    } else if d == 6 {
        "6"
    } else if d == 7 {
        "7"
    } else if d == 8 {
        "8"
    } else {
        "9"
    }
}

/// Appends the digits `d[hi - 1]` down to `d[lo]`.
fn push_desc(out: &mut String, d: &Vec<u8>, lo: usize, hi: usize)
    requires
        digits_ok(d@),
        lo <= hi <= d@.len(),
    ensures
        final(out)@ == old(out)@ + desc_text(d@, lo as int, hi - 1),
{
    let ghost start = out@;
    let mut k = hi;
    assert(desc_text(d@, hi as int, hi - 1) == Seq::<char>::empty());
    assert(out@ =~= start + desc_text(d@, k as int, hi - 1));
    while k > lo
        invariant
            digits_ok(d@),
            lo <= k <= hi <= d@.len(),
            out@ == start + desc_text(d@, k as int, hi - 1),
        decreases k,
    {
        let x = d[k - 1];
        out.append(digit_str(x as u64));
        k = k - 1;
        assert(out@ =~= start + desc_text(d@, k as int, hi - 1));
    }
}

impl Number {
    pub open spec fn wf(&self) -> bool {
        digits_ok(self.digits@) && self.scale <= self.digits@.len()
    }

    /// Appends the digits of the integral part.
    fn push_integral(&self, out: &mut String)
        requires
            self.wf(),
        ensures
            final(out)@ == old(out)@ + integral_text(self@),
    {
        let d = &self.digits;
        let s = self.scale;
        proof {
            lemma_val_split(d@, s as int);
            lemma_val_bound(d@.take(s as int));
            assert(digits_ok(d@.take(s as int)));
            assert(pow10(s as nat) * val(d@.skip(s as int)) == val(d@.skip(s as int)) * pow10(s as nat))
                by (nonlinear_arith);
            lemma_fundamental_div_mod_converse(
                val(d@) as int,
                pow10(s as nat) as int,
                val(d@.skip(s as int)) as int,
                val(d@.take(s as int)) as int,
            );
        }
        let mut top = d.len();
        while top > s && d[top - 1] == 0
            invariant
                s <= top <= d@.len(),
                forall|j: int| top <= j < d@.len() ==> #[trigger] d@[j] == 0,
            decreases top,
        {
            top = top - 1;
        }
        if top == s {
            proof {
                lemma_val_zero(d@.skip(s as int));
                assert forall|j: int| 0 <= j < d@.skip(s as int).len() implies #[trigger] d@.skip(
                    s as int,
                )[j] == 0 by {
                    assert(d@.skip(s as int)[j] == d@[s + j]);
                }
            }
            out.append("0");
        } else {
            proof {
                lemma_integral_digits(d@, s as int, top - 1);
            }
            push_desc(out, d, s, top);
        }
    }

    /// Digits of the fractional part without trailing zeros.
    fn fraction(&self) -> (r: String)
        requires
            self.wf(),
        ensures
            r@ == fraction_text(self@),
    {
        let d = &self.digits;
        let s = self.scale;
        proof {
            lemma_val_split(d@, s as int);
            lemma_val_bound(d@.take(s as int));
            assert(digits_ok(d@.take(s as int)));
            assert(pow10(s as nat) * val(d@.skip(s as int)) == val(d@.skip(s as int)) * pow10(s as nat))
                by (nonlinear_arith);
            lemma_fundamental_div_mod_converse(
                val(d@) as int,
                pow10(s as nat) as int,
                val(d@.skip(s as int)) as int,
                val(d@.take(s as int)) as int,
            );
            assert(d@.subrange(0, s as int) =~= d@.take(s as int));
            lemma_padded_digits(d@, 0, s as int);
        }
        let mut lo: usize = 0;
        while lo < s && d[lo] == 0
            invariant
                lo <= s <= d@.len(),
                forall|j: int| 0 <= j < lo ==> #[trigger] d@[j] == 0,
            decreases s - lo,
        {
            lo = lo + 1;
        }
        proof {
            lemma_strip_digits(d@, 0, lo as int, s - 1);
        }
        let mut out = String::new();
        push_desc(&mut out, d, lo, s);
        assert(out@ =~= desc_text(d@, lo as int, s - 1));
        out
    }

    fn push_sign(&self, out: &mut String)
        requires
            self.wf(),
        ensures
            final(out)@ == old(out)@ + sign_text(self@),
    {
        if self.negative && !is_zero(&self.digits) {
            out.append("-");
        } else {
            assert(old(out)@ + sign_text(self@) =~= old(out)@);
        }
    }

    /// Decimal form with at least one digit after the point.
    pub fn to_text(&self) -> (r: String)
        requires
            self.wf(),
        ensures
            r@ == number_text(self@),
    {
        let mut out = String::new();
        self.push_sign(&mut out);
        self.push_integral(&mut out);
        out.append(".");
        let f = self.fraction();
        if f.as_str().is_empty() {
            out.append("0");
        } else {
            out.append(f.as_str());
        }
        assert(out@ =~= number_text(self@));
        out
    }

    /// Decimal form of a result: integral numbers show no point.
    pub fn to_result_text(&self) -> (r: String)
        requires
            self.wf(),
        ensures
            r@ == result_text(self@),
    {
        let mut out = String::new();
        self.push_sign(&mut out);
        self.push_integral(&mut out);
        let f = self.fraction();
        if !f.as_str().is_empty() {
            out.append(".");
            out.append(f.as_str());
        }
        assert(out@ =~= result_text(self@));
        out
    }
}

pub open spec fn is_digit(c: char) -> bool {
    '0' <= c <= '9'
}
pub open spec fn digit_value(c: char) -> int {
    c as u32 as int - '0' as u32 as int
}
/// The number that a sequence of decimal digits denotes.
pub open spec fn digits_value(s: Seq<char>) -> int
    decreases s.len(),
{
    if s.len() == 0 {
        0
    } else {
        digits_value(s.drop_last()) * 10 + digit_value(s.last())
    }
}
/// `t` without a trailing `.0`, where it has one.
pub open spec fn strip_point_zero(t: Seq<char>) -> Seq<char> {
    if t.len() >= 2 && t[t.len() - 2] == '.' && t[t.len() - 1] == '0' {
        t.subrange(0, t.len() - 2)
    } else {
        t
    }
}

/// The value of the digits `s` with a point before the last `frac_len` of them.
pub open spec fn decimal_number(s: Seq<char>, frac_len: nat) -> Decimal {
    Decimal { mantissa: digits_value(s), scale: frac_len }
}

proof fn lemma_val_single(d: u8)
    ensures
        val(seq![d]) == d,
{
    lemma_val_cons(d, Seq::<u8>::empty());
    assert(seq![d] + Seq::<u8>::empty() =~= seq![d]);
}

proof fn lemma_digits_value_nonneg(s: Seq<char>)
    requires
        forall|j: int| 0 <= j < s.len() ==> is_digit(#[trigger] s[j]),
    ensures
        digits_value(s) >= 0,
    decreases s.len(),
{
    if s.len() > 0 {
        assert forall|j: int| 0 <= j < s.drop_last().len() implies is_digit(
            #[trigger] s.drop_last()[j],
        ) by {
            assert(s.drop_last()[j] == s[j]);
        }
        lemma_digits_value_nonneg(s.drop_last());
    }
}

/// The signed value of magnitude `v`.
pub open spec fn signed(negative: bool, v: nat) -> int {
    if negative {
        -(v as int)
    } else {
        v as int
    }
}

impl Number {
    fn make(negative: bool, digits: Vec<u8>, scale: usize) -> (r: Number)
        requires
            digits_ok(digits@),
        ensures
            r.wf(),
            r@ == (Decimal { mantissa: signed(negative, val(digits@)), scale: scale as nat }),
    {
        let mut m = digits;
        pad(&mut m, scale);
        trim(&mut m, scale);
        Number { negative, digits: m, scale }
    }

    /// A copy of this number.
    pub fn duplicate(&self) -> (r: Number)
        ensures
            r@ == self@,
            r.wf() == self.wf(),
            r.digits@ == self.digits@,
    {
        Number { negative: self.negative, digits: copy(&self.digits), scale: self.scale }
    }

    /// Whether the value is zero.
    pub fn is_zero(&self) -> (r: bool)
        ensures
            r == self@.is_zero(),
    {
        is_zero(&self.digits)
    }

    /// `-self`.
    pub fn neg(&self) -> (r: Number)
        requires
            self.wf(),
        ensures
            r.wf(),
            r@ == self@.negation(),
    {
        Number { negative: !self.negative, digits: copy(&self.digits), scale: self.scale }
    }

    /// The magnitude's digits at scale `s >= self.scale`.
    fn aligned_digits(&self, s: usize) -> (r: Vec<u8>)
        requires
            self.wf(),
            self.scale <= s,
        ensures
            digits_ok(r@),
            signed(self.negative, val(r@)) == self@.aligned(s as nat),
    {
        let r = shift(&self.digits, s - self.scale);
        proof {
            let p = pow10((s - self.scale) as nat) as int;
            let v = val(self.digits@) as int;
            assert((-v) * p == -(v * p)) by (nonlinear_arith);
        }
        r
    }

    /// `self + o`, exactly.
    pub fn add(&self, o: &Number) -> (r: Number)
        requires
            self.wf(),
            o.wf(),
        ensures
            r.wf(),
            r@ == self@.sum(o@),
    {
        let s = if self.scale >= o.scale {
            self.scale
        } else {
            o.scale
        };
        let a = self.aligned_digits(s);
        let b = o.aligned_digits(s);
        if self.negative == o.negative {
            Number::make(self.negative, plus(&a, &b), s)
        } else {
            let (d, borrow) = sub_borrow(&a, &b);
            if !borrow {
                Number::make(self.negative, d, s)
            } else {
                let (e, _) = sub_borrow(&b, &a);
                Number::make(o.negative, e, s)
            }
        }
    }

    /// `self - o`, exactly.
    pub fn sub(&self, o: &Number) -> (r: Number)
        requires
            self.wf(),
            o.wf(),
        ensures
            r.wf(),
            r@ == self@.difference(o@),
    {
        let m = o.neg();
        proof {
            let s = self@.common_scale(o@);
            let p = pow10((s - o.scale) as nat) as int;
            assert((-o@.mantissa) * p == -(o@.mantissa * p)) by (nonlinear_arith);
        }
        self.add(&m)
    }

    /// `self * o`, exactly.
    pub fn mul(&self, o: &Number) -> (r: Number)
        requires
            self.wf(),
            o.wf(),
        ensures
            r.wf(),
            r@ == self@.product(o@),
    {
        let m = times(&self.digits, &o.digits);
        if o.digits.len() > 0 {
            let n = m.len();
            assert(self.scale + o.scale <= n);
        }
        proof {
            let a = val(self.digits@) as int;
            let b = val(o.digits@) as int;
            assert((-a) * (-b) == a * b) by (nonlinear_arith);
            assert((-a) * b == -(a * b)) by (nonlinear_arith);
            assert(a * (-b) == -(a * b)) by (nonlinear_arith);
        }
        Number::make(self.negative != o.negative, m, self.scale + o.scale)
    }

    /// `self / o` for a non-zero `o`, cut after `DIV_SCALE` fractional digits.
    pub fn div(&self, o: &Number) -> (r: Number)
        requires
            self.wf(),
            o.wf(),
            !o@.is_zero(),
        ensures
            r.wf(),
            r@ == self@.quotient(o@),
    {
        let n = shift(&shift(&self.digits, DIV_SCALE), o.scale);
        let d = shift(&o.digits, self.scale);
        proof {
            lemma_pow10_add(DIV_SCALE as nat, o.scale as nat);
            lemma_pow10_positive(self.scale as nat);
            let va = val(self.digits@);
            let vb = val(o.digits@);
            assert(vb > 0);
            assert(va * pow10(DIV_SCALE as nat) * pow10(o.scale as nat) == va * pow10(
                (o.scale + DIV_SCALE) as nat,
            )) by (nonlinear_arith)
                requires
                    pow10((DIV_SCALE + o.scale) as nat) == pow10(DIV_SCALE as nat) * pow10(
                        o.scale as nat,
                    ),
            ;
            assert(vb * pow10(self.scale as nat) > 0) by (nonlinear_arith)
                requires
                    vb > 0,
                    pow10(self.scale as nat) >= 1,
            ;
        }
        let (q, _) = divmod(&n, &d);
        proof {
            let va = val(self.digits@);
            if va == 0 {
                assert(val(n@) == 0);
                assert(val(q@) == 0) by (nonlinear_arith)
                    requires
                        val(q@) == val(n@) / val(d@),
                        val(n@) == 0,
                        val(d@) > 0,
                ;
            }
        }
        Number::make(self.negative != o.negative, q, DIV_SCALE)
    }

    /// Whether `self < o` in value.
    pub fn lt(&self, o: &Number) -> (r: bool)
        requires
            self.wf(),
            o.wf(),
        ensures
            r == self@.less_than(o@),
    {
        let d = self.sub(o);
        d.negative && !is_zero(&d.digits)
    }

    /// Whether `self` and `o` have the same value.
    pub fn equals(&self, o: &Number) -> (r: bool)
        requires
            self.wf(),
            o.wf(),
        ensures
            r == self@.same_value(o@),
    {
        let d = self.sub(o);
        is_zero(&d.digits)
    }

    /// Reads decimal digits with a point before the last `frac_len` of them.
    pub fn from_digits(digits: &Vec<char>, frac_len: usize) -> (r: Number)
        requires
            forall|j: int| 0 <= j < digits@.len() ==> is_digit(#[trigger] digits@[j]),
        ensures
            r.wf(),
            r@ == decimal_number(digits@, frac_len as nat),
    {
        let mut acc: Vec<u8> = Vec::new();
        let mut i: usize = 0;
        assert(digits@.take(0) =~= Seq::<char>::empty());
        while i < digits.len()
            invariant
                i <= digits@.len(),
                forall|j: int| 0 <= j < digits@.len() ==> is_digit(#[trigger] digits@[j]),
                digits_ok(acc@),
                val(acc@) == digits_value(digits@.take(i as int)),
            decreases digits@.len() - i,
        {
            let c = digits[i];
            assert(is_digit(c));
            let d = (c as u32 - '0' as u32) as u8;
            let mut one: Vec<u8> = Vec::new();
            one.push(d);
            proof {
                lemma_val_single(d);
                assert(digits@.take(i + 1).drop_last() =~= digits@.take(i as int));
            }
            acc = plus(&shift(&acc, 1), &one);
            proof {
                assert(pow10(1) == 10);
            }
            i = i + 1;
        }
        assert(digits@.take(i as int) =~= digits@);
        proof {
            lemma_digits_value_nonneg(digits@);
        }
        Number::make(false, acc, frac_len)
    }
}


/// The text of a result is the number's text without a trailing `.0`: an
/// integral number loses its point, any other keeps its fraction.
pub proof fn lemma_result_text_strips_point_zero(x: Decimal)
    ensures
        result_text(x) == strip_point_zero(number_text(x)),
{
    reveal_strlit(".");
    reveal_strlit("0");
    let head = sign_text(x) + integral_text(x);
    let f = fraction_text(x);
    let t = number_text(x);
    if f.len() == 0 {
        assert(t == head + "."@ + "0"@);
        assert(strip_point_zero(t) =~= head);
        assert(result_text(x) =~= head);
    } else {
        lemma_strip_zeros_last(padded(abs(x.mantissa) % pow10(x.scale), x.scale));
        assert(t == head + "."@ + f);
        assert(t[t.len() - 1] == f[f.len() - 1]);
        assert(result_text(x) =~= t);
    }
}

} // verus!
