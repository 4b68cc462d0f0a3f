//! Natural numbers of any size, as little-endian vectors of decimal digits.
use vstd::prelude::*;
use vstd::arithmetic::div_mod::lemma_fundamental_div_mod_converse;

verus! {

pub open spec fn pow10(n: nat) -> nat
    decreases n,
{
    if n == 0 {
        1
    } else {
        10 * pow10((n - 1) as nat)
    }
}

/// The number that little-endian decimal digits denote.
pub open spec fn val(s: Seq<u8>) -> nat
    decreases s.len(),
{
    if s.len() == 0 {
        0
    } else {
        val(s.drop_last()) + (s.last() as nat) * pow10((s.len() - 1) as nat)
    }
}

/// Every entry is a decimal digit.
pub open spec fn digits_ok(s: Seq<u8>) -> bool {
    forall|i: int| 0 <= i < s.len() ==> #[trigger] s[i] <= 9
}

/// The digit at `i`, with zeros past the end.
pub open spec fn digit(s: Seq<u8>, i: int) -> nat {
    if 0 <= i < s.len() {
        s[i] as nat
    } else {
        0
    }
}

/// The value of the lowest `i` digits.
pub open spec fn low(s: Seq<u8>, i: nat) -> nat {
    if i <= s.len() {
        val(s.take(i as int))
    } else {
        val(s)
    }
}

pub proof fn lemma_pow10_positive(n: nat)
    ensures
        pow10(n) >= 1,
    decreases n,
{
    if n > 0 {
        lemma_pow10_positive((n - 1) as nat);
    }
}

pub proof fn lemma_pow10_grows(n: nat, m: nat)
    requires
        n <= m,
    ensures
        pow10(n) <= pow10(m),
    decreases m,
{
    if n < m {
        lemma_pow10_grows(n, (m - 1) as nat);
        lemma_pow10_positive((m - 1) as nat);
    }
}

pub proof fn lemma_pow10_add(a: nat, b: nat)
    ensures
        pow10(a + b) == pow10(a) * pow10(b),
    decreases a,
{
    if a > 0 {
        lemma_pow10_add((a - 1) as nat, b);
        let pa = pow10(a);
        let pa1 = pow10((a - 1) as nat);
        let pb = pow10(b);
        let pab = pow10(a + b);
        let pa1b = pow10((a - 1 + b) as nat);
        assert(pa == 10 * pa1);
        assert(((a - 1) as nat + b) as nat == (a + b - 1) as nat);
        assert(pab == 10 * pa1b);
        assert(pab == pa * pb) by (nonlinear_arith)
            requires
                pa == 10 * pa1,
                pab == 10 * pa1b,
                pa1b == pa1 * pb,
        ;
    } else {
        assert(pow10(0) == 1);
        assert(a + b == b);
    }
}

proof fn lemma_low_step(s: Seq<u8>, i: nat)
    ensures
        low(s, i + 1) == low(s, i) + digit(s, i as int) * pow10(i),
{
    if i < s.len() {
        assert(s.take(i + 1 as int).drop_last() =~= s.take(i as int));
    } else if i == s.len() {
        assert(s.take(i as int) =~= s);
    }
}

pub proof fn lemma_low_all(s: Seq<u8>, n: nat)
    requires
        s.len() <= n,
    ensures
        low(s, n) == val(s),
{
    if n == s.len() {
        assert(s.take(n as int) =~= s);
    }
}

pub proof fn lemma_val_push(s: Seq<u8>, d: u8)
    ensures
        val(s.push(d)) == val(s) + d * pow10(s.len()),
{
    assert(s.push(d).drop_last() =~= s);
}

pub proof fn lemma_val_bound(s: Seq<u8>)
    requires
        digits_ok(s),
    ensures
        val(s) < pow10(s.len()),
    decreases s.len(),
{
    if s.len() > 0 {
        let t = s.drop_last();
        assert(digits_ok(t));
        lemma_val_bound(t);
        let p = pow10(t.len());
        let l = s.last() as nat;
        assert(l <= 9);
        assert(val(t) + l * p < 10 * p) by (nonlinear_arith)
            requires
                val(t) < p,
                l <= 9,
        ;
    }
}

pub proof fn lemma_val_cons(x: u8, s: Seq<u8>)
    ensures
        val(seq![x] + s) == x + 10 * val(s),
    decreases s.len(),
{
    let t = seq![x] + s;
    if s.len() == 0 {
        assert(t.drop_last() =~= Seq::<u8>::empty());
        assert(val(Seq::<u8>::empty()) == 0);
        assert(s =~= Seq::<u8>::empty());
        assert(pow10(0) == 1);
        assert(t.last() == x);
    } else {
        assert(t.drop_last() =~= seq![x] + s.drop_last());
        lemma_val_cons(x, s.drop_last());
        let p = pow10((s.len() - 1) as nat);
        let l = s.last() as nat;
        assert(pow10(s.len()) == 10 * p);
        assert(t.last() == s.last());
        assert(t.len() - 1 == s.len());
        let v0 = val(s.drop_last());
        assert(val(t) == val(seq![x] + s.drop_last()) + l * (10 * p));
        assert(val(s) == v0 + l * p);
        assert(x + 10 * v0 + l * (10 * p) == x + 10 * (v0 + l * p)) by (nonlinear_arith);
    }
}

/// The value is zero exactly when every digit is.
pub proof fn lemma_val_zero(s: Seq<u8>)
    ensures
        val(s) == 0 ==> forall|i: int| 0 <= i < s.len() ==> #[trigger] s[i] == 0,
        (forall|i: int| 0 <= i < s.len() ==> #[trigger] s[i] == 0) ==> val(s) == 0,
    decreases s.len(),
{
    if s.len() > 0 {
        lemma_val_zero(s.drop_last());
        lemma_pow10_positive((s.len() - 1) as nat);
        let p = pow10((s.len() - 1) as nat);
        let l = s.last() as nat;
        assert(l > 0 ==> l * p > 0) by (nonlinear_arith)
            requires
                p >= 1,
        ;
        if val(s) == 0 {
            assert forall|i: int| 0 <= i < s.len() implies #[trigger] s[i] == 0 by {
                if i < s.len() - 1 {
                    assert(s.drop_last()[i] == s[i]);
                }
            }
        } else {
            if forall|i: int| 0 <= i < s.len() ==> #[trigger] s[i] == 0 {
                assert forall|i: int| 0 <= i < s.drop_last().len() implies #[trigger] s.drop_last()[i]
                    == 0 by {
                    assert(s[i] == 0);
                }
                assert(s[s.len() - 1] == 0);
            }
        }
    }
}

/// Splitting the digits at `i`: the low part and the high part times `10^i`.
pub proof fn lemma_val_split(s: Seq<u8>, i: int)
    requires
        0 <= i <= s.len(),
    ensures
        val(s) == val(s.take(i)) + pow10(i as nat) * val(s.skip(i)),
    decreases i,
{
    if i == 0 {
        assert(s.take(0) =~= Seq::<u8>::empty());
        assert(s.skip(0) =~= s);
        assert(val(Seq::<u8>::empty()) == 0);
        assert(pow10(0) == 1);
        assert(1 * val(s) == val(s));
    } else {
        let r = s.skip(1);
        assert(s =~= seq![s[0]] + r);
        lemma_val_cons(s[0], r);
        lemma_val_split(r, i - 1);
        assert(s.take(i) =~= seq![s[0]] + r.take(i - 1));
        lemma_val_cons(s[0], r.take(i - 1));
        assert(r.skip(i - 1) =~= s.skip(i));
        let p = pow10((i - 1) as nat);
        assert(pow10(i as nat) == 10 * p);
        let x = s[0] as nat;
        let lo = val(r.take(i - 1));
        let hi = val(s.skip(i));
        assert(val(r) == lo + p * hi);
        assert(val(s) == x + 10 * val(r));
        assert(val(s.take(i)) == x + 10 * lo);
        assert(x + 10 * (lo + p * hi) == (x + 10 * lo) + (10 * p) * hi) by (nonlinear_arith);
    }
}

/// The digits from `i` on are the next digit and ten times the digits after it.
pub proof fn lemma_val_skip_step(s: Seq<u8>, i: int)
    requires
        0 <= i < s.len(),
    ensures
        val(s.skip(i)) == s[i] + 10 * val(s.skip(i + 1)),
{
    assert(s.skip(i) =~= seq![s[i]] + s.skip(i + 1));
    lemma_val_cons(s[i], s.skip(i + 1));
}

fn digit_at(s: &Vec<u8>, i: usize) -> (r: u8)
    requires
        digits_ok(s@),
    ensures
        r as nat == digit(s@, i as int),
        r <= 9,
{
    if i < s.len() {
        s[i]
    } else {
        0
    }
}

/// `a + b`.
pub fn plus(a: &Vec<u8>, b: &Vec<u8>) -> (r: Vec<u8>)
    requires
        digits_ok(a@),
        digits_ok(b@),
    ensures
        digits_ok(r@),
        val(r@) == val(a@) + val(b@),
        r@.len() > a@.len(),
        r@.len() > b@.len(),
{
    let n = if a.len() > b.len() {
        a.len()
    } else {
        b.len()
    };
    let mut r: Vec<u8> = Vec::new();
    let mut carry: u8 = 0;
    let mut i: usize = 0;
    while i < n
        invariant
            digits_ok(a@),
            digits_ok(b@),
            digits_ok(r@),
            i <= n,
            n == a@.len() || n == b@.len(),
            a@.len() <= n,
            b@.len() <= n,
            r@.len() == i,
            carry <= 1,
            val(r@) + carry * pow10(i as nat) == low(a@, i as nat) + low(b@, i as nat),
        decreases n - i,
    {
        let x = digit_at(a, i) + digit_at(b, i) + carry;
        let d = x % 10;
        let c = x / 10;
        proof {
            lemma_val_push(r@, d);
            lemma_low_step(a@, i as nat);
            lemma_low_step(b@, i as nat);
            let p = pow10(i as nat);
            assert(pow10((i + 1) as nat) == 10 * p);
            let ga = digit(a@, i as int);
            let gb = digit(b@, i as int);
            let la = low(a@, i as nat);
            let lb = low(b@, i as nat);
            let v = val(r@);
            assert(v + d * p + c * (10 * p) == (la + ga * p) + (lb + gb * p)) by (nonlinear_arith)
                requires
                    v + carry * p == la + lb,
                    x == ga + gb + carry,
                    x == 10 * c + d,
            ;
        }
        r.push(d);
        carry = c;
        i = i + 1;
    }
    proof {
        lemma_val_push(r@, carry);
        lemma_low_all(a@, n as nat);
        lemma_low_all(b@, n as nat);
    }
    r.push(carry);
    r
}

/// `a - b` on `n` digits, with a borrow out of the top digit: the borrow is set
/// exactly when `a < b`.
pub fn sub_borrow(a: &Vec<u8>, b: &Vec<u8>) -> (r: (Vec<u8>, bool))
    requires
        digits_ok(a@),
        digits_ok(b@),
    ensures
        digits_ok(r.0@),
        r.1 == (val(a@) < val(b@)),
        !r.1 ==> val(r.0@) == val(a@) - val(b@),
{
    let n = if a.len() > b.len() {
        a.len()
    } else {
        b.len()
    };
    let mut r: Vec<u8> = Vec::new();
    let mut borrow: u8 = 0;
    let mut i: usize = 0;
    while i < n
        invariant
            digits_ok(a@),
            digits_ok(b@),
            digits_ok(r@),
            i <= n,
            a@.len() <= n,
            b@.len() <= n,
            r@.len() == i,
            borrow <= 1,
            val(r@) - borrow * pow10(i as nat) == low(a@, i as nat) - low(b@, i as nat),
        decreases n - i,
    {
        let x = digit_at(a, i);
        let y = digit_at(b, i) + borrow;
        let (d, nb): (u8, u8) = if x >= y {
            (x - y, 0)
        } else {
            (x + 10 - y, 1)
        };
        proof {
            lemma_val_push(r@, d);
            lemma_low_step(a@, i as nat);
            lemma_low_step(b@, i as nat);
            let p = pow10(i as nat);
            assert(pow10((i + 1) as nat) == 10 * p);
            let ga = digit(a@, i as int);
            let gb = digit(b@, i as int);
            let la = low(a@, i as nat);
            let lb = low(b@, i as nat);
            let v = val(r@);
            assert(v + d * p - nb * (10 * p) == (la + ga * p) - (lb + gb * p)) by (nonlinear_arith)
                requires
                    v - borrow * p == la - lb,
                    x == ga,
                    y == gb + borrow,
                    d - 10 * nb == x - y,
            ;
        }
        r.push(d);
        borrow = nb;
        i = i + 1;
    }
    proof {
        lemma_low_all(a@, n as nat);
        lemma_low_all(b@, n as nat);
        lemma_val_bound(r@);
        lemma_val_bound(a@);
        lemma_val_bound(b@);
        lemma_pow10_grows(a@.len(), n as nat);
        lemma_pow10_grows(b@.len(), n as nat);
    }
    (r, borrow == 1)
}

/// `a * k` for one digit `k`.
pub fn mul_digit(a: &Vec<u8>, k: u8) -> (r: Vec<u8>)
    requires
        digits_ok(a@),
        k <= 9,
    ensures
        digits_ok(r@),
        val(r@) == val(a@) * k,
        r@.len() == a@.len() + 1,
{
    let mut r: Vec<u8> = Vec::new();
    let mut carry: u8 = 0;
    let mut i: usize = 0;
    assert(a@.take(0) =~= Seq::<u8>::empty());
    assert(val(Seq::<u8>::empty()) == 0);
    assert(val(r@) == 0);
    assert(low(a@, 0) == 0);
    assert(low(a@, 0) * k == 0);
    while i < a.len()
        invariant
            digits_ok(a@),
            digits_ok(r@),
            k <= 9,
            i <= a@.len(),
            r@.len() == i,
            carry <= 9,
            val(r@) + carry * pow10(i as nat) == low(a@, i as nat) * k,
        decreases a@.len() - i,
    {
        let ai = a[i];
        assert(ai <= 9);
        assert(ai * k <= 81) by (nonlinear_arith)
            requires
                ai <= 9,
                k <= 9,
        ;
        let x = ai * k + carry;
        let d = x % 10;
        let c = x / 10;
        proof {
            lemma_val_push(r@, d);
            lemma_low_step(a@, i as nat);
            let p = pow10(i as nat);
            assert(pow10((i + 1) as nat) == 10 * p);
            let l = low(a@, i as nat);
            let v = val(r@);
            assert(v + d * p + c * (10 * p) == (l + ai * p) * k) by (nonlinear_arith)
                requires
                    v + carry * p == l * k,
                    x == 10 * c + d,
                    x == ai * k + carry,
            ;
        }
        r.push(d);
        carry = c;
        i = i + 1;
    }
    proof {
        lemma_val_push(r@, carry);
        lemma_low_all(a@, a@.len());
    }
    r.push(carry);
    r
}

/// `a * 10^k`: `k` zeros below the digits of `a`.
pub fn shift(a: &Vec<u8>, k: usize) -> (r: Vec<u8>)
    requires
        digits_ok(a@),
    ensures
        digits_ok(r@),
        val(r@) == val(a@) * pow10(k as nat),
        r@.len() == a@.len() + k,
{
    let mut r: Vec<u8> = Vec::new();
    let mut i: usize = 0;
    while i < k
        invariant
            i <= k,
            r@ == Seq::new(i as nat, |j: int| 0u8),
        decreases k - i,
    {
        r.push(0);
        i = i + 1;
        assert(r@ =~= Seq::new(i as nat, |j: int| 0u8));
    }
    let mut j: usize = 0;
    while j < a.len()
        invariant
            digits_ok(a@),
            j <= a@.len(),
            r@ == Seq::new(k as nat, |m: int| 0u8) + a@.take(j as int),
        decreases a@.len() - j,
    {
        r.push(a[j]);
        j = j + 1;
        assert(r@ =~= Seq::new(k as nat, |m: int| 0u8) + a@.take(j as int));
    }
    proof {
        assert(a@.take(j as int) =~= a@);
        lemma_val_split(r@, k as int);
        assert(r@.skip(k as int) =~= a@);
        lemma_val_zero(r@.take(k as int));
    }
    r
}

/// `a * b`.
pub fn times(a: &Vec<u8>, b: &Vec<u8>) -> (r: Vec<u8>)
    requires
        digits_ok(a@),
        digits_ok(b@),
    ensures
        digits_ok(r@),
        val(r@) == val(a@) * val(b@),
        b@.len() > 0 ==> r@.len() >= a@.len() + b@.len(),
{
    let mut acc: Vec<u8> = Vec::new();
    let mut i: usize = 0;
    assert(b@.take(0) =~= Seq::<u8>::empty());
    assert(acc@ =~= Seq::<u8>::empty());
    assert(val(Seq::<u8>::empty()) == 0);
    assert(low(b@, 0) == 0);
    assert(val(a@) * low(b@, 0) == 0);
    while i < b.len()
        invariant
            digits_ok(a@),
            digits_ok(b@),
            digits_ok(acc@),
            i <= b@.len(),
            i > 0 ==> acc@.len() >= a@.len() + i,
            val(acc@) == val(a@) * low(b@, i as nat),
        decreases b@.len() - i,
    {
        let bi = b[i];
        let part = shift(&mul_digit(a, bi), i);
        proof {
            lemma_low_step(b@, i as nat);
            let p = pow10(i as nat);
            let l = low(b@, i as nat);
            assert(val(a@) * (l + bi * p) == val(a@) * l + (val(a@) * bi) * p) by (nonlinear_arith);
        }
        acc = plus(&acc, &part);
        i = i + 1;
    }
    proof {
        lemma_low_all(b@, b@.len());
    }
    acc
}

/// Whether the value is zero.
pub fn is_zero(a: &Vec<u8>) -> (r: bool)
    ensures
        r == (val(a@) == 0),
{
    proof {
        lemma_val_zero(a@);
    }
    let mut i: usize = 0;
    while i < a.len()
        invariant
            i <= a@.len(),
            forall|j: int| 0 <= j < i ==> #[trigger] a@[j] == 0,
        decreases a@.len() - i,
    {
        if a[i] != 0 {
            proof {
                lemma_val_zero(a@);
                if val(a@) == 0 {
                    assert(a@[i as int] == 0);
                }
            }
            return false;
        }
        i = i + 1;
    }
    true
}

/// Zeros added above the top digit, up to `n` digits; the value is unchanged.
pub fn pad(a: &mut Vec<u8>, n: usize)
    requires
        digits_ok(old(a)@),
    ensures
        digits_ok(final(a)@),
        val(final(a)@) == val(old(a)@),
        final(a)@.len() >= n,
        final(a)@.len() >= old(a)@.len(),
{
    while a.len() < n
        invariant
            digits_ok(a@),
            val(a@) == val(old(a)@),
            a@.len() >= old(a)@.len(),
        decreases n - a@.len(),
    {
        proof {
            lemma_val_push(a@, 0);
        }
        a.push(0);
    }
}

/// Zero digits removed from the top while more than `n` digits remain; the
/// value is unchanged.
pub fn trim(a: &mut Vec<u8>, n: usize)
    requires
        digits_ok(old(a)@),
        old(a)@.len() >= n,
    ensures
        digits_ok(final(a)@),
        val(final(a)@) == val(old(a)@),
        final(a)@.len() >= n,
        final(a)@.len() > n ==> final(a)@.last() != 0,
{
    while a.len() > n && a[a.len() - 1] == 0
        invariant
            digits_ok(a@),
            val(a@) == val(old(a)@),
            a@.len() >= n,
        decreases a@.len(),
    {
        proof {
            lemma_val_push(a@.drop_last(), 0);
            assert(a@.drop_last().push(0) =~= a@);
        }
        a.pop();
    }
}

/// A copy of the digits.
pub fn copy(a: &Vec<u8>) -> (r: Vec<u8>)
    ensures
        r@ == a@,
{
    let mut r: Vec<u8> = Vec::new();
    let mut i: usize = 0;
    while i < a.len()
        invariant
            i <= a@.len(),
            r@ == a@.take(i as int),
        decreases a@.len() - i,
    {
        r.push(a[i]);
        i = i + 1;
        assert(r@ =~= a@.take(i as int));
    }
    assert(r@ =~= a@);
    r
}

/// Quotient and remainder of `a / d` for `d > 0`.
pub fn divmod(a: &Vec<u8>, d: &Vec<u8>) -> (r: (Vec<u8>, Vec<u8>))
    requires
        digits_ok(a@),
        digits_ok(d@),
        val(d@) > 0,
    ensures
        digits_ok(r.0@),
        digits_ok(r.1@),
        val(r.0@) == val(a@) / val(d@),
        val(r.1@) == val(a@) % val(d@),
{
    let ghost dv = val(d@);
    let mut q: Vec<u8> = Vec::new();
    let mut k: usize = 0;
    while k < a.len()
        invariant
            k <= a@.len(),
            q@.len() == k,
            forall|j: int| 0 <= j < k ==> #[trigger] q@[j] == 0,
        decreases a@.len() - k,
    {
        q.push(0);
        k = k + 1;
    }
    let mut rem: Vec<u8> = Vec::new();
    let mut i: usize = a.len();
    assert(a@.skip(i as int) =~= Seq::<u8>::empty());
    assert(q@.skip(i as int) =~= Seq::<u8>::empty());
    assert(rem@ =~= Seq::<u8>::empty());
    assert(val(Seq::<u8>::empty()) == 0);
    while i > 0
        invariant
            digits_ok(a@),
            digits_ok(d@),
            dv == val(d@),
            dv > 0,
            i <= a@.len(),
            q@.len() == a@.len(),
            digits_ok(q@),
            digits_ok(rem@),
            val(a@.skip(i as int)) == val(q@.skip(i as int)) * dv + val(rem@),
            val(rem@) < dv,
        decreases i,
    {
        let ai = a[i - 1];
        let mut next: Vec<u8> = Vec::new();
        next.push(ai);
        let mut j: usize = 0;
        while j < rem.len()
            invariant
                digits_ok(rem@),
                ai <= 9,
                j <= rem@.len(),
                next@ == seq![ai] + rem@.take(j as int),
            decreases rem@.len() - j,
        {
            next.push(rem[j]);
            j = j + 1;
            assert(next@ =~= seq![ai] + rem@.take(j as int));
        }
        assert(rem@.take(j as int) =~= rem@);
        proof {
            lemma_val_cons(ai, rem@);
            lemma_val_skip_step(a@, i - 1);
        }
        let ghost x = val(next@);
        let mut t: u8 = 0;
        loop
            invariant
                digits_ok(next@),
                digits_ok(d@),
                dv == val(d@),
                dv > 0,
                val(next@) + t * dv == x,
                x < 10 * dv,
                t <= 9,
            ensures
                digits_ok(next@),
                val(next@) + t * dv == x,
                val(next@) < dv,
                t <= 9,
            decreases val(next@),
        {
            let (diff, borrow) = sub_borrow(&next, d);
            if borrow {
                break;
            }
            assert(t + 1 <= 9) by (nonlinear_arith)
                requires
                    val(next@) >= dv,
                    val(next@) + t * dv == x,
                    x < 10 * dv,
            ;
            assert(val(diff@) + (t + 1) * dv == x) by (nonlinear_arith)
                requires
                    val(diff@) == val(next@) - dv,
                    val(next@) + t * dv == x,
            ;
            next = diff;
            t = t + 1;
        }
        let ghost q_before = q@;
        let ghost qs = val(q@.skip(i as int));
        q[i - 1] = t;
        proof {
            assert(q@.skip(i as int) =~= q_before.skip(i as int));
            assert(q@.skip(i - 1) =~= seq![t] + q@.skip(i as int));
            lemma_val_cons(t, q@.skip(i as int));
            assert(ai + 10 * (qs * dv + val(rem@)) == (t + 10 * qs) * dv + val(next@))
                by (nonlinear_arith)
                requires
                    val(next@) + t * dv == ai + 10 * val(rem@),
            ;
        }
        rem = next;
        i = i - 1;
    }
    proof {
        assert(a@.skip(0) =~= a@);
        assert(q@.skip(0) =~= q@);
        lemma_fundamental_div_mod_converse(val(a@) as int, dv as int, val(q@) as int, val(rem@) as int);
    }
    (q, rem)
}

} // verus!
