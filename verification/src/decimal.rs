//! Exact decimal numbers for monetary amounts and prices.
//!
//! A `Decimal` is a sign, an unscaled integer and a scale: its value is
//! `(-1)^negative * unscaled / 10^scale`. Amounts are never held as
//! floating point, so no rounding can occur. The wire form is the plain
//! decimal string (`-` sign, integer digits, and for a positive scale a
//! point followed by exactly `scale` fraction digits), and parsing a
//! serialized decimal gives back exactly the value serialized.

use vstd::prelude::*;
use vstd::arithmetic::div_mod::{lemma_fundamental_div_mod, lemma_div_is_ordered_by_denominator};

verus! {

/// Upper bound (exclusive) on the unscaled integer: ten to the 37th.
pub const MAX_UNSCALED: u128 = 10000000000000000000000000000000000000;

/// Largest scale the library represents.
pub const MAX_SCALE: u32 = 37;

#[derive(Clone, Copy, Debug, PartialEq, Eq, Structural)]
pub struct Decimal {
    pub negative: bool,
    pub unscaled: u128,
    pub scale: u32,
}

pub open spec fn spec_pow10(k: nat) -> nat
    decreases k,
{
    if k == 0 {
        1
    } else {
        10 * spec_pow10((k - 1) as nat)
    }
}

/// ASCII decimal digit.
pub open spec fn is_digit(b: u8) -> bool {
    0x30 <= b && b <= 0x39
}

pub open spec fn all_digits(s: Seq<u8>) -> bool {
    forall|i: int| 0 <= i < s.len() ==> is_digit(s[i])
}

/// The decimal digits of `n`, most significant first, no leading zero
/// except for `n == 0` itself.
pub open spec fn spec_digits(n: nat) -> Seq<u8>
    decreases n,
{
    if n < 10 {
        seq![(0x30 + n) as u8]
    } else {
        spec_digits(n / 10) + seq![(0x30 + n % 10) as u8]
    }
}

/// Exactly `w` digits of `n`, zero padded on the left.
pub open spec fn spec_pad_digits(n: nat, w: nat) -> Seq<u8>
    decreases w,
{
    if w == 0 {
        Seq::empty()
    } else {
        spec_pad_digits(n / 10, (w - 1) as nat) + seq![(0x30 + n % 10) as u8]
    }
}

/// The number a digit string denotes.
pub open spec fn digits_val(s: Seq<u8>) -> nat
    decreases s.len(),
{
    if s.len() == 0 {
        0
    } else {
        digits_val(s.drop_last()) * 10 + ((s.last() - 0x30) as nat)
    }
}

impl Decimal {
    pub open spec fn wf(&self) -> bool {
        self.unscaled < MAX_UNSCALED && self.scale <= MAX_SCALE
    }

    /// The signed value numerator: the value is `int_val / 10^scale`.
    pub open spec fn int_val(&self) -> int {
        if self.negative {
            -(self.unscaled as int)
        } else {
            self.unscaled as int
        }
    }

    /// The exact wire form of this decimal.
    pub open spec fn spec_ser(&self) -> Seq<u8> {
        spec_ser_dec(*self)
    }
}

pub open spec fn spec_ser_dec(d: Decimal) -> Seq<u8> {
    let sign: Seq<u8> = if d.negative {
        seq![0x2du8]
    } else {
        Seq::empty()
    };
    let p = spec_pow10(d.scale as nat);
    let ip = spec_digits((d.unscaled as nat) / p);
    let fp: Seq<u8> = if d.scale == 0 {
        Seq::empty()
    } else {
        seq![0x2eu8] + spec_pad_digits((d.unscaled as nat) % p, d.scale as nat)
    };
    sign + ip + fp
}

pub proof fn lemma_pow10_pos(k: nat)
    ensures
        spec_pow10(k) >= 1,
    decreases k,
{
    if k > 0 {
        lemma_pow10_pos((k - 1) as nat);
    }
}

pub proof fn lemma_pow10_37()
    ensures
        spec_pow10(37) == MAX_UNSCALED as nat,
{
    reveal_with_fuel(spec_pow10, 40);
    assert(spec_pow10(37) == MAX_UNSCALED as nat);
}

pub proof fn lemma_digits_wf(n: nat)
    ensures
        all_digits(spec_digits(n)),
        spec_digits(n).len() >= 1,
    decreases n,
{
    if n >= 10 {
        lemma_digits_wf(n / 10);
    }
}

pub proof fn lemma_digits_val(n: nat)
    ensures
        digits_val(spec_digits(n)) == n,
    decreases n,
{
    if n < 10 {
        assert(spec_digits(n).drop_last() =~= Seq::<u8>::empty());
        assert(spec_digits(n).last() == (0x30 + n) as u8);
        assert(((0x30 + n) as u8) as nat == 0x30 + n);
        assert(digits_val(Seq::<u8>::empty()) == 0);
        assert(digits_val(spec_digits(n)) == 0 * 10 + n);
    } else {
        lemma_digits_val(n / 10);
        assert(spec_digits(n).drop_last() =~= spec_digits(n / 10));
        assert(spec_digits(n).last() == (0x30 + n % 10) as u8);
        assert(0 <= n % 10 < 10) by {
            vstd::arithmetic::div_mod::lemma_mod_bound(n as int, 10);
        };
        assert(((0x30 + n % 10) as u8) as nat == 0x30 + n % 10);
        assert(digits_val(spec_digits(n)) == digits_val(spec_digits(n / 10)) * 10 + n % 10);
        assert(n / 10 * 10 + n % 10 == n) by {
            lemma_fundamental_div_mod(n as int, 10);
        };
    }
}

pub proof fn lemma_pad_wf(n: nat, w: nat)
    requires
        n < spec_pow10(w),
    ensures
        all_digits(spec_pad_digits(n, w)),
        spec_pad_digits(n, w).len() == w,
        digits_val(spec_pad_digits(n, w)) == n,
    decreases w,
{
    if w == 0 {
    } else {
        assert(n / 10 < spec_pow10((w - 1) as nat)) by {
            lemma_fundamental_div_mod(n as int, 10);
        };
        lemma_pad_wf(n / 10, (w - 1) as nat);
        assert(spec_pad_digits(n, w).drop_last() =~= spec_pad_digits(n / 10, (w - 1) as nat));
        assert(spec_pad_digits(n, w).last() == (0x30 + n % 10) as u8);
        lemma_fundamental_div_mod(n as int, 10);
    }
}

pub proof fn lemma_digits_val_concat(a: Seq<u8>, b: Seq<u8>)
    ensures
        digits_val(a + b) == digits_val(a) * spec_pow10(b.len()) + digits_val(b),
    decreases b.len(),
{
    if b.len() == 0 {
        assert(a + b =~= a);
        assert(digits_val(b) == 0);
        assert(spec_pow10(0) == 1);
        assert(digits_val(a) * 1 == digits_val(a));
    } else {
        let bd = b.drop_last();
        let c = (b.last() - 0x30) as nat;
        let p1 = spec_pow10((b.len() - 1) as nat);
        lemma_digits_val_concat(a, bd);
        assert((a + b).drop_last() =~= a + bd);
        assert((a + b).last() == b.last());
        assert(digits_val(a + b) == digits_val(a + bd) * 10 + c);
        assert(digits_val(b) == digits_val(bd) * 10 + c);
        assert(spec_pow10(b.len()) == 10 * p1);
        assert(digits_val(a + bd) == digits_val(a) * p1 + digits_val(bd));
        assert((digits_val(a) * p1 + digits_val(bd)) * 10 == digits_val(a) * (10 * p1) + digits_val(bd) * 10)
            by (nonlinear_arith);
        assert(digits_val(a + b) == digits_val(a) * spec_pow10(b.len()) + digits_val(b));
    }
}

/// The value of a prefix of a digit string never exceeds the value of
/// the whole string.
pub proof fn lemma_digits_val_prefix(s: Seq<u8>, k: int)
    requires
        0 <= k <= s.len(),
    ensures
        digits_val(s.subrange(0, k)) <= digits_val(s),
{
    let pre = s.subrange(0, k);
    let suf = s.subrange(k, s.len() as int);
    assert(s =~= pre + suf);
    lemma_digits_val_concat(pre, suf);
    lemma_pow10_pos(suf.len());
    assert(digits_val(pre) * spec_pow10(suf.len()) >= digits_val(pre) * 1) by (nonlinear_arith)
        requires spec_pow10(suf.len()) >= 1;
}

pub open spec fn spec_sign_len(d: Decimal) -> int {
    if d.negative {
        1int
    } else {
        0int
    }
}

/// The integer digits of the wire form.
pub open spec fn spec_int_digits(d: Decimal) -> Seq<u8> {
    spec_digits((d.unscaled as nat) / spec_pow10(d.scale as nat))
}

/// The fraction digits of the wire form (empty for scale zero).
pub open spec fn spec_frac_digits(d: Decimal) -> Seq<u8> {
    spec_pad_digits((d.unscaled as nat) % spec_pow10(d.scale as nat), d.scale as nat)
}

/// Where the decimal point stands (or the end, for scale zero).
pub open spec fn spec_dot_pos(d: Decimal) -> int {
    spec_sign_len(d) + spec_int_digits(d).len()
}

pub proof fn lemma_digits_val_push(s: Seq<u8>, b: u8)
    ensures
        digits_val(s.push(b)) == digits_val(s) * 10 + ((b - 0x30) as nat),
{
    assert(s.push(b).drop_last() =~= s);
    assert(s.push(b).last() == b);
}

/// The shape of the wire form: an optional sign, the integer digits,
/// then for a positive scale a point and exactly `scale` digits.
pub proof fn lemma_ser_structure(d: Decimal)
    requires
        d.wf(),
    ensures
        ({
            let s = spec_ser_dec(d);
            let start = spec_sign_len(d);
            let q = spec_dot_pos(d);
            let p = spec_pow10(d.scale as nat);
            &&& s.len() == q + if d.scale == 0 { 0int } else { 1 + d.scale as int }
            &&& d.negative ==> s[0] == 0x2d
            &&& 1 <= spec_int_digits(d).len()
            &&& s.subrange(start, q) == spec_int_digits(d)
            &&& forall|j: int| start <= j < q ==> is_digit(s[j])
            &&& d.scale > 0 ==> s[q] == 0x2e && s.subrange(q + 1, s.len() as int)
                == spec_frac_digits(d) && (forall|j: int| q < j < s.len() ==> is_digit(s[j]))
            &&& spec_frac_digits(d).len() == d.scale
            &&& digits_val(spec_int_digits(d)) == (d.unscaled as nat) / p
            &&& digits_val(spec_int_digits(d) + spec_frac_digits(d)) == d.unscaled
            &&& (d.unscaled as nat) / p <= (d.unscaled as nat)
        }),
{
    let s = spec_ser_dec(d);
    let start = spec_sign_len(d);
    let q = spec_dot_pos(d);
    let u = d.unscaled as nat;
    let p = spec_pow10(d.scale as nat);
    lemma_pow10_pos(d.scale as nat);
    lemma_digits_wf(u / p);
    lemma_digits_val(u / p);
    vstd::arithmetic::div_mod::lemma_mod_bound(u as int, p as int);
    assert((u % p) < spec_pow10(d.scale as nat));
    lemma_pad_wf(u % p, d.scale as nat);
    lemma_digits_val_concat(spec_int_digits(d), spec_frac_digits(d));
    assert(digits_val(spec_int_digits(d) + spec_frac_digits(d))
        == (u / p) * p + u % p) by {
        assert(spec_pow10(spec_frac_digits(d).len()) == p);
    };
    lemma_fundamental_div_mod(u as int, p as int);
    assert((u / p) * p + u % p == u) by (nonlinear_arith)
        requires u == p * (u / p) + u % p;
    assert(u / p <= u) by {
        lemma_div_is_ordered_by_denominator(u as int, 1, p as int);
        assert(u as int / 1int == u as int);
    };
    assert(s.subrange(start, q) =~= spec_int_digits(d));
    assert(forall|j: int| start <= j < q ==> is_digit(#[trigger] s[j])) by {
        assert forall|j: int| start <= j < q implies is_digit(s[j]) by {
            assert(s[j] == spec_int_digits(d)[j - start]);
        };
    };
    if d.scale > 0 {
        assert(s[q] == 0x2e);
        assert(s.subrange(q + 1, s.len() as int) =~= spec_frac_digits(d));
        assert forall|j: int| q < j < s.len() implies is_digit(s[j]) by {
            assert(s[j] == spec_frac_digits(d)[j - q - 1]);
        };
    }
}

/// The sign byte is present exactly for a negative decimal.
pub proof fn lemma_ser_sign(d: Decimal)
    requires
        d.wf(),
    ensures
        spec_ser_dec(d).len() > 0,
        (spec_ser_dec(d)[0] == 0x2d) == d.negative,
{
    lemma_ser_structure(d);
    if !d.negative {
        assert(is_digit(spec_ser_dec(d)[0]));
    }
}

/// A maximal run of digits after the sign ends exactly at the decimal
/// point (or at the end, for scale zero).
pub proof fn lemma_pos_after_digits(d: Decimal, i: int)
    requires
        d.wf(),
        spec_sign_len(d) <= i <= spec_ser_dec(d).len(),
        forall|j: int| spec_sign_len(d) <= j < i ==> is_digit(#[trigger] spec_ser_dec(d)[j]),
        i == spec_ser_dec(d).len() || !is_digit(spec_ser_dec(d)[i]),
    ensures
        i == spec_dot_pos(d),
{
    lemma_ser_structure(d);
    let s = spec_ser_dec(d);
    let q = spec_dot_pos(d);
    if i < q {
        assert(is_digit(s[i]));
        assert(i < s.len());
        assert(false);
    }
    if i > q {
        assert(is_digit(s[q]));
        if d.scale > 0 {
            assert(s[q] == 0x2e);
            assert(false);
        } else {
            assert(q == s.len());
            assert(false);
        }
    }
}

/// A maximal run of digits after the point reaches exactly the end.
pub proof fn lemma_pos_after_frac(d: Decimal, i: int)
    requires
        d.wf(),
        d.scale > 0,
        spec_dot_pos(d) + 1 <= i <= spec_ser_dec(d).len(),
        forall|j: int| spec_dot_pos(d) < j < i ==> is_digit(#[trigger] spec_ser_dec(d)[j]),
        i == spec_ser_dec(d).len() || !is_digit(spec_ser_dec(d)[i]),
    ensures
        i == spec_ser_dec(d).len(),
{
    lemma_ser_structure(d);
    let s = spec_ser_dec(d);
    if i < s.len() {
        assert(is_digit(s[i]));
        assert(false);
    }
}

fn pow10(k: u32) -> (r: u128)
    requires
        k <= MAX_SCALE,
    ensures
        r as nat == spec_pow10(k as nat),
        r >= 1,
{
    proof {
        lemma_pow10_37();
    }
    let mut i: u32 = 0;
    let mut r: u128 = 1;
    while i < k
        invariant
            i <= k,
            k <= MAX_SCALE,
            r as nat == spec_pow10(i as nat),
            spec_pow10(37) == MAX_UNSCALED as nat,
        decreases k - i,
    {
        proof {
            lemma_pow10_mono(i as nat + 1, 37);
        }
        r = r * 10;
        i = i + 1;
    }
    proof {
        lemma_pow10_pos(k as nat);
    }
    r
}

pub proof fn lemma_pow10_mono(a: nat, b: nat)
    requires
        a <= b,
    ensures
        spec_pow10(a) <= spec_pow10(b),
    decreases b,
{
    if a < b {
        lemma_pow10_mono(a, (b - 1) as nat);
        lemma_pow10_pos(a);
    }
}

fn push_digits(out: &mut Vec<u8>, n: u128)
    ensures
        final(out)@ == old(out)@ + spec_digits(n as nat),
    decreases n,
{
    if n >= 10 {
        push_digits(out, n / 10);
    }
    out.push(0x30 + (n % 10) as u8);
    proof {
        if n < 10 {
            assert(out@ =~= old(out)@ + spec_digits(n as nat));
        } else {
            assert(out@ =~= old(out)@ + (spec_digits((n / 10) as nat) + seq![(0x30 + n as nat % 10) as u8]));
        }
    }
}

fn push_pad_digits(out: &mut Vec<u8>, n: u128, w: u32)
    requires
        (n as nat) < spec_pow10(w as nat),
    ensures
        final(out)@ == old(out)@ + spec_pad_digits(n as nat, w as nat),
    decreases w,
{
    if w == 0 {
        proof {
            assert(out@ =~= old(out)@ + spec_pad_digits(n as nat, 0));
        }
        return;
    }
    proof {
        assert(((n / 10) as nat) < spec_pow10((w - 1) as nat)) by {
            lemma_fundamental_div_mod(n as int, 10);
        };
    }
    push_pad_digits(out, n / 10, w - 1);
    out.push(0x30 + (n % 10) as u8);
    proof {
        assert(out@ =~= old(out)@ + (spec_pad_digits((n / 10) as nat, (w - 1) as nat) + seq![(0x30 + n as nat % 10) as u8]));
    }
}

impl Decimal {
    /// Serializes this decimal into its exact wire form.
    pub fn to_bytes(&self) -> (r: Vec<u8>)
        requires
            self.wf(),
        ensures
            r@ == self.spec_ser(),
    {
        let mut out: Vec<u8> = Vec::new();
        if self.negative {
            out.push(0x2d);
        }
        let p = pow10(self.scale);
        push_digits(&mut out, self.unscaled / p);
        if self.scale > 0 {
            out.push(0x2e);
            proof {
                vstd::arithmetic::div_mod::lemma_mod_bound(self.unscaled as int, p as int);
            }
            push_pad_digits(&mut out, self.unscaled % p, self.scale);
        }
        proof {
            assert(out@ =~= self.spec_ser());
        }
        out
    }
}

impl Decimal {
    /// Parses the wire form of a decimal. Rejects anything but an
    /// optional `-` sign, at least one integer digit, and optionally a
    /// point followed by at least one fraction digit, within the
    /// library's size bounds. Parsing is exact: the wire form of any
    /// well-formed decimal parses back to exactly that decimal, so
    /// `"0.00001"` yields the value one of scale five, never an
    /// approximation.
    pub fn from_bytes(s: &Vec<u8>) -> (r: Option<Decimal>)
        ensures
            r matches Some(d) ==> d.wf(),
            forall|d: Decimal| d.wf() && s@ == spec_ser_dec(d) ==> r == Some(d),
    {
        let n = s.len();
        if n == 0 {
            proof {
                assert forall|d: Decimal| d.wf() && s@ == spec_ser_dec(d) implies false by {
                    lemma_ser_sign(d);
                };
            }
            return None;
        }
        let mut i: usize = 0;
        let mut neg = false;
        if s[0] == 0x2d {
            neg = true;
            i = 1;
        }
        let start: usize = i;
        proof {
            assert forall|d: Decimal| d.wf() && s@ == spec_ser_dec(d) implies neg == d.negative
                && start as int == spec_sign_len(d) by {
                lemma_ser_sign(d);
            };
        }
        let mut acc: u128 = 0;
        while i < n && 0x30 <= s[i] && s[i] <= 0x39
            invariant
                n == s@.len(),
                start <= i <= n,
                acc < MAX_UNSCALED,
                acc as nat == digits_val(s@.subrange(start as int, i as int)),
                forall|j: int| start <= j < i ==> is_digit(#[trigger] s@[j]),
                forall|d: Decimal| d.wf() && s@ == spec_ser_dec(d) ==> neg == d.negative
                    && start as int == spec_sign_len(d),
            decreases n - i,
        {
            let dg = s[i] - 0x30;
            proof {
                assert forall|d: Decimal| d.wf() && s@ == spec_ser_dec(d) implies
                    acc * 10 + dg < MAX_UNSCALED by {
                    lemma_ser_structure(d);
                    lemma_pos_in_int_run(d, i as int);
                    let ip = spec_int_digits(d);
                    let q = spec_dot_pos(d);
                    assert(s@.subrange(start as int, i + 1) =~= ip.subrange(0, i + 1 - start));
                    lemma_digits_val_push(s@.subrange(start as int, i as int), s@[i as int]);
                    assert(s@.subrange(start as int, i + 1) =~= s@.subrange(start as int, i as int).push(s@[i as int]));
                    lemma_digits_val_prefix(ip, i + 1 - start);
                    assert(digits_val(s@.subrange(start as int, i + 1)) == acc * 10 + dg);
                    assert(acc * 10 + dg <= (d.unscaled as nat) / spec_pow10(d.scale as nat));
                };
            }
            if acc > (MAX_UNSCALED - 1 - dg as u128) / 10 {
                proof {
                    let y = (MAX_UNSCALED - 1 - dg) as int;
                    lemma_fundamental_div_mod(y, 10);
                    vstd::arithmetic::div_mod::lemma_mod_bound(y, 10);
                    assert(acc * 10 + dg >= MAX_UNSCALED);
                }
                return None;
            }
            proof {
                let y = (MAX_UNSCALED - 1 - dg) as int;
                lemma_fundamental_div_mod(y, 10);
                vstd::arithmetic::div_mod::lemma_mod_bound(y, 10);
                assert(acc * 10 + dg < MAX_UNSCALED);
                lemma_digits_val_push(s@.subrange(start as int, i as int), s@[i as int]);
                assert(s@.subrange(start as int, i + 1) =~= s@.subrange(start as int, i as int).push(s@[i as int]));
            }
            acc = acc * 10 + dg as u128;
            i = i + 1;
        }
        if i == start {
            proof {
                assert forall|d: Decimal| d.wf() && s@ == spec_ser_dec(d) implies false by {
                    lemma_ser_structure(d);
                    assert(is_digit(s@[start as int]));
                };
            }
            return None;
        }
        proof {
            assert forall|d: Decimal| d.wf() && s@ == spec_ser_dec(d) implies i as int == spec_dot_pos(d)
                && acc == d.unscaled as nat / spec_pow10(d.scale as nat) by {
                lemma_ser_structure(d);
                lemma_pos_after_digits(d, i as int);
                assert(s@.subrange(start as int, i as int) == spec_int_digits(d));
            };
        }
        if i == n {
            let out = Decimal { negative: neg, unscaled: acc, scale: 0 };
            proof {
                assert forall|d: Decimal| d.wf() && s@ == spec_ser_dec(d) implies out == d by {
                    lemma_ser_structure(d);
                    if d.scale > 0 {
                        assert(s@.len() > spec_dot_pos(d));
                        assert(false);
                    }
                    assert(spec_pow10(0) == 1);
                    assert(d.unscaled as int / 1int == d.unscaled as int);
                };
            }
            return Some(out);
        }
        if s[i] != 0x2e {
            proof {
                assert forall|d: Decimal| d.wf() && s@ == spec_ser_dec(d) implies false by {
                    lemma_ser_structure(d);
                    if d.scale == 0 {
                        assert(s@.len() == spec_dot_pos(d));
                    } else {
                        assert(s@[spec_dot_pos(d)] == 0x2e);
                    }
                };
            }
            return None;
        }
        let dot: usize = i;
        i = i + 1;
        let mut sc: u32 = 0;
        while i < n && 0x30 <= s[i] && s[i] <= 0x39
            invariant
                n == s@.len(),
                start <= dot < i <= n,
                s@[dot as int] == 0x2e,
                acc < MAX_UNSCALED,
                sc <= MAX_SCALE,
                sc as int == i - dot - 1,
                acc as nat == digits_val(
                    s@.subrange(start as int, dot as int) + s@.subrange(dot + 1, i as int)),
                forall|j: int| start <= j < dot ==> is_digit(#[trigger] s@[j]),
                forall|j: int| dot < j < i ==> is_digit(#[trigger] s@[j]),
                forall|d: Decimal| d.wf() && s@ == spec_ser_dec(d) ==> neg == d.negative
                    && start as int == spec_sign_len(d) && dot as int == spec_dot_pos(d),
            decreases n - i,
        {
            let dg = s[i] - 0x30;
            proof {
                assert forall|d: Decimal| d.wf() && s@ == spec_ser_dec(d) implies
                    acc * 10 + dg < MAX_UNSCALED && sc < MAX_SCALE by {
                    lemma_ser_structure(d);
                    let q = spec_dot_pos(d);
                    let whole = spec_int_digits(d) + spec_frac_digits(d);
                    assert(d.scale > 0);
                    assert(i < s@.len());
                    assert(i - dot - 1 < d.scale as int);
                    assert(sc < MAX_SCALE);
                    assert(s@.subrange(start as int, dot as int) == spec_int_digits(d));
                    assert(s@.subrange(dot + 1, i + 1) =~= spec_frac_digits(d).subrange(0, i - dot));
                    assert(s@.subrange(start as int, dot as int) + s@.subrange(dot + 1, i + 1)
                        =~= whole.subrange(0, spec_int_digits(d).len() + i - dot));
                    lemma_digits_val_push(
                        s@.subrange(start as int, dot as int) + s@.subrange(dot + 1, i as int),
                        s@[i as int]);
                    assert((s@.subrange(start as int, dot as int) + s@.subrange(dot + 1, i as int)).push(s@[i as int])
                        =~= s@.subrange(start as int, dot as int) + s@.subrange(dot + 1, i + 1));
                    lemma_digits_val_prefix(whole, spec_int_digits(d).len() + i - dot);
                    assert(acc * 10 + dg <= d.unscaled as nat);
                };
            }
            if sc >= MAX_SCALE {
                return None;
            }
            if acc > (MAX_UNSCALED - 1 - dg as u128) / 10 {
                proof {
                    let y = (MAX_UNSCALED - 1 - dg) as int;
                    lemma_fundamental_div_mod(y, 10);
                    vstd::arithmetic::div_mod::lemma_mod_bound(y, 10);
                    assert(acc * 10 + dg >= MAX_UNSCALED);
                }
                return None;
            }
            proof {
                let y = (MAX_UNSCALED - 1 - dg) as int;
                lemma_fundamental_div_mod(y, 10);
                vstd::arithmetic::div_mod::lemma_mod_bound(y, 10);
                assert(acc * 10 + dg < MAX_UNSCALED);
                lemma_digits_val_push(
                    s@.subrange(start as int, dot as int) + s@.subrange(dot + 1, i as int),
                    s@[i as int]);
                assert((s@.subrange(start as int, dot as int) + s@.subrange(dot + 1, i as int)).push(s@[i as int])
                    =~= s@.subrange(start as int, dot as int) + s@.subrange(dot + 1, i + 1));
            }
            acc = acc * 10 + dg as u128;
            sc = sc + 1;
            i = i + 1;
        }
        if i == dot + 1 {
            proof {
                assert forall|d: Decimal| d.wf() && s@ == spec_ser_dec(d) implies false by {
                    lemma_ser_structure(d);
                    assert(d.scale > 0);
                    assert(is_digit(s@[dot + 1]));
                };
            }
            return None;
        }
        if i != n {
            proof {
                assert forall|d: Decimal| d.wf() && s@ == spec_ser_dec(d) implies false by {
                    lemma_ser_structure(d);
                    assert(d.scale > 0);
                    lemma_pos_after_frac(d, i as int);
                };
            }
            return None;
        }
        let out = Decimal { negative: neg, unscaled: acc, scale: sc };
        proof {
            assert forall|d: Decimal| d.wf() && s@ == spec_ser_dec(d) implies out == d by {
                lemma_ser_structure(d);
                assert(d.scale > 0);
                lemma_pos_after_frac(d, i as int);
                assert(sc == d.scale);
                assert(s@.subrange(start as int, dot as int) == spec_int_digits(d));
                assert(s@.subrange(dot + 1, i as int) =~= spec_frac_digits(d));
                assert(acc as nat == digits_val(spec_int_digits(d) + spec_frac_digits(d)));
            };
        }
        Some(out)
    }
}

/// The whole-number decimal with a given signed value.
pub open spec fn spec_dec_of_i64(v: int) -> Decimal {
    Decimal {
        negative: v < 0,
        unscaled: (if v < 0 {
            -v
        } else {
            v
        }) as u128,
        scale: 0u32,
    }
}

impl Decimal {
    /// A whole number, from an unsigned integer.
    pub fn from_u64(v: u64) -> (d: Decimal)
        ensures
            d.wf(),
            d == (Decimal { negative: false, unscaled: v as u128, scale: 0u32 }),
    {
        Decimal { negative: false, unscaled: v as u128, scale: 0 }
    }

    /// A whole number, from a signed integer.
    pub fn from_i64(v: i64) -> (d: Decimal)
        ensures
            d.wf(),
            d == spec_dec_of_i64(v as int),
            d.int_val() == v as int,
    {
        if v < 0 {
            let mag: u128 = (-(v as i128)) as u128;
            Decimal { negative: true, unscaled: mag, scale: 0 }
        } else {
            Decimal { negative: false, unscaled: v as u128, scale: 0 }
        }
    }

    /// The value as a signed integer, for whole numbers that fit.
    pub fn to_i64(&self) -> (r: Option<i64>)
        ensures
            match r {
                Some(x) => self.scale == 0 && x as int == self.int_val(),
                None => self.scale != 0 || self.int_val() < i64::MIN || self.int_val() > i64::MAX,
            },
    {
        if self.scale != 0 {
            return None;
        }
        if !self.negative {
            if self.unscaled <= i64::MAX as u128 {
                Some(self.unscaled as i64)
            } else {
                None
            }
        } else {
            if self.unscaled <= i64::MAX as u128 {
                Some(-(self.unscaled as i64))
            } else if self.unscaled == (i64::MAX as u128) + 1 {
                Some(i64::MIN)
            } else {
                None
            }
        }
    }
}

/// Within the integer-digit run, the scan position is strictly before
/// the decimal point.
pub proof fn lemma_pos_in_int_run(d: Decimal, i: int)
    requires
        d.wf(),
        spec_sign_len(d) <= i < spec_ser_dec(d).len(),
        forall|j: int| spec_sign_len(d) <= j < i ==> is_digit(#[trigger] spec_ser_dec(d)[j]),
        is_digit(spec_ser_dec(d)[i]),
    ensures
        i < spec_dot_pos(d),
        spec_ser_dec(d).subrange(spec_sign_len(d), i) == spec_int_digits(d).subrange(0, i - spec_sign_len(d)),
{
    lemma_ser_structure(d);
    let s = spec_ser_dec(d);
    let q = spec_dot_pos(d);
    if i >= q {
        assert(is_digit(s[q]));
        if d.scale > 0 {
            assert(s[q] == 0x2e);
            assert(false);
        } else {
            assert(q == s.len());
            assert(false);
        }
    }
    assert(s.subrange(spec_sign_len(d), i) =~= spec_int_digits(d).subrange(0, i - spec_sign_len(d)));
}

} // verus!

verus! {

/// The wire form determines the decimal: no two well-formed decimals
/// share a serialization.
pub proof fn lemma_ser_dec_injective(d1: Decimal, d2: Decimal)
    requires
        d1.wf(),
        d2.wf(),
        spec_ser_dec(d1) == spec_ser_dec(d2),
    ensures
        d1 == d2,
{
    lemma_ser_structure(d1);
    lemma_ser_structure(d2);
    lemma_ser_sign(d1);
    lemma_ser_sign(d2);
    let s = spec_ser_dec(d1);
    assert(d1.negative == d2.negative);
    assert(spec_sign_len(d1) == spec_sign_len(d2));
    let q1 = spec_dot_pos(d1);
    assert forall|j: int| spec_sign_len(d2) <= j < q1 implies is_digit(#[trigger] s[j]) by {};
    if q1 < s.len() {
        assert(d1.scale > 0);
        assert(s[q1] == 0x2e);
        assert(!is_digit(s[q1]));
    }
    lemma_pos_after_digits(d2, q1);
    assert(q1 == spec_dot_pos(d2));
    if q1 == s.len() {
        assert(d1.scale == 0 && d2.scale == 0);
    } else {
        assert(d1.scale > 0 && d2.scale > 0);
        assert(s.len() == q1 + 1 + d1.scale as int);
        assert(s.len() == q1 + 1 + d2.scale as int);
    }
    assert(d1.scale == d2.scale);
    assert(s.subrange(spec_sign_len(d1), q1) == spec_int_digits(d1));
    assert(s.subrange(spec_sign_len(d2), q1) == spec_int_digits(d2));
    if d1.scale > 0 {
        assert(s.subrange(q1 + 1, s.len() as int) == spec_frac_digits(d1));
        assert(s.subrange(q1 + 1, s.len() as int) == spec_frac_digits(d2));
    } else {
        assert(spec_frac_digits(d1) =~= spec_frac_digits(d2));
    }
    assert(spec_int_digits(d1) + spec_frac_digits(d1)
        == spec_int_digits(d2) + spec_frac_digits(d2));
    assert(d1.unscaled == d2.unscaled);
}

/// The decimal a byte string denotes, when it is the exact wire form
/// of a well-formed decimal; `None` otherwise.
pub open spec fn spec_dec_of_str(s: Seq<u8>) -> Option<Decimal> {
    if exists|d: Decimal| d.wf() && spec_ser_dec(d) == s {
        Some(choose|d: Decimal| d.wf() && spec_ser_dec(d) == s)
    } else {
        None
    }
}

impl Decimal {
    /// Parses a byte string that must be the exact wire form of a
    /// decimal (as the exchange writes string-typed monetary fields):
    /// anything else, a non-canonical spelling included, is rejected.
    pub fn from_canonical_bytes(s: &Vec<u8>) -> (r: Option<Decimal>)
        ensures
            r == spec_dec_of_str(s@),
            r matches Some(d) ==> d.wf() && spec_ser_dec(d) == s@,
    {
        match Decimal::from_bytes(s) {
            Some(d) => {
                let back = d.to_bytes();
                if crate::bytes::bytes_eq(&back, s) {
                    proof {
                        assert(spec_ser_dec(d) == s@);
                        let c = choose|x: Decimal| x.wf() && spec_ser_dec(x) == s@;
                        lemma_ser_dec_injective(d, c);
                    }
                    Some(d)
                } else {
                    proof {
                        if exists|x: Decimal| x.wf() && spec_ser_dec(x) == s@ {
                            let c = choose|x: Decimal| x.wf() && spec_ser_dec(x) == s@;
                            assert(s@ == spec_ser_dec(c));
                            assert(Some(d) == Some(c));
                            assert(back@ == s@);
                        }
                    }
                    None
                }
            },
            None => {
                proof {
                    if exists|x: Decimal| x.wf() && spec_ser_dec(x) == s@ {
                        let c = choose|x: Decimal| x.wf() && spec_ser_dec(x) == s@;
                        assert(s@ == spec_ser_dec(c));
                        assert(false);
                    }
                }
                None
            },
        }
    }
}

} // verus!

verus! {

/// A byte that can stand in a number token.
pub open spec fn is_num_byte(b: u8) -> bool {
    b == 0x2d || b == 0x2e || is_digit(b)
}

/// The wire form of a decimal is a nonempty run of number bytes
/// beginning with a sign or digit.
pub proof fn lemma_ser_dec_shape(d: Decimal)
    requires
        d.wf(),
    ensures
        spec_ser_dec(d).len() >= 1,
        forall|j: int| 0 <= j < spec_ser_dec(d).len() ==> is_num_byte(#[trigger] spec_ser_dec(d)[j]),
        spec_ser_dec(d)[0] == 0x2d || is_digit(spec_ser_dec(d)[0]),
{
    lemma_ser_structure(d);
    lemma_ser_sign(d);
    let s = spec_ser_dec(d);
    let start = spec_sign_len(d);
    let q = spec_dot_pos(d);
    assert forall|j: int| 0 <= j < s.len() implies is_num_byte(#[trigger] s[j]) by {
        if j < start {
            assert(s[0] == 0x2d);
        } else if j < q {
            assert(is_digit(s[j]));
        } else if j == q && d.scale > 0 {
            assert(s[j] == 0x2e);
        } else {
            assert(d.scale > 0);
            assert(is_digit(s[j]));
        }
    };
    if !d.negative {
        assert(is_digit(s[0]));
    }
}

} // verus!
