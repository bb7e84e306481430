use vstd::prelude::*;
use crate::text::{digit_char, digit_value, exec_digit_char, exec_digit_value, is_digit, nat_text, push_char, push_nat};

verus! {

/// An exact non-negative decimal number: `mantissa / 10^scale`.
///
/// Probe figures such as `4.752` are kept as they were written, so that
/// reading and printing them loses nothing.
#[derive(Clone, Copy, Debug, PartialEq, Eq, Structural)]
pub struct Decimal {
    pub mantissa: u64,
    pub scale: usize,
}

impl Decimal {
    /// A whole number.
    pub fn whole(n: u64) -> (d: Decimal)
        ensures
            d.mantissa == n,
            d.scale == 0,
    {
        Decimal { mantissa: n, scale: 0 }
    }

    /// Is this number zero.
    pub fn is_zero(&self) -> (r: bool)
        ensures
            r == (self.mantissa == 0),
    {
        self.mantissa == 0
    }

    /// The text of this number with no exponent, no trailing zeros after the
    /// point, and no point when nothing follows it (`4.752`, `100`, `0`).
    pub fn to_text(&self) -> (r: String)
        ensures
            r@ == decimal_text(self.mantissa as nat, self.scale as nat),
    {
        let mut out = String::new();
        push_decimal(&mut out, *self);
        out
    }
}

/// The number of `.` in `t`.
pub open spec fn dot_count(t: Seq<char>) -> nat
    decreases t.len(),
{
    if t.len() == 0 {
        0
    } else {
        dot_count(t.drop_last()) + if t.last() == '.' { 1nat } else { 0nat }
    }
}

/// The value of the digits of `t` read as one whole number, the point ignored.
pub open spec fn digits_value(t: Seq<char>) -> nat
    decreases t.len(),
{
    if t.len() == 0 {
        0
    } else if t.last() == '.' {
        digits_value(t.drop_last())
    } else {
        digits_value(t.drop_last()) * 10 + digit_value(t.last())
    }
}

/// The number of digits after the point in `t` (0 when it has none).
pub open spec fn frac_len(t: Seq<char>) -> nat
    decreases t.len(),
{
    if t.len() == 0 {
        0
    } else if t.last() == '.' {
        0
    } else if dot_count(t.drop_last()) > 0 {
        frac_len(t.drop_last()) + 1
    } else {
        0
    }
}

/// Is every character of `t` a digit or a point.
pub open spec fn is_number_run(t: Seq<char>) -> bool {
    forall|i: int| 0 <= i < t.len() ==> is_digit(#[trigger] t[i]) || t[i] == '.'
}

/// The length of the longest start of `t` whose digits fit in 64 bits.
pub open spec fn fit_len(t: Seq<char>) -> nat
    decreases t.len(),
{
    if t.len() == 0 || digits_value(t) <= u64::MAX {
        t.len()
    } else {
        fit_len(t.drop_last())
    }
}

/// What a run of digits and points reads as: `(mantissa, scale)` when it has
/// at most one point and at least one digit (`4.752`, `5.`, `.5`, `12`).
/// Digits of the fraction beyond what 64 bits hold are dropped, so that
/// `4.7520000000000000000000` reads as about 4.752, truncated after 19 or 20
/// significant digits; a whole part that does not fit in 64 bits reads as
/// nothing, as does a run that is not a number.
pub open spec fn decimal_of(t: Seq<char>) -> Option<(nat, nat)> {
    if dot_count(t) <= 1 && dot_count(t) < t.len() {
        let p = t.take(fit_len(t) as int);
        if fit_len(t) == t.len() || dot_count(p) == 1 {
            Some((digits_value(p), frac_len(p)))
        } else {
            None
        }
    } else {
        None
    }
}

/// Reading more digits never makes the value smaller.
pub proof fn lemma_digits_value_grows(t: Seq<char>, k: int)
    requires
        0 <= k <= t.len(),
    ensures
        digits_value(t) >= digits_value(t.take(k)),
    decreases t.len(),
{
    if k < t.len() {
        lemma_digits_value_grows(t.drop_last(), k);
        assert(t.drop_last().take(k) =~= t.take(k));
    } else {
        assert(t.take(k) =~= t);
    }
}

/// The start that `fit_len` keeps fits, and one character more does not.
pub proof fn lemma_fit_len(t: Seq<char>)
    ensures
        fit_len(t) <= t.len(),
        digits_value(t.take(fit_len(t) as int)) <= u64::MAX,
        fit_len(t) < t.len() ==> digits_value(t.take(fit_len(t) as int + 1)) > u64::MAX,
    decreases t.len(),
{
    if t.len() == 0 || digits_value(t) <= u64::MAX {
        assert(t.take(t.len() as int) =~= t);
    } else {
        let d = t.drop_last();
        lemma_fit_len(d);
        assert(d.take(fit_len(d) as int) =~= t.take(fit_len(d) as int));
        if fit_len(d) < d.len() {
            assert(d.take(fit_len(d) as int + 1) =~= t.take(fit_len(d) as int + 1));
        } else {
            assert(t.take(fit_len(d) as int + 1) =~= t);
        }
    }
}

/// `(m, e)` with the zeros that end the fraction removed.
pub open spec fn strip_zeros(m: nat, e: nat) -> (nat, nat)
    decreases e,
{
    if e > 0 && m % 10 == 0 {
        strip_zeros(m / 10, (e - 1) as nat)
    } else {
        (m, e)
    }
}

/// `m / 10^e`.
pub open spec fn int_part(m: nat, e: nat) -> nat
    decreases e,
{
    if e == 0 {
        m
    } else {
        int_part(m / 10, (e - 1) as nat)
    }
}

/// The last `e` digits of `m`, padded with leading zeros.
pub open spec fn frac_digits(m: nat, e: nat) -> Seq<char>
    decreases e,
{
    if e == 0 {
        seq![]
    } else {
        frac_digits(m / 10, (e - 1) as nat).push(digit_char(m))
    }
}

/// The text of `m / 10^e`, as printed by [`Decimal::to_text`].
pub open spec fn decimal_text(m: nat, e: nat) -> Seq<char> {
    let (m2, e2) = strip_zeros(m, e);
    if e2 == 0 {
        nat_text(m2)
    } else {
        nat_text(int_part(m2, e2)) + seq!['.'] + frac_digits(m2, e2)
    }
}

/// `s` back to front.
pub open spec fn reversed(s: Seq<char>) -> Seq<char> {
    Seq::new(s.len(), |i: int| s[s.len() - 1 - i])
}

/// Reads `s[start..end]`, a run of digits and points, as a decimal.
pub fn parse_decimal(s: &Vec<char>, start: usize, end: usize) -> (r: Option<Decimal>)
    requires
        start <= end <= s@.len(),
        is_number_run(s@.subrange(start as int, end as int)),
    ensures
        match decimal_of(s@.subrange(start as int, end as int)) {
            None => r is None,
            Some((m, e)) => r == Some(Decimal { mantissa: m as u64, scale: e as usize }),
        },
{
    let mut dots: usize = 0;
    let mut frac: usize = 0;
    let mut val: u64 = 0;
    // Once a digit no longer fits, the digits read so far are kept.
    let mut full = false;
    let mut dots_kept: usize = 0;
    let ghost mut kept: int = 0;
    let mut i = start;
    while i < end
        invariant
            start <= i <= end <= s@.len(),
            is_number_run(s@.subrange(start as int, end as int)),
            dots == dot_count(s@.subrange(start as int, i as int)),
            dots <= i - start,
            frac <= i - start,
            !full ==> val == digits_value(s@.subrange(start as int, i as int)),
            !full ==> frac == frac_len(s@.subrange(start as int, i as int)),
            !full ==> fit_len(s@.subrange(start as int, i as int)) == i - start,
            full ==> 0 <= kept < i - start,
            full ==> digits_value(s@.subrange(start as int, i as int)) > u64::MAX,
            full ==> fit_len(s@.subrange(start as int, i as int)) == kept,
            full ==> val == digits_value(s@.subrange(start as int, i as int).take(kept)),
            full ==> frac == frac_len(s@.subrange(start as int, i as int).take(kept)),
            full ==> dots_kept == dot_count(s@.subrange(start as int, i as int).take(kept)),
            full ==> dots_kept <= dots,
        decreases end - i,
    {
        let ghost p = s@.subrange(start as int, i as int);
        let c = s[i];
        let ghost q = s@.subrange(start as int, i + 1);
        assert(q =~= p.push(c));
        assert(p.push(c).drop_last() =~= p);
        assert(c == s@.subrange(start as int, end as int)[i - start]);
        if full {
            if c == '.' {
                dots = dots + 1;
            } else {
                assert(digits_value(p) * 10 + digit_value(c) >= digits_value(p)) by (nonlinear_arith);
            }
            assert(q.take(kept) =~= p.take(kept));
        } else if c == '.' {
            dots = dots + 1;
            frac = 0;
        } else {
            let d = exec_digit_value(c);
            if val > (u64::MAX - d) / 10 {
                assert(val * 10 + d > u64::MAX) by (nonlinear_arith)
                    requires val > (u64::MAX - d) / 10, d < 10;
                full = true;
                dots_kept = dots;
                proof {
                    kept = i - start;
                }
                assert(q.take(kept) =~= p);
            } else {
                assert(val * 10 + d <= u64::MAX) by (nonlinear_arith)
                    requires val <= (u64::MAX - d) / 10, d < 10;
                val = val * 10 + d;
                if dots > 0 {
                    frac = frac + 1;
                } else {
                    frac = 0;
                }
            }
        }
        i = i + 1;
    }
    if dots > 1 || dots == end - start {
        None
    } else if full && dots_kept == 0 {
        None
    } else {
        assert(!full ==> s@.subrange(start as int, end as int).take((end - start) as int)
            =~= s@.subrange(start as int, end as int));
        Some(Decimal { mantissa: val, scale: frac })
    }
}

/// Appends the text of `d`.
pub fn push_decimal(out: &mut String, d: Decimal)
    ensures
        final(out)@ == old(out)@ + decimal_text(d.mantissa as nat, d.scale as nat),
{
    let mut m = d.mantissa;
    let mut e = d.scale;
    while e > 0 && m % 10 == 0
        invariant
            strip_zeros(d.mantissa as nat, d.scale as nat) == strip_zeros(m as nat, e as nat),
        decreases e,
    {
        m = m / 10;
        e = e - 1;
    }
    assert(strip_zeros(d.mantissa as nat, d.scale as nat) == (m as nat, e as nat));
    if e == 0 {
        push_nat(out, m);
    } else {
        let mut rev: Vec<char> = Vec::new();
        let mut cur = m;
        let mut k: usize = 0;
        while k < e
            invariant
                k <= e,
                rev@.len() == k,
                frac_digits(m as nat, e as nat) == frac_digits(cur as nat, (e - k) as nat) + reversed(rev@),
                int_part(m as nat, e as nat) == int_part(cur as nat, (e - k) as nat),
            decreases e - k,
        {
            let ghost before = rev@;
            let c = exec_digit_char(cur);
            rev.push(c);
            assert(reversed(rev@) =~= seq![c] + reversed(before));
            assert(frac_digits(cur as nat, (e - k) as nat) == frac_digits((cur / 10) as nat, (e - k - 1) as nat).push(c));
            assert(frac_digits((cur / 10) as nat, (e - k - 1) as nat) + reversed(rev@)
                =~= frac_digits(cur as nat, (e - k) as nat) + reversed(before));
            cur = cur / 10;
            k = k + 1;
        }
        assert(frac_digits(m as nat, e as nat) =~= reversed(rev@));
        let ghost start = out@;
        push_nat(out, cur);
        push_char(out, '.');
        let ghost head = out@;
        let mut j = rev.len();
        while j > 0
            invariant
                j <= rev@.len(),
                out@ == head + reversed(rev@).take((rev@.len() - j) as int),
            decreases j,
        {
            j = j - 1;
            push_char(out, rev[j]);
            assert(reversed(rev@).take((rev@.len() - j) as int) =~= reversed(rev@).take((rev@.len() - j - 1) as int).push(rev@[j as int]));
        }
        assert(reversed(rev@).take(rev@.len() as int) =~= reversed(rev@));
        assert(out@ =~= start + decimal_text(d.mantissa as nat, d.scale as nat));
    }
}

} // verus!
