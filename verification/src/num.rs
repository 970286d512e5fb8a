//! Strict base-10 numeric parsing.
//!
//! Wire fields that carry fractional values (`21.6802`, `1.03`, `061.7`) are
//! decoded into [`Decimal`], an exact scaled integer: the value is
//! `scaled / 10^scale`, negated when `negative` is set.  Nothing is rounded;
//! a field whose digits cannot be held exactly in a `u64` is rejected.

use vstd::prelude::*;

verus! {

/// An exact decimal number: `scaled / 10^scale`, negated when `negative`.
///
/// `"21.6802"` decodes to `{ negative: false, scaled: 216802, scale: 4 }`.
#[derive(Debug, Clone, Copy, PartialEq, Eq, Structural)]
pub struct Decimal {
    pub negative: bool,
    pub scaled: u64,
    pub scale: u32,
}

/// Whether `b` is an ASCII decimal digit.
pub open spec fn is_digit(b: u8) -> bool {
    48 <= b <= 57
}

/// Whether every byte of `s` is an ASCII decimal digit.
pub open spec fn all_digits(s: Seq<u8>) -> bool {
    forall|i: int| 0 <= i < s.len() ==> is_digit(#[trigger] s[i])
}

/// `10^n` (1 for non-positive `n`).
pub open spec fn pow10(n: int) -> int
    decreases n,
{
    if n <= 0 {
        1
    } else {
        10 * pow10(n - 1)
    }
}

/// Folds the digits of `s` onto `acc` in base 10: feeding `"123"` to an
/// accumulator `a` yields `a*1000 + 123`.
pub open spec fn fold_val(acc: int, s: Seq<u8>) -> int
    decreases s.len(),
{
    if s.len() == 0 {
        acc
    } else {
        fold_val(acc, s.drop_last()) * 10 + (s.last() - 48)
    }
}

/// The value of a digit string, most significant digit first.
pub open spec fn digits_val(s: Seq<u8>) -> int {
    fold_val(0, s)
}

/// The first index at or after `i` where `s` holds `b`, or `s.len()`.
pub open spec fn find_byte(s: Seq<u8>, b: u8, i: int) -> int
    decreases s.len() - i,
{
    if i < 0 || i >= s.len() {
        s.len() as int
    } else if s[i] == b {
        i
    } else {
        find_byte(s, b, i + 1)
    }
}

pub proof fn lemma_find_byte_bounds(s: Seq<u8>, b: u8, i: int)
    requires
        0 <= i <= s.len(),
    ensures
        i <= find_byte(s, b, i) <= s.len(),
        find_byte(s, b, i) < s.len() ==> s[find_byte(s, b, i)] == b,
        forall|j: int| i <= j < find_byte(s, b, i) ==> s[j] != b,
    decreases s.len() - i,
{
    if i < s.len() && s[i] != b {
        lemma_find_byte_bounds(s, b, i + 1);
    }
}

/// Pins `find_byte` down from a scan: if nothing in `[i, k)` is `b` and
/// either `k` is the end or `s[k] == b`, the search from `i` lands on `k`.
pub proof fn lemma_find_byte_from(s: Seq<u8>, b: u8, i: int, k: int)
    requires
        0 <= i <= k <= s.len(),
        forall|j: int| i <= j < k ==> s[j] != b,
        k < s.len() ==> s[k] == b,
    ensures
        find_byte(s, b, i) == k,
    decreases k - i,
{
    if i < k {
        lemma_find_byte_from(s, b, i + 1, k);
    }
}

pub proof fn lemma_fold_val_push(acc: int, s: Seq<u8>, d: u8)
    ensures
        fold_val(acc, s.push(d)) == fold_val(acc, s) * 10 + (d - 48),
{
    assert(s.push(d).drop_last() =~= s);
    assert(s.push(d).last() == d);
}

pub proof fn lemma_fold_val_take_le(acc: int, s: Seq<u8>, i: int)
    requires
        0 <= i <= s.len(),
        all_digits(s),
        acc >= 0,
    ensures
        0 <= fold_val(acc, s.take(i)) <= fold_val(acc, s),
    decreases s.len(),
{
    if s.len() == 0 {
        assert(s.take(i) =~= s);
    } else if i == s.len() {
        assert(s.take(i) =~= s);
        lemma_fold_val_take_le(acc, s.drop_last(), s.len() - 1);
        assert(s.drop_last().take(s.len() - 1) =~= s.drop_last());
    } else {
        assert(all_digits(s.drop_last()));
        lemma_fold_val_take_le(acc, s.drop_last(), i);
        assert(s.drop_last().take(i) =~= s.take(i));
        assert(fold_val(acc, s) == fold_val(acc, s.drop_last()) * 10 + (s.last() - 48));
        assert(is_digit(s.last()));
    }
}

/// A digit string's value is below `10^len`.
pub proof fn lemma_digits_val_bound(s: Seq<u8>)
    requires
        all_digits(s),
    ensures
        0 <= digits_val(s) < pow10(s.len() as int),
    decreases s.len(),
{
    if s.len() > 0 {
        assert(all_digits(s.drop_last()));
        lemma_digits_val_bound(s.drop_last());
        assert(is_digit(s.last()));
        assert(pow10(s.len() as int) == 10 * pow10(s.len() - 1));
    }
}

/// Ten to any power is positive.
pub proof fn lemma_pow10_pos(n: int)
    ensures
        pow10(n) >= 1,
    decreases n,
{
    if n > 0 {
        lemma_pow10_pos(n - 1);
    }
}

/// Powers of ten multiply by adding exponents.
pub proof fn lemma_pow10_add(a: int, b: int)
    requires
        a >= 0,
        b >= 0,
    ensures
        pow10(a) * pow10(b) == pow10(a + b),
    decreases a,
{
    if a == 0 {
    } else {
        lemma_pow10_add(a - 1, b);
        assert(pow10(a) * pow10(b) == 10 * (pow10(a - 1) * pow10(b))) by {
            vstd::arithmetic::mul::lemma_mul_is_associative(10, pow10(a - 1), pow10(b));
        }
    }
}

/// Strict decimal-digit parse of a whole field: `Some` exactly when `s` is a
/// nonempty run of digits whose value fits in a `u64`.
pub open spec fn spec_parse_digits(s: Seq<u8>) -> Option<u64> {
    if s.len() > 0 && all_digits(s) && digits_val(s) <= u64::MAX {
        Some(digits_val(s) as u64)
    } else {
        None
    }
}

/// Folds the digit range `[start, end)` of `s` onto `acc`, detecting
/// overflow exactly.
pub(crate) fn fold_digits(s: &[u8], start: usize, end: usize, acc: u64) -> (r: Option<u64>)
    requires
        0 <= start <= end <= s@.len(),
        all_digits(s@.subrange(start as int, end as int)),
    ensures
        ({
            let sub = s@.subrange(start as int, end as int);
            match r {
                Some(v) => v == fold_val(acc as int, sub),
                None => fold_val(acc as int, sub) > u64::MAX,
            }
        }),
{
    let ghost sub = s@.subrange(start as int, end as int);
    let mut v: u64 = acc;
    let mut i: usize = start;
    while i < end
        invariant
            start <= i <= end <= s@.len(),
            sub == s@.subrange(start as int, end as int),
            all_digits(sub),
            v == fold_val(acc as int, sub.take(i - start)),
        decreases end - i,
    {
        let d = s[i];
        proof {
            assert(sub[i - start] == d);
            assert(is_digit(d));
            assert(sub.take(i + 1 - start) =~= sub.take(i - start).push(d));
            lemma_fold_val_push(acc as int, sub.take(i - start), d);
        }
        if v > (u64::MAX - (d - 48) as u64) / 10 {
            proof {
                let k = i - start;
                assert(fold_val(acc as int, sub.take(k + 1)) == v * 10 + (d - 48));
                assert(v * 10 + (d - 48) > u64::MAX);
                lemma_fold_split(acc as int, sub, k + 1);
                assert(all_digits(sub.skip(k + 1))) by {
                    assert forall|j: int| 0 <= j < sub.skip(k + 1).len() implies is_digit(
                        #[trigger] sub.skip(k + 1)[j],
                    ) by {
                        assert(sub.skip(k + 1)[j] == sub[j + k + 1]);
                    }
                }
                lemma_fold_val_ge_acc(fold_val(acc as int, sub.take(k + 1)), sub.skip(k + 1));
            }
            return None;
        }
        v = v * 10 + (d - 48) as u64;
        i = i + 1;
    }
    proof {
        assert(sub.take(end - start) =~= sub);
    }
    Some(v)
}

/// Folding a digit string never decreases a non-negative accumulator.
proof fn lemma_fold_val_ge_acc(acc: int, s: Seq<u8>)
    requires
        acc >= 0,
        all_digits(s),
    ensures
        fold_val(acc, s) >= acc,
    decreases s.len(),
{
    if s.len() > 0 {
        assert(all_digits(s.drop_last()));
        lemma_fold_val_ge_acc(acc, s.drop_last());
        assert(is_digit(s.last()));
    }
}

/// Folding splits at any cut point: the tail folds onto the fold of the head.
proof fn lemma_fold_split(acc: int, s: Seq<u8>, i: int)
    requires
        0 <= i <= s.len(),
    ensures
        fold_val(acc, s) == fold_val(fold_val(acc, s.take(i)), s.skip(i)),
    decreases s.len() - i,
{
    if i == s.len() {
        assert(s.take(i) =~= s);
        assert(s.skip(i) =~= Seq::<u8>::empty());
    } else {
        lemma_fold_split(acc, s, i + 1);
        assert(s.take(i + 1) =~= s.take(i).push(s[i]));
        lemma_fold_val_push(acc, s.take(i), s[i]);
        assert(s.skip(i).drop_first() =~= s.skip(i + 1));
        assert(fold_val(fold_val(acc, s.take(i)), s.skip(i)) == fold_val(
            fold_val(acc, s.take(i + 1)),
            s.skip(i + 1),
        )) by {
            lemma_fold_first(fold_val(acc, s.take(i)), s.skip(i));
        }
    }
}

/// Folding a nonempty string consumes its first digit first.
proof fn lemma_fold_first(acc: int, s: Seq<u8>)
    requires
        s.len() > 0,
    ensures
        fold_val(acc, s) == fold_val(acc * 10 + (s[0] - 48), s.drop_first()),
    decreases s.len(),
{
    let a2 = acc * 10 + (s[0] - 48);
    if s.len() == 1 {
        assert(s.drop_last() =~= Seq::<u8>::empty());
        assert(s.drop_first() =~= Seq::<u8>::empty());
        assert(fold_val(acc, s.drop_last()) == acc);
        assert(fold_val(acc, s) == fold_val(acc, s.drop_last()) * 10 + (s.last() - 48));
        assert(s.last() == s[0]);
        assert(fold_val(a2, s.drop_first()) == a2);
    } else {
        lemma_fold_first(acc, s.drop_last());
        assert(s.drop_last()[0] == s[0]);
        assert(fold_val(acc, s.drop_last()) == fold_val(a2, s.drop_last().drop_first()));
        assert(s.drop_last().drop_first() =~= s.drop_first().drop_last());
        assert(fold_val(acc, s) == fold_val(a2, s.drop_first().drop_last()) * 10 + (s.last() - 48));
        assert(s.drop_first().last() == s.last());
        assert(s.drop_first().len() > 0);
        assert(fold_val(a2, s.drop_first()) == fold_val(a2, s.drop_first().drop_last()) * 10 + (
        s.drop_first().last() - 48));
        assert(fold_val(acc, s) == fold_val(a2, s.drop_first()));
    }
}

/// Parses a whole field as a nonempty run of decimal digits.
pub fn parse_digits(s: &[u8]) -> (r: Option<u64>)
    ensures
        r == spec_parse_digits(s@),
{
    if s.len() == 0 {
        return None;
    }
    let mut i: usize = 0;
    while i < s.len()
        invariant
            0 <= i <= s@.len(),
            all_digits(s@.take(i as int)),
        decreases s@.len() - i,
    {
        let b = s[i];
        if b < 48 || b > 57 {
            assert(!is_digit(s@[i as int]));
            return None;
        }
        proof {
            assert(s@.take(i + 1) =~= s@.take(i as int).push(b));
        }
        i = i + 1;
    }
    proof {
        assert(s@.take(s@.len() as int) =~= s@);
        assert(s@.subrange(0, s@.len() as int) =~= s@);
    }
    fold_digits(s, 0, s.len(), 0)
}

/// Strict decimal parse of a whole field, per the wire grammar: an optional
/// leading `-`, then digits with at most one `.` among them and at least one
/// digit in all.  `Some` exactly when the field has that shape, the combined
/// digits fit in a `u64`, and the count of fractional digits fits in a `u32`.
pub open spec fn spec_parse_decimal(s: Seq<u8>) -> Option<Decimal> {
    if s.len() > 0 && s[0] == 45 {
        spec_parse_dec_body(true, s.drop_first())
    } else {
        spec_parse_dec_body(false, s)
    }
}

pub open spec fn spec_parse_dec_body(neg: bool, t: Seq<u8>) -> Option<Decimal> {
    let p = find_byte(t, 46, 0);
    let ip = t.take(p);
    let fp = if p < t.len() {
        t.skip(p + 1)
    } else {
        Seq::<u8>::empty()
    };
    if all_digits(ip) && all_digits(fp) && ip.len() + fp.len() >= 1 && digits_val(ip + fp)
        <= u64::MAX && fp.len() <= u32::MAX {
        Some(Decimal { negative: neg, scaled: digits_val(ip + fp) as u64, scale: fp.len() as u32 })
    } else {
        None
    }
}

/// Parses a whole field as a strict base-10 decimal number.
pub fn parse_float_num(s: &[u8]) -> (r: Option<Decimal>)
    ensures
        r == spec_parse_decimal(s@),
{
    let (neg, off): (bool, usize) = if s.len() > 0 && s[0] == 45 {
        (true, 1)
    } else {
        (false, 0)
    };
    let ghost t = s@.skip(off as int);
    // locate the first dot
    let mut p: usize = off;
    while p < s.len() && s[p] != 46
        invariant
            off <= p <= s@.len(),
            t == s@.skip(off as int),
            forall|j: int| off <= j < p ==> s@[j] != 46,
        decreases s@.len() - p,
    {
        p = p + 1;
    }
    proof {
        if neg {
            assert(t =~= s@.drop_first());
        } else {
            assert(t =~= s@);
        }
        assert forall|j: int| 0 <= j < p - off implies t[j] != 46 by {
            assert(t[j] == s@[j + off]);
        }
        if p < s@.len() {
            assert(t[p - off] == s@[p as int]);
        }
        lemma_find_byte_from(t, 46, 0, p - off);
    }
    let ghost ip = t.take(p - off);
    let ghost fp = if p - off < t.len() {
        t.skip(p - off + 1)
    } else {
        Seq::<u8>::empty()
    };
    // validate the digit runs on either side of the dot
    if !digits_in_range(s, off, p) {
        proof {
            assert(ip =~= s@.subrange(off as int, p as int));
        }
        return None;
    }
    let fstart: usize = if p < s.len() {
        p + 1
    } else {
        p
    };
    if !digits_in_range(s, fstart, s.len()) {
        proof {
            assert(fp =~= s@.subrange(fstart as int, s@.len() as int));
        }
        return None;
    }
    proof {
        assert(ip =~= s@.subrange(off as int, p as int));
        assert(fp =~= s@.subrange(fstart as int, s@.len() as int));
    }
    if p == off && fstart == s.len() {
        // no digits at all
        assert(ip.len() + fp.len() == 0);
        return None;
    }
    // fold the integer digits, then the fractional digits onto them
    let v1 = match fold_digits(s, off, p, 0) {
        Some(v) => v,
        None => {
            proof {
                lemma_digits_concat_ge(ip, fp);
            }
            return None;
        },
    };
    let v2 = match fold_digits(s, fstart, s.len(), v1) {
        Some(v) => v,
        None => {
            proof {
                lemma_digits_val_concat(ip, fp);
            }
            return None;
        },
    };
    proof {
        lemma_digits_val_concat(ip, fp);
    }
    let frac_len: usize = s.len() - fstart;
    if frac_len > 0xffff_ffff {
        return None;
    }
    Some(Decimal { negative: neg, scaled: v2, scale: frac_len as u32 })
}

/// Folding onto an accumulator shifts it left by the digit count.
pub proof fn lemma_fold_val_expand(acc: int, s: Seq<u8>)
    ensures
        fold_val(acc, s) == acc * pow10(s.len() as int) + digits_val(s),
    decreases s.len(),
{
    if s.len() == 0 {
    } else {
        lemma_fold_val_expand(acc, s.drop_last());
        lemma_fold_val_expand(0, s.drop_last());
        assert(pow10(s.len() as int) == 10 * pow10(s.len() - 1));
        assert((acc * pow10(s.len() - 1)) * 10 == acc * (10 * pow10(s.len() - 1))) by {
            vstd::arithmetic::mul::lemma_mul_is_associative(acc, pow10(s.len() - 1), 10);
            vstd::arithmetic::mul::lemma_mul_is_commutative(pow10(s.len() - 1), 10);
            vstd::arithmetic::mul::lemma_mul_is_associative(acc, 10, pow10(s.len() - 1));
            vstd::arithmetic::mul::lemma_mul_is_commutative(acc * pow10(s.len() - 1), 10);
        }
    }
}

/// The value of concatenated digit runs: the head shifts left by the length
/// of the tail.
pub proof fn lemma_digits_val_concat(a: Seq<u8>, b: Seq<u8>)
    ensures
        digits_val(a + b) == fold_val(digits_val(a), b),
{
    lemma_fold_split(0, a + b, a.len() as int);
    assert((a + b).take(a.len() as int) =~= a);
    assert((a + b).skip(a.len() as int) =~= b);
}

/// Dropping the fractional digits never increases the value.
proof fn lemma_digits_concat_ge(a: Seq<u8>, b: Seq<u8>)
    requires
        all_digits(a),
        all_digits(b),
    ensures
        digits_val(a + b) >= digits_val(a),
{
    lemma_digits_val_concat(a, b);
    lemma_fold_val_take_le(0, a, a.len() as int);
    assert(a.take(a.len() as int) =~= a);
    lemma_fold_val_ge_acc(digits_val(a), b);
}

/// Whether every byte of `s[start..end]` is a decimal digit.
pub(crate) fn digits_in_range(s: &[u8], start: usize, end: usize) -> (r: bool)
    requires
        0 <= start <= s@.len(),
        start <= end <= s@.len(),
    ensures
        r == all_digits(s@.subrange(start as int, end as int)),
{
    let ghost sub = s@.subrange(start as int, end as int);
    let mut i: usize = start;
    while i < end
        invariant
            start <= i <= end <= s@.len(),
            sub == s@.subrange(start as int, end as int),
            forall|j: int| 0 <= j < i - start ==> is_digit(#[trigger] sub[j]),
        decreases end - i,
    {
        let b = s[i];
        if b < 48 || b > 57 {
            assert(sub[i - start] == b);
            return false;
        }
        assert(sub[i - start] == b);
        i = i + 1;
    }
    true
}

/// Whether `x` is the ASCII comma.
pub fn is_comma(x: u8) -> (r: bool)
    ensures
        r == (x == 44),
{
    x == 44
}

/// The state-machine recogniser for a leading decimal-number token, as used
/// to cut numeric fields out of a byte stream: a run of digits, optionally
/// interrupted by one dot which must be followed by a digit unless the input
/// ends there.  Returns the token length, or `None` when no token starts at
/// the first byte.
pub open spec fn spec_float_token(s: Seq<u8>) -> Option<int> {
    if s.len() == 0 {
        None
    } else {
        sft_before(s, 0)
    }
}

/// Scanning before any dot has been seen.
pub open spec fn sft_before(s: Seq<u8>, i: int) -> Option<int>
    decreases s.len() - i,
{
    if i < 0 || i >= s.len() {
        Some(s.len() as int)
    } else if s[i] == 46 {
        sft_point(s, i + 1)
    } else if is_digit(s[i]) {
        sft_before(s, i + 1)
    } else if i == 0 {
        None
    } else {
        Some(i)
    }
}

/// Scanning just after the dot: a digit must follow unless the input ends.
pub open spec fn sft_point(s: Seq<u8>, i: int) -> Option<int> {
    if i >= s.len() {
        Some(s.len() as int)
    } else if is_digit(s[i]) {
        sft_after(s, i + 1)
    } else {
        None
    }
}

/// Scanning digits after the dot.
pub open spec fn sft_after(s: Seq<u8>, i: int) -> Option<int>
    decreases s.len() - i,
{
    if i < 0 || i >= s.len() {
        Some(s.len() as int)
    } else if is_digit(s[i]) {
        sft_after(s, i + 1)
    } else {
        Some(i)
    }
}

/// Cuts a leading decimal-number token out of `s`, returning its length.
pub fn float_number(s: &[u8]) -> (r: Option<usize>)
    ensures
        match r {
            Some(n) => 0 < n <= s@.len() && spec_float_token(s@) == Some(n as int),
            None => spec_float_token(s@) is None,
        },
{
    if s.len() == 0 {
        return None;
    }
    // states: 0 = before the dot, 1 = just after the dot, 2 = after the dot
    let mut state: u8 = 0;
    let mut i: usize = 0;
    loop
        invariant
            0 <= i <= s@.len(),
            s@.len() > 0,
            state == 0 || state == 1 || state == 2,
            state == 0 ==> spec_float_token(s@) == sft_before(s@, i as int),
            state == 1 ==> spec_float_token(s@) == sft_point(s@, i as int),
            state == 2 ==> spec_float_token(s@) == sft_after(s@, i as int),
            state == 1 ==> i > 0,
            state == 2 ==> i > 0,
        decreases s@.len() - i + 2 - state,
    {
        if i >= s.len() {
            return Some(i);
        }
        let b = s[i];
        if state == 0 {
            if b == 46 {
                state = 1;
            } else if 48 <= b && b <= 57 {
            } else if i == 0 {
                return None;
            } else {
                return Some(i);
            }
        } else if state == 1 {
            if 48 <= b && b <= 57 {
                state = 2;
            } else {
                return None;
            }
        } else {
            if 48 <= b && b <= 57 {
            } else {
                return Some(i);
            }
        }
        i = i + 1;
    }
}

} // verus!
