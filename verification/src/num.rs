//! Decimal text for integers and for fixed-point percentages.
use vstd::prelude::*;
use vstd::string::*;
use crate::suggest::{eq_ignore_ascii_case, eq_ignore_case};
use crate::exponent::{lemma_scientific_range, parse_scientific, scientific_micros};
use crate::text::{find_char, push_char};

verus! {

/// Whether `c` is one of the ASCII digits `0`..=`9`.
pub open spec fn is_digit(c: char) -> bool {
    '0' <= c && c <= '9'
}

/// The value of an ASCII digit.
pub open spec fn digit_value(c: char) -> int {
    (c as int) - ('0' as int)
}

/// The digit that stands for `d`, for `0 <= d < 10`.
pub open spec fn digit_char(d: int) -> char {
    ((d + ('0' as int)) as u32) as char
}

/// Every character of `s` is a digit.
pub open spec fn all_digits(s: Seq<char>) -> bool {
    forall|i: int| 0 <= i < s.len() ==> is_digit(#[trigger] s[i])
}

/// The value of a string of digits, read in base ten.
pub open spec fn digits_value(s: Seq<char>) -> int
    decreases s.len(),
{
    if s.len() == 0 {
        0
    } else {
        digits_value(s.drop_last()) * 10 + digit_value(s.last())
    }
}

/// The shortest base-ten digits of `n` (at least one digit).
pub open spec fn nat_digits(n: nat) -> Seq<char>
    decreases n,
{
    if n < 10 {
        seq![digit_char(n as int)]
    } else {
        nat_digits(n / 10) + seq![digit_char((n % 10) as int)]
    }
}

/// Text of a signed integer as `Display` writes it.
pub open spec fn int_text(v: int) -> Seq<char> {
    if v < 0 {
        seq!['-'] + nat_digits((-v) as nat)
    } else {
        nat_digits(v as nat)
    }
}

/// Text of a signed integer with an explicit sign, as the `{:+}` format writes it.
pub open spec fn signed_int_text(v: int) -> Seq<char> {
    if v < 0 {
        seq!['-'] + nat_digits((-v) as nat)
    } else {
        seq!['+'] + nat_digits(v as nat)
    }
}

/// The value of `s` as `u32::from_str` reads it: an optional `+`, then one
/// or more digits, within `u32`.
pub open spec fn u32_text_value(s: Seq<char>) -> Option<u32> {
    let body = if s.len() > 0 && s[0] == '+' { s.drop_first() } else { s };
    if body.len() > 0 && all_digits(body) && digits_value(body) <= u32::MAX {
        Some(digits_value(body) as u32)
    } else {
        None
    }
}

/// The value of `s` as `i64::from_str` reads it: an optional sign, then one
/// or more digits, within `i64`.
pub open spec fn i64_text_value(s: Seq<char>) -> Option<i64> {
    let negative = s.len() > 0 && s[0] == '-';
    let body = if s.len() > 0 && (s[0] == '+' || s[0] == '-') { s.drop_first() } else { s };
    let v = if negative { -digits_value(body) } else { digits_value(body) };
    if body.len() > 0 && all_digits(body) && i64::MIN <= v <= i64::MAX {
        Some(v as i64)
    } else {
        None
    }
}

pub proof fn lemma_digits_value_nonneg(s: Seq<char>)
    requires
        all_digits(s),
    ensures
        digits_value(s) >= 0,
    decreases s.len(),
{
    if s.len() > 0 {
        lemma_digits_value_nonneg(s.drop_last());
        assert(is_digit(s[s.len() - 1]));
    }
}

/// Appending digits never makes the value smaller.
pub proof fn lemma_digits_value_prefix_le(s: Seq<char>, j: int, k: int)
    requires
        all_digits(s),
        0 <= j <= k <= s.len(),
    ensures
        digits_value(s.subrange(0, j)) <= digits_value(s.subrange(0, k)),
    decreases k - j,
{
    if j < k {
        lemma_digits_value_prefix_le(s, j, k - 1);
        let t = s.subrange(0, k);
        assert(t.drop_last() =~= s.subrange(0, k - 1));
        assert(is_digit(s[k - 1]));
        lemma_digits_value_nonneg(s.subrange(0, k - 1));
    }
}

/// Reads a run of digits `s[start..end]` whose value must not exceed `limit`.
fn digits_upto(s: &str, start: usize, end: usize, limit: u64) -> (r: Option<u64>)
    requires
        start <= end <= s@.len(),
        limit >= 9,
    ensures
        ({
            let d = s@.subrange(start as int, end as int);
            match r {
                Some(v) => all_digits(d) && digits_value(d) == v && v <= limit,
                None => !(all_digits(d) && digits_value(d) <= limit),
            }
        }),
{
    let ghost d = s@.subrange(start as int, end as int);
    let mut acc: u64 = 0;
    let mut i: usize = start;
    while i < end
        invariant
            start <= i <= end <= s@.len(),
            d == s@.subrange(start as int, end as int),
            all_digits(d.subrange(0, i - start)),
            digits_value(d.subrange(0, i - start)) == acc,
            acc <= limit,
            limit >= 9,
        decreases end - i,
    {
        let c = s.get_char(i);
        let ghost next = d.subrange(0, i - start + 1);
        assert(next.drop_last() =~= d.subrange(0, i - start));
        assert(next.last() == c);
        if !('0' <= c && c <= '9') {
            assert(!is_digit(d[i - start]));
            return None;
        }
        let dv: u64 = ((c as u32) - ('0' as u32)) as u64;
        assert(all_digits(next));
        if acc > (limit - dv) / 10 {
            assert(digits_value(next) > limit) by (nonlinear_arith)
                requires
                    digits_value(next) == acc * 10 + dv,
                    acc > (limit - dv) / 10,
                    dv <= 9,
                    dv <= limit,
            {
            }
            proof {
                if all_digits(d) {
                    lemma_digits_value_prefix_le(d, i - start + 1, d.len() as int);
                    assert(d.subrange(0, d.len() as int) =~= d);
                }
            }
            return None;
        }
        acc = acc * 10 + dv;
        i = i + 1;
    }
    assert(d.subrange(0, end - start) =~= d);
    Some(acc)
}


/// `u32::from_str`: an optional `+`, then one or more digits, within range.
pub fn parse_u32(s: &str) -> (r: Option<u32>)
    ensures
        r == u32_text_value(s@),
{
    let n = s.unicode_len();
    let start: usize = if n > 0 && s.get_char(0) == '+' { 1 } else { 0 };
    proof {
        if start == 1 {
            assert(s@.drop_first() =~= s@.subrange(1, n as int));
        } else {
            assert(s@ =~= s@.subrange(0, n as int));
        }
    }
    if start == n {
        return None;
    }
    match digits_upto(s, start, n, 4294967295u64) {
        Some(v) => Some(v as u32),
        None => None,
    }
}

/// `i64::from_str`: an optional sign, then one or more digits, within range.
pub fn parse_i64(s: &str) -> (r: Option<i64>)
    ensures
        r == i64_text_value(s@),
{
    let n = s.unicode_len();
    let first = if n > 0 { s.get_char(0) } else { ' ' };
    let negative = n > 0 && first == '-';
    let start: usize = if n > 0 && (first == '+' || first == '-') { 1 } else { 0 };
    proof {
        if start == 1 {
            assert(s@.drop_first() =~= s@.subrange(1, n as int));
        } else {
            assert(s@ =~= s@.subrange(0, n as int));
        }
    }
    if start == n {
        return None;
    }
    let limit: u64 = if negative { 9223372036854775808u64 } else { 9223372036854775807u64 };
    match digits_upto(s, start, n, limit) {
        Some(v) => {
            if negative {
                if v == 9223372036854775808u64 {
                    Some(i64::MIN)
                } else {
                    Some(-(v as i64))
                }
            } else {
                Some(v as i64)
            }
        }
        None => None,
    }
}

pub proof fn lemma_digit_char(d: int)
    requires
        0 <= d < 10,
    ensures
        is_digit(digit_char(d)),
        digit_value(digit_char(d)) == d,
{
}

/// The digits of `n` are digits, read back as `n`, and never empty.
pub proof fn lemma_nat_digits(n: nat)
    ensures
        nat_digits(n).len() > 0,
        all_digits(nat_digits(n)),
        digits_value(nat_digits(n)) == n,
    decreases n,
{
    if n < 10 {
        lemma_digit_char(n as int);
        let s = nat_digits(n);
        assert(s.drop_last() =~= Seq::<char>::empty());
        assert(digits_value(s.drop_last()) == 0);
        assert(s.last() == digit_char(n as int));
    } else {
        lemma_nat_digits(n / 10);
        lemma_digit_char((n % 10) as int);
        let s = nat_digits(n);
        assert(s.drop_last() =~= nat_digits(n / 10));
        assert(s.last() == digit_char((n % 10) as int));
        assert(digits_value(s) == digits_value(nat_digits(n / 10)) * 10 + digit_value(s.last()));
        assert((n / 10) * 10 + n % 10 == n) by (nonlinear_arith);
        assert forall|i: int| 0 <= i < s.len() implies is_digit(#[trigger] s[i]) by {
            if i < s.len() - 1 {
                assert(s[i] == nat_digits(n / 10)[i]);
            }
        }
    }
}

/// `u32::from_str` reads back what `Display` wrote.
pub proof fn lemma_u32_text_roundtrip(n: u32)
    ensures
        u32_text_value(nat_digits(n as nat)) == Some(n),
{
    lemma_nat_digits(n as nat);
    lemma_digit_char(0);
    let s = nat_digits(n as nat);
    assert(is_digit(s[0]));
}

/// `i64::from_str` reads back what `Display` wrote.
pub proof fn lemma_i64_text_roundtrip(v: i64)
    ensures
        i64_text_value(int_text(v as int)) == Some(v),
{
    if v < 0 {
        let m = (-v) as nat;
        lemma_nat_digits(m);
        let s = int_text(v as int);
        assert(s.drop_first() =~= nat_digits(m));
    } else {
        lemma_nat_digits(v as nat);
        let s = nat_digits(v as nat);
        assert(is_digit(s[0]));
    }
}

/// Appends the decimal digits of `n`.
pub fn write_nat(out: &mut String, n: u64)
    ensures
        final(out)@ == old(out)@ + nat_digits(n as nat),
    decreases n,
{
    if n >= 10 {
        write_nat(out, n / 10);
    }
    let d: u32 = (n % 10) as u32;
    let c = char_from_digit(d);
    push_char(out, c);
    proof {
        if n >= 10 {
            assert(nat_digits(n as nat) =~= nat_digits((n / 10) as nat) + seq![digit_char((n % 10) as int)]);
        }
    }
    assert(final(out)@ =~= old(out)@ + nat_digits(n as nat));
}

/// The digit character for `d < 10`.
pub fn char_from_digit(d: u32) -> (c: char)
    requires
        d < 10,
    ensures
        c == digit_char(d as int),
{
    match d {
        0 => '0',
        1 => '1',
        2 => '2',
        3 => '3',
        4 => '4',
        5 => '5',
        6 => '6',
        7 => '7',
        8 => '8',
        _ => '9',
    }
}

/// Appends `v` as `Display` writes a signed integer.
pub fn write_i64(out: &mut String, v: i64)
    ensures
        final(out)@ == old(out)@ + int_text(v as int),
{
    if v < 0 {
        push_char(out, '-');
        let m: u64 = if v == i64::MIN { 9223372036854775808u64 } else { (-v) as u64 };
        write_nat(out, m);
    } else {
        write_nat(out, v as u64);
    }
    assert(final(out)@ =~= old(out)@ + int_text(v as int));
}

/// Appends `v` with an explicit sign, as the `{:+}` format writes it.
pub fn write_signed_i64(out: &mut String, v: i64)
    ensures
        final(out)@ == old(out)@ + signed_int_text(v as int),
{
    if v < 0 {
        push_char(out, '-');
        let m: u64 = if v == i64::MIN { 9223372036854775808u64 } else { (-v) as u64 };
        write_nat(out, m);
    } else {
        push_char(out, '+');
        write_nat(out, v as u64);
    }
    assert(final(out)@ =~= old(out)@ + signed_int_text(v as int));
}


/// Ten to the power `k`.
pub open spec fn pow10(k: nat) -> int
    decreases k,
{
    if k == 0 {
        1
    } else {
        10 * pow10((k - 1) as nat)
    }
}

/// The lowest `width` base-ten digits of `n`, padded with leading zeros.
pub open spec fn padded_digits(n: nat, width: nat) -> Seq<char>
    decreases width,
{
    if width == 0 {
        seq![]
    } else {
        padded_digits(n / 10, (width - 1) as nat) + seq![digit_char((n % 10) as int)]
    }
}

/// `s` without its trailing `0` characters.
pub open spec fn trim_zeros(s: Seq<char>) -> Seq<char>
    decreases s.len(),
{
    if s.len() > 0 && s.last() == '0' {
        trim_zeros(s.drop_last())
    } else {
        s
    }
}

/// Millionths in one unit of a fixed-point percentage.
pub open spec fn micros_per_unit() -> int {
    1_000_000
}

/// Text of a value held in millionths, as `{:.6}` followed by trimming the
/// trailing zeros and then the trailing point writes it.
pub open spec fn percent_text(v: int) -> Seq<char> {
    let m = if v < 0 { -v } else { v };
    let ip = m / micros_per_unit();
    let fp = m % micros_per_unit();
    (if v < 0 { seq!['-'] } else { seq![] }) + nat_digits(ip as nat) + (if fp == 0 {
        seq![]
    } else {
        seq!['.'] + trim_zeros(padded_digits(fp as nat, 6))
    })
}

/// Text of a value held in millionths with an explicit sign, as `{:+}` writes it.
pub open spec fn signed_percent_text(v: int) -> Seq<char> {
    if v < 0 {
        percent_text(v)
    } else {
        seq!['+'] + percent_text(v)
    }
}

/// The index of the first `.` in `s`.
pub open spec fn first_dot(s: Seq<char>) -> int {
    choose|k: int| 0 <= k < s.len() && s[k] == '.' && forall|j: int| 0 <= j < k ==> s[j] != '.'
}

/// The whole-number part and the fraction part of an unsigned decimal, split at its first `.`.
#[verifier::opaque]
pub open spec fn decimal_parts(body: Seq<char>) -> (Seq<char>, Seq<char>) {
    if body.contains('.') {
        let k = first_dot(body);
        (body.subrange(0, k), body.subrange(k + 1, body.len() as int))
    } else {
        (body, seq![])
    }
}

/// Some character of `s` is not `0`.
pub open spec fn has_nonzero(s: Seq<char>) -> bool {
    exists|i: int| 0 <= i < s.len() && s[i] != '0'
}

/// Millionths of a fraction whose digits are `f`: its first six digits, and
/// one more where a later digit is not zero. The value is rounded away from
/// zero, so a number beyond a bound held in whole millionths stays beyond it.
pub open spec fn fraction_micros(f: Seq<char>) -> int {
    let head = if f.len() >= 6 {
        digits_value(f.subrange(0, 6))
    } else {
        digits_value(f) * pow10((6 - f.len()) as nat)
    };
    head + (if f.len() > 6 && has_nonzero(f.subrange(6, f.len() as int)) { 1int } else { 0int })
}

/// Whether some character of `s[from..to]` is not `0`.
fn nonzero_in(s: &str, from: usize, to: usize) -> (r: bool)
    requires
        from <= to <= s@.len(),
    ensures
        r == has_nonzero(s@.subrange(from as int, to as int)),
{
    let ghost t = s@.subrange(from as int, to as int);
    let mut i = from;
    while i < to
        invariant
            from <= i <= to <= s@.len(),
            t == s@.subrange(from as int, to as int),
            forall|j: int| 0 <= j < i - from ==> t[j] == '0',
        decreases to - i,
    {
        if s.get_char(i) != '0' {
            assert(t[i - from] != '0');
            return true;
        }
        i = i + 1;
    }
    false
}

/// The value in millionths of a decimal number: an optional sign, digits with
/// at most one `.`, at least one digit; its magnitude within `i64`.
pub open spec fn decimal_micros(s: Seq<char>) -> Option<i64> {
    let negative = s.len() > 0 && s[0] == '-';
    let body = if s.len() > 0 && (s[0] == '+' || s[0] == '-') { s.drop_first() } else { s };
    let parts = decimal_parts(body);
    let ip = parts.0;
    let fp = parts.1;
    let mag = digits_value(ip) * micros_per_unit() + fraction_micros(fp);
    if all_digits(ip) && all_digits(fp) && (ip.len() > 0 || fp.len() > 0) && mag <= i64::MAX {
        Some((if negative { -mag } else { mag }) as i64)
    } else {
        None
    }
}

pub(crate) proof fn lemma_first_dot(s: Seq<char>, k: int)
    requires
        0 <= k < s.len(),
        s[k] == '.',
        forall|j: int| 0 <= j < k ==> s[j] != '.',
    ensures
        first_dot(s) == k,
        s.contains('.'),
{
    let c = first_dot(s);
    assert(s[k] == '.');
    assert(exists|k2: int| 0 <= k2 < s.len() && s[k2] == '.' && forall|j: int| 0 <= j < k2 ==> s[j] != '.');
    if c < k {
        assert(s[c] != '.');
    }
    if c > k {
        assert(s[k] != '.');
    }
}

/// Whether `s[from..to]` is all digits.
fn digits_only(s: &str, from: usize, to: usize) -> (r: bool)
    requires
        from <= to <= s@.len(),
    ensures
        r == all_digits(s@.subrange(from as int, to as int)),
{
    let mut i = from;
    while i < to
        invariant
            from <= i <= to <= s@.len(),
            all_digits(s@.subrange(from as int, i as int)),
        decreases to - i,
    {
        let c = s.get_char(i);
        if !('0' <= c && c <= '9') {
            assert(!is_digit(s@.subrange(from as int, to as int)[i - from]));
            return false;
        }
        i = i + 1;
        assert forall|j: int| 0 <= j < i - from implies is_digit(#[trigger] s@.subrange(from as int, i as int)[j]) by {
            if j < i - 1 - from {
                assert(s@.subrange(from as int, i as int)[j] == s@.subrange(from as int, i - 1)[j]);
            }
        }
    }
    true
}

proof fn lemma_digits_value_bound(s: Seq<char>)
    requires
        all_digits(s),
    ensures
        0 <= digits_value(s) < pow10(s.len()),
    decreases s.len(),
{
    if s.len() > 0 {
        lemma_digits_value_bound(s.drop_last());
        assert(is_digit(s[s.len() - 1]));
        let a = digits_value(s.drop_last());
        let p = pow10(s.drop_last().len());
        assert(a * 10 + 9 < p * 10) by (nonlinear_arith)
            requires
                0 <= a < p,
        {
        }
    }
}

proof fn lemma_pow10_values()
    ensures
        pow10(0) == 1,
        pow10(1) == 10,
        pow10(2) == 100,
        pow10(3) == 1000,
        pow10(4) == 10000,
        pow10(5) == 100000,
        pow10(6) == 1000000,
{
    reveal_with_fuel(pow10, 7);
}

/// The millionths that the fraction digits `s[from..to]` stand for.
fn fraction_value(s: &str, from: usize, to: usize) -> (r: Option<u64>)
    requires
        from <= to <= s@.len(),
    ensures
        ({
            let f = s@.subrange(from as int, to as int);
            match r {
                Some(v) => all_digits(f) && v == fraction_micros(f) && v <= 1000000,
                None => !all_digits(f),
            }
        }),
{
    proof {
        lemma_pow10_values();
    }
    let ghost f = s@.subrange(from as int, to as int);
    if !digits_only(s, from, to) {
        return None;
    }
    let flen = to - from;
    let head_len: usize = if flen >= 6 { 6 } else { flen };
    let ghost h = s@.subrange(from as int, from + head_len);
    assert(all_digits(h)) by {
        assert forall|i: int| 0 <= i < h.len() implies is_digit(#[trigger] h[i]) by {
            assert(h[i] == f[i]);
        }
    }
    proof {
        lemma_digits_value_bound(h);
    }
    let fhead = match digits_upto(s, from, from + head_len, 999999u64) {
        Some(v) => v,
        None => {
            return None;
        }
    };
    proof {
        if flen >= 6 {
            assert(f.subrange(0, 6) =~= h);
        } else {
            assert(f =~= h);
        }
    }
    let scale: u64 = if head_len == 6 {
        1
    } else if head_len == 5 {
        10
    } else if head_len == 4 {
        100
    } else if head_len == 3 {
        1000
    } else if head_len == 2 {
        10000
    } else if head_len == 1 {
        100000
    } else {
        1000000
    };
    assert(scale == pow10((6 - head_len) as nat));
    let round: u64 = if flen > 6 && nonzero_in(s, from + 6, to) { 1 } else { 0 };
    assert(round == (if f.len() > 6 && has_nonzero(f.subrange(6, f.len() as int)) { 1int } else { 0int })) by {
        if f.len() > 6 {
            assert(f.subrange(6, f.len() as int) =~= s@.subrange(from + 6, to as int));
        }
    }
    assert(fhead * scale + round <= 1000000) by (nonlinear_arith)
        requires
            fhead <= 999999,
            round <= 1,
            round == 1 ==> scale == 1,
            fhead < pow10(head_len as nat),
            head_len == 6 && scale == 1 || head_len == 5 && scale == 10 || head_len == 4 && scale
                == 100 || head_len == 3 && scale == 1000 || head_len == 2 && scale == 10000 || head_len
                == 1 && scale == 100000 || head_len == 0 && scale == 1000000,
            pow10(0) == 1,
            pow10(1) == 10,
            pow10(2) == 100,
            pow10(3) == 1000,
            pow10(4) == 10000,
            pow10(5) == 100000,
            pow10(6) == 1000000,
    {
    }
    Some(fhead * scale + round)
}

/// The fixed-point value in millionths that a decimal number's text stands for.
pub fn parse_decimal_micros(s: &str) -> (r: Option<i64>)
    ensures
        r == decimal_micros(s@),
{
    let n = s.unicode_len();
    let first = if n > 0 { s.get_char(0) } else { ' ' };
    let negative = n > 0 && first == '-';
    let start: usize = if n > 0 && (first == '+' || first == '-') { 1 } else { 0 };
    let body = s.substring_char(start, n);
    proof {
        if start == 1 {
            assert(body@ =~= s@.drop_first());
        } else {
            assert(body@ =~= s@);
        }
    }
    let blen = body.unicode_len();
    let (ip_end, fp_start) = match find_char(body, '.') {
        Some(k) => {
            proof {
                lemma_first_dot(body@, k as int);
            }
            (k, k + 1)
        }
        None => (blen, blen),
    };
    let ghost parts = decimal_parts(body@);
    reveal(decimal_parts);
    assert(parts.0 =~= body@.subrange(0, ip_end as int));
    assert(parts.1 =~= body@.subrange(fp_start as int, blen as int));
    if ip_end == 0 && fp_start == blen {
        return None;
    }
    let frac = match fraction_value(body, fp_start, blen) {
        Some(v) => v,
        None => {
            return None;
        }
    };
    let ipv = match digits_upto(body, 0, ip_end, 9223372036854u64) {
        Some(v) => v,
        None => {
            return None;
        }
    };
    let mag: u64 = ipv * 1000000 + frac;
    if mag > 9223372036854775807u64 {
        return None;
    }
    let m = mag as i64;
    if negative {
        Some(-m)
    } else {
        Some(m)
    }
}

/// The text is a decimal number: an optional sign, then digits with at most
/// one `.`, at least one digit.
pub open spec fn decimal_syntax(s: Seq<char>) -> bool {
    let body = if s.len() > 0 && (s[0] == '+' || s[0] == '-') { s.drop_first() } else { s };
    let parts = decimal_parts(body);
    all_digits(parts.0) && all_digits(parts.1) && (parts.0.len() > 0 || parts.1.len() > 0)
}

/// The text names an infinity or not-a-number as `f64::from_str` reads it:
/// an optional sign, then `inf`, `infinity` or `nan` in any case.
pub open spec fn non_finite_text(s: Seq<char>) -> bool {
    let body = if s.len() > 0 && (s[0] == '+' || s[0] == '-') { s.drop_first() } else { s };
    eq_ignore_case(body, "inf"@) || eq_ignore_case(body, "infinity"@) || eq_ignore_case(body, "nan"@)
}

/// The value in millionths of a number given for a gamma: a decimal within
/// range as [`decimal_micros`] reads it; a decimal too large for `i64`, an
/// infinity or a not-a-number as the largest magnitude, with its sign, so
/// that the gamma range refuses it; a number written with an exponent as
/// [`scientific_micros`] reads it.
pub open spec fn gamma_number(s: Seq<char>) -> Option<i64> {
    match decimal_micros(s) {
        Some(v) => Some(v),
        None => if decimal_syntax(s) || non_finite_text(s) {
            Some(if s.len() > 0 && s[0] == '-' { (-i64::MAX) as i64 } else { i64::MAX })
        } else {
            scientific_micros(s)
        },
    }
}

/// Whether the text is a decimal number.
pub(crate) fn is_decimal_text(s: &str) -> (r: bool)
    ensures
        r == decimal_syntax(s@),
{
    let n = s.unicode_len();
    let first = if n > 0 { s.get_char(0) } else { ' ' };
    let start: usize = if n > 0 && (first == '+' || first == '-') { 1 } else { 0 };
    let body = s.substring_char(start, n);
    proof {
        if start == 1 {
            assert(body@ =~= s@.drop_first());
        } else {
            assert(body@ =~= s@);
        }
    }
    let blen = body.unicode_len();
    let (ip_end, fp_start) = match find_char(body, '.') {
        Some(k) => {
            proof {
                lemma_first_dot(body@, k as int);
            }
            (k, k + 1)
        }
        None => (blen, blen),
    };
    let ghost parts = decimal_parts(body@);
    reveal(decimal_parts);
    assert(parts.0 =~= body@.subrange(0, ip_end as int));
    assert(parts.1 =~= body@.subrange(fp_start as int, blen as int));
    (ip_end > 0 || fp_start < blen) && digits_only(body, 0, ip_end) && digits_only(body, fp_start, blen)
}

/// Whether the text names an infinity or not-a-number.
fn is_non_finite_text(s: &str) -> (r: bool)
    ensures
        r == non_finite_text(s@),
{
    let n = s.unicode_len();
    let first = if n > 0 { s.get_char(0) } else { ' ' };
    let start: usize = if n > 0 && (first == '+' || first == '-') { 1 } else { 0 };
    let body = s.substring_char(start, n);
    proof {
        if start == 1 {
            assert(body@ =~= s@.drop_first());
        } else {
            assert(body@ =~= s@);
        }
    }
    eq_ignore_ascii_case(body, "inf") || eq_ignore_ascii_case(body, "infinity") || eq_ignore_ascii_case(body, "nan")
}

/// Reads a number given for a gamma.
pub fn parse_gamma_number(s: &str) -> (r: Option<i64>)
    ensures
        r == gamma_number(s@),
{
    match parse_decimal_micros(s) {
        Some(v) => Some(v),
        None => {
            if is_decimal_text(s) || is_non_finite_text(s) {
                let n = s.unicode_len();
                if n > 0 && s.get_char(0) == '-' {
                    Some(-9223372036854775807i64)
                } else {
                    Some(9223372036854775807i64)
                }
            } else {
                parse_scientific(s)
            }
        },
    }
}

/// A gamma number lies within `-i64::MAX..=i64::MAX`.
pub proof fn lemma_gamma_number_range(s: Seq<char>)
    ensures
        gamma_number(s) matches Some(d) ==> -i64::MAX <= d <= i64::MAX,
{
    lemma_decimal_micros_range(s);
    lemma_scientific_range(s);
}

proof fn lemma_fraction_micros_nonneg(f: Seq<char>)
    requires
        all_digits(f),
    ensures
        fraction_micros(f) >= 0,
{
    lemma_pow10_values();
    if f.len() >= 6 {
        lemma_digits_value_nonneg(f.subrange(0, 6));
        assert(all_digits(f.subrange(0, 6))) by {
            assert forall|i: int| 0 <= i < 6 implies is_digit(#[trigger] f.subrange(0, 6)[i]) by {
                assert(f.subrange(0, 6)[i] == f[i]);
            }
        }
        lemma_digits_value_nonneg(f.subrange(0, 6));
    } else {
        lemma_digits_value_nonneg(f);
        lemma_pow10_pos((6 - f.len()) as nat);
        assert(digits_value(f) * pow10((6 - f.len()) as nat) >= 0) by (nonlinear_arith)
            requires
                digits_value(f) >= 0,
                pow10((6 - f.len()) as nat) > 0,
        {
        }
    }
}

pub(crate) proof fn lemma_pow10_pos(k: nat)
    ensures
        pow10(k) > 0,
    decreases k,
{
    if k > 0 {
        lemma_pow10_pos((k - 1) as nat);
    }
}


/// Appends the lowest `width` digits of `n`, zero-padded.
fn write_padded(out: &mut String, n: u64, width: u32)
    ensures
        final(out)@ == old(out)@ + padded_digits(n as nat, width as nat),
    decreases width,
{
    if width > 0 {
        write_padded(out, n / 10, width - 1);
        let c = char_from_digit((n % 10) as u32);
        push_char(out, c);
    }
    assert(final(out)@ =~= old(out)@ + padded_digits(n as nat, width as nat));
}

proof fn lemma_trim_zeros_padded(n: nat, width: nat)
    requires
        n % 10 == 0,
        width > 0,
    ensures
        trim_zeros(padded_digits(n, width)) == trim_zeros(padded_digits(n / 10, (width - 1) as nat)),
{
    let p = padded_digits(n, width);
    assert(p.drop_last() =~= padded_digits(n / 10, (width - 1) as nat));
    assert(p.last() == '0');
}

proof fn lemma_trim_zeros_keep(n: nat, width: nat)
    requires
        n % 10 != 0,
        width > 0,
    ensures
        trim_zeros(padded_digits(n, width)) == padded_digits(n, width),
{
    let p = padded_digits(n, width);
    lemma_digit_char((n % 10) as int);
    assert(p.last() == digit_char((n % 10) as int));
}

/// Appends a value held in millionths as `{:.6}` with its trailing zeros and
/// point trimmed writes it.
pub fn write_percent(out: &mut String, v: i64)
    ensures
        final(out)@ == old(out)@ + percent_text(v as int),
{
    let m: u64 = if v == i64::MIN {
        9223372036854775808u64
    } else if v < 0 {
        (-v) as u64
    } else {
        v as u64
    };
    let ip = m / 1000000;
    let fp = m % 1000000;
    let ghost before = out@;
    if v < 0 {
        push_char(out, '-');
    }
    write_nat(out, ip);
    let ghost mid = out@;
    if fp != 0 {
        push_char(out, '.');
        let mut f = fp;
        let mut k: u32 = 6;
        proof {
            lemma_pow10_values();
        }
        while f % 10 == 0
            invariant
                1 <= k <= 6,
                0 < f <= fp,
                f < pow10(k as nat),
                trim_zeros(padded_digits(fp as nat, 6)) == trim_zeros(padded_digits(f as nat, k as nat)),
            decreases k,
        {
            proof {
                lemma_trim_zeros_padded(f as nat, k as nat);
                lemma_pow10_values();
                assert(k > 1);
                assert(f / 10 < pow10((k - 1) as nat)) by (nonlinear_arith)
                    requires
                        f < pow10(k as nat),
                        pow10(k as nat) == 10 * pow10((k - 1) as nat),
                {
                }
            }
            f = f / 10;
            k = k - 1;
        }
        proof {
            lemma_trim_zeros_keep(f as nat, k as nat);
        }
        write_padded(out, f, k);
    }
    assert(final(out)@ =~= before + percent_text(v as int));
}


proof fn lemma_padded_digits(n: nat, w: nat)
    ensures
        padded_digits(n, w).len() == w,
        all_digits(padded_digits(n, w)),
        digits_value(padded_digits(n, w)) == n % (pow10(w) as nat),
    decreases w,
{
    lemma_pow10_pos(w);
    if w > 0 {
        lemma_padded_digits(n / 10, (w - 1) as nat);
        lemma_digit_char((n % 10) as int);
        let p = padded_digits(n, w);
        let q = padded_digits(n / 10, (w - 1) as nat);
        assert(p.drop_last() =~= q);
        assert forall|i: int| 0 <= i < p.len() implies is_digit(#[trigger] p[i]) by {
            if i < p.len() - 1 {
                assert(p[i] == q[i]);
            }
        }
        lemma_pow10_pos((w - 1) as nat);
        let b = pow10((w - 1) as nat);
        assert((n / 10) % (b as nat) * 10 + n % 10 == n % ((10 * b) as nat)) by (nonlinear_arith)
            requires
                b > 0,
        {
            vstd::arithmetic::div_mod::lemma_breakdown(n as int, 10, b);
        }
    } else {
        assert(n % 1 == 0);
    }
}

proof fn lemma_trimmed_fraction(n: nat, w: nat) -> (fk: (nat, nat))
    requires
        0 < n < pow10(w),
    ensures
        1 <= fk.1 <= w,
        fk.0 < pow10(fk.1),
        n == fk.0 * pow10((w - fk.1) as nat),
        trim_zeros(padded_digits(n, w)) == padded_digits(fk.0, fk.1),
    decreases w,
{
    if w == 0 {
        assert(false);
        (0, 0)
    } else if n % 10 == 0 {
        lemma_trim_zeros_padded(n, w);
        assert(n / 10 < pow10((w - 1) as nat)) by (nonlinear_arith)
            requires
                n < pow10(w),
                pow10(w) == 10 * pow10((w - 1) as nat),
        {
        }
        assert(n / 10 > 0) by (nonlinear_arith)
            requires
                n > 0,
                n % 10 == 0,
        {
        }
        let fk = lemma_trimmed_fraction(n / 10, (w - 1) as nat);
        assert(pow10((w - fk.1) as nat) == 10 * pow10((w - 1 - fk.1) as nat));
        assert(n == fk.0 * pow10((w - fk.1) as nat)) by (nonlinear_arith)
            requires
                n / 10 == fk.0 * pow10((w - 1 - fk.1) as nat),
                n % 10 == 0,
                pow10((w - fk.1) as nat) == 10 * pow10((w - 1 - fk.1) as nat),
        {
        }
        fk
    } else {
        lemma_trim_zeros_keep(n, w);
        assert(pow10(0) == 1);
        (n, w)
    }
}

proof fn lemma_digits_no_dot(s: Seq<char>)
    requires
        all_digits(s),
    ensures
        !s.contains('.'),
{
    if s.contains('.') {
        let i = choose|i: int| 0 <= i < s.len() && s[i] == '.';
        assert(is_digit(s[i]));
    }
}

/// Reading back the text of a non-negative value held in millionths gives the value.
proof fn lemma_percent_roundtrip_nonneg(v: int)
    requires
        0 <= v <= i64::MAX,
    ensures
        decimal_micros(percent_text(v)) == Some(v as i64),
{
    lemma_pow10_values();
    reveal(decimal_parts);
    let ip = v / 1000000;
    let fp = v % 1000000;
    let d = nat_digits(ip as nat);
    lemma_nat_digits(ip as nat);
    let s = percent_text(v);
    assert(is_digit(d[0]));
    assert(s[0] == d[0]);
    if fp == 0 {
        assert(s =~= d);
        lemma_digits_no_dot(d);
        let parts = decimal_parts(s);
        assert(parts.1 =~= Seq::<char>::empty());
        assert(digits_value(parts.1) == 0);
        assert(fraction_micros(parts.1) == 0);
    } else {
        let fk = lemma_trimmed_fraction(fp as nat, 6);
        let t = padded_digits(fk.0, fk.1);
        lemma_padded_digits(fk.0, fk.1);
        assert(s =~= d + seq!['.'] + t);
        let k = d.len() as int;
        assert forall|j: int| 0 <= j < k implies s[j] != '.' by {
            assert(s[j] == d[j]);
            assert(is_digit(d[j]));
        }
        lemma_first_dot(s, k);
        let parts = decimal_parts(s);
        assert(parts.0 =~= d);
        assert(parts.1 =~= t);
        assert(fk.0 % (pow10(fk.1) as nat) == fk.0) by {
            vstd::arithmetic::div_mod::lemma_small_mod(fk.0, pow10(fk.1) as nat);
        }
        if fk.1 == 6 {
            assert(t.subrange(0, 6) =~= t);
        }
        assert(fraction_micros(t) == fp);
    }
    assert(ip * 1000000 + fp == v);
}

proof fn lemma_decimal_micros_negated(t: Seq<char>, x: i64)
    requires
        t.len() > 0,
        is_digit(t[0]),
        decimal_micros(t) == Some(x),
        x >= 0,
    ensures
        decimal_micros(seq!['-'] + t) == Some((-x) as i64),
{
    let s = seq!['-'] + t;
    assert(s.drop_first() =~= t);
    assert(s[0] == '-');
    assert(t[0] != '-' && t[0] != '+');
    let parts = decimal_parts(t);
    let mag = digits_value(parts.0) * micros_per_unit() + fraction_micros(parts.1);
    assert(all_digits(parts.0) && all_digits(parts.1) && (parts.0.len() > 0 || parts.1.len() > 0) && mag <= i64::MAX);
    lemma_digits_value_nonneg(parts.0);
    lemma_fraction_micros_nonneg(parts.1);
    assert(mag == x);
}

/// Reading back the text of a value held in millionths gives the value.
pub proof fn lemma_percent_roundtrip(v: i64)
    requires
        v != i64::MIN,
    ensures
        decimal_micros(percent_text(v as int)) == Some(v),
        v < 0 ==> percent_text(v as int) == seq!['-'] + percent_text(-v),
{
    if v < 0 {
        lemma_percent_roundtrip_nonneg(-v);
        let s = percent_text(v as int);
        assert(s =~= seq!['-'] + percent_text(-v));
        assert(s.drop_first() =~= percent_text(-v));
        lemma_nat_digits(((-v) / 1000000) as nat);
        let t = percent_text(-v);
        assert(is_digit(t[0]));
        lemma_decimal_micros_negated(t, (-v) as i64);
    } else {
        lemma_percent_roundtrip_nonneg(v as int);
    }
}


/// A decimal's value never leaves `-i64::MAX..=i64::MAX`.
pub proof fn lemma_decimal_micros_range(s: Seq<char>)
    ensures
        decimal_micros(s) matches Some(d) ==> -i64::MAX <= d <= i64::MAX,
{
    let body = if s.len() > 0 && (s[0] == '+' || s[0] == '-') { s.drop_first() } else { s };
    let parts = decimal_parts(body);
    if all_digits(parts.0) && all_digits(parts.1) {
        lemma_digits_value_nonneg(parts.0);
        lemma_fraction_micros_nonneg(parts.1);
    }
}


/// A character that number text is made of.
pub open spec fn number_char(c: char) -> bool {
    is_digit(c) || c == '-' || c == '+' || c == '.'
}

/// The text of a non-negative number starts with a digit, that of a negative
/// number with `-` and a digit; all of it is number characters.
pub proof fn lemma_int_text_shape(v: int)
    ensures
        forall|i: int| 0 <= i < int_text(v).len() ==> number_char(#[trigger] int_text(v)[i]),
        v >= 0 ==> int_text(v).len() > 0 && is_digit(int_text(v)[0]),
        v < 0 ==> int_text(v).len() > 1 && int_text(v)[0] == '-' && is_digit(int_text(v)[1]),
        v < 0 ==> int_text(v).drop_first() == nat_digits((-v) as nat),
{
    if v >= 0 {
        lemma_nat_digits(v as nat);
    } else {
        lemma_nat_digits((-v) as nat);
        let t = int_text(v);
        let d = nat_digits((-v) as nat);
        assert(t.drop_first() =~= d);
        assert forall|i: int| 0 <= i < t.len() implies number_char(#[trigger] t[i]) by {
            if i > 0 {
                assert(t[i] == d[i - 1]);
            }
        }
    }
}

/// The shape of the text of a value held in millionths.
pub proof fn lemma_percent_text_shape(v: int)
    ensures
        forall|i: int| 0 <= i < percent_text(v).len() ==> number_char(#[trigger] percent_text(v)[i]),
        v >= 0 ==> percent_text(v).len() > 0 && is_digit(percent_text(v)[0]),
        v < 0 ==> percent_text(v).len() > 1 && percent_text(v)[0] == '-' && is_digit(percent_text(v)[1]),
{
    lemma_pow10_values();
    let m = if v < 0 { -v } else { v };
    let ip = m / 1000000;
    let fp = m % 1000000;
    let d = nat_digits(ip as nat);
    lemma_nat_digits(ip as nat);
    let sign: Seq<char> = if v < 0 { seq!['-'] } else { seq![] };
    let tail: Seq<char> = if fp == 0 { seq![] } else { seq!['.'] + trim_zeros(padded_digits(fp as nat, 6)) };
    let t = percent_text(v);
    assert(t =~= sign + d + tail);
    if fp != 0 {
        let fk = lemma_trimmed_fraction(fp as nat, 6);
        lemma_padded_digits(fk.0, fk.1);
        let q = padded_digits(fk.0, fk.1);
        assert forall|i: int| 0 <= i < tail.len() implies number_char(#[trigger] tail[i]) by {
            if i > 0 {
                assert(tail[i] == q[i - 1]);
            }
        }
    }
    assert forall|i: int| 0 <= i < t.len() implies number_char(#[trigger] t[i]) by {
        if i < sign.len() {
            assert(t[i] == sign[i]);
        } else if i < sign.len() + d.len() {
            assert(t[i] == d[i - sign.len()]);
        } else {
            assert(t[i] == tail[i - sign.len() - d.len()]);
        }
    }
    assert(t[sign.len() as int] == d[0]);
}

} // verus!
