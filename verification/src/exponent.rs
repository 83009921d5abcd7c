//! Numbers written with an exponent, as `1.5e2` or `25E-2`.
use vstd::prelude::*;
use vstd::string::*;
use crate::num::{
    all_digits, decimal_micros, decimal_parts, decimal_syntax, digits_value,
    fraction_micros, has_nonzero, is_decimal_text, is_digit, lemma_digits_value_nonneg, lemma_first_dot,
    lemma_pow10_pos, parse_decimal_micros, pow10,
};
use crate::text::{find_char, first_index_of, lemma_first_index_of, string_from_chars};

verus! {

/// Where the exponent mark of `s` stands: its first `e`, else its first `E`.
pub open spec fn exponent_mark(s: Seq<char>) -> Option<int> {
    match first_index_of(s, 'e') {
        Some(k) => Some(k),
        None => first_index_of(s, 'E'),
    }
}

/// The digits of an exponent, after its optional sign.
pub open spec fn exponent_digits(t: Seq<char>) -> Seq<char> {
    if t.len() > 0 && (t[0] == '+' || t[0] == '-') {
        t.drop_first()
    } else {
        t
    }
}

/// An exponent: an optional sign, then one or more digits.
pub open spec fn exponent_syntax(t: Seq<char>) -> bool {
    exponent_digits(t).len() > 0 && all_digits(exponent_digits(t))
}

/// The value of an exponent.
pub open spec fn exponent_value(t: Seq<char>) -> int {
    if t.len() > 0 && t[0] == '-' {
        -digits_value(exponent_digits(t))
    } else {
        digits_value(exponent_digits(t))
    }
}

/// `n` zeros.
pub open spec fn zeros(n: nat) -> Seq<char> {
    Seq::new(n, |i: int| '0')
}

/// The digits `d` with a point placed after the first `q` of them; zeros
/// fill in on the side where `q` lies outside the digits.
pub open spec fn point_at(d: Seq<char>, q: int) -> Seq<char> {
    if q <= 0 {
        seq!['0', '.'] + zeros((-q) as nat) + d
    } else if q < d.len() {
        d.subrange(0, q) + seq!['.'] + d.subrange(q, d.len() as int)
    } else {
        d + zeros((q - d.len()) as nat)
    }
}

/// The value in millionths of a number written with an exponent: the decimal
/// before the mark, with its point moved right by the exponent (left where
/// the exponent is negative) and then read as [`decimal_micros`] reads it;
/// beyond `i64`, the largest magnitude, with the sign.
#[verifier::opaque]
pub open spec fn scientific_micros(s: Seq<char>) -> Option<i64> {
    match exponent_mark(s) {
        Some(k) => {
            let m = s.subrange(0, k);
            let t = s.subrange(k + 1, s.len() as int);
            let negative = m.len() > 0 && m[0] == '-';
            let body = if m.len() > 0 && (m[0] == '+' || m[0] == '-') {
                m.drop_first()
            } else {
                m
            };
            let parts = decimal_parts(body);
            let moved = point_at(parts.0 + parts.1, parts.0.len() + exponent_value(t));
            if decimal_syntax(m) && exponent_syntax(t) {
                Some(
                    match decimal_micros(moved) {
                        Some(v) => if negative {
                            (-v) as i64
                        } else {
                            v
                        },
                        None => if negative {
                            (-i64::MAX) as i64
                        } else {
                            i64::MAX
                        },
                    },
                )
            } else {
                None
            }
        },
        None => None,
    }
}

/// A number written with an exponent never leaves `-i64::MAX..=i64::MAX`.
pub proof fn lemma_scientific_range(s: Seq<char>)
    ensures
        scientific_micros(s) matches Some(d) ==> -i64::MAX <= d <= i64::MAX,
{
    reveal(scientific_micros);
    if let Some(k) = exponent_mark(s) {
        let m = s.subrange(0, k);
        let t = s.subrange(k + 1, s.len() as int);
        let body = if m.len() > 0 && (m[0] == '+' || m[0] == '-') {
            m.drop_first()
        } else {
            m
        };
        let parts = decimal_parts(body);
        crate::num::lemma_decimal_micros_range(
            point_at(parts.0 + parts.1, parts.0.len() + exponent_value(t)),
        );
    }
}

/// Digits read as zero exactly when each of them is `0`.
proof fn lemma_digits_zero(d: Seq<char>)
    requires
        all_digits(d),
    ensures
        (digits_value(d) == 0) <==> (forall|i: int| 0 <= i < d.len() ==> d[i] == '0'),
    decreases d.len(),
{
    if d.len() > 0 {
        let p = d.drop_last();
        assert(all_digits(p)) by {
            assert forall|i: int| 0 <= i < p.len() implies is_digit(#[trigger] p[i]) by {
                assert(p[i] == d[i]);
            }
        }
        lemma_digits_zero(p);
        lemma_digits_value_nonneg(p);
        assert(is_digit(d[d.len() - 1]));
        if digits_value(d) == 0 {
            assert forall|i: int| 0 <= i < d.len() implies d[i] == '0' by {
                if i < d.len() - 1 {
                    assert(p[i] == d[i]);
                }
            }
        } else {
            if forall|i: int| 0 <= i < d.len() ==> d[i] == '0' {
                assert forall|i: int| 0 <= i < p.len() implies p[i] == '0' by {
                    assert(p[i] == d[i]);
                }
                assert(d[d.len() - 1] == '0');
            }
        }
    }
}

/// Zeros are digits and read as zero.
proof fn lemma_zeros(n: nat)
    ensures
        all_digits(zeros(n)),
        digits_value(zeros(n)) == 0,
{
    lemma_digits_zero(zeros(n));
}

/// Zeros after the digits multiply their value by a power of ten.
proof fn lemma_digits_shift(d: Seq<char>, z: nat)
    ensures
        digits_value(d + zeros(z)) == digits_value(d) * pow10(z),
    decreases z,
{
    if z == 0 {
        assert(d + zeros(0) =~= d);
    } else {
        lemma_digits_shift(d, (z - 1) as nat);
        let t = d + zeros(z);
        assert(t.drop_last() =~= d + zeros((z - 1) as nat));
        assert(t.last() == '0');
        let a = digits_value(d);
        let p = pow10((z - 1) as nat);
        assert(a * p * 10 == a * (10 * p)) by (nonlinear_arith);
    }
}

/// Powers of ten grow with the exponent.
proof fn lemma_pow10_mono(a: nat, b: nat)
    requires
        a <= b,
    ensures
        pow10(a) <= pow10(b),
    decreases b,
{
    if a < b {
        lemma_pow10_mono(a, (b - 1) as nat);
        lemma_pow10_pos((b - 1) as nat);
    }
}

/// With the point eight or more places before the digits, the value is zero
/// when the digits are, and one millionth otherwise.
proof fn lemma_far_left(d: Seq<char>, q: int)
    requires
        all_digits(d),
        q < -7,
    ensures
        decimal_micros(point_at(d, q)) == Some(if digits_value(d) == 0 { 0i64 } else { 1i64 }),
{
    let w = (-q) as nat;
    let text = point_at(d, q);
    assert(text =~= seq!['0', '.'] + zeros(w) + d);
    lemma_zeros(w);
    lemma_first_dot(text, 1);
    reveal(decimal_parts);
    let parts = decimal_parts(text);
    let f = zeros(w) + d;
    assert(parts.0 =~= seq!['0']);
    assert(parts.1 =~= f);
    assert(all_digits(f)) by {
        assert forall|i: int| 0 <= i < f.len() implies is_digit(#[trigger] f[i]) by {
            if i >= w {
                assert(f[i] == d[i - w]);
            }
        }
    }
    assert(f.subrange(0, 6) =~= zeros(6));
    lemma_zeros(6);
    let tail = f.subrange(6, f.len() as int);
    lemma_digits_zero(d);
    if digits_value(d) == 0 {
        assert forall|i: int| 0 <= i < tail.len() implies tail[i] == '0' by {
            if i + 6 >= w {
                assert(tail[i] == d[i + 6 - w]);
            }
        }
        assert(!has_nonzero(tail));
    } else {
        let j = choose|j: int| 0 <= j < d.len() && d[j] != '0';
        assert(tail[j + w - 6] == d[j]);
        assert(has_nonzero(tail));
    }
    lemma_zeros(1);
    assert(seq!['0'] =~= zeros(1));
}

/// With the point more than thirty places after the digits, the value is zero
/// when the digits are, and beyond `i64` otherwise.
proof fn lemma_far_right(d: Seq<char>, q: int)
    requires
        all_digits(d),
        q - d.len() > 30,
    ensures
        decimal_micros(point_at(d, q)) == (if digits_value(d) == 0 {
            Some(0i64)
        } else {
            None::<i64>
        }),
{
    let z = (q - d.len()) as nat;
    let text = point_at(d, q);
    assert(text =~= d + zeros(z));
    lemma_zeros(z);
    assert(all_digits(text)) by {
        assert forall|i: int| 0 <= i < text.len() implies is_digit(#[trigger] text[i]) by {
            if i < d.len() {
                assert(text[i] == d[i]);
            } else {
                assert(text[i] == zeros(z)[i - d.len()]);
            }
        }
    }
    assert(!text.contains('.')) by {
        if text.contains('.') {
            let i = choose|i: int| 0 <= i < text.len() && text[i] == '.';
            assert(is_digit(text[i]));
        }
    }
    reveal(decimal_parts);
    let parts = decimal_parts(text);
    assert(parts.0 == text);
    assert(parts.1 == Seq::<char>::empty());
    assert(is_digit(text[0]));
    lemma_digits_shift(d, z);
    lemma_pow10_pos(6);
    assert(pow10(6) == 1000000) by {
        reveal_with_fuel(pow10, 7);
    }
    assert(fraction_micros(Seq::<char>::empty()) == 0) by {
        assert(digits_value(Seq::<char>::empty()) == 0);
    }
    lemma_digits_value_nonneg(d);
    if digits_value(d) != 0 {
        lemma_pow10_mono(19, z);
        assert(pow10(19) == 10000000000000000000) by {
            reveal_with_fuel(pow10, 20);
        }
        let a = digits_value(d);
        let p = pow10(z);
        assert(a * p * 1000000 >= p) by (nonlinear_arith)
            requires
                a >= 1,
                p >= 0,
        {
        }
    }
}

/// Reads the digits of an exponent, exactly up to `cap`; `over` tells that
/// they stand for more than `cap`.
fn read_exponent(t: &str, cap: u128) -> (r: Option<(u128, bool)>)
    requires
        cap <= 0x1_0000_0000_0000_0000_0000,
    ensures
        match r {
            Some((v, over)) => exponent_syntax(t@) && (if over {
                digits_value(exponent_digits(t@)) > cap
            } else {
                v == digits_value(exponent_digits(t@)) && v <= cap
            }),
            None => !exponent_syntax(t@),
        },
{
    let n = t.unicode_len();
    let first = if n > 0 { t.get_char(0) } else { ' ' };
    let start: usize = if n > 0 && (first == '+' || first == '-') { 1 } else { 0 };
    let ghost b = exponent_digits(t@);
    assert(b =~= t@.subrange(start as int, n as int));
    if start == n {
        return None;
    }
    let mut v: u128 = 0;
    let mut over = false;
    let mut i: usize = start;
    while i < n
        invariant
            n == t@.len(),
            start <= i <= n,
            b =~= t@.subrange(start as int, n as int),
            b == exponent_digits(t@),
            cap <= 0x1_0000_0000_0000_0000_0000,
            all_digits(b.subrange(0, i - start)),
            over ==> digits_value(b.subrange(0, i - start)) > cap,
            !over ==> v == digits_value(b.subrange(0, i - start)) && v <= cap,
        decreases n - i,
    {
        let c = t.get_char(i);
        if !('0' <= c && c <= '9') {
            assert(b[i - start] == c);
            assert(!is_digit(b[i - start]));
            return None;
        }
        let ghost before = b.subrange(0, i - start);
        let ghost after = b.subrange(0, i - start + 1);
        assert(after.drop_last() =~= before);
        assert(after.last() == c);
        assert(all_digits(after)) by {
            assert forall|j: int| 0 <= j < after.len() implies is_digit(#[trigger] after[j]) by {
                if j < after.len() - 1 {
                    assert(after[j] == before[j]);
                }
            }
        }
        proof {
            lemma_digits_value_nonneg(before);
        }
        if !over {
            let dv = (c as u32 - '0' as u32) as u128;
            v = v * 10 + dv;
            if v > cap {
                over = true;
            }
        }
        i = i + 1;
    }
    assert(b.subrange(0, n - start) =~= b);
    Some((v, over))
}

/// Appends `count` zeros.
fn push_zeros(out: &mut Vec<char>, count: usize)
    ensures
        final(out)@ == old(out)@ + zeros(count as nat),
{
    let ghost start = out@;
    let mut i: usize = 0;
    while i < count
        invariant
            i <= count,
            out@ == start + zeros(i as nat),
        decreases count - i,
    {
        out.push('0');
        i = i + 1;
        assert(out@ =~= start + zeros(i as nat));
    }
}

/// Appends `d[from..to]`.
fn push_range(out: &mut Vec<char>, d: &Vec<char>, from: usize, to: usize)
    requires
        from <= to <= d@.len(),
    ensures
        final(out)@ == old(out)@ + d@.subrange(from as int, to as int),
{
    let ghost start = out@;
    let mut i: usize = from;
    while i < to
        invariant
            from <= i <= to <= d@.len(),
            out@ == start + d@.subrange(from as int, i as int),
        decreases to - i,
    {
        out.push(d[i]);
        i = i + 1;
        assert(out@ =~= start + d@.subrange(from as int, i as int));
    }
}

/// The digits of an unsigned decimal around its point, and how many of them
/// stand before it.
fn decimal_digits(body: &str) -> (r: (Vec<char>, usize))
    ensures
        r.0@ == decimal_parts(body@).0 + decimal_parts(body@).1,
        r.1 == decimal_parts(body@).0.len(),
        r.0@.len() <= body@.len(),
{
    let cs = crate::text::chars_of(body);
    let blen = cs.len();
    let (ip_end, fp_start) = match find_char(body, '.') {
        Some(k) => {
            proof {
                lemma_first_dot(body@, k as int);
            }
            (k, k + 1)
        },
        None => (blen, blen),
    };
    reveal(decimal_parts);
    assert(decimal_parts(body@).0 =~= body@.subrange(0, ip_end as int));
    assert(decimal_parts(body@).1 =~= body@.subrange(fp_start as int, blen as int));
    let mut d: Vec<char> = Vec::new();
    push_range(&mut d, &cs, 0, ip_end);
    push_range(&mut d, &cs, fp_start, blen);
    (d, ip_end)
}

/// Whether every digit of `d` is zero, that is, whether it reads as zero.
fn all_zero(d: &Vec<char>) -> (r: bool)
    requires
        all_digits(d@),
    ensures
        r == (digits_value(d@) == 0),
{
    proof {
        lemma_digits_zero(d@);
    }
    let mut i: usize = 0;
    while i < d.len()
        invariant
            i <= d@.len(),
            all_digits(d@),
            forall|j: int| 0 <= j < i ==> d@[j] == '0',
        decreases d@.len() - i,
    {
        if d[i] != '0' {
            assert(d@[i as int] != '0');
            proof {
                lemma_digits_zero(d@);
            }
            return false;
        }
        i = i + 1;
    }
    true
}

/// The millionths of the digits `d` with the point after the first `q` of
/// them, for a `q` not far outside the digits.
fn point_value(d: &Vec<char>, q: i128) -> (r: Option<i64>)
    requires
        all_digits(d@),
        -8 <= q <= d@.len() + 40,
    ensures
        r == decimal_micros(point_at(d@, q as int)),
{
    let len = d.len();
    let mut out: Vec<char> = Vec::new();
    if q <= 0 {
        out.push('0');
        out.push('.');
        push_zeros(&mut out, (-q) as usize);
        push_range(&mut out, d, 0, len);
        assert(d@.subrange(0, len as int) =~= d@);
    } else if q < len as i128 {
        let k = q as usize;
        push_range(&mut out, d, 0, k);
        out.push('.');
        push_range(&mut out, d, k, len);
    } else {
        push_range(&mut out, d, 0, len);
        assert(d@.subrange(0, len as int) =~= d@);
        push_zeros(&mut out, (q - len as i128) as usize);
    }
    assert(out@ =~= point_at(d@, q as int));
    let text = string_from_chars(out.as_slice());
    parse_decimal_micros(text.as_str())
}

/// Reads a number written with an exponent.
pub fn parse_scientific(s: &str) -> (r: Option<i64>)
    ensures
        r == scientific_micros(s@),
{
    reveal(scientific_micros);
    let n = s.unicode_len();
    let k = match find_char(s, 'e') {
        Some(k) => {
            proof {
                lemma_first_index_of(s@, 'e', k as int);
            }
            k
        },
        None => match find_char(s, 'E') {
            Some(k) => {
                proof {
                    lemma_first_index_of(s@, 'E', k as int);
                }
                k
            },
            None => {
                return None;
            },
        },
    };
    assert(exponent_mark(s@) == Some(k as int));
    let m = s.substring_char(0, k);
    let t = s.substring_char(k + 1, n);
    let mn = m.unicode_len();
    if mn == 0 {
        proof {
            reveal(decimal_parts);
        }
        return None;
    }
    if !is_decimal_text(m) {
        return None;
    }
    let cap: u128 = n as u128 + 40;
    let (xv, over) = match read_exponent(t, cap) {
        Some(p) => p,
        None => {
            return None;
        },
    };
    let first = m.get_char(0);
    let negative = first == '-';
    let start: usize = if first == '+' || first == '-' { 1 } else { 0 };
    let body = m.substring_char(start, mn);
    proof {
        if start == 1 {
            assert(body@ =~= m@.drop_first());
        } else {
            assert(body@ =~= m@);
        }
    }
    let (d, ip_len) = decimal_digits(body);
    let ghost parts = decimal_parts(body@);
    assert(all_digits(d@)) by {
        assert forall|i: int| 0 <= i < d@.len() implies is_digit(#[trigger] d@[i]) by {
            if i < parts.0.len() {
                assert(d@[i] == parts.0[i]);
            } else {
                assert(d@[i] == parts.1[i - parts.0.len()]);
            }
        }
    }
    let exp_negative = t.unicode_len() > 0 && t.get_char(0) == '-';
    let ghost x = exponent_value(t@);
    let ghost q = ip_len + x;
    proof {
        lemma_digits_value_nonneg(exponent_digits(t@));
    }
    let mag: Option<i64> = if over {
        if exp_negative {
            proof {
                lemma_far_left(d@, q);
            }
            if all_zero(&d) {
                Some(0)
            } else {
                Some(1)
            }
        } else {
            proof {
                lemma_far_right(d@, q);
            }
            if all_zero(&d) {
                Some(0)
            } else {
                None
            }
        }
    } else {
        let qi: i128 = if exp_negative {
            ip_len as i128 - xv as i128
        } else {
            ip_len as i128 + xv as i128
        };
        assert(qi == q);
        if qi < -7 {
            proof {
                lemma_far_left(d@, q);
            }
            if all_zero(&d) {
                Some(0)
            } else {
                Some(1)
            }
        } else if qi > d.len() as i128 + 30 {
            proof {
                lemma_far_right(d@, q);
            }
            if all_zero(&d) {
                Some(0)
            } else {
                None
            }
        } else {
            point_value(&d, qi)
        }
    };
    assert(mag == decimal_micros(point_at(d@, q)));
    proof {
        crate::num::lemma_decimal_micros_range(point_at(d@, q));
    }
    match mag {
        Some(v) => if negative {
            Some(-v)
        } else {
            Some(v)
        },
        None => if negative {
            Some(-9223372036854775807i64)
        } else {
            Some(9223372036854775807i64)
        },
    }
}

} // verus!
