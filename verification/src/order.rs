//! The order in which std orders `String`s (character by character, by code
//! point), and sorted lists of strings kept in that order.
use vstd::prelude::*;
use vstd::relations::{sorted_by, total_ordering};
use vstd::seq_lib::{group_to_multiset_ensures, lemma_sorted_unique};
use crate::cli::strs;

verus! {

/// `a` comes strictly before `b`: at the first position where they differ the
/// character of `a` has the lower code point, or `a` is a proper prefix of `b`.
pub open spec fn text_lt(a: Seq<char>, b: Seq<char>) -> bool
    decreases a.len(),
{
    if a.len() == 0 {
        b.len() > 0
    } else if b.len() == 0 {
        false
    } else if a[0] != b[0] {
        (a[0] as u32) < (b[0] as u32)
    } else {
        text_lt(a.drop_first(), b.drop_first())
    }
}

/// `a` comes before `b` or equals it.
pub open spec fn text_le(a: Seq<char>, b: Seq<char>) -> bool {
    text_lt(a, b) || a == b
}

/// [`text_le`] as a relation.
pub open spec fn text_order() -> spec_fn(Seq<char>, Seq<char>) -> bool {
    |a: Seq<char>, b: Seq<char>| text_le(a, b)
}

/// [`text_lt`] as a relation.
pub open spec fn text_strict_order() -> spec_fn(Seq<char>, Seq<char>) -> bool {
    |a: Seq<char>, b: Seq<char>| text_lt(a, b)
}

/// Each text comes strictly before the next, so none occurs twice.
pub open spec fn strictly_sorted(s: Seq<Seq<char>>) -> bool {
    sorted_by(s, text_strict_order())
}

pub proof fn lemma_text_lt_irreflexive(a: Seq<char>)
    ensures
        !text_lt(a, a),
    decreases a.len(),
{
    if a.len() > 0 {
        lemma_text_lt_irreflexive(a.drop_first());
    }
}

pub proof fn lemma_text_lt_asymmetric(a: Seq<char>, b: Seq<char>)
    ensures
        text_lt(a, b) ==> !text_lt(b, a),
    decreases a.len(),
{
    if a.len() > 0 && b.len() > 0 && a[0] == b[0] {
        lemma_text_lt_asymmetric(a.drop_first(), b.drop_first());
    }
}

pub proof fn lemma_text_lt_transitive(a: Seq<char>, b: Seq<char>, c: Seq<char>)
    ensures
        text_lt(a, b) && text_lt(b, c) ==> text_lt(a, c),
    decreases a.len(),
{
    if a.len() > 0 && b.len() > 0 && c.len() > 0 {
        lemma_text_lt_transitive(a.drop_first(), b.drop_first(), c.drop_first());
    }
}

pub proof fn lemma_text_lt_total(a: Seq<char>, b: Seq<char>)
    ensures
        a != b ==> text_lt(a, b) || text_lt(b, a),
    decreases a.len(),
{
    if a.len() > 0 && b.len() > 0 {
        lemma_text_lt_total(a.drop_first(), b.drop_first());
        if a[0] == b[0] && a.drop_first() == b.drop_first() {
            assert(a =~= seq![a[0]] + a.drop_first());
            assert(b =~= seq![b[0]] + b.drop_first());
        }
        if a[0] != b[0] {
            lemma_char_code(a[0], b[0]);
        }
    } else if a.len() == 0 && b.len() == 0 {
        assert(a =~= b);
    }
}

proof fn lemma_char_code(c: char, d: char)
    requires
        c != d,
    ensures
        (c as u32) != (d as u32),
{
    assert((c as u32) as char == c);
}

/// [`text_le`] is a total order.
pub proof fn lemma_text_order_total()
    ensures
        total_ordering(text_order()),
{
    let r = text_order();
    assert forall|x: Seq<char>| #[trigger] r(x, x) by {}
    assert forall|x: Seq<char>, y: Seq<char>| #[trigger] r(x, y) && #[trigger] r(y, x) implies x == y by {
        lemma_text_lt_asymmetric(x, y);
    }
    assert forall|x: Seq<char>, y: Seq<char>, z: Seq<char>| #[trigger] r(x, y) && #[trigger] r(y, z) implies r(x, z) by {
        lemma_text_lt_transitive(x, y, z);
    }
    assert forall|x: Seq<char>, y: Seq<char>| #[trigger] r(x, y) || #[trigger] r(y, x) by {
        lemma_text_lt_total(x, y);
    }
}

/// Whether `a` comes strictly before `b`.
pub fn text_less(a: &str, b: &str) -> (r: bool)
    ensures
        r == text_lt(a@, b@),
{
    let n = a.unicode_len();
    let m = b.unicode_len();
    let mut i: usize = 0;
    assert(a@.subrange(0, n as int) =~= a@);
    assert(b@.subrange(0, m as int) =~= b@);
    while i < n && i < m
        invariant
            n == a@.len(),
            m == b@.len(),
            i <= n,
            i <= m,
            text_lt(a@, b@) == text_lt(a@.subrange(i as int, n as int), b@.subrange(i as int, m as int)),
        decreases n - i,
    {
        let ca = a.get_char(i);
        let cb = b.get_char(i);
        let ghost sa = a@.subrange(i as int, n as int);
        let ghost sb = b@.subrange(i as int, m as int);
        assert(sa[0] == ca && sb[0] == cb);
        if ca != cb {
            return (ca as u32) < (cb as u32);
        }
        assert(sa.drop_first() =~= a@.subrange(i + 1, n as int));
        assert(sb.drop_first() =~= b@.subrange(i + 1, m as int));
        i = i + 1;
    }
    i < m
}

/// Whether the sorted list `v` holds `x`; `v` is searched from the front.
pub fn find_text(v: &Vec<String>, x: &str) -> (r: Option<usize>)
    ensures
        match r {
            Some(k) => k < v@.len() && v@[k as int]@ == x@ && forall|j: int|
                0 <= j < k ==> (#[trigger] v@[j])@ != x@,
            None => !strs(v@).contains(x@),
        },
{
    let mut i: usize = 0;
    while i < v.len()
        invariant
            i <= v@.len(),
            forall|j: int| 0 <= j < i ==> (#[trigger] v@[j])@ != x@,
        decreases v@.len() - i,
    {
        if crate::text::str_eq(v[i].as_str(), x) {
            return Some(i);
        }
        i = i + 1;
    }
    assert(!strs(v@).contains(x@)) by {
        if strs(v@).contains(x@) {
            let j = choose|j: int| 0 <= j < strs(v@).len() && strs(v@)[j] == x@;
            assert(v@[j]@ == x@);
        }
    }
    None
}

/// `s` with `x` added where it is missing, in sorted place.
pub open spec fn sorted_insert(s: Seq<Seq<char>>, x: Seq<char>) -> Seq<Seq<char>> {
    if s.contains(x) {
        s
    } else {
        s.push(x).sort_by(text_order())
    }
}

proof fn lemma_insert_multiset<A>(s: Seq<A>, k: int, x: A)
    requires
        0 <= k <= s.len(),
    ensures
        s.insert(k, x).to_multiset() =~= s.to_multiset().insert(x),
{
    broadcast use group_to_multiset_ensures;
    let t = s.insert(k, x);
    assert(t.remove(k) =~= s);
    assert(t[k] == x);
    assert(t.to_multiset().count(x) > 0) by {
        assert(t.contains(x));
    }
    assert(t.to_multiset() =~= t.to_multiset().remove(x).insert(x));
}

/// Inserts `x` into the strictly sorted list `v` unless it is there already.
#[verifier::loop_isolation(false)]
pub fn insert_sorted(v: &mut Vec<String>, x: String)
    requires
        strictly_sorted(strs(old(v)@)),
    ensures
        strictly_sorted(strs(final(v)@)),
        strs(final(v)@) == sorted_insert(strs(old(v)@), x@),
{
    let ghost s = strs(v@);
    match find_text(v, x.as_str()) {
        Some(k) => {
            assert(s[k as int] == x@);
            return;
        },
        None => {},
    }
    let mut i: usize = 0;
    while i < v.len()
        invariant
            i <= v@.len(),
            s == strs(v@),
            forall|j: int| 0 <= j < i ==> text_lt(#[trigger] s[j], x@),
        decreases v@.len() - i,
    {
        if !text_less(v[i].as_str(), x.as_str()) {
            break;
        }
        i = i + 1;
    }
    let ghost xv = x@;
    proof {
        if i < s.len() {
            assert(s[i as int] != xv);
            lemma_text_lt_total(s[i as int], xv);
        }
    }
    v.insert(i, x);
    proof {
        let t = strs(v@);
        assert(t =~= s.insert(i as int, xv));
        lemma_text_order_total();
        assert forall|a: int, b: int| 0 <= a < b < t.len() implies #[trigger] text_strict_order()(t[a], t[b]) by {
            if b < i {
                assert(text_strict_order()(s[a], s[b]));
            } else if a < i && b == i {
            } else if a < i && b > i {
                assert(text_strict_order()(s[a], s[b - 1]));
            } else if a == i {
                if b - 1 > i {
                    assert(text_strict_order()(s[i as int], s[b - 1]));
                    lemma_text_lt_transitive(xv, s[i as int], s[b - 1]);
                }
            } else {
                assert(text_strict_order()(s[a - 1], s[b - 1]));
            }
        }
        lemma_insert_multiset(s, i as int, xv);
        assert(s.push(xv) =~= s.insert(s.len() as int, xv));
        lemma_insert_multiset(s, s.len() as int, xv);
        s.push(xv).lemma_sort_by_ensures(text_order());
        assert(sorted_by(t, text_order())) by {
            assert forall|a: int, b: int| 0 <= a < b < t.len() implies #[trigger] text_order()(t[a], t[b]) by {
                assert(text_strict_order()(t[a], t[b]));
            }
        }
        lemma_sorted_unique(t, s.push(xv).sort_by(text_order()), text_order());
    }
}

/// Takes `x` out of the strictly sorted list `v` where it is there.
pub fn remove_sorted(v: &mut Vec<String>, x: &str)
    requires
        strictly_sorted(strs(old(v)@)),
    ensures
        strictly_sorted(strs(final(v)@)),
        strs(final(v)@) == strs(old(v)@).remove_value(x@),
{
    let ghost s = strs(v@);
    match find_text(v, x) {
        None => {
            proof {
                s.index_of_first_ensures(x@);
            }
        },
        Some(k) => {
            proof {
                s.index_of_first_ensures(x@);
                let idx = s.index_of_first(x@).unwrap();
                assert(s[k as int] == x@);
                if idx < k {
                    assert(v@[idx]@ == x@);
                }
                assert(idx == k);
            }
            v.remove(k);
            proof {
                let t = strs(v@);
                assert(t =~= s.remove(k as int));
                assert forall|a: int, b: int| 0 <= a < b < t.len() implies #[trigger] text_strict_order()(t[a], t[b]) by {
                    let a0 = if a < k { a } else { a + 1 };
                    let b0 = if b < k { b } else { b + 1 };
                    assert(text_strict_order()(s[a0], s[b0]));
                }
            }
        },
    }
}

/// The strings of `v` in sorted order.
#[verifier::loop_isolation(false)]
pub fn sort_texts(v: Vec<String>) -> (r: Vec<String>)
    ensures
        strs(r@) == strs(v@).sort_by(text_order()),
{
    broadcast use group_to_multiset_ensures;
    let ghost s = strs(v@);
    proof {
        lemma_text_order_total();
    }
    let mut out: Vec<String> = Vec::new();
    let mut i: usize = 0;
    while i < v.len()
        invariant
            i <= v@.len(),
            s == strs(v@),
            sorted_by(strs(out@), text_order()),
            strs(out@).to_multiset() == s.subrange(0, i as int).to_multiset(),
        decreases v@.len() - i,
    {
        let x = v[i].clone();
        let ghost o = strs(out@);
        let ghost xv = s[i as int];
        assert(x@ == xv);
        let mut p: usize = 0;
        while p < out.len()
            invariant
                p <= out@.len(),
                o == strs(out@),
                x@ == xv,
                forall|j: int| 0 <= j < p ==> text_le(#[trigger] o[j], xv),
            decreases out@.len() - p,
        {
            if text_less(x.as_str(), out[p].as_str()) {
                break;
            }
            proof {
                lemma_text_lt_total(o[p as int], xv);
            }
            p = p + 1;
        }
        out.insert(p, x);
        proof {
            let t = strs(out@);
            assert(t =~= o.insert(p as int, xv));
            assert forall|a: int, b: int| 0 <= a < b < t.len() implies #[trigger] text_order()(t[a], t[b]) by {
                if b < p {
                    assert(text_order()(o[a], o[b]));
                } else if a < p && b == p {
                } else if a < p && b > p {
                    assert(text_order()(o[a], o[b - 1]));
                } else if a == p {
                    assert(text_lt(xv, o[p as int]));
                    if b - 1 > p {
                        assert(text_order()(o[p as int], o[b - 1]));
                        lemma_text_lt_transitive(xv, o[p as int], o[b - 1]);
                    }
                } else {
                    assert(text_order()(o[a - 1], o[b - 1]));
                }
            }
            lemma_insert_multiset(o, p as int, xv);
            assert(s.subrange(0, i + 1) =~= s.subrange(0, i as int).push(xv));
        }
        i = i + 1;
    }
    proof {
        assert(s.subrange(0, s.len() as int) =~= s);
        s.lemma_sort_by_ensures(text_order());
        lemma_sorted_unique(strs(out@), s.sort_by(text_order()), text_order());
    }
    out
}

} // verus!
