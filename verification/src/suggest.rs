//! Edit distance and "did you mean" suggestions for mistyped words.
use vstd::prelude::*;
use vstd::string::*;
use vstd::utf8::encode_utf8;
use crate::text::{chars_of, is_prefix, starts_with};

verus! {

/// The smaller of two integers.
pub open spec fn min2(x: int, y: int) -> int {
    if x <= y {
        x
    } else {
        y
    }
}

/// Levenshtein distance between two character sequences: the fewest single
/// character insertions, deletions and substitutions that turn `a` into `b`.
pub open spec fn lev(a: Seq<char>, b: Seq<char>) -> nat
    decreases a.len() + b.len(),
{
    if a.len() == 0 {
        b.len()
    } else if b.len() == 0 {
        a.len()
    } else {
        let cost: int = if a.last() == b.last() { 0 } else { 1 };
        min2(
            min2(lev(a, b.drop_last()) + 1int, lev(a.drop_last(), b) + 1int),
            lev(a.drop_last(), b.drop_last()) + cost,
        ) as nat
    }
}

/// A string's length in bytes as `str::len` reports it.
pub open spec fn byte_len(s: Seq<char>) -> int {
    (encode_utf8(s).len() as usize) as int
}

/// The code of `c` with `A`..=`Z` mapped to `a`..=`z`.
pub open spec fn lower_code(c: char) -> u32 {
    if 'A' <= c && c <= 'Z' {
        (c as u32 + 32) as u32
    } else {
        c as u32
    }
}

/// ASCII case-insensitive equality, as `str::eq_ignore_ascii_case` decides it.
pub open spec fn eq_ignore_case(a: Seq<char>, b: Seq<char>) -> bool {
    a.len() == b.len() && forall|i: int| 0 <= i < a.len() ==> lower_code(#[trigger] a[i]) == lower_code(b[i])
}

/// How far a candidate is from the typed word: the difference in byte length
/// when one is a prefix of the other, the edit distance otherwise.
pub open spec fn score(value: Seq<char>, cand: Seq<char>) -> int {
    if is_prefix(value, cand) || is_prefix(cand, value) {
        let d = byte_len(cand) - byte_len(value);
        if d < 0 {
            -d
        } else {
            d
        }
    } else {
        lev(value, cand) as int
    }
}

/// The largest score still worth a suggestion.
pub open spec fn threshold(value: Seq<char>) -> int {
    if byte_len(value) <= 4 {
        1
    } else {
        2
    }
}

/// `i` is the first candidate equal to `value` up to ASCII case.
pub open spec fn first_case_match(value: Seq<char>, cands: Seq<Seq<char>>, i: int) -> bool {
    &&& 0 <= i < cands.len()
    &&& eq_ignore_case(cands[i], value)
    &&& forall|j: int| 0 <= j < i ==> !eq_ignore_case(#[trigger] cands[j], value)
}

/// `k` is the first candidate with the lowest score.
pub open spec fn first_best(value: Seq<char>, cands: Seq<Seq<char>>, k: int) -> bool {
    &&& 0 <= k < cands.len()
    &&& forall|j: int| 0 <= j < cands.len() ==> score(value, cands[k]) <= score(value, #[trigger] cands[j])
    &&& forall|j: int| 0 <= j < k ==> score(value, cands[k]) < score(value, #[trigger] cands[j])
}

/// The suggestion for `value`: the first candidate equal to it up to ASCII
/// case; failing that, the first candidate with the lowest score, if that
/// score is within the threshold.
pub open spec fn suggestion(value: Seq<char>, cands: Seq<Seq<char>>) -> Option<int> {
    if exists|i: int| first_case_match(value, cands, i) {
        Some(choose|i: int| first_case_match(value, cands, i))
    } else if exists|k: int| first_best(value, cands, k) {
        let k = choose|k: int| first_best(value, cands, k);
        if score(value, cands[k]) <= threshold(value) {
            Some(k)
        } else {
            None
        }
    } else {
        None
    }
}

/// The views of a list of string slices.
pub open spec fn views(v: Seq<&str>) -> Seq<Seq<char>> {
    v.map_values(|s: &str| s@)
}

/// The text appended to an error about `value`.
pub open spec fn suggestion_text(value: Seq<char>, cands: Seq<Seq<char>>) -> Seq<char> {
    match suggestion(value, cands) {
        Some(i) => " (did you mean `"@ + cands[i] + "`?)"@,
        None => seq![],
    }
}

/// The distance between two words is at most the length of the longer one.
pub proof fn lemma_lev_bound(a: Seq<char>, b: Seq<char>)
    ensures
        lev(a, b) <= if a.len() >= b.len() { a.len() } else { b.len() },
    decreases a.len() + b.len(),
{
    if a.len() > 0 && b.len() > 0 {
        lemma_lev_bound(a.drop_last(), b.drop_last());
    }
}

/// A word is at distance zero from itself.
pub proof fn lemma_lev_self(a: Seq<char>)
    ensures
        lev(a, a) == 0,
    decreases a.len(),
{
    if a.len() > 0 {
        lemma_lev_self(a.drop_last());
    }
}

/// The distance from `a` to `b` is the distance from `b` to `a`.
pub proof fn lemma_lev_symmetric(a: Seq<char>, b: Seq<char>)
    ensures
        lev(a, b) == lev(b, a),
    decreases a.len() + b.len(),
{
    if a.len() > 0 && b.len() > 0 {
        lemma_lev_symmetric(a, b.drop_last());
        lemma_lev_symmetric(a.drop_last(), b);
        lemma_lev_symmetric(a.drop_last(), b.drop_last());
    }
}

/// The distance is zero exactly when the two words are equal.
pub proof fn lemma_lev_zero(a: Seq<char>, b: Seq<char>)
    ensures
        lev(a, b) == 0 <==> a == b,
    decreases a.len() + b.len(),
{
    if a == b {
        lemma_lev_self(a);
    } else if a.len() > 0 && b.len() > 0 {
        lemma_lev_zero(a.drop_last(), b.drop_last());
        if lev(a, b) == 0 {
            assert(a.last() == b.last());
            assert(a.drop_last() == b.drop_last());
            assert(a =~= a.drop_last().push(a.last()));
            assert(b =~= b.drop_last().push(b.last()));
        }
    } else if a.len() == 0 && b.len() == 0 {
        assert(a =~= b);
    }
}

/// The edit distance is symmetric, is zero exactly on equal words, and is
/// at most the length of the longer word.
pub proof fn law_edit_distance(a: Seq<char>, b: Seq<char>)
    ensures
        lev(a, b) == lev(b, a),
        lev(a, b) == 0 <==> a == b,
        lev(a, b) <= if a.len() >= b.len() { a.len() } else { b.len() },
{
    lemma_lev_symmetric(a, b);
    lemma_lev_zero(a, b);
    lemma_lev_bound(a, b);
}

/// Levenshtein distance between two strings, counted in characters.
pub fn edit_distance(a: &str, b: &str) -> (r: usize)
    requires
        a@.len() < usize::MAX,
        b@.len() < usize::MAX,
    ensures
        r == lev(a@, b@),
{
    if crate::text::str_eq(a, b) {
        proof {
            lemma_lev_self(a@);
        }
        return 0;
    }
    let a_chars = chars_of(a);
    let b_chars = chars_of(b);
    let n = a_chars.len();
    let m = b_chars.len();
    if n == 0 {
        return m;
    }
    if m == 0 {
        return n;
    }
    let ghost sa = a@;
    let ghost sb = b@;
    let mut prev: Vec<usize> = Vec::new();
    let mut j: usize = 0;
    while j <= m
        invariant
            m == sb.len(),
            m < usize::MAX,
            j <= m + 1,
            prev@.len() == j,
            forall|k: int| 0 <= k < j ==> prev@[k] == lev(sa.subrange(0, 0), sb.subrange(0, k)),
        decreases m + 1 - j,
    {
        proof {
            assert(lev(sa.subrange(0, 0), sb.subrange(0, j as int)) == j);
        }
        prev.push(j);
        j = j + 1;
    }
    let mut i: usize = 0;
    while i < n
        invariant
            n == sa.len(),
            m == sb.len(),
            a_chars@ == sa,
            b_chars@ == sb,
            n < usize::MAX,
            m < usize::MAX,
            0 < m,
            i <= n,
            prev@.len() == m + 1,
            forall|k: int| 0 <= k <= m ==> prev@[k] == lev(sa.subrange(0, i as int), sb.subrange(0, k)),
        decreases n - i,
    {
        let mut curr: Vec<usize> = Vec::new();
        let ghost ai = sa.subrange(0, i + 1);
        proof {
            assert(lev(ai, sb.subrange(0, 0)) == i + 1);
        }
        curr.push(i + 1);
        let mut k: usize = 0;
        while k < m
            invariant
                n == sa.len(),
                m == sb.len(),
                a_chars@ == sa,
                b_chars@ == sb,
                n < usize::MAX,
                m < usize::MAX,
                i < n,
                k <= m,
                ai == sa.subrange(0, i + 1),
                prev@.len() == m + 1,
                forall|q: int| 0 <= q <= m ==> prev@[q] == lev(sa.subrange(0, i as int), sb.subrange(0, q)),
                curr@.len() == k + 1,
                forall|q: int| 0 <= q <= k ==> curr@[q] == lev(ai, sb.subrange(0, q)),
            decreases m - k,
        {
            let cost: usize = if a_chars[i] == b_chars[k] { 0 } else { 1 };
            let ghost bk = sb.subrange(0, k + 1);
            proof {
                assert(ai.drop_last() =~= sa.subrange(0, i as int));
                assert(bk.drop_last() =~= sb.subrange(0, k as int));
                assert(ai.last() == a_chars@[i as int]);
                assert(bk.last() == b_chars@[k as int]);
                lemma_lev_bound(ai, sb.subrange(0, k as int));
                lemma_lev_bound(sa.subrange(0, i as int), bk);
                lemma_lev_bound(sa.subrange(0, i as int), sb.subrange(0, k as int));
            }
            let insertion = curr[k] + 1;
            let deletion = prev[k + 1] + 1;
            let substitution = prev[k] + cost;
            let best_of_two = if insertion <= deletion { insertion } else { deletion };
            let best = if best_of_two <= substitution { best_of_two } else { substitution };
            curr.push(best);
            k = k + 1;
        }
        prev = curr;
        i = i + 1;
    }
    proof {
        assert(sa.subrange(0, n as int) =~= sa);
        assert(sb.subrange(0, m as int) =~= sb);
    }
    prev[m]
}

/// ASCII case-insensitive equality of two characters.
fn char_eq_ignore_case(a: char, b: char) -> (r: bool)
    ensures
        r == (lower_code(a) == lower_code(b)),
{
    let la: u32 = if 'A' <= a && a <= 'Z' { (a as u32) + 32 } else { a as u32 };
    let lb: u32 = if 'A' <= b && b <= 'Z' { (b as u32) + 32 } else { b as u32 };
    la == lb
}

/// `str::eq_ignore_ascii_case`.
pub fn eq_ignore_ascii_case(a: &str, b: &str) -> (r: bool)
    ensures
        r == eq_ignore_case(a@, b@),
{
    let n = a.unicode_len();
    if n != b.unicode_len() {
        return false;
    }
    let mut i: usize = 0;
    while i < n
        invariant
            n == a@.len(),
            n == b@.len(),
            i <= n,
            forall|k: int| 0 <= k < i ==> lower_code(#[trigger] a@[k]) == lower_code(b@[k]),
        decreases n - i,
    {
        if !char_eq_ignore_case(a.get_char(i), b.get_char(i)) {
            return false;
        }
        i = i + 1;
    }
    true
}


/// Every string in the list is shorter than `usize::MAX` characters.
pub open spec fn all_short(v: Seq<Seq<char>>) -> bool {
    forall|i: int| 0 <= i < v.len() ==> (#[trigger] v[i]).len() < usize::MAX
}

proof fn lemma_score_bound(value: Seq<char>, cand: Seq<char>)
    requires
        value.len() < usize::MAX,
        cand.len() < usize::MAX,
    ensures
        0 <= score(value, cand) <= usize::MAX,
{
    lemma_lev_bound(value, cand);
}

/// The nearest candidate to a mistyped `value`, if one is near enough.
pub fn suggest<'a>(value: &str, candidates: &[&'a str]) -> (r: Option<&'a str>)
    requires
        value@.len() < usize::MAX,
        all_short(views(candidates@)),
    ensures
        r is Some <==> suggestion(value@, views(candidates@)) is Some,
        r is Some ==> r->0@ == views(candidates@)[suggestion(value@, views(candidates@))->0],
{
    let ghost cands = views(candidates@);
    let ghost v = value@;
    let mut best: Option<usize> = None;
    let mut best_distance: usize = usize::MAX;
    let mut idx: usize = 0;
    while idx < candidates.len()
        invariant
            cands == views(candidates@),
            v == value@,
            v.len() < usize::MAX,
            all_short(cands),
            idx <= candidates@.len(),
            forall|j: int| 0 <= j < idx ==> !eq_ignore_case(#[trigger] cands[j], v),
            match best {
                Some(b) => {
                    &&& b < idx
                    &&& best_distance == score(v, cands[b as int])
                    &&& best_distance < usize::MAX
                    &&& forall|j: int| 0 <= j < idx ==> score(v, cands[b as int]) <= score(v, #[trigger] cands[j])
                    &&& forall|j: int| 0 <= j < b ==> score(v, cands[b as int]) < score(v, #[trigger] cands[j])
                },
                None => {
                    &&& best_distance == usize::MAX
                    &&& forall|j: int| 0 <= j < idx ==> score(v, #[trigger] cands[j]) >= usize::MAX
                },
            },
        decreases candidates@.len() - idx,
    {
        let candidate = candidates[idx];
        assert(cands[idx as int] == candidate@);
        proof {
            lemma_score_bound(v, cands[idx as int]);
        }
        if eq_ignore_ascii_case(candidate, value) {
            proof {
                assert(first_case_match(v, cands, idx as int));
                assert forall|i: int| #[trigger] first_case_match(v, cands, i) implies i == idx by {
                    if i < idx {
                        assert(!eq_ignore_case(cands[i], v));
                    }
                    if i > idx {
                        assert(!eq_ignore_case(cands[idx as int], v));
                    }
                }
            }
            return Some(candidate);
        }
        let distance: usize = if starts_with(candidate, value) || starts_with(value, candidate) {
            let cl = candidate.len();
            let vl = value.len();
            if cl >= vl {
                cl - vl
            } else {
                vl - cl
            }
        } else {
            edit_distance(value, candidate)
        };
        assert(distance == score(v, cands[idx as int]));
        if distance < best_distance {
            best = Some(idx);
            best_distance = distance;
        }
        idx = idx + 1;
    }
    proof {
        assert(!exists|i: int| first_case_match(v, cands, i));
    }
    let limit: usize = if value.len() <= 4 { 1 } else { 2 };
    assert(limit == threshold(v));
    match best {
        Some(b) => {
            proof {
                assert(first_best(v, cands, b as int));
                assert forall|k: int| #[trigger] first_best(v, cands, k) implies k == b by {
                    if k < b {
                        assert(score(v, cands[b as int]) < score(v, cands[k]));
                    }
                    if k > b {
                        assert(score(v, cands[k]) < score(v, cands[b as int]));
                    }
                }
            }
            if best_distance <= limit {
                Some(candidates[b])
            } else {
                None
            }
        },
        None => {
            proof {
                if exists|k: int| first_best(v, cands, k) {
                    let k = choose|k: int| first_best(v, cands, k);
                    lemma_score_bound(v, cands[k]);
                }
            }
            None
        },
    }
}

/// The " (did you mean `...`?)" hint for a mistyped `value`, or nothing.
pub fn suggestion_suffix(value: &str, candidates: &[&str]) -> (r: String)
    requires
        value@.len() < usize::MAX,
        all_short(views(candidates@)),
    ensures
        r@ == suggestion_text(value@, views(candidates@)),
{
    match suggest(value, candidates) {
        Some(candidate) => {
            let mut out = String::from_str(" (did you mean `");
            out.append(candidate);
            out.append("`?)");
            out
        },
        None => String::new(),
    }
}

} // verus!
