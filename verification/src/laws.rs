//! What holds of the daemon's answers over any filter and any sequence of requests.
use vstd::prelude::*;
use vstd::relations::sorted_by;
use vstd::seq_lib::{group_to_multiset_ensures, lemma_sorted_unique};
use vstd::multiset::group_multiset_axioms;
use crate::cli::{GammaChange, GetField, IdentityValue, Percent, RequestView, TemperatureChange};
use crate::daemon::{
    backend_choice, gamma_in_range, line_outcome, request_outcome, reset_filter, sorted_ids,
    temperature_in_range, BackendKind, FilterView, OutputView,
};
use crate::num::{nat_digits, percent_text};
use crate::order::{
    lemma_text_lt_irreflexive, lemma_text_order_total, sorted_insert, strictly_sorted,
    text_order, text_strict_order,
};
use crate::roundtrip::lemma_wire_roundtrip;
use crate::text::is_prefix;

verus! {

proof fn lemma_strict_no_duplicates(s: Seq<Seq<char>>)
    requires
        strictly_sorted(s),
    ensures
        s.no_duplicates(),
{
    assert forall|i: int, j: int| 0 <= i < s.len() && 0 <= j < s.len() && i != j implies s[i] != s[j] by {
        if i < j {
            assert(text_strict_order()(s[i], s[j]));
            lemma_text_lt_irreflexive(s[i]);
        } else {
            assert(text_strict_order()(s[j], s[i]));
            lemma_text_lt_irreflexive(s[j]);
        }
    }
}

proof fn lemma_strict_sorted_le(s: Seq<Seq<char>>)
    requires
        strictly_sorted(s),
    ensures
        sorted_by(s, text_order()),
{
    assert forall|i: int, j: int| 0 <= i < j < s.len() implies #[trigger] text_order()(s[i], s[j]) by {
        assert(text_strict_order()(s[i], s[j]));
    }
}

/// Two strictly sorted lists with the same texts are the same list.
proof fn lemma_same_texts_equal(a: Seq<Seq<char>>, b: Seq<Seq<char>>)
    requires
        strictly_sorted(a),
        strictly_sorted(b),
        forall|y: Seq<char>| a.contains(y) <==> b.contains(y),
    ensures
        a == b,
{
    broadcast use group_to_multiset_ensures, group_multiset_axioms;
    lemma_strict_no_duplicates(a);
    lemma_strict_no_duplicates(b);
    a.lemma_multiset_has_no_duplicates();
    b.lemma_multiset_has_no_duplicates();
    assert(a.to_multiset() =~= b.to_multiset()) by {
        assert forall|y: Seq<char>| a.to_multiset().count(y) == b.to_multiset().count(y) by {
            if a.contains(y) {
                assert(a.to_multiset().contains(y));
                assert(b.to_multiset().contains(y));
            } else {
                assert(!b.contains(y));
            }
        }
    }
    lemma_strict_sorted_le(a);
    lemma_strict_sorted_le(b);
    lemma_text_order_total();
    lemma_sorted_unique(a, b, text_order());
}

/// Adding an id to a strictly sorted list keeps it strictly sorted, and it then
/// holds the id and what it held before, nothing else.
pub proof fn lemma_sorted_insert(s: Seq<Seq<char>>, x: Seq<char>)
    requires
        strictly_sorted(s),
    ensures
        strictly_sorted(sorted_insert(s, x)),
        forall|y: Seq<char>| #[trigger] sorted_insert(s, x).contains(y) <==> (s.contains(y) || y == x),
{
    broadcast use group_to_multiset_ensures, group_multiset_axioms;
    if !s.contains(x) {
        let p = s.push(x);
        let t = p.sort_by(text_order());
        lemma_text_order_total();
        p.lemma_sort_by_ensures(text_order());
        lemma_strict_no_duplicates(s);
        s.lemma_multiset_has_no_duplicates();
        assert forall|y: Seq<char>| t.to_multiset().contains(y) implies t.to_multiset().count(y) == 1 by {
            assert(p.to_multiset() =~= s.to_multiset().insert(x));
            if y == x {
                assert(s.to_multiset().count(x) == 0);
            } else {
                assert(s.to_multiset().count(y) == 1);
            }
        }
        t.lemma_multiset_has_no_duplicates_conv();
        assert forall|i: int, j: int| 0 <= i < j < t.len() implies #[trigger] text_strict_order()(t[i], t[j]) by {
            assert(text_order()(t[i], t[j]));
        }
        assert forall|y: Seq<char>| #[trigger] t.contains(y) <==> (s.contains(y) || y == x) by {
            assert(p.to_multiset() =~= s.to_multiset().insert(x));
            assert(t.contains(y) <==> t.to_multiset().count(y) > 0);
            assert(s.contains(y) <==> s.to_multiset().count(y) > 0);
        }
    }
}

/// Taking an id out of a strictly sorted list keeps it strictly sorted, and it
/// then holds what it held before but that id.
pub proof fn lemma_remove_value(s: Seq<Seq<char>>, x: Seq<char>)
    requires
        strictly_sorted(s),
    ensures
        strictly_sorted(s.remove_value(x)),
        forall|y: Seq<char>| #[trigger] s.remove_value(x).contains(y) <==> (s.contains(y) && y != x),
{
    s.index_of_first_ensures(x);
    lemma_strict_no_duplicates(s);
    match s.index_of_first(x) {
        None => {},
        Some(k) => {
            let t = s.remove(k);
            assert forall|a: int, b: int| 0 <= a < b < t.len() implies #[trigger] text_strict_order()(t[a], t[b]) by {
                let a0 = if a < k { a } else { a + 1 };
                let b0 = if b < k { b } else { b + 1 };
                assert(text_strict_order()(s[a0], s[b0]));
            }
            assert forall|y: Seq<char>| #[trigger] t.contains(y) <==> (s.contains(y) && y != x) by {
                if t.contains(y) {
                    let i = choose|i: int| 0 <= i < t.len() && t[i] == y;
                    let i0 = if i < k { i } else { i + 1 };
                    assert(s[i0] == y);
                    assert(i0 != k);
                }
                if s.contains(y) && y != x {
                    let i = choose|i: int| 0 <= i < s.len() && s[i] == y;
                    assert(i != k);
                    let i1 = if i < k { i } else { i - 1 };
                    assert(t[i1] == y);
                }
            }
        },
    }
}

/// The filter a run starts with excludes exactly the outputs its options
/// name, in sorted order, each once.
pub proof fn law_start_excludes(ids: Seq<Seq<char>>)
    ensures
        strictly_sorted(sorted_ids(ids)),
        forall|y: Seq<char>| #[trigger] sorted_ids(ids).contains(y) <==> ids.contains(y),
    decreases ids.len(),
{
    if ids.len() > 0 {
        law_start_excludes(ids.drop_last());
        lemma_sorted_insert(sorted_ids(ids.drop_last()), ids.last());
        assert forall|y: Seq<char>| ids.contains(y) <==> (ids.drop_last().contains(y) || y == ids.last()) by {
            if ids.contains(y) {
                let j = choose|j: int| 0 <= j < ids.len() && ids[j] == y;
                if j < ids.len() - 1 {
                    assert(ids.drop_last()[j] == y);
                }
            }
            if ids.drop_last().contains(y) {
                let j = choose|j: int| 0 <= j < ids.len() - 1 && ids.drop_last()[j] == y;
                assert(ids[j] == y);
            }
        }
    } else {
        assert(strictly_sorted(Seq::<Seq<char>>::empty()));
    }
}

/// Excluding an output and then including it again gives back the excluded
/// ids as they were, where the output was not excluded before.
pub proof fn law_exclude_then_include(f: FilterView, outputs: Seq<OutputView>, b: BackendKind, id: Seq<char>)
    requires
        strictly_sorted(f.excluded_ids),
        !f.excluded_ids.contains(id),
    ensures
        ({
            let added = request_outcome(RequestView::ExcludeAdd(id), f, outputs, b);
            let removed = request_outcome(RequestView::ExcludeRemove(id), added.filter, outputs, b);
            &&& added.filter.excluded_ids.contains(id)
            &&& removed.filter == f
        }),
{
    let s = f.excluded_ids;
    lemma_sorted_insert(s, id);
    let t = sorted_insert(s, id);
    lemma_remove_value(t, id);
    lemma_same_texts_equal(t.remove_value(id), s);
}

/// An `exclude add` leaves the excluded ids strictly sorted, holding the new
/// id and those before; `exclude remove` leaves them strictly sorted without it.
pub proof fn law_exclusions_stay_sorted(f: FilterView, outputs: Seq<OutputView>, b: BackendKind, id: Seq<char>)
    requires
        strictly_sorted(f.excluded_ids),
    ensures
        ({
            let added = request_outcome(RequestView::ExcludeAdd(id), f, outputs, b).filter.excluded_ids;
            let removed = request_outcome(RequestView::ExcludeRemove(id), f, outputs, b).filter.excluded_ids;
            &&& strictly_sorted(added)
            &&& forall|y: Seq<char>| #[trigger] added.contains(y) <==> (f.excluded_ids.contains(y) || y == id)
            &&& strictly_sorted(removed)
            &&& forall|y: Seq<char>| #[trigger] removed.contains(y) <==> (f.excluded_ids.contains(y) && y != id)
        }),
{
    lemma_sorted_insert(f.excluded_ids, id);
    lemma_remove_value(f.excluded_ids, id);
}

/// A temperature that was set is the temperature reported, and setting it
/// turns identity off.
pub proof fn law_set_then_get_temperature(f: FilterView, outputs: Seq<OutputView>, b: BackendKind, t: i64)
    requires
        temperature_in_range(t as int),
    ensures
        ({
            let set = request_outcome(RequestView::SetTemperature(TemperatureChange::Absolute(t)), f, outputs, b);
            let get = request_outcome(RequestView::Get(GetField::Temperature), set.filter, outputs, b);
            &&& set.response == "ok"@
            &&& set.needs_apply
            &&& !set.filter.identity
            &&& get.response == "ok temperature="@ + nat_digits(t as nat)
        }),
{
}

/// A gamma that was set is the gamma reported.
pub proof fn law_set_then_get_gamma(f: FilterView, outputs: Seq<OutputView>, b: BackendKind, g: Percent)
    requires
        gamma_in_range(g.micros as int),
    ensures
        ({
            let set = request_outcome(RequestView::SetGamma(GammaChange::Absolute(g)), f, outputs, b);
            let get = request_outcome(RequestView::Get(GetField::Gamma), set.filter, outputs, b);
            &&& set.response == "ok"@
            &&& set.needs_apply
            &&& get.response == "ok gamma="@ + percent_text(g.micros as int)
        }),
{
}

/// `set identity true` turns identity on and `set identity false` turns it
/// off, whatever it was before; the other settings stay, the answer is `ok`,
/// the filter is applied, and `get identity` then reports the value set.
pub proof fn law_set_identity(f: FilterView, outputs: Seq<OutputView>, b: BackendKind, on: bool)
    ensures
        ({
            let set = line_outcome(if on { "set identity true"@ } else { "set identity false"@ }, f, outputs, b);
            let get = line_outcome("get identity"@, set.filter, outputs, b);
            &&& set.response == "ok"@
            &&& set.needs_apply
            &&& !set.should_stop
            &&& set.filter.identity == on
            &&& set.filter.temperature_k == f.temperature_k
            &&& set.filter.gamma_pct == f.gamma_pct
            &&& set.filter.excluded_ids == f.excluded_ids
            &&& get.response == "ok identity="@ + (if on { "true"@ } else { "false"@ })
            &&& get.filter == set.filter
        }),
{
    lemma_wire_roundtrip(RequestView::SetIdentity(IdentityValue::True));
    lemma_wire_roundtrip(RequestView::SetIdentity(IdentityValue::False));
    lemma_wire_roundtrip(RequestView::Get(GetField::Identity));
}

/// Toggling identity twice gives back the filter.
pub proof fn law_toggle_twice(f: FilterView, outputs: Seq<OutputView>, b: BackendKind)
    ensures
        ({
            let once = request_outcome(RequestView::SetIdentity(IdentityValue::Toggle), f, outputs, b);
            let twice = request_outcome(RequestView::SetIdentity(IdentityValue::Toggle), once.filter, outputs, b);
            &&& once.filter.identity == !f.identity
            &&& twice.filter == f
        }),
{
}

/// A reset brings temperature, gamma and identity back to their defaults,
/// keeps the excluded outputs, and a second reset changes nothing more.
pub proof fn law_reset(f: FilterView, outputs: Seq<OutputView>, b: BackendKind)
    ensures
        ({
            let once = request_outcome(RequestView::Reset, f, outputs, b);
            let twice = request_outcome(RequestView::Reset, once.filter, outputs, b);
            &&& once.filter == reset_filter(f)
            &&& once.filter.excluded_ids == f.excluded_ids
            &&& twice.filter == once.filter
        }),
{
}

/// Requests that only read (`get`, `outputs list`, `exclude list`) and `stop`
/// leave the filter as it is and ask for no new apply.
pub proof fn law_reads_keep_filter(r: RequestView, f: FilterView, outputs: Seq<OutputView>, b: BackendKind)
    requires
        r is Get || r is OutputsList || r is ExcludeList || r is Stop,
    ensures
        request_outcome(r, f, outputs, b).filter == f,
        !request_outcome(r, f, outputs, b).needs_apply,
{
}

/// Only `stop` stops the daemon.
pub proof fn law_only_stop_stops(r: RequestView, f: FilterView, outputs: Seq<OutputView>, b: BackendKind)
    ensures
        request_outcome(r, f, outputs, b).should_stop <==> r is Stop,
{
}

/// From a filter within range, every request leaves it within range:
/// temperature in `1000..=20000`, gamma in `0..=200` percent.
pub proof fn law_filter_stays_in_range(line: Seq<char>, f: FilterView, outputs: Seq<OutputView>, b: BackendKind)
    requires
        temperature_in_range(f.temperature_k as int),
        gamma_in_range(f.gamma_pct.micros as int),
    ensures
        temperature_in_range(line_outcome(line, f, outputs, b).filter.temperature_k as int),
        gamma_in_range(line_outcome(line, f, outputs, b).filter.gamma_pct.micros as int),
{
}

/// A line that is refused, or a change out of range, leaves the filter as it
/// is: whatever is answered `error: ` changes nothing and is not applied.
pub proof fn law_errors_change_nothing(line: Seq<char>, f: FilterView, outputs: Seq<OutputView>, b: BackendKind)
    ensures
        is_prefix("error: "@, line_outcome(line, f, outputs, b).response) ==> {
            &&& line_outcome(line, f, outputs, b).filter == f
            &&& !line_outcome(line, f, outputs, b).needs_apply
            &&& !line_outcome(line, f, outputs, b).should_stop
        },
{
    reveal_strlit("error: ");
    reveal_strlit("ok");
    let o = line_outcome(line, f, outputs, b);
    if is_prefix("error: "@, o.response) {
        assert(o.response.subrange(0, 7)[0] == o.response[0]);
        assert(o.response != "ok"@);
    }
}

/// Every change to the filter is applied: an answer that changes the filter
/// always asks for a new apply.
pub proof fn law_changes_are_applied(line: Seq<char>, f: FilterView, outputs: Seq<OutputView>, b: BackendKind)
    ensures
        line_outcome(line, f, outputs, b).filter != f ==> line_outcome(line, f, outputs, b).needs_apply,
{
}

/// Hyprland's color-transform manager is preferred over the wlroots
/// gamma-control manager; with neither, no backend is found.
pub proof fn law_hyprland_preferred(wlr_gamma: bool)
    ensures
        backend_choice(true, wlr_gamma) == Ok::<BackendKind, Seq<char>>(BackendKind::HyprlandCtm),
        backend_choice(false, true) == Ok::<BackendKind, Seq<char>>(BackendKind::WlrGamma),
        backend_choice(false, false) is Err,
{
}

} // verus!
