//! Properties of the report, stated and proved over the same spec functions
//! that the contracts of `format_report` and `Timer::render` use.

use vstd::arithmetic::div_mod::lemma_div_is_ordered;
use vstd::arithmetic::div_mod::lemma_div_multiples_vanish;
use vstd::arithmetic::div_mod::lemma_fundamental_div_mod;
use vstd::prelude::*;

use crate::report::closed_entries;
use crate::report::last_name;
use crate::report::percent_of;
use crate::report::spec_report;
use crate::report::sum_durations;
use crate::report::warning_line;
use crate::sorting::Entry;
use crate::sorting::insert_desc;
use crate::sorting::lemma_sort_desc_filter;
use crate::sorting::lemma_sort_desc_strict;
use crate::sorting::sort_desc;
use crate::sorting::strictly_sorted_desc;
use crate::sorting::with_duration;

verus! {

/// Ordering by cost: when the closed events have pairwise distinct
/// durations, the report lists them in strictly decreasing duration order.
pub proof fn lemma_report_orders_by_cost(names: Seq<&'static str>, durs: Seq<u64>)
    requires
        forall|a: int, b: int| 0 <= a < b < durs.len() ==> durs[a] != durs[b],
    ensures
        strictly_sorted_desc(sort_desc(closed_entries(names, durs))),
{
    let ce = closed_entries(names, durs);
    assert forall|a: int, b: int| 0 <= a < b < ce.len() implies ce[a].1 != ce[b].1 by {
        assert(ce[a].1 == durs[a]);
        assert(ce[b].1 == durs[b]);
    }
    lemma_sort_desc_strict(ce);
}

/// Stability on ties: the closed events of any one duration appear in the
/// report in their original start order.
pub proof fn lemma_report_stable_on_ties(names: Seq<&'static str>, durs: Seq<u64>, d: u64)
    ensures
        with_duration(sort_desc(closed_entries(names, durs)), d) == with_duration(
            closed_entries(names, durs),
            d,
        ),
{
    lemma_sort_desc_filter(closed_entries(names, durs), d);
}

/// The displayed percentages of the entries of `s`, summed in order.
pub open spec fn percent_total(s: Seq<Entry>, total: nat) -> nat
    decreases s.len(),
{
    if s.len() == 0 {
        0
    } else {
        percent_total(s.drop_last(), total) + percent_of(s.last().1 as nat, total)
    }
}

/// The summed durations of the entries of `s`.
pub open spec fn sum_entries(s: Seq<Entry>) -> nat
    decreases s.len(),
{
    if s.len() == 0 {
        0
    } else {
        sum_entries(s.drop_last()) + s.last().1 as nat
    }
}

/// Truncating division loses at most the fractional parts: quotients of a
/// split sum never exceed the quotient of the whole.
proof fn lemma_div_sum(a: int, b: int, t: int)
    requires
        0 <= a,
        0 <= b,
        0 < t,
    ensures
        a / t + b / t <= (a + b) / t,
{
    lemma_fundamental_div_mod(a, t);
    lemma_fundamental_div_mod(b, t);
    let q1 = a / t;
    let q2 = b / t;
    assert(t * (q1 + q2) == t * q1 + t * q2) by (nonlinear_arith);
    assert(a + b >= t * (q1 + q2));
    lemma_div_is_ordered(t * (q1 + q2), a + b, t);
    lemma_div_multiples_vanish(q1 + q2, t);
}

/// A one-entry sequence displays exactly its own percentage.
proof fn lemma_percent_total_singleton(p: Entry, t: nat)
    ensures
        percent_total(seq![p], t) == percent_of(p.1 as nat, t),
{
    let s = seq![p];
    assert(s.last() == p);
    assert(s.drop_last() =~= Seq::<Entry>::empty());
    assert(percent_total(Seq::<Entry>::empty(), t) == 0);
}

/// With a zero total every displayed percentage is zero.
proof fn lemma_percent_total_zero(s: Seq<Entry>)
    ensures
        percent_total(s, 0) == 0,
    decreases s.len(),
{
    if s.len() > 0 {
        lemma_percent_total_zero(s.drop_last());
    }
}

/// The percentage sum is bounded by the percentage of the duration sum.
proof fn lemma_percent_total_le(s: Seq<Entry>, t: nat)
    requires
        t > 0,
    ensures
        percent_total(s, t) <= sum_entries(s) * 100 / t,
    decreases s.len(),
{
    if s.len() == 0 {
    } else {
        let rest = s.drop_last();
        let d = s.last().1 as nat;
        lemma_percent_total_le(rest, t);
        lemma_div_sum(sum_entries(rest) * 100 as int, d * 100 as int, t as int);
        assert((sum_entries(rest) + d) * 100 == sum_entries(rest) * 100 + d * 100)
            by (nonlinear_arith);
    }
}

/// Percentage totals only regroup under concatenation.
proof fn lemma_percent_total_add(a: Seq<Entry>, b: Seq<Entry>, t: nat)
    ensures
        percent_total(a + b, t) == percent_total(a, t) + percent_total(b, t),
    decreases b.len(),
{
    if b.len() == 0 {
        assert(a + b =~= a);
    } else {
        lemma_percent_total_add(a, b.drop_last(), t);
        assert((a + b).drop_last() =~= a + b.drop_last());
        assert((a + b).last() == b.last());
    }
}

/// Inserting an entry adds exactly its percentage to the total.
proof fn lemma_insert_desc_percent(p: Entry, s: Seq<Entry>, t: nat)
    ensures
        percent_total(insert_desc(p, s), t) == percent_total(s, t) + percent_of(p.1 as nat, t),
    decreases s.len(),
{
    if s.len() == 0 {
        lemma_percent_total_singleton(p, t);
        assert(insert_desc(p, s) == seq![p]);
    } else if s[0].1 >= p.1 {
        lemma_insert_desc_percent(p, s.drop_first(), t);
        lemma_percent_total_add(seq![s[0]], insert_desc(p, s.drop_first()), t);
        lemma_percent_total_add(seq![s[0]], s.drop_first(), t);
        assert(s =~= seq![s[0]] + s.drop_first());
        lemma_percent_total_singleton(s[0], t);
    } else {
        lemma_percent_total_add(seq![p], s, t);
        lemma_percent_total_singleton(p, t);
    }
}

/// Sorting does not change the percentage sum.
proof fn lemma_sort_desc_percent(s: Seq<Entry>, t: nat)
    ensures
        percent_total(sort_desc(s), t) == percent_total(s, t),
    decreases s.len(),
{
    if s.len() > 0 {
        lemma_sort_desc_percent(s.drop_last(), t);
        lemma_insert_desc_percent(s.last(), sort_desc(s.drop_last()), t);
    }
}

/// The entries pair the durations unchanged, so their sums agree.
proof fn lemma_sum_entries_closed(names: Seq<&'static str>, durs: Seq<u64>)
    ensures
        sum_entries(closed_entries(names, durs)) == sum_durations(durs),
    decreases durs.len(),
{
    if durs.len() > 0 {
        lemma_sum_entries_closed(names, durs.drop_last());
        let ce = closed_entries(names, durs);
        assert(ce.drop_last() =~= closed_entries(names, durs.drop_last()));
        assert(ce.last().1 == durs.last());
    }
}

/// Percentage sum: the displayed (truncated) percentages of the report, each
/// `floor(duration * 100 / total)`, sum to at most 100.
pub proof fn lemma_report_percent_sum(names: Seq<&'static str>, durs: Seq<u64>)
    ensures
        percent_total(sort_desc(closed_entries(names, durs)), sum_durations(durs)) <= 100,
{
    let ce = closed_entries(names, durs);
    let t = sum_durations(durs);
    lemma_sort_desc_percent(ce, t);
    lemma_sum_entries_closed(names, durs);
    if t == 0 {
        lemma_percent_total_zero(ce);
    } else {
        lemma_percent_total_le(ce, t);
        lemma_div_multiples_vanish(100, t as int);
        assert(sum_entries(ce) * 100 == t as int * 100) by (nonlinear_arith)
            requires sum_entries(ce) == t;
    }
}

/// Open-event warning: rendering with an open event appends exactly the
/// warning line, naming the last started event, to the same closed-event
/// lines a closed log would produce.
pub proof fn lemma_open_event_warning(names: Seq<&'static str>, durs: Seq<u64>)
    ensures
        spec_report(names, durs, true) == spec_report(names, durs, false) + warning_line(
            last_name(names),
        ),
{
}

/// Zero-duration safety: with no closed events the report body is empty, so
/// the whole report is empty or, when an event is open, the warning line
/// alone.
pub proof fn lemma_zero_closed_events(names: Seq<&'static str>, durs: Seq<u64>, open: bool)
    requires
        durs.len() == 0,
    ensures
        spec_report(names, durs, open) == if open {
            warning_line(last_name(names))
        } else {
            Seq::<char>::empty()
        },
{
    assert(closed_entries(names, durs) =~= Seq::<Entry>::empty());
    if open {
        assert(Seq::<char>::empty() + warning_line(last_name(names)) =~= warning_line(
            last_name(names),
        ));
    }
}

} // verus!
