//! The report formatter: a pure function from the event log to the text of
//! the report.
//!
//! Each closed event produces one line, `name | duration ns | percent%`, with
//! the name right-aligned to the widest name, the duration right-aligned to
//! the widest duration, and the truncated percentage of the total duration
//! right-aligned to three characters. Lines are ordered by duration, largest
//! first, stable on ties. An event still open at render time adds a warning
//! line instead of failing.

use vstd::prelude::*;

use crate::digits::dec_str;
use crate::digits::push_decimal;
use crate::sorting::Entry;
use crate::sorting::sort_desc;
use crate::sorting::sort_entries;

verus! {

/// `n` space characters.
pub open spec fn spaces(n: nat) -> Seq<char> {
    Seq::new(n, |i: int| ' ')
}

/// `s` right-aligned in a field of `w` characters (unchanged if wider).
pub open spec fn pad_left(s: Seq<char>, w: nat) -> Seq<char> {
    if s.len() >= w {
        s
    } else {
        spaces((w - s.len()) as nat) + s
    }
}

/// The truncated percentage `d` is of `total`; 0 when `total` is 0, so that a
/// report with no time recorded never divides by zero.
pub open spec fn percent_of(d: nat, total: nat) -> nat {
    if total == 0 {
        0
    } else {
        d * 100 / total
    }
}

/// One report line for the entry `e`.
pub open spec fn spec_line(e: Entry, name_w: nat, dur_w: nat, total: nat) -> Seq<char> {
    pad_left(e.0@, name_w) + " | "@ + pad_left(dec_str(e.1 as nat), dur_w) + " ns | "@ + pad_left(
        dec_str(percent_of(e.1 as nat, total)),
        3,
    ) + "%\n"@
}

/// The report lines for the entries of `s`, in order.
pub open spec fn spec_lines(s: Seq<Entry>, name_w: nat, dur_w: nat, total: nat) -> Seq<char>
    decreases s.len(),
{
    if s.len() == 0 {
        Seq::empty()
    } else {
        spec_lines(s.drop_last(), name_w, dur_w, total) + spec_line(s.last(), name_w, dur_w, total)
    }
}

/// The length of the longest name among all started events; 0 if none.
pub open spec fn max_name_width(names: Seq<&'static str>) -> nat
    decreases names.len(),
{
    if names.len() == 0 {
        0
    } else {
        let rest = max_name_width(names.drop_last());
        let l = names.last()@.len();
        if l > rest {
            l
        } else {
            rest
        }
    }
}

/// The largest recorded duration; 0 if none.
pub open spec fn max_duration(durs: Seq<u64>) -> u64
    decreases durs.len(),
{
    if durs.len() == 0 {
        0
    } else {
        let rest = max_duration(durs.drop_last());
        if durs.last() > rest {
            durs.last()
        } else {
            rest
        }
    }
}

/// The width of the duration column: the decimal width of the largest
/// recorded duration, or 0 when nothing is recorded yet.
pub open spec fn duration_width(durs: Seq<u64>) -> nat {
    if durs.len() == 0 {
        0
    } else {
        dec_str(max_duration(durs) as nat).len()
    }
}

/// The sum of all recorded durations, in nanoseconds.
pub open spec fn sum_durations(durs: Seq<u64>) -> nat
    decreases durs.len(),
{
    if durs.len() == 0 {
        0
    } else {
        sum_durations(durs.drop_last()) + durs.last() as nat
    }
}

/// The closed events: `names[i]` paired with `durations[i]`, one entry per
/// recorded duration.
pub open spec fn closed_entries(names: Seq<&'static str>, durs: Seq<u64>) -> Seq<Entry> {
    Seq::new(durs.len(), |i: int| (names[i], durs[i]))
}

/// The warning line for an event left open at render time.
pub open spec fn warning_line(name: Seq<char>) -> Seq<char> {
    "WARNING: timer event `"@ + name + "` has not been finished properly, run finish()\n"@
}

/// The name of the last started event; empty if none was started.
pub open spec fn last_name(names: Seq<&'static str>) -> Seq<char> {
    if names.len() == 0 {
        Seq::empty()
    } else {
        names.last()@
    }
}

/// The full report text: one line per closed event, most expensive first,
/// followed by the warning line when an event is still open.
pub open spec fn spec_report(names: Seq<&'static str>, durs: Seq<u64>, open: bool) -> Seq<char> {
    let body = spec_lines(
        sort_desc(closed_entries(names, durs)),
        max_name_width(names),
        duration_width(durs),
        sum_durations(durs),
    );
    if open {
        body + warning_line(last_name(names))
    } else {
        body
    }
}

/// Appends `n` spaces to `out`.
fn push_spaces(out: &mut String, n: usize)
    ensures
        final(out)@ == old(out)@ + spaces(n as nat),
{
    let mut i: usize = 0;
    while i < n
        invariant
            i <= n,
            out@ == old(out)@ + spaces(i as nat),
        decreases n - i,
    {
        out.append(" ");
        proof {
            reveal_strlit(" ");
            assert(out@ =~= old(out)@ + spaces((i + 1) as nat));
        }
        i += 1;
    }
    proof {
        assert(out@ =~= old(out)@ + spaces(n as nat));
    }
}

/// Appends `text` to `out`, right-aligned in a field of `width` characters.
fn push_padded(out: &mut String, text: &str, width: usize)
    ensures
        final(out)@ == old(out)@ + pad_left(text@, width as nat),
{
    let len = text.unicode_len();
    if len < width {
        push_spaces(out, width - len);
    }
    out.append(text);
}

/// The length of the longest name in `names`; 0 if there are none.
pub fn max_name_len(names: &Vec<&'static str>) -> (r: usize)
    ensures
        r as nat == max_name_width(names@),
{
    let mut m: usize = 0;
    let mut i: usize = 0;
    while i < names.len()
        invariant
            i <= names@.len(),
            m as nat == max_name_width(names@.take(i as int)),
        decreases names@.len() - i,
    {
        let l = names[i].unicode_len();
        if l > m {
            m = l;
        }
        proof {
            let t = names@.take(i + 1int);
            assert(t.drop_last() =~= names@.take(i as int));
            assert(t.last() == names@[i as int]);
        }
        i += 1;
    }
    proof {
        assert(names@.take(names@.len() as int) =~= names@);
    }
    m
}

/// The largest duration in `durs`; 0 if there are none.
fn max_dur(durs: &Vec<u64>) -> (r: u64)
    ensures
        r == max_duration(durs@),
{
    let mut m: u64 = 0;
    let mut i: usize = 0;
    while i < durs.len()
        invariant
            i <= durs@.len(),
            m == max_duration(durs@.take(i as int)),
        decreases durs@.len() - i,
    {
        if durs[i] > m {
            m = durs[i];
        }
        proof {
            let t = durs@.take(i + 1int);
            assert(t.drop_last() =~= durs@.take(i as int));
            assert(t.last() == durs@[i as int]);
        }
        i += 1;
    }
    proof {
        assert(durs@.take(durs@.len() as int) =~= durs@);
    }
    m
}

/// Any partial sum of durations is bounded by the count of summands times the
/// largest duration value, so the running total below fits in a `u128`.
proof fn lemma_sum_bound(durs: Seq<u64>)
    ensures
        sum_durations(durs) <= durs.len() * 0xffff_ffff_ffff_ffffnat,
    decreases durs.len(),
{
    if durs.len() == 0 {
    } else {
        lemma_sum_bound(durs.drop_last());
        assert((durs.len() - 1) * 0xffff_ffff_ffff_ffffnat + 0xffff_ffff_ffff_ffffnat
            == durs.len() * 0xffff_ffff_ffff_ffffnat) by (nonlinear_arith);
    }
}

/// The total time all recorded events took, in nanoseconds.
pub fn total_duration(durs: &Vec<u64>) -> (r: u128)
    ensures
        r as nat == sum_durations(durs@),
{
    let mut t: u128 = 0;
    let mut i: usize = 0;
    while i < durs.len()
        invariant
            i <= durs@.len(),
            t as nat == sum_durations(durs@.take(i as int)),
        decreases durs@.len() - i,
    {
        proof {
            let taken = durs@.take(i + 1int);
            assert(taken.drop_last() =~= durs@.take(i as int));
            assert(taken.last() == durs@[i as int]);
            lemma_sum_bound(taken);
            assert(taken.len() * 0xffff_ffff_ffff_ffffnat
                <= 0xffff_ffff_ffff_ffffnat * 0xffff_ffff_ffff_ffffnat) by (nonlinear_arith)
                requires taken.len() <= 0xffff_ffff_ffff_ffffnat;
        }
        t = t + durs[i] as u128;
        i += 1;
    }
    proof {
        assert(durs@.take(durs@.len() as int) =~= durs@);
    }
    t
}

/// The decimal width of `n`.
fn decimal_width(n: u64) -> (r: usize)
    ensures
        r as nat == dec_str(n as nat).len(),
{
    let mut s = String::new();
    push_decimal(&mut s, n as u128);
    s.as_str().unicode_len()
}

/// The width of the duration column: the decimal width of the largest
/// duration in `durs`, or 0 if there are none.
pub fn max_duration_len(durs: &Vec<u64>) -> (r: usize)
    ensures
        r as nat == duration_width(durs@),
{
    if durs.len() == 0 {
        0
    } else {
        decimal_width(max_dur(durs))
    }
}

/// Appends one report line for `e` to `out`.
fn push_line(out: &mut String, e: Entry, name_w: usize, dur_w: usize, total: u128)
    ensures
        final(out)@ == old(out)@ + spec_line(e, name_w as nat, dur_w as nat, total as nat),
{
    push_padded(out, e.0, name_w);
    out.append(" | ");
    let mut dstr = String::new();
    push_decimal(&mut dstr, e.1 as u128);
    push_padded(out, dstr.as_str(), dur_w);
    out.append(" ns | ");
    let pct: u128 = if total == 0 {
        0
    } else {
        (e.1 as u128) * 100 / total
    };
    proof {
        assert(pct as nat == percent_of(e.1 as nat, total as nat));
    }
    let mut pstr = String::new();
    push_decimal(&mut pstr, pct);
    push_padded(out, pstr.as_str(), 3);
    out.append("%\n");
    proof {
        assert(out@ =~= old(out)@ + spec_line(e, name_w as nat, dur_w as nat, total as nat));
    }
}

/// Renders the report for the given event log: `names` in start order, one
/// recorded duration per closed event, and whether an event is still open.
///
/// The result is one line per closed event, most expensive first, stable on
/// ties, with truncated percentages of the total duration (0% throughout when
/// the total is zero), followed by a warning line naming the last started
/// event when `open` holds.
pub fn format_report(names: &Vec<&'static str>, durations: &Vec<u64>, open: bool) -> (r: String)
    requires
        durations@.len() <= names@.len(),
    ensures
        r@ == spec_report(names@, durations@, open),
{
    let name_w = max_name_len(names);
    let dur_w = max_duration_len(durations);
    let total = total_duration(durations);
    let mut entries: Vec<Entry> = Vec::new();
    let mut i: usize = 0;
    while i < durations.len()
        invariant
            i <= durations@.len() <= names@.len(),
            entries@ == closed_entries(names@, durations@).take(i as int),
        decreases durations@.len() - i,
    {
        entries.push((names[i], durations[i]));
        proof {
            assert(entries@ =~= closed_entries(names@, durations@).take(i + 1int));
        }
        i += 1;
    }
    proof {
        assert(closed_entries(names@, durations@).take(durations@.len() as int) =~= closed_entries(
            names@,
            durations@,
        ));
    }
    let sorted = sort_entries(&entries);
    let mut out = String::new();
    let mut k: usize = 0;
    while k < sorted.len()
        invariant
            k <= sorted@.len(),
            sorted@ == sort_desc(closed_entries(names@, durations@)),
            name_w as nat == max_name_width(names@),
            dur_w as nat == duration_width(durations@),
            total as nat == sum_durations(durations@),
            out@ == spec_lines(
                sorted@.take(k as int),
                name_w as nat,
                dur_w as nat,
                total as nat,
            ),
        decreases sorted@.len() - k,
    {
        push_line(&mut out, sorted[k], name_w, dur_w, total);
        proof {
            let t = sorted@.take(k + 1int);
            assert(t.drop_last() =~= sorted@.take(k as int));
            assert(t.last() == sorted@[k as int]);
        }
        k += 1;
    }
    proof {
        assert(sorted@.take(sorted@.len() as int) =~= sorted@);
    }
    if open {
        out.append("WARNING: timer event `");
        let nm: &'static str = if names.len() > 0 {
            names[names.len() - 1]
        } else {
            ""
        };
        proof {
            reveal_strlit("");
            assert(nm@ == last_name(names@));
        }
        out.append(nm);
        out.append("` has not been finished properly, run finish()\n");
        proof {
            assert(out@ =~= spec_report(names@, durations@, open));
        }
    }
    out
}

} // verus!
