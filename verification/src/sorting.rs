//! Stable descending sort of report entries by duration.
//!
//! The report lists the most expensive event first; entries with equal
//! durations keep their original order. The specification is an insertion
//! sort that inserts each entry after every entry of equal or larger
//! duration, which makes stability part of the definition.

use vstd::prelude::*;

verus! {

/// One report entry: an event name and its duration in nanoseconds.
pub type Entry = (&'static str, u64);

/// `p` inserted into `s` after every entry whose duration is at least `p`'s.
pub open spec fn insert_desc(p: Entry, s: Seq<Entry>) -> Seq<Entry>
    decreases s.len(),
{
    if s.len() == 0 {
        seq![p]
    } else if s[0].1 >= p.1 {
        seq![s[0]] + insert_desc(p, s.drop_first())
    } else {
        seq![p] + s
    }
}

/// `s` sorted by duration, largest first, stable on ties.
pub open spec fn sort_desc(s: Seq<Entry>) -> Seq<Entry>
    decreases s.len(),
{
    if s.len() == 0 {
        s
    } else {
        insert_desc(s.last(), sort_desc(s.drop_last()))
    }
}

/// Durations never increase along `s`.
pub open spec fn sorted_desc(s: Seq<Entry>) -> bool {
    forall|i: int, j: int| 0 <= i < j < s.len() ==> s[i].1 >= s[j].1
}

/// Durations strictly decrease along `s`.
pub open spec fn strictly_sorted_desc(s: Seq<Entry>) -> bool {
    forall|i: int, j: int| 0 <= i < j < s.len() ==> s[i].1 > s[j].1
}

/// The entries of `s` whose duration is exactly `d`, in their order in `s`.
pub open spec fn with_duration(s: Seq<Entry>, d: u64) -> Seq<Entry> {
    s.filter(|p: Entry| p.1 == d)
}

/// Inserting adds one entry; every entry of the result is `p` or one of `s`.
proof fn lemma_insert_desc_elems(p: Entry, s: Seq<Entry>)
    ensures
        insert_desc(p, s).len() == s.len() + 1,
        forall|i: int|
            0 <= i < insert_desc(p, s).len() ==> insert_desc(p, s)[i] == p || s.contains(
                insert_desc(p, s)[i],
            ),
    decreases s.len(),
{
    if s.len() == 0 {
    } else if s[0].1 >= p.1 {
        lemma_insert_desc_elems(p, s.drop_first());
        assert forall|i: int| 0 <= i < insert_desc(p, s).len() implies insert_desc(p, s)[i] == p
            || s.contains(insert_desc(p, s)[i]) by {
            if i == 0 {
                assert(insert_desc(p, s)[0] == s[0]);
                assert(s.contains(s[0]));
            } else {
                let q = insert_desc(p, s.drop_first())[i - 1];
                assert(insert_desc(p, s)[i] == q);
                if q != p {
                    let k = choose|k: int|
                        0 <= k < s.drop_first().len() && s.drop_first()[k] == q;
                    assert(s[k + 1] == q);
                }
            }
        }
    } else {
        assert forall|i: int| 0 <= i < insert_desc(p, s).len() implies insert_desc(p, s)[i] == p
            || s.contains(insert_desc(p, s)[i]) by {
            if i > 0 {
                assert(insert_desc(p, s)[i] == s[i - 1]);
            }
        }
    }
}

/// Inserting into a sorted sequence keeps it sorted.
proof fn lemma_insert_desc_sorted(p: Entry, s: Seq<Entry>)
    requires
        sorted_desc(s),
    ensures
        sorted_desc(insert_desc(p, s)),
    decreases s.len(),
{
    if s.len() == 0 {
    } else if s[0].1 >= p.1 {
        assert(sorted_desc(s.drop_first()));
        lemma_insert_desc_sorted(p, s.drop_first());
        lemma_insert_desc_elems(p, s.drop_first());
        let r = insert_desc(p, s);
        assert forall|i: int, j: int| 0 <= i < j < r.len() implies r[i].1 >= r[j].1 by {
            if i == 0 {
                let q = insert_desc(p, s.drop_first())[j - 1];
                assert(r[j] == q);
                if q == p {
                } else {
                    let k = choose|k: int|
                        0 <= k < s.drop_first().len() && s.drop_first()[k] == q;
                    assert(s[k + 1] == q);
                }
            } else {
                assert(r[i] == insert_desc(p, s.drop_first())[i - 1]);
                assert(r[j] == insert_desc(p, s.drop_first())[j - 1]);
            }
        }
    } else {
    }
}

/// Sorting keeps the length; every entry of the result is one of `s`.
pub proof fn lemma_sort_desc_elems(s: Seq<Entry>)
    ensures
        sort_desc(s).len() == s.len(),
        forall|i: int| 0 <= i < sort_desc(s).len() ==> s.contains(#[trigger] sort_desc(s)[i]),
    decreases s.len(),
{
    if s.len() == 0 {
    } else {
        lemma_sort_desc_elems(s.drop_last());
        lemma_insert_desc_elems(s.last(), sort_desc(s.drop_last()));
        assert forall|i: int| 0 <= i < sort_desc(s).len() implies s.contains(
            #[trigger] sort_desc(s)[i],
        ) by {
            let q = sort_desc(s)[i];
            if q == s.last() {
                assert(s[s.len() - 1] == q);
            } else {
                assert(sort_desc(s.drop_last()).contains(q));
                let k = choose|k: int|
                    0 <= k < sort_desc(s.drop_last()).len() && sort_desc(s.drop_last())[k] == q;
                assert(s.drop_last().contains(q));
                let m = choose|m: int| 0 <= m < s.drop_last().len() && s.drop_last()[m] == q;
                assert(s[m] == q);
            }
        }
    }
}

/// The sorted sequence never lists a smaller duration before a larger one.
pub proof fn lemma_sort_desc_sorted(s: Seq<Entry>)
    ensures
        sorted_desc(sort_desc(s)),
    decreases s.len(),
{
    if s.len() == 0 {
    } else {
        lemma_sort_desc_sorted(s.drop_last());
        lemma_insert_desc_sorted(s.last(), sort_desc(s.drop_last()));
    }
}

/// Filtering a one-entry sequence keeps the entry exactly when it matches.
proof fn lemma_with_duration_singleton(x: Entry, d: u64)
    ensures
        with_duration(seq![x], d) == if x.1 == d {
            seq![x]
        } else {
            Seq::<Entry>::empty()
        },
{
    reveal_with_fuel(Seq::filter, 2);
    assert(seq![x].drop_last() =~= Seq::<Entry>::empty());
    if x.1 == d {
        assert(with_duration(seq![x], d) =~= seq![x]);
    } else {
        assert(with_duration(seq![x], d) =~= Seq::<Entry>::empty());
    }
}

/// A sequence without entries of duration `d` filters to the empty sequence.
proof fn lemma_with_duration_none(s: Seq<Entry>, d: u64)
    requires
        forall|i: int| 0 <= i < s.len() ==> s[i].1 != d,
    ensures
        with_duration(s, d) == Seq::<Entry>::empty(),
    decreases s.len(),
{
    reveal_with_fuel(Seq::filter, 1);
    if s.len() == 0 {
        assert(with_duration(s, d) =~= Seq::<Entry>::empty());
    } else {
        lemma_with_duration_none(s.drop_last(), d);
    }
}

/// Inserting into a sorted sequence puts `p` after every earlier entry of its
/// own duration and changes no other duration class.
proof fn lemma_insert_desc_filter(p: Entry, s: Seq<Entry>, d: u64)
    requires
        sorted_desc(s),
    ensures
        with_duration(insert_desc(p, s), d) == if p.1 == d {
            with_duration(s, d).push(p)
        } else {
            with_duration(s, d)
        },
    decreases s.len(),
{
    if s.len() == 0 {
        lemma_with_duration_singleton(p, d);
        lemma_with_duration_none(s, d);
        if p.1 == d {
            assert(with_duration(s, d).push(p) =~= seq![p]);
        }
    } else if s[0].1 >= p.1 {
        assert(sorted_desc(s.drop_first()));
        lemma_insert_desc_filter(p, s.drop_first(), d);
        lemma_with_duration_singleton(s[0], d);
        let head = seq![s[0]];
        let rest = s.drop_first();
        assert(s =~= head + rest);
        Seq::filter_distributes_over_add(head, rest, |q: Entry| q.1 == d);
        Seq::filter_distributes_over_add(head, insert_desc(p, rest), |q: Entry| q.1 == d);
        assert(insert_desc(p, s) == head + insert_desc(p, rest));
        if p.1 == d {
            assert(with_duration(head, d) + with_duration(rest, d).push(p) =~= (with_duration(
                head,
                d,
            ) + with_duration(rest, d)).push(p));
        }
    } else {
        lemma_with_duration_singleton(p, d);
        assert(insert_desc(p, s) == seq![p] + s);
        Seq::filter_distributes_over_add(seq![p], s, |q: Entry| q.1 == d);
        if p.1 == d {
            assert forall|i: int| 0 <= i < s.len() implies s[i].1 != d by {
                if i > 0 {
                    assert(s[0].1 >= s[i].1);
                }
            }
            lemma_with_duration_none(s, d);
            assert(with_duration(seq![p], d) + with_duration(s, d) =~= with_duration(
                s,
                d,
            ).push(p));
        } else {
            assert(with_duration(seq![p], d) + with_duration(s, d) =~= with_duration(s, d));
        }
    }
}

/// Stability: sorting keeps the entries of each duration in their original
/// order.
pub proof fn lemma_sort_desc_filter(s: Seq<Entry>, d: u64)
    ensures
        with_duration(sort_desc(s), d) == with_duration(s, d),
    decreases s.len(),
{
    reveal_with_fuel(Seq::filter, 1);
    if s.len() == 0 {
    } else {
        lemma_sort_desc_filter(s.drop_last(), d);
        lemma_sort_desc_sorted(s.drop_last());
        lemma_insert_desc_filter(s.last(), sort_desc(s.drop_last()), d);
    }
}

/// Inserting an entry whose duration occurs nowhere in a strictly sorted
/// sequence keeps the sequence strictly sorted.
proof fn lemma_insert_desc_strict(p: Entry, s: Seq<Entry>)
    requires
        strictly_sorted_desc(s),
        forall|i: int| 0 <= i < s.len() ==> s[i].1 != p.1,
    ensures
        strictly_sorted_desc(insert_desc(p, s)),
    decreases s.len(),
{
    if s.len() == 0 {
    } else if s[0].1 >= p.1 {
        assert(strictly_sorted_desc(s.drop_first()));
        lemma_insert_desc_strict(p, s.drop_first());
        lemma_insert_desc_elems(p, s.drop_first());
        let r = insert_desc(p, s);
        assert forall|i: int, j: int| 0 <= i < j < r.len() implies r[i].1 > r[j].1 by {
            if i == 0 {
                let q = insert_desc(p, s.drop_first())[j - 1];
                assert(r[j] == q);
                if q == p {
                } else {
                    let k = choose|k: int|
                        0 <= k < s.drop_first().len() && s.drop_first()[k] == q;
                    assert(s[k + 1] == q);
                }
            } else {
                assert(r[i] == insert_desc(p, s.drop_first())[i - 1]);
                assert(r[j] == insert_desc(p, s.drop_first())[j - 1]);
            }
        }
    } else {
    }
}

/// Ordering by cost: with pairwise distinct durations, sorting lists the
/// entries in strictly decreasing duration order.
pub proof fn lemma_sort_desc_strict(s: Seq<Entry>)
    requires
        forall|a: int, b: int| 0 <= a < b < s.len() ==> s[a].1 != s[b].1,
    ensures
        strictly_sorted_desc(sort_desc(s)),
    decreases s.len(),
{
    if s.len() == 0 {
    } else {
        let rest = s.drop_last();
        let p = s.last();
        lemma_sort_desc_strict(rest);
        lemma_sort_desc_elems(rest);
        assert forall|i: int| 0 <= i < sort_desc(rest).len() implies sort_desc(rest)[i].1
            != p.1 by {
            let q = sort_desc(rest)[i];
            assert(rest.contains(q));
            let k = choose|k: int| 0 <= k < rest.len() && rest[k] == q;
            assert(s[k] == q);
        }
        lemma_insert_desc_strict(p, sort_desc(rest));
    }
}

/// Where the scan of `sorted_insert` stops is where `insert_desc` puts `p`.
proof fn lemma_insert_desc_at(p: Entry, s: Seq<Entry>, j: int)
    requires
        0 <= j <= s.len(),
        forall|i: int| 0 <= i < j ==> s[i].1 >= p.1,
        j == s.len() || s[j].1 < p.1,
    ensures
        insert_desc(p, s) == s.take(j) + seq![p] + s.skip(j),
    decreases j,
{
    if j == 0 {
        if s.len() == 0 {
            assert(insert_desc(p, s) =~= s.take(0) + seq![p] + s.skip(0));
        } else {
            assert(s[0].1 < p.1);
            assert(insert_desc(p, s) =~= s.take(0) + seq![p] + s.skip(0));
        }
    } else {
        assert(s[0].1 >= p.1);
        lemma_insert_desc_at(p, s.drop_first(), j - 1);
        assert(insert_desc(p, s) == seq![s[0]] + insert_desc(p, s.drop_first()));
        assert(seq![s[0]] + (s.drop_first().take(j - 1) + seq![p] + s.drop_first().skip(j - 1))
            =~= s.take(j) + seq![p] + s.skip(j));
    }
}

/// Inserts `p` into the sorted vector `v`, after every entry of equal or
/// larger duration.
fn sorted_insert(v: &mut Vec<Entry>, p: Entry)
    ensures
        final(v)@ == insert_desc(p, old(v)@),
{
    let mut j: usize = 0;
    while j < v.len() && v[j].1 >= p.1
        invariant
            j <= v@.len(),
            v@ == old(v)@,
            forall|i: int| 0 <= i < j ==> v@[i].1 >= p.1,
        decreases v@.len() - j,
    {
        j += 1;
    }
    proof {
        lemma_insert_desc_at(p, v@, j as int);
    }
    v.insert(j, p);
    proof {
        assert(v@ =~= old(v)@.take(j as int) + seq![p] + old(v)@.skip(j as int));
    }
}

/// Sorts the entries by duration, largest first, stable on ties.
pub fn sort_entries(entries: &Vec<Entry>) -> (r: Vec<Entry>)
    ensures
        r@ == sort_desc(entries@),
{
    let mut out: Vec<Entry> = Vec::new();
    let mut i: usize = 0;
    while i < entries.len()
        invariant
            i <= entries@.len(),
            out@ == sort_desc(entries@.take(i as int)),
        decreases entries@.len() - i,
    {
        let p = entries[i];
        sorted_insert(&mut out, p);
        proof {
            let t = entries@.take(i + 1int);
            assert(t.drop_last() =~= entries@.take(i as int));
            assert(t.last() == entries@[i as int]);
        }
        i += 1;
    }
    proof {
        assert(entries@.take(entries@.len() as int) =~= entries@);
    }
    out
}

} // verus!
