//! Keeping the ledger in order: a stable sort of its records by timestamp.

use vstd::prelude::*;
use vstd::string::*;

use crate::models::{entry_views, UsageEntry};
use crate::text::{
    lemma_bytes_before_irreflexive, lemma_bytes_not_after_transitive, str_before, text_before,
};

verus! {

/// Record `a` carries an earlier timestamp than record `b`. Timestamps are
/// compared as text, byte by byte.
pub open spec fn entry_before(a: UsageEntry, b: UsageEntry) -> bool {
    text_before(a.timestamp@, b.timestamp@)
}

/// Where `entry` goes into `sorted`: behind every record that is not later
/// than it, found by walking back from the end past the later ones.
pub open spec fn insertion_point(sorted: Seq<UsageEntry>, entry: UsageEntry) -> int
    decreases sorted.len(),
{
    if sorted.len() == 0 {
        0
    } else if entry_before(entry, sorted.last()) {
        insertion_point(sorted.drop_last(), entry)
    } else {
        sorted.len() as int
    }
}

/// `sorted` with `entry` put in at its [`insertion_point`].
pub open spec fn stable_insert(sorted: Seq<UsageEntry>, entry: UsageEntry) -> Seq<UsageEntry> {
    sorted.insert(insertion_point(sorted, entry), entry)
}

/// The records of `entries` in ascending order of timestamp, records with
/// the same timestamp in the order in which `entries` has them.
pub open spec fn sorted_by_timestamp(entries: Seq<UsageEntry>) -> Seq<UsageEntry>
    decreases entries.len(),
{
    if entries.len() == 0 {
        entries
    } else {
        stable_insert(sorted_by_timestamp(entries.drop_last()), entries.last())
    }
}

/// No record is followed by one with an earlier timestamp.
pub open spec fn is_sorted(entries: Seq<UsageEntry>) -> bool {
    forall|i: int, j: int|
        0 <= i < j < entries.len() ==> !entry_before(#[trigger] entries[j], #[trigger] entries[i])
}

/// The test for a record that carries the timestamp `stamp`.
pub open spec fn has_timestamp(stamp: Seq<char>) -> spec_fn(UsageEntry) -> bool {
    |e: UsageEntry| e.timestamp@ == stamp
}

/// The records of `entries` that carry the timestamp `stamp`, in order.
pub open spec fn with_timestamp(entries: Seq<UsageEntry>, stamp: Seq<char>) -> Seq<UsageEntry> {
    entries.filter(has_timestamp(stamp))
}

/// The insertion point lies within the sequence, every record from there on
/// is later than the entry, and the one just before it, if any, is not.
pub proof fn lemma_insertion_point(sorted: Seq<UsageEntry>, entry: UsageEntry)
    ensures
        0 <= insertion_point(sorted, entry) <= sorted.len(),
        forall|k: int|
            insertion_point(sorted, entry) <= k < sorted.len() ==> entry_before(
                entry,
                #[trigger] sorted[k],
            ),
        insertion_point(sorted, entry) > 0 ==> !entry_before(
            entry,
            sorted[insertion_point(sorted, entry) - 1],
        ),
    decreases sorted.len(),
{
    if sorted.len() > 0 && entry_before(entry, sorted.last()) {
        let rest = sorted.drop_last();
        lemma_insertion_point(rest, entry);
        assert forall|k: int| insertion_point(sorted, entry) <= k < sorted.len() implies entry_before(
            entry,
            #[trigger] sorted[k],
        ) by {
            if k < rest.len() {
                assert(sorted[k] == rest[k]);
            }
        }
        if insertion_point(sorted, entry) > 0 {
            assert(sorted[insertion_point(sorted, entry) - 1] == rest[insertion_point(rest, entry)
                - 1]);
        }
    }
}

/// Inserting into a sorted sequence keeps it sorted.
pub proof fn lemma_stable_insert_sorted(sorted: Seq<UsageEntry>, entry: UsageEntry)
    requires
        is_sorted(sorted),
    ensures
        is_sorted(stable_insert(sorted, entry)),
{
    lemma_insertion_point(sorted, entry);
    let p = insertion_point(sorted, entry);
    let out = stable_insert(sorted, entry);
    assert forall|i: int, j: int| 0 <= i < j < out.len() implies !entry_before(
        #[trigger] out[j],
        #[trigger] out[i],
    ) by {
        let ts = |e: UsageEntry| vstd::utf8::encode_utf8(e.timestamp@);
        if j == p {
            // out[j] is the entry, out[i] lies before the insertion point
            assert(out[i] == sorted[i]);
            if i < p - 1 {
                assert(!entry_before(sorted[p - 1], sorted[i]));
            } else {
                lemma_bytes_before_irreflexive(ts(sorted[i]));
            }
            lemma_bytes_not_after_transitive(ts(sorted[i]), ts(sorted[p - 1]), ts(entry));
        } else if i == p {
            assert(out[j] == sorted[j - 1]);
            assert(entry_before(entry, sorted[j - 1]));
            if entry_before(out[j], entry) {
                crate::text::lemma_bytes_before_transitive(ts(entry), ts(out[j]), ts(entry));
                lemma_bytes_before_irreflexive(ts(entry));
            }
        } else {
            let si = if i < p {
                i
            } else {
                i - 1
            };
            let sj = if j < p {
                j
            } else {
                j - 1
            };
            assert(out[i] == sorted[si]);
            assert(out[j] == sorted[sj]);
        }
    }
}

/// The result of sorting is sorted.
pub proof fn lemma_sorted_is_sorted(entries: Seq<UsageEntry>)
    ensures
        is_sorted(sorted_by_timestamp(entries)),
        sorted_by_timestamp(entries).len() == entries.len(),
    decreases entries.len(),
{
    if entries.len() > 0 {
        lemma_sorted_is_sorted(entries.drop_last());
        lemma_insertion_point(sorted_by_timestamp(entries.drop_last()), entries.last());
        lemma_stable_insert_sorted(sorted_by_timestamp(entries.drop_last()), entries.last());
    }
}

/// Sorting keeps every record, each as often as it occurred.
pub proof fn lemma_sorted_is_permutation(entries: Seq<UsageEntry>)
    ensures
        sorted_by_timestamp(entries).to_multiset() == entries.to_multiset(),
    decreases entries.len(),
{
    broadcast use vstd::seq_lib::group_to_multiset_ensures;

    if entries.len() > 0 {
        let rest = entries.drop_last();
        lemma_sorted_is_permutation(rest);
        lemma_insertion_point(sorted_by_timestamp(rest), entries.last());
        assert(entries =~= rest.push(entries.last()));
        assert(sorted_by_timestamp(entries).to_multiset() =~= entries.to_multiset());
    } else {
        assert(sorted_by_timestamp(entries) =~= entries);
    }
}

/// Records that all carry other timestamps leave nothing behind the test.
proof fn lemma_none_with_timestamp(entries: Seq<UsageEntry>, stamp: Seq<char>)
    requires
        forall|k: int| 0 <= k < entries.len() ==> (#[trigger] entries[k]).timestamp@ != stamp,
    ensures
        with_timestamp(entries, stamp) == Seq::<UsageEntry>::empty(),
    decreases entries.len(),
{
    if entries.len() > 0 {
        let rest = entries.drop_last();
        assert forall|k: int| 0 <= k < rest.len() implies (#[trigger] rest[k]).timestamp@
            != stamp by {
            assert(rest[k] == entries[k]);
        }
        lemma_none_with_timestamp(rest, stamp);
        rest.lemma_filter_push(entries.last(), has_timestamp(stamp));
        assert(entries =~= rest.push(entries.last()));
    } else {
        assert(entries.filter(has_timestamp(stamp)) =~= Seq::<UsageEntry>::empty()) by {
            reveal(Seq::filter);
        }
    }
}

/// Sorting is stable: the records that share a timestamp come out in the
/// order in which they went in.
pub proof fn lemma_sorted_is_stable(entries: Seq<UsageEntry>, stamp: Seq<char>)
    ensures
        with_timestamp(sorted_by_timestamp(entries), stamp) == with_timestamp(entries, stamp),
    decreases entries.len(),
{
    let pred = has_timestamp(stamp);
    if entries.len() > 0 {
        let rest = entries.drop_last();
        let last = entries.last();
        let sorted = sorted_by_timestamp(rest);
        lemma_sorted_is_stable(rest, stamp);
        lemma_insertion_point(sorted, last);
        let p = insertion_point(sorted, last);
        let head = sorted.take(p);
        let tail = sorted.skip(p);
        assert(sorted =~= head + tail);
        assert(stable_insert(sorted, last) =~= head.push(last) + tail);
        Seq::filter_distributes_over_add(head, tail, pred);
        Seq::filter_distributes_over_add(head.push(last), tail, pred);
        head.lemma_filter_push(last, pred);
        rest.lemma_filter_push(last, pred);
        assert(entries =~= rest.push(last));
        assert(sorted.filter(pred) == head.filter(pred) + tail.filter(pred));
        if pred(last) {
            // every record behind the insertion point is later, so none of
            // them carries this timestamp
            assert forall|k: int| 0 <= k < tail.len() implies (#[trigger] tail[k]).timestamp@
                != stamp by {
                assert(tail[k] == sorted[p + k]);
                assert(entry_before(last, sorted[p + k]));
                lemma_bytes_before_irreflexive(vstd::utf8::encode_utf8(stamp));
            }
            lemma_none_with_timestamp(tail, stamp);
            assert(head.filter(pred).push(last) + tail.filter(pred) =~= (head.filter(pred)
                + tail.filter(pred)).push(last));
        }
    }
}

/// Where a record goes depends on the values of the records alone.
pub proof fn lemma_insertion_point_by_value(
    first: Seq<UsageEntry>,
    entry: UsageEntry,
    second: Seq<UsageEntry>,
    other: UsageEntry,
)
    requires
        entry_views(first) == entry_views(second),
        entry@ == other@,
    ensures
        insertion_point(first, entry) == insertion_point(second, other),
    decreases first.len(),
{
    assert(first.len() == entry_views(first).len());
    assert(second.len() == entry_views(second).len());
    if first.len() > 0 {
        assert(first.last()@ == entry_views(first)[first.len() - 1]);
        assert(second.last()@ == entry_views(second)[second.len() - 1]);
        assert(entry_views(first.drop_last()) =~= entry_views(first).drop_last());
        assert(entry_views(second.drop_last()) =~= entry_views(second).drop_last());
        lemma_insertion_point_by_value(first.drop_last(), entry, second.drop_last(), other);
    }
}

/// Ledgers that hold records of the same values, in the same order, are
/// sorted into ledgers that hold records of the same values, in the same
/// order.
pub proof fn lemma_sorted_by_value(first: Seq<UsageEntry>, second: Seq<UsageEntry>)
    requires
        entry_views(first) == entry_views(second),
    ensures
        entry_views(sorted_by_timestamp(first)) == entry_views(sorted_by_timestamp(second)),
    decreases first.len(),
{
    assert(first.len() == entry_views(first).len());
    assert(second.len() == entry_views(second).len());
    if first.len() > 0 {
        let a = sorted_by_timestamp(first.drop_last());
        let b = sorted_by_timestamp(second.drop_last());
        assert(first.last()@ == entry_views(first)[first.len() - 1]);
        assert(second.last()@ == entry_views(second)[second.len() - 1]);
        assert(entry_views(first.drop_last()) =~= entry_views(first).drop_last());
        assert(entry_views(second.drop_last()) =~= entry_views(second).drop_last());
        lemma_sorted_by_value(first.drop_last(), second.drop_last());
        lemma_insertion_point_by_value(a, first.last(), b, second.last());
        lemma_insertion_point(a, first.last());
        lemma_insertion_point(b, second.last());
        let p = insertion_point(a, first.last());
        assert(a.len() == entry_views(a).len());
        assert(b.len() == entry_views(b).len());
        assert forall|k: int| 0 <= k < a.len() implies (#[trigger] a[k])@ == b[k]@ by {
            assert(entry_views(a)[k] == a[k]@);
            assert(entry_views(b)[k] == b[k]@);
        }
        assert(entry_views(a.insert(p, first.last())) =~= entry_views(b.insert(p, second.last())));
    } else {
        assert(entry_views(sorted_by_timestamp(first)) =~= entry_views(sorted_by_timestamp(second)));
    }
}

/// Finds where `entry` goes into `sorted`.
fn find_insertion_point(sorted: &Vec<UsageEntry>, entry: &UsageEntry) -> (out: usize)
    ensures
        out == insertion_point(sorted@, *entry),
        out <= sorted@.len(),
{
    let mut p = sorted.len();
    proof {
        assert(sorted@.take(p as int) =~= sorted@);
    }
    while p > 0
        invariant
            p <= sorted@.len(),
            insertion_point(sorted@, *entry) == insertion_point(sorted@.take(p as int), *entry),
        ensures
            p <= sorted@.len(),
            insertion_point(sorted@, *entry) == p,
        decreases p,
    {
        let ghost prefix = sorted@.take(p as int);
        assert(prefix.last() == sorted@[p - 1]);
        if !str_before(entry.timestamp.as_str(), sorted[p - 1].timestamp.as_str()) {
            assert(insertion_point(prefix, *entry) == prefix.len());
            break;
        }
        proof {
            assert(prefix.drop_last() =~= sorted@.take(p as int - 1));
        }
        p -= 1;
    }
    p
}

/// Sorts the records by timestamp, ascending. The sort is stable.
pub fn sort_by_timestamp(entries: Vec<UsageEntry>) -> (out: Vec<UsageEntry>)
    ensures
        out@ == sorted_by_timestamp(entries@),
        is_sorted(out@),
        out@.to_multiset() == entries@.to_multiset(),
        forall|stamp: Seq<char>|
            #[trigger] with_timestamp(out@, stamp) == with_timestamp(entries@, stamp),
{
    let mut sorted: Vec<UsageEntry> = Vec::new();
    let ghost all = entries@;
    for entry in it: entries
        invariant
            it.seq() == all,
            sorted@ == sorted_by_timestamp(all.take(it.index() as int)),
    {
        proof {
            assert(all.take(it.index() + 1).drop_last() =~= all.take(it.index() as int));
        }
        let p = find_insertion_point(&sorted, &entry);
        sorted.insert(p, entry);
    }
    proof {
        assert(all.take(all.len() as int) =~= all);
        lemma_sorted_is_sorted(all);
        lemma_sorted_is_permutation(all);
        assert forall|stamp: Seq<char>| #[trigger]
            with_timestamp(sorted@, stamp) == with_timestamp(all, stamp) by {
            lemma_sorted_is_stable(all, stamp);
        }
    }
    sorted
}

} // verus!
