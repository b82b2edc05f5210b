use std::collections::BTreeMap;
use vstd::prelude::*;
use vstd::std_specs::btree::increasing_seq;
use vstd::std_specs::iter::IteratorSpec;

use crate::order::lemma_increasing_timestamps;

verus! {

/// The recent activity of one identifier: the number of events recorded at
/// each whole-second timestamp. A timestamp without an entry saw no event.
pub type Stamp = BTreeMap<u64, u64>;

/// The number of events that `record` holds at timestamp `t`.
pub open spec fn count_at(record: Map<u64, u64>, t: int) -> nat {
    if 0 <= t <= u64::MAX && record.contains_key(t as u64) {
        record[t as u64] as nat
    } else {
        0
    }
}

/// The number of events that `record` holds at the timestamps `lo..=hi`.
pub open spec fn window_sum(record: Map<u64, u64>, lo: int, hi: int) -> nat
    decreases hi - lo + 1,
{
    if hi < lo {
        0
    } else {
        count_at(record, hi) + window_sum(record, lo, hi - 1)
    }
}

/// What is left of `record` once every entry before `cutoff` is discarded.
pub open spec fn trimmed(record: Map<u64, u64>, cutoff: int) -> Map<u64, u64> {
    Map::new(|t: u64| record.contains_key(t) && t >= cutoff, |t: u64| record[t])
}

/// `record` with one more event at timestamp `t`; a count that is already
/// at the largest number stays there.
pub open spec fn incremented(record: Map<u64, u64>, t: u64) -> Map<u64, u64> {
    let count = count_at(record, t as int);
    record.insert(
        t,
        if count < u64::MAX {
            (count + 1) as u64
        } else {
            u64::MAX
        },
    )
}

/// Whether `entries` lists what `record` holds: every entry once, by
/// ascending timestamp.
pub open spec fn lists_record(entries: Seq<(&u64, &u64)>, record: Map<u64, u64>) -> bool {
    &&& forall|i: int, j: int|
        #![trigger entries[i], entries[j]]
        0 <= i < j < entries.len() ==> *entries[i].0 < *entries[j].0
    &&& forall|i: int|
        #![trigger entries[i]]
        0 <= i < entries.len() ==> record.contains_key(*entries[i].0) && record[*entries[i].0]
            == *entries[i].1
    &&& forall|k: u64| #[trigger]
        record.contains_key(k) ==> exists|i: int|
            0 <= i < entries.len() && *(#[trigger] entries[i]).0 == k
}

/// What a walk over a stamp hands out lists the stamp's record.
proof fn lemma_walk_lists_record(stamp: &Stamp, entries: Seq<(&u64, &u64)>)
    requires
        entries == stamp.iter().remaining(),
        increasing_seq(entries.map_values(|kv: (&u64, &u64)| *kv.0)),
    ensures
        lists_record(entries, stamp@),
        entries.len() <= usize::MAX,
{
    let keys = entries.map_values(|kv: (&u64, &u64)| *kv.0);
    lemma_increasing_timestamps(keys);
    assert forall|i: int, j: int|
        #![trigger entries[i], entries[j]]
        0 <= i < j < entries.len() implies *entries[i].0 < *entries[j].0 by {
        assert(keys[i] == *entries[i].0 && keys[j] == *entries[j].0);
    }
    assert(stamp.len() == stamp@.len());
}

/// A record holds no entry between two neighbours of its listing, none
/// before the first entry and none after the last: `k` is no timestamp of
/// `record` where it lies after the entry before position `at` and before
/// the entry at that position.
proof fn lemma_no_entry_between(
    entries: Seq<(&u64, &u64)>,
    record: Map<u64, u64>,
    at: int,
    k: u64,
)
    requires
        lists_record(entries, record),
        0 <= at <= entries.len(),
        at > 0 ==> *entries[at - 1].0 < k,
        at < entries.len() ==> k < *entries[at].0,
    ensures
        !record.contains_key(k),
{
    if record.contains_key(k) {
        let i = choose|i: int| 0 <= i < entries.len() && *entries[i].0 == k;
        if i < at - 1 {
            assert(*entries[i].0 < *entries[at - 1].0);
        } else if i > at {
            assert(*entries[at].0 < *entries[i].0);
        }
    }
}

/// Timestamps that hold no entry add nothing to a window: where `record` has
/// no entry at the timestamps `a + 1..=b`, the windows that end at `a` and at
/// `b` sum alike.
pub proof fn lemma_window_sum_gap(record: Map<u64, u64>, lo: int, a: int, b: int)
    requires
        a <= b,
        forall|k: u64| a < k <= b ==> !record.contains_key(k),
    ensures
        window_sum(record, lo, b) == window_sum(record, lo, a),
    decreases b - a,
{
    if a < b {
        lemma_window_sum_gap(record, lo, a, b - 1);
        if lo <= b {
            assert(count_at(record, b) == 0);
        }
    }
}

/// An empty record holds no event in any window.
pub proof fn lemma_window_sum_empty(lo: int, hi: int)
    ensures
        window_sum(Map::empty(), lo, hi) == 0,
    decreases hi - lo + 1,
{
    if lo <= hi {
        lemma_window_sum_empty(lo, hi - 1);
    }
}

/// No event lies before the epoch: a window that starts before timestamp 0
/// sums to what the window from 0 sums to.
pub proof fn lemma_window_sum_clamped(record: Map<u64, u64>, lo: int, hi: int)
    requires
        lo <= 0,
    ensures
        window_sum(record, lo, hi) == window_sum(record, 0, hi),
    decreases hi - lo + 1,
{
    if lo <= hi {
        lemma_window_sum_clamped(record, lo, hi - 1);
    }
}

/// Trimming twice at one cutoff leaves what trimming once leaves.
pub proof fn lemma_trim_idempotent(record: Map<u64, u64>, cutoff: int)
    ensures
        trimmed(trimmed(record, cutoff), cutoff) == trimmed(record, cutoff),
{
    assert(trimmed(trimmed(record, cutoff), cutoff) =~= trimmed(record, cutoff));
}

/// Trimming leaves every window alone that starts at the cutoff or later.
pub proof fn lemma_trim_keeps_window(record: Map<u64, u64>, cutoff: int, lo: int, hi: int)
    requires
        cutoff <= lo,
    ensures
        window_sum(trimmed(record, cutoff), lo, hi) == window_sum(record, lo, hi),
    decreases hi - lo + 1,
{
    if lo <= hi {
        lemma_trim_keeps_window(record, cutoff, lo, hi - 1);
    }
}

/// Sums the counts of `stamp` at the timestamps `start..=end`. The sum is
/// exact: it is wide enough for every count that a stamp can hold.
pub fn range_sum(stamp: &Stamp, start: u64, end: u64) -> (sum: u128)
    ensures
        sum == window_sum(stamp@, start as int, end as int),
{
    let mut sum: u128 = 0;
    let entries = stamp.iter();
    let ghost listed = entries.remaining();
    // The entries walked so far, and the timestamp of the last of them.
    let ghost mut done: int = 0;
    let ghost mut prev: int = -1;
    proof {
        lemma_walk_lists_record(stamp, listed);
    }
    for entry in it: entries
        invariant
            it.seq() == listed,
            it.index() == done,
            lists_record(listed, stamp@),
            listed.len() <= usize::MAX,
            prev == if done == 0 {
                -1
            } else {
                *listed[done - 1].0 as int
            },
            sum <= done * u64::MAX,
            sum == window_sum(
                stamp@,
                start as int,
                if prev < end {
                    prev
                } else {
                    end as int
                },
            ),
    {
        let (t, n) = entry;
        proof {
            assert forall|k: u64| prev < k < *t implies !stamp@.contains_key(k) by {
                lemma_no_entry_between(listed, stamp@, done, k);
            }
            if start <= *t <= end {
                lemma_window_sum_gap(stamp@, start as int, prev, *t - 1);
            } else if prev < end < *t {
                lemma_window_sum_gap(stamp@, start as int, prev, end as int);
            }
            prev = *t as int;
            done = done + 1;
        }
        if start <= *t && *t <= end {
            sum = sum + (*n as u128);
        }
    }
    proof {
        if prev < end {
            assert forall|k: u64| prev < k <= end implies !stamp@.contains_key(k) by {
                lemma_no_entry_between(listed, stamp@, done, k);
            }
            lemma_window_sum_gap(stamp@, start as int, prev, end as int);
        }
    }
    sum
}

/// Discards every entry of `stamp` whose timestamp lies before `cutoff` and
/// keeps the others as they are.
pub fn trim(stamp: &mut Stamp, cutoff: u64)
    ensures
        final(stamp)@ == trimmed(old(stamp)@, cutoff as int),
{
    let mut kept: Stamp = BTreeMap::new();
    let entries = stamp.iter();
    let ghost listed = entries.remaining();
    let ghost mut done: int = 0;
    proof {
        lemma_walk_lists_record(stamp, listed);
    }
    for entry in it: entries
        invariant
            it.seq() == listed,
            it.index() == done,
            lists_record(listed, stamp@),
            forall|k: u64|
                kept@.contains_key(k) <==> k >= cutoff && exists|i: int|
                    0 <= i < done && *listed[i].0 == k,
            forall|k: u64| kept@.contains_key(k) ==> kept@[k] == stamp@[k],
    {
        let (t, n) = entry;
        if *t >= cutoff {
            kept.insert(*t, *n);
        }
        proof {
            done = done + 1;
        }
    }
    assert(kept@ =~= trimmed(stamp@, cutoff as int));
    *stamp = kept;
}

/// Records one more event at timestamp `t`, without ever wrapping the count.
pub fn increment(stamp: &mut Stamp, t: u64)
    ensures
        final(stamp)@ == incremented(old(stamp)@, t),
{
    let count = match stamp.get(&t) {
        Some(n) => *n,
        None => 0,
    };
    stamp.insert(t, count.saturating_add(1));
}

} // verus!
