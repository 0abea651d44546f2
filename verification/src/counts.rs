use vstd::prelude::*;
use hashbrown::HashMap;
use crate::instant::{in_span, Instant};
use crate::settings::DateTimeOrder;
use crate::table::{lists, precedes, views, Row};

verus! {

/// The counts of the buckets, each under the timestamp of its bucket, kept
/// in a `hashbrown::HashMap`.
#[verifier::external_body]
pub struct Counts {
    map: HashMap<i64, u64>,
}

/// What the counts hold: the count under each timestamp that has one.
pub uninterp spec fn counts_of(counts: Counts) -> Map<i64, u64>;

/// `hashbrown::HashMap::with_capacity` makes an empty map.
#[verifier::external_body]
fn empty_counts(capacity: usize) -> (counts: Counts)
    ensures
        forall|key: i64| !counts_of(counts).contains_key(key),
{
    Counts { map: HashMap::with_capacity(capacity) }
}

/// `hashbrown::HashMap::entry` followed by `Entry::or_insert` hands out the
/// place of the count under `key`, which it first makes with `start` in it
/// where the map has none. Whatever the caller leaves in that place is the
/// count under `key` afterwards; no other key is touched.
#[verifier::external_body]
fn count_slot(counts: &mut Counts, key: i64, start: u64) -> (slot: &mut u64)
    ensures
        *slot == if counts_of(*old(counts)).contains_key(key) {
            counts_of(*old(counts))[key]
        } else {
            start
        },
        counts_of(*final(counts)) == counts_of(*old(counts)).insert(key, *final(slot)),
{
    counts.map.entry(key).or_insert(start)
}

/// `hashbrown::HashMap::get` looks the count under `key` up.
#[verifier::external_body]
fn count_under(counts: &Counts, key: i64) -> (count: Option<u64>)
    ensures
        count == if counts_of(*counts).contains_key(key) {
            Some(counts_of(*counts)[key])
        } else {
            None
        },
{
    counts.map.get(&key).copied()
}

/// The consuming iterator of `hashbrown::HashMap` moves each pair of a key
/// and its value out of the map once, in an order that is not fixed; they
/// are collected as they come.
#[verifier::external_body]
fn into_pairs(counts: Counts) -> (pairs: Vec<(i64, u64)>)
    ensures
        forall|i: int|
            0 <= i < pairs@.len() ==> counts_of(counts).contains_key((#[trigger] pairs@[i]).0)
                && counts_of(counts)[pairs@[i].0] == pairs@[i].1,
        forall|i: int, j: int|
            0 <= i < j < pairs@.len() ==> (#[trigger] pairs@[i]).0 != (#[trigger] pairs@[j]).0,
        forall|key: i64|
            counts_of(counts).contains_key(key) ==> exists|i: int|
                0 <= i < pairs@.len() && (#[trigger] pairs@[i]).0 == key,
{
    counts.map.into_iter().collect()
}

/// `slice::sort_unstable_by_key` on the timestamps puts the pairs in
/// ascending order of their timestamps and neither adds nor drops one.
#[verifier::external_body]
fn sort_by_timestamp(pairs: &mut Vec<(i64, u64)>)
    ensures
        final(pairs)@.to_multiset() == old(pairs)@.to_multiset(),
        forall|i: int, j: int|
            0 <= i < j < final(pairs)@.len() ==> (#[trigger] final(pairs)@[i]).0 <= (
            #[trigger] final(pairs)@[j]).0,
{
    pairs.sort_unstable_by_key(|pair| pair.0)
}

impl View for Counts {
    type V = Map<int, nat>;

    /// The count under the timestamp of each bucket that has one.
    open spec fn view(&self) -> Map<int, nat> {
        Map::new(
            |bucket: int|
                i64::MIN <= bucket <= i64::MAX && counts_of(*self).contains_key(bucket as i64),
            |bucket: int| counts_of(*self)[bucket as i64] as nat,
        )
    }
}

/// Whether the pairs hold what `buckets` holds: each pair is a timestamp of
/// `buckets` with its count, no timestamp comes twice, and none is left out.
pub open spec fn holds_all(pairs: Seq<(i64, u64)>, buckets: Map<i64, u64>) -> bool {
    &&& forall|i: int|
        0 <= i < pairs.len() ==> buckets.contains_key((#[trigger] pairs[i]).0)
            && buckets[pairs[i].0] == pairs[i].1
    &&& forall|i: int, j: int|
        0 <= i < j < pairs.len() ==> (#[trigger] pairs[i]).0 != (#[trigger] pairs[j]).0
    &&& forall|key: i64|
        buckets.contains_key(key) ==> exists|i: int|
            0 <= i < pairs.len() && (#[trigger] pairs[i]).0 == key
}

/// The place among `total` sorted pairs of the one that is listed at place
/// `at`: the same place in ascending order, counted from the end in
/// descending order.
pub open spec fn turned(order: DateTimeOrder, total: int, at: int) -> int {
    match order {
        DateTimeOrder::Ascending => at,
        DateTimeOrder::Descending => total - 1 - at,
    }
}

/// Sorting pairs that hold what `buckets` holds leaves them holding it, with
/// their timestamps climbing strictly.
pub proof fn lemma_sorted_pairs(
    before: Seq<(i64, u64)>,
    sorted: Seq<(i64, u64)>,
    buckets: Map<i64, u64>,
)
    requires
        holds_all(before, buckets),
        sorted.to_multiset() == before.to_multiset(),
        forall|i: int, j: int|
            0 <= i < j < sorted.len() ==> (#[trigger] sorted[i]).0 <= (#[trigger] sorted[j]).0,
    ensures
        holds_all(sorted, buckets),
        sorted.len() == before.len(),
        forall|i: int, j: int|
            0 <= i < j < sorted.len() ==> (#[trigger] sorted[i]).0 < (#[trigger] sorted[j]).0,
{
    before.to_multiset_ensures();
    sorted.to_multiset_ensures();
    assert forall|pair: (i64, u64)| before.contains(pair) <==> sorted.contains(pair) by {
        assert(before.contains(pair) <==> before.to_multiset().count(pair) > 0);
        assert(sorted.contains(pair) <==> sorted.to_multiset().count(pair) > 0);
    }
    assert(before.no_duplicates());
    before.lemma_multiset_has_no_duplicates();
    sorted.lemma_multiset_has_no_duplicates_conv();
    assert forall|i: int| 0 <= i < sorted.len() implies buckets.contains_key(
        (#[trigger] sorted[i]).0,
    ) && buckets[sorted[i].0] == sorted[i].1 by {
        assert(sorted.contains(sorted[i]));
        assert(before.contains(sorted[i]));
    }
    assert forall|i: int, j: int| 0 <= i < j < sorted.len() implies (#[trigger] sorted[i]).0 != (
    #[trigger] sorted[j]).0 by {
        assert(sorted.contains(sorted[i]));
        assert(sorted.contains(sorted[j]));
        assert(before.contains(sorted[i]));
        assert(before.contains(sorted[j]));
        let p = choose|p: int| 0 <= p < before.len() && before[p] == sorted[i];
        let q = choose|q: int| 0 <= q < before.len() && before[q] == sorted[j];
        assert(sorted[i] != sorted[j]);
        if p < q {
            assert(before[p].0 != before[q].0);
        } else if q < p {
            assert(before[q].0 != before[p].0);
        }
    }
    assert forall|key: i64| buckets.contains_key(key) implies exists|i: int|
        0 <= i < sorted.len() && (#[trigger] sorted[i]).0 == key by {
        let p = choose|p: int| 0 <= p < before.len() && (#[trigger] before[p]).0 == key;
        assert(before.contains(before[p]));
        assert(sorted.contains(before[p]));
        let i = choose|i: int| 0 <= i < sorted.len() && sorted[i] == before[p];
        assert(sorted[i].0 == key);
    }
}

impl Counts {
    /// The counts are held under the timestamps of instants.
    pub open spec fn wf(&self) -> bool {
        forall|key: i64| counts_of(*self).contains_key(key) ==> in_span(key as int)
    }

    /// The count that is held for the bucket at `bucket`: zero where there
    /// is none.
    pub open spec fn count_at(&self, bucket: int) -> nat {
        if self@.contains_key(bucket) {
            self@[bucket]
        } else {
            0
        }
    }

    /// No counts yet.
    pub fn new() -> (counts: Counts)
        ensures
            counts.wf(),
            counts@ == Map::<int, nat>::empty(),
    {
        let counts = empty_counts(1024);
        assert(counts@ =~= Map::<int, nat>::empty());
        counts
    }

    /// The count held for `bucket`.
    pub fn get(&self, bucket: &Instant) -> (count: u64)
        ensures
            count == self.count_at(bucket@),
    {
        match count_under(self, bucket.timestamp()) {
            Some(count) => count,
            None => 0,
        }
    }

    /// Counts one more entry in `bucket`.
    pub fn add_one(&mut self, bucket: &Instant)
        requires
            old(self).wf(),
            old(self).count_at(bucket@) < u64::MAX,
        ensures
            final(self).wf(),
            final(self)@ == old(self)@.insert(bucket@, old(self).count_at(bucket@) + 1),
    {
        let slot = count_slot(self, bucket.timestamp(), 0);
        *slot = *slot + 1;
        assert(self@ =~= old(self)@.insert(bucket@, old(self).count_at(bucket@) + 1));
    }

    /// The rows of all buckets with their counts, listed in `order`.
    pub fn into_sorted(self, order: DateTimeOrder) -> (rows: Vec<Row>)
        requires
            self.wf(),
        ensures
            lists(views(rows@), self@, order),
    {
        let ghost held = counts_of(self);
        let ghost counted = self@;
        let mut pairs = into_pairs(self);
        let ghost before = pairs@;
        sort_by_timestamp(&mut pairs);
        proof {
            lemma_sorted_pairs(before, pairs@, held);
        }
        let total = pairs.len();
        let mut rows: Vec<Row> = Vec::new();
        let mut done: usize = 0;
        while done < total
            invariant
                done <= total,
                total == pairs.len(),
                rows.len() == done,
                holds_all(pairs@, held),
                forall|key: i64| held.contains_key(key) ==> in_span(key as int),
                forall|k: int|
                    0 <= k < done ==> (#[trigger] rows@[k])@ == (
                        pairs@[turned(order, total as int, k)].0 as int,
                        pairs@[turned(order, total as int, k)].1 as nat,
                    ),
            decreases total - done,
        {
            let from = match order {
                DateTimeOrder::Ascending => done,
                DateTimeOrder::Descending => total - 1 - done,
            };
            let pair = pairs[from];
            assert(held.contains_key(pairs@[from as int].0));
            rows.push(Row { bucket: Instant::at(pair.0), count: pair.1 });
            done += 1;
        }
        proof {
            let listed = views(rows@);
            assert forall|key: int| counted.contains_key(key) implies exists|i: int|
                0 <= i < listed.len() && (#[trigger] listed[i]).0 == key by {
                let at = choose|at: int|
                    0 <= at < pairs@.len() && (#[trigger] pairs@[at]).0 == key as i64;
                let i = turned(order, total as int, at);
                assert(turned(order, total as int, i) == at);
                assert(listed[i] == rows@[i]@);
            }
            assert forall|i: int| 0 <= i < listed.len() implies counted.contains_key(
                (#[trigger] listed[i]).0,
            ) && counted[listed[i].0] == listed[i].1 by {
                assert(listed[i] == rows@[i]@);
                assert(held.contains_key(pairs@[turned(order, total as int, i)].0));
            }
            assert forall|i: int, j: int| 0 <= i < j < listed.len() implies precedes(
                order,
                (#[trigger] listed[i]).0,
                (#[trigger] listed[j]).0,
            ) by {
                assert(listed[i] == rows@[i]@);
                assert(listed[j] == rows@[j]@);
                let from = turned(order, total as int, i);
                let to = turned(order, total as int, j);
                match order {
                    DateTimeOrder::Ascending => {
                        assert(pairs@[from].0 < pairs@[to].0);
                    },
                    DateTimeOrder::Descending => {
                        assert(pairs@[to].0 < pairs@[from].0);
                    },
                }
            }
        }
        rows
    }
}

} // verus!
