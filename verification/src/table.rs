use vstd::prelude::*;
use crate::granularity::Granularity;
use crate::instant::{in_span, Instant, MAX_TIMESTAMP, MIN_TIMESTAMP};
use crate::settings::{Args, DateTimeOrder};

verus! {

/// One line of the output: a bucket and the count of its entries.
#[derive(Debug, Clone, Copy, PartialEq, Eq, Structural)]
pub struct Row {
    pub bucket: Instant,
    pub count: u64,
}

impl View for Row {
    type V = (int, nat);

    open spec fn view(&self) -> (int, nat) {
        (self.bucket@, self.count as nat)
    }
}

/// The rows as pairs of a timestamp and a count.
pub open spec fn views(rows: Seq<Row>) -> Seq<(int, nat)> {
    Seq::new(rows.len(), |i: int| rows[i]@)
}

/// Whether a bucket at `earlier` is listed before one at `later`.
pub open spec fn precedes(order: DateTimeOrder, earlier: int, later: int) -> bool {
    match order {
        DateTimeOrder::Ascending => earlier < later,
        DateTimeOrder::Descending => earlier > later,
    }
}

/// Whether each of `rows` precedes all that follow it.
pub open spec fn ordered(rows: Seq<(int, nat)>, order: DateTimeOrder) -> bool {
    forall|i: int, j: int|
        0 <= i < j < rows.len() ==> precedes(order, (#[trigger] rows[i]).0, (#[trigger] rows[j]).0)
}

/// Whether `entries` lists `buckets` in `order`: each entry is a bucket
/// with its count, every bucket has its entry, and each entry precedes all
/// that follow it.
pub open spec fn lists(entries: Seq<(int, nat)>, buckets: Map<int, nat>, order: DateTimeOrder)
    -> bool {
    &&& forall|i: int|
        0 <= i < entries.len() ==> buckets.contains_key((#[trigger] entries[i]).0)
            && buckets[entries[i].0] == entries[i].1
    &&& forall|key: int|
        buckets.contains_key(key) ==> exists|i: int|
            0 <= i < entries.len() && (#[trigger] entries[i]).0 == key
    &&& ordered(entries, order)
}

/// The listing of `buckets` in `order`; there is at most one.
pub open spec fn listing(buckets: Map<int, nat>, order: DateTimeOrder) -> Seq<(int, nat)> {
    choose|entries: Seq<(int, nat)>| lists(entries, buckets, order)
}

/// The timestamps of the empty buckets between two entries that follow one
/// another in a listing: the successors of the lower one that lie before the
/// upper one, named in the order of the listing.
pub open spec fn between(step: int, order: DateTimeOrder, previous: int, current: int) -> Seq<
    int,
> {
    match order {
        DateTimeOrder::Ascending => gaps(step, previous, current),
        DateTimeOrder::Descending => gaps(step, current, previous).reverse(),
    }
}

/// The table for a listing: its entries, and where empty buckets are filled
/// in, a row with a count of zero for each empty bucket between two entries.
/// Nothing goes before the first entry or after the last.
pub open spec fn table(entries: Seq<(int, nat)>, step: int, order: DateTimeOrder, fill: bool)
    -> Seq<(int, nat)>
    decreases entries.len(),
{
    if entries.len() == 0 {
        Seq::empty()
    } else if entries.len() == 1 {
        seq![entries[0]]
    } else {
        let earlier = entries.drop_last();
        table(earlier, step, order, fill) + (if fill {
            zero_rows(between(step, order, earlier.last().0, entries.last().0))
        } else {
            Seq::empty()
        }) + seq![entries.last()]
    }
}

/// The timestamps reached from `after` by steps of `step` that lie before
/// `before`, in ascending order.
pub open spec fn gaps(step: int, after: int, before: int) -> Seq<int>
    decreases before - after,
{
    if 0 < step && after + step < before {
        seq![after + step] + gaps(step, after + step, before)
    } else {
        Seq::empty()
    }
}

/// A row with a count of zero for each of `buckets`.
pub open spec fn zero_rows(buckets: Seq<int>) -> Seq<(int, nat)> {
    Seq::new(buckets.len(), |i: int| (buckets[i], 0nat))
}

/// The gaps between two timestamps are the successors of the lower one, one
/// bucket width apart, as far as they lie before the upper one.
pub proof fn lemma_gaps(step: int, after: int, before: int)
    requires
        0 < step,
    ensures
        forall|k: int|
            0 <= k < gaps(step, after, before).len() ==> #[trigger] gaps(step, after, before)[k]
                == after + (k + 1) * step && gaps(step, after, before)[k] < before,
        after + (gaps(step, after, before).len() + 1) * step >= before,
    decreases before - after,
{
    let found = gaps(step, after, before);
    if after + step < before {
        let rest = gaps(step, after + step, before);
        lemma_gaps(step, after + step, before);
        assert(found == seq![after + step] + rest);
        assert forall|k: int| 0 <= k < found.len() implies #[trigger] found[k] == after + (k + 1)
            * step && found[k] < before by {
            if k == 0 {
                vstd::arithmetic::mul::lemma_mul_basics(step);
            } else {
                assert(found[k] == rest[k - 1]);
                vstd::arithmetic::mul::lemma_mul_is_distributive_add_other_way(step, k, 1);
            }
        }
        vstd::arithmetic::mul::lemma_mul_is_distributive_add_other_way(
            step,
            (rest.len() + 1) as int,
            1,
        );
    } else {
        vstd::arithmetic::mul::lemma_mul_basics(step);
    }
}

/// The rows for the empty buckets between two entries that follow one
/// another lie strictly between the two and are in order themselves.
pub proof fn lemma_between(step: int, order: DateTimeOrder, previous: int, current: int)
    requires
        0 < step,
    ensures
        ordered(zero_rows(between(step, order, previous, current)), order),
        forall|k: int|
            0 <= k < between(step, order, previous, current).len() ==> precedes(
                order,
                previous,
                #[trigger] between(step, order, previous, current)[k],
            ) && precedes(order, between(step, order, previous, current)[k], current),
{
    let rows = zero_rows(between(step, order, previous, current));
    match order {
        DateTimeOrder::Ascending => {
            let found = gaps(step, previous, current);
            lemma_gaps(step, previous, current);
            assert forall|k: int| 0 <= k < found.len() implies previous < #[trigger] found[k] by {
                vstd::arithmetic::mul::lemma_mul_strictly_positive(k + 1, step);
            }
            assert forall|i: int, j: int| 0 <= i < j < rows.len() implies precedes(
                order,
                (#[trigger] rows[i]).0,
                (#[trigger] rows[j]).0,
            ) by {
                assert(rows[i].0 == found[i] && rows[j].0 == found[j]);
                vstd::arithmetic::mul::lemma_mul_strict_inequality(i + 1, j + 1, step);
            }
        },
        DateTimeOrder::Descending => {
            let found = gaps(step, current, previous);
            let turned = found.reverse();
            lemma_gaps(step, current, previous);
            assert forall|k: int| 0 <= k < turned.len() implies current < #[trigger] turned[k]
                && turned[k] < previous by {
                assert(turned[k] == found[found.len() - 1 - k]);
                vstd::arithmetic::mul::lemma_mul_strictly_positive(found.len() - k, step);
            }
            assert forall|i: int, j: int| 0 <= i < j < rows.len() implies precedes(
                order,
                (#[trigger] rows[i]).0,
                (#[trigger] rows[j]).0,
            ) by {
                assert(rows[i].0 == found[found.len() - 1 - i]);
                assert(rows[j].0 == found[found.len() - 1 - j]);
                vstd::arithmetic::mul::lemma_mul_strict_inequality(
                    found.len() - j,
                    found.len() - i,
                    step,
                );
            }
        },
    }
}

/// The table for entries that are in order is in order, starts with the
/// first entry and ends with the last: rows are filled in only between
/// entries.
pub proof fn lemma_table_ordered(
    entries: Seq<(int, nat)>,
    step: int,
    order: DateTimeOrder,
    fill: bool,
)
    requires
        0 < step,
        ordered(entries, order),
    ensures
        ordered(table(entries, step, order, fill), order),
        table(entries, step, order, fill).len() >= entries.len(),
        entries.len() > 0 ==> table(entries, step, order, fill).first() == entries.first()
            && table(entries, step, order, fill).last() == entries.last(),
    decreases entries.len(),
{
    if entries.len() > 1 {
        let earlier = entries.drop_last();
        let before = table(earlier, step, order, fill);
        let previous = earlier.last().0;
        let current = entries.last().0;
        let filled = if fill {
            zero_rows(between(step, order, previous, current))
        } else {
            Seq::empty()
        };
        let whole = table(entries, step, order, fill);
        assert(whole == before + filled + seq![entries.last()]);
        assert(ordered(earlier, order)) by {
            assert forall|i: int, j: int| 0 <= i < j < earlier.len() implies precedes(
                order,
                (#[trigger] earlier[i]).0,
                (#[trigger] earlier[j]).0,
            ) by {
                assert(earlier[i] == entries[i] && earlier[j] == entries[j]);
            }
        }
        lemma_table_ordered(earlier, step, order, fill);
        lemma_between(step, order, previous, current);
        assert(precedes(order, previous, current)) by {
            assert(entries[entries.len() - 2] == earlier.last());
        }
        assert(before.last().0 == previous);
        assert forall|i: int, j: int| 0 <= i < j < whole.len() implies precedes(
            order,
            (#[trigger] whole[i]).0,
            (#[trigger] whole[j]).0,
        ) by {
            let first_filled = before.len() as int;
            let last_place = before.len() + filled.len();
            if i < first_filled {
                assert(whole[i] == before[i]);
                if i < first_filled - 1 {
                    assert(precedes(order, before[i].0, before.last().0));
                }
            } else {
                assert(whole[i] == filled[i - first_filled]);
            }
            if j < first_filled {
                assert(whole[j] == before[j]);
            } else if j < last_place {
                assert(whole[j] == filled[j - first_filled]);
            } else {
                assert(whole[j] == entries.last());
            }
        }
        assert(whole.first() == before.first());
        assert(earlier.first() == entries.first());
    }
}

/// The buckets that `buckets` holds from `from` up to, but not with, `to`,
/// each with its count, upward.
pub open spec fn listed_between(buckets: Map<int, nat>, from: int, to: int) -> Seq<(int, nat)>
    decreases to - from,
{
    if to <= from {
        Seq::empty()
    } else if buckets.contains_key(to - 1) {
        listed_between(buckets, from, to - 1).push((to - 1, buckets[to - 1]))
    } else {
        listed_between(buckets, from, to - 1)
    }
}

/// The buckets listed between two timestamps are those that `buckets` holds
/// there, each once with its count, in ascending order.
pub proof fn lemma_listed_between(buckets: Map<int, nat>, from: int, to: int)
    ensures
        forall|i: int|
            0 <= i < listed_between(buckets, from, to).len() ==> from <= (
            #[trigger] listed_between(buckets, from, to)[i]).0 < to && buckets.contains_key(
                listed_between(buckets, from, to)[i].0,
            ) && buckets[listed_between(buckets, from, to)[i].0] == listed_between(
                buckets,
                from,
                to,
            )[i].1,
        forall|key: int|
            from <= key < to && buckets.contains_key(key) ==> exists|i: int|
                0 <= i < listed_between(buckets, from, to).len() && (#[trigger] listed_between(
                    buckets,
                    from,
                    to,
                )[i]).0 == key,
        ordered(listed_between(buckets, from, to), DateTimeOrder::Ascending),
    decreases to - from,
{
    if from < to {
        let below = listed_between(buckets, from, to - 1);
        let whole = listed_between(buckets, from, to);
        lemma_listed_between(buckets, from, to - 1);
        assert forall|key: int| from <= key < to && buckets.contains_key(key) implies exists|
            i: int,
        | 0 <= i < whole.len() && (#[trigger] whole[i]).0 == key by {
            if key == to - 1 {
                assert(whole[whole.len() - 1].0 == key);
            } else {
                let i = choose|i: int| 0 <= i < below.len() && (#[trigger] below[i]).0 == key;
                assert(whole[i] == below[i]);
            }
        }
        assert forall|i: int, j: int| 0 <= i < j < whole.len() implies precedes(
            DateTimeOrder::Ascending,
            (#[trigger] whole[i]).0,
            (#[trigger] whole[j]).0,
        ) by {
            assert(whole[i] == below[i]);
            if j < below.len() {
                assert(whole[j] == below[j]);
            }
        }
    }
}

/// Buckets that are all the buckets of instants have a listing in either
/// order, so `listing` names it.
pub proof fn lemma_listing_exists(buckets: Map<int, nat>, order: DateTimeOrder)
    requires
        forall|key: int| #[trigger] buckets.contains_key(key) ==> in_span(key),
    ensures
        lists(listing(buckets, order), buckets, order),
{
    let upward = listed_between(buckets, MIN_TIMESTAMP as int, MAX_TIMESTAMP + 1);
    lemma_listed_between(buckets, MIN_TIMESTAMP as int, MAX_TIMESTAMP + 1);
    match order {
        DateTimeOrder::Ascending => {
            assert forall|key: int| buckets.contains_key(key) implies exists|i: int|
                0 <= i < upward.len() && (#[trigger] upward[i]).0 == key by {
                assert(in_span(key));
            }
            assert(lists(upward, buckets, order));
        },
        DateTimeOrder::Descending => {
            let downward = upward.reverse();
            assert forall|key: int| buckets.contains_key(key) implies exists|i: int|
                0 <= i < downward.len() && (#[trigger] downward[i]).0 == key by {
                assert(in_span(key));
                let i = choose|i: int| 0 <= i < upward.len() && (#[trigger] upward[i]).0 == key;
                assert(downward[upward.len() - 1 - i] == upward[i]);
            }
            assert forall|i: int, j: int| 0 <= i < j < downward.len() implies precedes(
                order,
                (#[trigger] downward[i]).0,
                (#[trigger] downward[j]).0,
            ) by {
                assert(precedes(
                    DateTimeOrder::Ascending,
                    upward[upward.len() - 1 - j].0,
                    upward[upward.len() - 1 - i].0,
                ));
            }
            assert forall|i: int| 0 <= i < downward.len() implies buckets.contains_key(
                (#[trigger] downward[i]).0,
            ) && buckets[downward[i].0] == downward[i].1 by {
                assert(downward[i] == upward[upward.len() - 1 - i]);
            }
            assert(lists(downward, buckets, order));
        },
    }
}

/// Two listings of the same buckets in the same order are the same.
pub proof fn lemma_listing_unique(
    one: Seq<(int, nat)>,
    other: Seq<(int, nat)>,
    buckets: Map<int, nat>,
    order: DateTimeOrder,
)
    requires
        lists(one, buckets, order),
        lists(other, buckets, order),
    ensures
        one == other,
    decreases one.len(),
{
    if one.len() == 0 {
        if other.len() > 0 {
            let key = other[0].0;
            assert(buckets.contains_key(key));
        }
        assert(one =~= other);
    } else {
        let last = one.last();
        let key = last.0;
        assert(buckets.contains_key(key));
        let at = choose|i: int| 0 <= i < other.len() && (#[trigger] other[i]).0 == key;
        let other_key = other.last().0;
        assert(buckets.contains_key(other_key));
        let back = choose|i: int| 0 <= i < one.len() && (#[trigger] one[i]).0 == other_key;
        assert(at == other.len() - 1) by {
            if at < other.len() - 1 {
                assert(precedes(order, other[at].0, other.last().0));
                if back < one.len() - 1 {
                    assert(precedes(order, one[back].0, one.last().0));
                }
            }
        }
        assert(other.last() == last);
        let fewer = buckets.remove(key);
        assert(lists(one.drop_last(), fewer, order)) by {
            assert forall|k: int| fewer.contains_key(k) implies exists|i: int|
                0 <= i < one.drop_last().len() && (#[trigger] one.drop_last()[i]).0 == k by {
                let i = choose|i: int| 0 <= i < one.len() && (#[trigger] one[i]).0 == k;
                assert(one.drop_last()[i] == one[i]);
            }
            assert forall|i: int| 0 <= i < one.drop_last().len() implies fewer.contains_key(
                (#[trigger] one.drop_last()[i]).0,
            ) by {
                assert(precedes(order, one[i].0, one.last().0));
            }
        }
        assert(lists(other.drop_last(), fewer, order)) by {
            assert forall|k: int| fewer.contains_key(k) implies exists|i: int|
                0 <= i < other.drop_last().len() && (#[trigger] other.drop_last()[i]).0 == k by {
                let i = choose|i: int| 0 <= i < other.len() && (#[trigger] other[i]).0 == k;
                assert(other.drop_last()[i] == other[i]);
            }
            assert forall|i: int| 0 <= i < other.drop_last().len() implies fewer.contains_key(
                (#[trigger] other.drop_last()[i]).0,
            ) by {
                assert(precedes(order, other[i].0, other.last().0));
            }
        }
        lemma_listing_unique(one.drop_last(), other.drop_last(), fewer, order);
        assert(one =~= one.drop_last().push(last));
        assert(other =~= other.drop_last().push(last));
    }
}

/// Adds to `rows` a row with a count of zero for each successor of `after`
/// that lies before `before`.
pub fn fill_gap(rows: &mut Vec<Row>, granularity: &Granularity, after: &Instant, before: &Instant)
    requires
        granularity.wf(),
    ensures
        views(final(rows)@) == views(old(rows)@) + zero_rows(
            gaps(granularity.step(), after@, before@),
        ),
{
    let ghost step = granularity.step();
    let ghost wanted = views(rows@) + zero_rows(gaps(step, after@, before@));
    let limit = before.timestamp();
    let mut last = *after;
    assert(views(rows@) + zero_rows(gaps(step, last@, before@)) == wanted);
    loop
        invariant
            granularity.wf(),
            step == granularity.step(),
            limit == before@,
            in_span(before@),
            views(rows@) + zero_rows(gaps(step, last@, before@)) == wanted,
        ensures
            views(rows@) == wanted,
        decreases before@ - last@,
    {
        proof {
            use_type_invariant(&last);
            granularity.lemma_next_is_later(last@);
        }
        match granularity.checked_successor(&last) {
            Some(next) => {
                if next.timestamp() < limit {
                    proof {
                        let rest = gaps(step, next@, before@);
                        assert(gaps(step, last@, before@) == seq![next@] + rest);
                        assert(zero_rows(seq![next@] + rest) == seq![(next@, 0nat)] + zero_rows(
                            rest,
                        ));
                        assert(views(rows@.push(Row { bucket: next, count: 0 })) == views(
                            rows@,
                        ).push((next@, 0nat)));
                        assert(views(rows@).push((next@, 0nat)) + zero_rows(rest) == views(rows@)
                            + (seq![(next@, 0nat)] + zero_rows(rest)));
                    }
                    rows.push(Row { bucket: next, count: 0 });
                    last = next;
                } else {
                    assert(gaps(step, last@, before@) == Seq::<int>::empty());
                    assert(views(rows@) + zero_rows(Seq::<int>::empty()) == views(rows@));
                    break ;
                }
            },
            None => {
                assert(gaps(step, last@, before@) == Seq::<int>::empty());
                assert(views(rows@) + zero_rows(Seq::<int>::empty()) == views(rows@));
                break ;
            },
        }
    }
}

/// Adds the rows of `climbing` to `rows`, last first.
fn append_reversed(rows: &mut Vec<Row>, climbing: &Vec<Row>)
    ensures
        views(final(rows)@) == views(old(rows)@) + views(climbing@).reverse(),
{
    let ghost base = views(rows@);
    let ghost turned = views(climbing@).reverse();
    let mut left: usize = climbing.len();
    assert(views(rows@) == base + turned.take(0));
    while left > 0
        invariant
            left <= climbing.len(),
            turned == views(climbing@).reverse(),
            views(rows@) == base + turned.take(climbing.len() - left),
        decreases left,
    {
        left -= 1;
        proof {
            let taken = climbing.len() - left - 1;
            assert(turned[taken] == climbing@[left as int]@);
            assert(views(rows@.push(climbing@[left as int])) == views(rows@).push(
                climbing@[left as int]@,
            ));
            assert(turned.take(taken + 1) == turned.take(taken).push(turned[taken]));
            assert((base + turned.take(taken)).push(turned[taken]) == base + turned.take(
                taken,
            ).push(turned[taken]));
        }
        rows.push(climbing[left]);
    }
    assert(turned.take(climbing.len() as int) == turned);
}

/// The table for the listing `entries`: the entries themselves and, where
/// the settings ask for it, a row with a count of zero for each empty bucket
/// between two of them.
pub fn fill_table(entries: &Vec<Row>, args: &Args) -> (rows: Vec<Row>)
    requires
        args.granularity.wf(),
    ensures
        views(rows@) == table(
            views(entries@),
            args.granularity.step(),
            args.order,
            args.fill_empty_buckets,
        ),
{
    let ghost step = args.granularity.step();
    let ghost listed = views(entries@);
    let mut rows: Vec<Row> = Vec::new();
    let mut done: usize = 0;
    assert(views(rows@) == table(listed.take(0), step, args.order, args.fill_empty_buckets));
    while done < entries.len()
        invariant
            done <= entries.len(),
            args.granularity.wf(),
            step == args.granularity.step(),
            listed == views(entries@),
            views(rows@) == table(
                listed.take(done as int),
                step,
                args.order,
                args.fill_empty_buckets,
            ),
        decreases entries.len() - done,
    {
        let ghost so_far = views(rows@);
        let ghost longer = listed.take(done + 1);
        proof {
            assert(longer.drop_last() == listed.take(done as int));
            assert(longer.last() == entries@[done as int]@);
        }
        if done > 0 && args.fill_empty_buckets {
            let previous = entries[done - 1].bucket;
            let current = entries[done].bucket;
            proof {
                assert(longer.drop_last().last() == entries@[done - 1]@);
            }
            match args.order {
                DateTimeOrder::Ascending => {
                    fill_gap(&mut rows, &args.granularity, &previous, &current);
                },
                DateTimeOrder::Descending => {
                    let mut climbing: Vec<Row> = Vec::new();
                    fill_gap(&mut climbing, &args.granularity, &current, &previous);
                    proof {
                        let found = gaps(step, current@, previous@);
                        assert(views(climbing@) == zero_rows(found)) by {
                            assert(Seq::<(int, nat)>::empty() + zero_rows(found) == zero_rows(
                                found,
                            ));
                        }
                        assert(zero_rows(found).reverse() == zero_rows(found.reverse()));
                    }
                    append_reversed(&mut rows, &climbing);
                },
            }
        } else {
            assert(views(rows@) + Seq::<(int, nat)>::empty() == views(rows@));
        }
        proof {
            assert(views(rows@.push(entries@[done as int])) == views(rows@).push(
                entries@[done as int]@,
            ));
            assert(views(rows@).push(entries@[done as int]@) == views(rows@)
                + seq![entries@[done as int]@]);
            if done == 0 {
                assert(so_far == Seq::<(int, nat)>::empty());
                assert(Seq::<(int, nat)>::empty() + seq![entries@[0]@] == seq![longer[0]]);
            }
        }
        rows.push(entries[done]);
        done += 1;
    }
    assert(listed.take(done as int) == listed);
    rows
}

} // verus!
