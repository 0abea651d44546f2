use vstd::prelude::*;
use crate::runner::{
    closing_rows, emitted, final_rows, initial_state, next_state, out_of_order, passed_over,
    recorded, RunnerState,
};
use crate::settings::{Args, DateTimeOrder, Mode};
use crate::table::{
    between, lemma_listing_unique, listing, lists, ordered, precedes, table, zero_rows,
};

verus! {

/// The state of a run after `entries`, taken in turn.
pub open spec fn state_after(start: RunnerState, entries: Seq<int>, args: Args) -> RunnerState
    decreases entries.len(),
{
    if entries.len() == 0 {
        start
    } else {
        next_state(state_after(start, entries.drop_last(), args), entries.last(), args)
    }
}

/// The rows that have gone out by the time `entries` have been taken in
/// turn; an entry that ends the run gives none.
pub open spec fn rows_after(start: RunnerState, entries: Seq<int>, args: Args) -> Seq<(int, nat)>
    decreases entries.len(),
{
    if entries.len() == 0 {
        Seq::empty()
    } else {
        rows_after(start, entries.drop_last(), args) + match emitted(
            state_after(start, entries.drop_last(), args),
            entries.last(),
            args,
        ) {
            Ok(rows) => rows,
            Err(_) => Seq::empty(),
        }
    }
}

/// All rows of a run in `mode` over `entries`: those that go out on the
/// entries and those with which the run ends.
pub open spec fn run_rows(mode: Mode, entries: Seq<int>, args: Args) -> Seq<(int, nat)> {
    rows_after(initial_state(mode), entries, args) + final_rows(
        state_after(initial_state(mode), entries, args),
        args,
    )
}

/// Whether no entry goes against the order with respect to an earlier one.
pub open spec fn in_order(entries: Seq<int>, order: DateTimeOrder) -> bool {
    forall|i: int, j: int|
        0 <= i < j < entries.len() ==> !out_of_order(
            order,
            #[trigger] entries[i],
            #[trigger] entries[j],
        )
}

/// Whether the empty buckets between each entry and the next read the same
/// in both modes: stream mode names them upward, normal mode in the order of
/// its table. In ascending order that is the same; in descending order it is
/// the same where no more than one empty bucket lies between two entries.
pub open spec fn gaps_read_alike(entries: Seq<int>, args: Args) -> bool {
    forall|i: int|
        0 <= i < entries.len() - 1 ==> between(
            args.granularity.step(),
            args.order,
            #[trigger] entries[i],
            entries[i + 1],
        ) == passed_over(args, entries[i], entries[i + 1])
}

/// In ascending order the empty buckets read the same in both modes.
pub proof fn lemma_ascending_gaps_read_alike(entries: Seq<int>, args: Args)
    requires
        args.order == DateTimeOrder::Ascending,
    ensures
        gaps_read_alike(entries, args),
{
}

/// Where the empty buckets between the entries read alike in both modes,
/// they do so without the last entry, and between the last two entries.
proof fn lemma_earlier_gaps_read_alike(entries: Seq<int>, args: Args)
    requires
        gaps_read_alike(entries, args),
        entries.len() > 1,
    ensures
        gaps_read_alike(entries.drop_last(), args),
        between(
            args.granularity.step(),
            args.order,
            entries.drop_last().last(),
            entries.last(),
        ) == passed_over(args, entries.drop_last().last(), entries.last()),
{
    let before = entries.drop_last();
    assert forall|i: int| 0 <= i < before.len() - 1 implies between(
        args.granularity.step(),
        args.order,
        #[trigger] before[i],
        before[i + 1],
    ) == passed_over(args, before[i], before[i + 1]) by {
        assert(before[i] == entries[i] && before[i + 1] == entries[i + 1]);
    }
    assert(before.last() == entries[entries.len() - 2]);
    assert(entries.last() == entries[entries.len() - 2 + 1]);
}

/// Entries that are in order are still in order without the last of them.
proof fn lemma_earlier_in_order(entries: Seq<int>, order: DateTimeOrder)
    requires
        in_order(entries, order),
        entries.len() > 0,
    ensures
        in_order(entries.drop_last(), order),
{
    let before = entries.drop_last();
    assert forall|i: int, j: int| 0 <= i < j < before.len() implies !out_of_order(
        order,
        #[trigger] before[i],
        #[trigger] before[j],
    ) by {
        assert(before[i] == entries[i] && before[j] == entries[j]);
    }
}

/// The buckets of entries that are in order, each once with the count of
/// its entries, as they come.
pub open spec fn runs(entries: Seq<int>) -> Seq<(int, nat)>
    decreases entries.len(),
{
    if entries.len() == 0 {
        Seq::empty()
    } else {
        let earlier = runs(entries.drop_last());
        if earlier.len() > 0 && earlier.last().0 == entries.last() {
            earlier.drop_last().push((entries.last(), earlier.last().1 + 1))
        } else {
            earlier.push((entries.last(), 1nat))
        }
    }
}

/// The runs of entries that are in order end with the bucket of the last
/// entry, are in order themselves, and every bucket in them is that of an
/// entry.
proof fn lemma_runs(entries: Seq<int>, order: DateTimeOrder)
    requires
        in_order(entries, order),
    ensures
        entries.len() > 0 ==> runs(entries).len() > 0 && runs(entries).last().0 == entries.last(),
        entries.len() == 0 ==> runs(entries).len() == 0,
        ordered(runs(entries), order),
        forall|k: int|
            0 <= k < runs(entries).len() ==> exists|i: int|
                0 <= i < entries.len() && entries[i] == (#[trigger] runs(entries)[k]).0,
    decreases entries.len(),
{
    if entries.len() > 0 {
        let before = entries.drop_last();
        let last = entries.last();
        lemma_earlier_in_order(entries, order);
        lemma_runs(before, order);
        let earlier = runs(before);
        let now = runs(entries);
        assert forall|k: int| 0 <= k < now.len() implies exists|i: int|
            0 <= i < entries.len() && entries[i] == (#[trigger] now[k]).0 by {
            if k == now.len() - 1 {
                assert(entries[entries.len() - 1] == now[k].0);
            } else {
                assert(now[k] == earlier[k]);
                let i = choose|i: int| 0 <= i < before.len() && before[i] == earlier[k].0;
                assert(entries[i] == now[k].0);
            }
        }
        assert forall|i: int, j: int| 0 <= i < j < now.len() implies precedes(
            order,
            (#[trigger] now[i]).0,
            (#[trigger] now[j]).0,
        ) by {
            if j < now.len() - 1 {
                assert(now[i] == earlier[i] && now[j] == earlier[j]);
            } else {
                assert(now[i] == earlier[i]);
                assert(now[j].0 == last);
                if earlier.len() > 0 && earlier.last().0 == last {
                    assert(precedes(order, earlier[i].0, earlier.last().0));
                } else {
                    let at = choose|at: int| 0 <= at < before.len() && before[at] == earlier[i].0;
                    assert(!out_of_order(order, entries[at], entries[entries.len() - 1]));
                    if i < earlier.len() - 1 {
                        assert(precedes(order, earlier[i].0, earlier.last().0));
                    }
                    let end = before.len() - 1;
                    assert(!out_of_order(order, entries[end], entries[entries.len() - 1]));
                }
            }
        }
    }
}

/// In normal mode the counts after entries that are in order are those of
/// their runs.
proof fn lemma_normal_counts_runs(entries: Seq<int>, args: Args)
    requires
        in_order(entries, args.order),
    ensures
        state_after(initial_state(Mode::Normal), entries, args) matches RunnerState::Normal {
            buckets,
        } && lists(runs(entries), buckets, args.order),
        rows_after(initial_state(Mode::Normal), entries, args) == Seq::<(int, nat)>::empty(),
    decreases entries.len(),
{
    let start = initial_state(Mode::Normal);
    if entries.len() > 0 {
        let before = entries.drop_last();
        let last = entries.last();
        lemma_earlier_in_order(entries, args.order);
        lemma_normal_counts_runs(before, args);
        lemma_runs(before, args.order);
        lemma_runs(entries, args.order);
        let earlier = runs(before);
        let now = runs(entries);
        let held = state_after(start, before, args)->Normal_buckets;
        let holds = state_after(start, entries, args)->Normal_buckets;
        assert(holds == held.insert(last, recorded(state_after(start, before, args), last) + 1));
        assert forall|key: int| holds.contains_key(key) implies exists|i: int|
            0 <= i < now.len() && (#[trigger] now[i]).0 == key by {
            if key == last {
                assert(now[now.len() - 1].0 == key);
            } else {
                let i = choose|i: int| 0 <= i < earlier.len() && (#[trigger] earlier[i]).0 == key;
                assert(now[i] == earlier[i]);
            }
        }
        if earlier.len() > 0 && earlier.last().0 == last {
            assert(held.contains_key(last) && held[last] == earlier.last().1);
            assert forall|i: int| 0 <= i < now.len() implies holds.contains_key(
                (#[trigger] now[i]).0,
            ) && holds[now[i].0] == now[i].1 by {
                if i < now.len() - 1 {
                    assert(now[i] == earlier[i]);
                    assert(precedes(args.order, earlier[i].0, earlier.last().0));
                }
            }
        } else {
            assert(!held.contains_key(last)) by {
                if held.contains_key(last) {
                    let i = choose|i: int| 0 <= i < earlier.len() && (#[trigger] earlier[i]).0 == last;
                    let at = choose|at: int| 0 <= at < before.len() && before[at] == earlier[i].0;
                    assert(!out_of_order(args.order, entries[at], entries[entries.len() - 1]));
                    if i < earlier.len() - 1 {
                        assert(precedes(args.order, earlier[i].0, earlier.last().0));
                        let end = before.len() - 1;
                        assert(!out_of_order(args.order, entries[end], entries[entries.len() - 1]));
                    }
                }
            }
            assert forall|i: int| 0 <= i < now.len() implies holds.contains_key(
                (#[trigger] now[i]).0,
            ) && holds[now[i].0] == now[i].1 by {
                if i < now.len() - 1 {
                    assert(now[i] == earlier[i]);
                }
            }
        }
    } else {
        assert(lists(runs(entries), Map::<int, nat>::empty(), args.order));
    }
}

/// In stream mode, after entries that are in order, the open bucket is the
/// last of their runs, and the rows that have gone out, with the open bucket
/// after them, are the table of the runs.
proof fn lemma_stream_rows_runs(entries: Seq<int>, args: Args)
    requires
        args.granularity.wf(),
        in_order(entries, args.order),
        args.fill_empty_buckets ==> gaps_read_alike(entries, args),
        entries.len() > 0,
    ensures
        state_after(initial_state(Mode::Stream), entries, args) == (RunnerState::Stream {
            count: runs(entries).last().1,
            bucket: Some(runs(entries).last().0),
        }),
        rows_after(initial_state(Mode::Stream), entries, args) + seq![runs(entries).last()]
            == table(
            runs(entries),
            args.granularity.step(),
            args.order,
            args.fill_empty_buckets,
        ),
    decreases entries.len(),
{
    let start = initial_state(Mode::Stream);
    let step = args.granularity.step();
    let before = entries.drop_last();
    let last = entries.last();
    let now = runs(entries);
    lemma_runs(entries, args.order);
    if before.len() == 0 {
        assert(runs(before) == Seq::<(int, nat)>::empty());
        assert(now == seq![(last, 1nat)]);
        assert(state_after(start, before, args) == start);
        assert(rows_after(start, before, args) == Seq::<(int, nat)>::empty());
        assert(rows_after(start, entries, args) == Seq::<(int, nat)>::empty());
        assert(Seq::<(int, nat)>::empty() + seq![now.last()] == seq![now[0]]);
    } else {
        lemma_earlier_in_order(entries, args.order);
        if args.fill_empty_buckets {
            lemma_earlier_gaps_read_alike(entries, args);
        }
        lemma_stream_rows_runs(before, args);
        lemma_runs(before, args.order);
        let earlier = runs(before);
        let gone = rows_after(start, before, args);
        let open = earlier.last();
        assert(!out_of_order(args.order, open.0, last)) by {
            assert(!out_of_order(args.order, entries[before.len() - 1], entries[entries.len() - 1]));
        }
        if open.0 == last {
            assert(now == earlier.drop_last().push((last, open.1 + 1)));
            assert(rows_after(start, entries, args) == gone + Seq::<(int, nat)>::empty());
            assert(gone + Seq::<(int, nat)>::empty() == gone);
            assert(now.drop_last() =~= earlier.drop_last());
            lemma_table_last_count(earlier, now, step, args.order, args.fill_empty_buckets);
            lemma_same_but_last(
                gone,
                table(earlier, step, args.order, args.fill_empty_buckets),
                open,
                now.last(),
                table(now, step, args.order, args.fill_empty_buckets),
            );
        } else {
            assert(now == earlier.push((last, 1nat)));
            assert(now.drop_last() == earlier);
            let filled = if args.fill_empty_buckets {
                zero_rows(passed_over(args, open.0, last))
            } else {
                Seq::<(int, nat)>::empty()
            };
            assert(closing_rows(args, open.0, open.1, last) == seq![open] + filled);
            assert(open.0 == before.last());
            assert(table(now, step, args.order, args.fill_empty_buckets) == table(
                earlier,
                step,
                args.order,
                args.fill_empty_buckets,
            ) + filled + seq![now.last()]);
            assert(rows_after(start, entries, args) == gone + (seq![open] + filled));
            assert(gone + (seq![open] + filled) + seq![now.last()] == (gone + seq![open]) + filled
                + seq![now.last()]);
        }
    }
}

/// The table of a listing is that of the listing with another count in its
/// last entry, but for that count.
proof fn lemma_table_last_count(
    entries: Seq<(int, nat)>,
    changed: Seq<(int, nat)>,
    step: int,
    order: DateTimeOrder,
    fill: bool,
)
    requires
        entries.len() > 0,
        changed.len() == entries.len(),
        changed.drop_last() == entries.drop_last(),
        changed.last().0 == entries.last().0,
    ensures
        table(entries, step, order, fill).len() > 0,
        table(changed, step, order, fill) == table(entries, step, order, fill).drop_last().push(
            changed.last(),
        ),
        table(entries, step, order, fill).last() == entries.last(),
{
    let whole = table(entries, step, order, fill);
    let other = table(changed, step, order, fill);
    if entries.len() == 1 {
        assert(whole == seq![entries[0]]);
        assert(other == seq![changed[0]]);
        assert(whole.drop_last().push(changed.last()) == other);
    } else {
        let earlier = entries.drop_last();
        let filled = if fill {
            zero_rows(between(step, order, earlier.last().0, entries.last().0))
        } else {
            Seq::empty()
        };
        assert(whole == table(earlier, step, order, fill) + filled + seq![entries.last()]);
        assert(other == table(earlier, step, order, fill) + filled + seq![changed.last()]);
        assert(whole.drop_last() == table(earlier, step, order, fill) + filled);
        assert(whole.drop_last().push(changed.last()) == other);
    }
}

/// Rows that make up a table when its last row is put after them make up,
/// with another last row, the table with that row in the place of its last.
proof fn lemma_same_but_last(
    gone: Seq<(int, nat)>,
    whole: Seq<(int, nat)>,
    open: (int, nat),
    reopened: (int, nat),
    other: Seq<(int, nat)>,
)
    requires
        whole.len() > 0,
        gone + seq![open] == whole,
        other == whole.drop_last().push(reopened),
    ensures
        gone + seq![reopened] == other,
{
    assert(gone == whole.drop_last()) by {
        assert((gone + seq![open]).drop_last() == gone);
    }
    assert(gone + seq![reopened] == gone.push(reopened));
}

/// A run whose entries come in the order that is expected of them gives the
/// same rows in stream mode and in normal mode, where empty buckets are not
/// filled in or read alike in both modes. That leaves out only runs in
/// descending order in which two or more empty buckets lie between two
/// entries, which stream mode names upward and normal mode downward.
pub proof fn lemma_modes_agree(entries: Seq<int>, args: Args)
    requires
        args.granularity.wf(),
        in_order(entries, args.order),
        args.fill_empty_buckets ==> gaps_read_alike(entries, args),
    ensures
        run_rows(Mode::Stream, entries, args) == run_rows(Mode::Normal, entries, args),
{
    let step = args.granularity.step();
    lemma_normal_counts_runs(entries, args);
    let held = state_after(initial_state(Mode::Normal), entries, args)->Normal_buckets;
    lemma_listing_unique(runs(entries), listing(held, args.order), held, args.order);
    assert(run_rows(Mode::Normal, entries, args) == Seq::<(int, nat)>::empty() + table(
        runs(entries),
        step,
        args.order,
        args.fill_empty_buckets,
    ));
    if entries.len() == 0 {
        assert(runs(entries) == Seq::<(int, nat)>::empty());
        assert(run_rows(Mode::Stream, entries, args) == Seq::<(int, nat)>::empty() + Seq::<
            (int, nat),
        >::empty());
    } else {
        lemma_stream_rows_runs(entries, args);
    }
}

} // verus!
