use vstd::prelude::*;
use crate::counts::Counts;
use crate::instant::Instant;
use crate::settings::{Args, DateTimeOrder, Mode};
use crate::table::{
    fill_gap, fill_table, gaps, lemma_listing_exists, lemma_listing_unique, listing, lists, table,
    views, zero_rows, Row,
};

verus! {

/// An entry came that lies before the open bucket in the expected order.
#[derive(Debug, Clone, Copy, PartialEq, Eq, Structural)]
pub struct NonMonotonicEntry;

/// What a runner holds: the counts of all buckets so far, or the open
/// bucket with its count.
pub enum RunnerState {
    Normal { buckets: Map<int, nat> },
    Stream { count: nat, bucket: Option<int> },
}

/// The bookkeeping of a run, in one of its two modes.
pub enum Runner {
    /// Counts every bucket; all are listed at the end.
    Normal { buckets: Counts },
    /// Counts the open bucket; each bucket is listed when it closes.
    Stream { count: u64, bucket: Option<Instant> },
}

impl View for Runner {
    type V = RunnerState;

    open spec fn view(&self) -> RunnerState {
        match *self {
            Runner::Normal { buckets } => RunnerState::Normal { buckets: buckets@ },
            Runner::Stream { count, bucket } => RunnerState::Stream {
                count: count as nat,
                bucket: match bucket {
                    Some(open) => Some(open@),
                    None => None,
                },
            },
        }
    }
}

/// The state in which a run starts.
pub open spec fn initial_state(mode: Mode) -> RunnerState {
    match mode {
        Mode::Normal => RunnerState::Normal { buckets: Map::empty() },
        Mode::Stream => RunnerState::Stream { count: 0, bucket: None },
    }
}

/// Whether an entry at `entry` goes against `order`, given that the open
/// bucket is at `current`.
pub open spec fn out_of_order(order: DateTimeOrder, current: int, entry: int) -> bool {
    match order {
        DateTimeOrder::Ascending => entry < current,
        DateTimeOrder::Descending => entry > current,
    }
}

/// The timestamps of the empty buckets that a closing bucket leaves behind
/// it when an entry at `entry` closes the bucket at `current`: the
/// successors of the lower of the two that lie before the upper one. They
/// are named upward, whichever way the entries go.
pub open spec fn passed_over(args: Args, current: int, entry: int) -> Seq<int> {
    match args.order {
        DateTimeOrder::Ascending => gaps(args.granularity.step(), current, entry),
        DateTimeOrder::Descending => gaps(args.granularity.step(), entry, current),
    }
}

/// The rows that go out when the bucket at `current` closes because an
/// entry at `entry` has come: the bucket with its count, then, where empty
/// buckets are filled in, a zero for each empty bucket between the two.
pub open spec fn closing_rows(args: Args, current: int, count: nat, entry: int) -> Seq<
    (int, nat),
> {
    seq![(current, count)] + if args.fill_empty_buckets {
        zero_rows(passed_over(args, current, entry))
    } else {
        Seq::empty()
    }
}

/// The count that a state holds for the bucket at `bucket`.
pub open spec fn recorded(state: RunnerState, bucket: int) -> nat {
    match state {
        RunnerState::Normal { buckets } => if buckets.contains_key(bucket) {
            buckets[bucket]
        } else {
            0
        },
        RunnerState::Stream { count, bucket: open } => if open == Some(bucket) {
            count
        } else {
            0
        },
    }
}

/// The state after an entry at `entry`. In normal mode the count of its
/// bucket goes up by one. In stream mode the first entry opens its bucket
/// with a count of one; an entry in the open bucket adds one to the count;
/// an entry that goes against the order changes nothing; any other entry
/// closes the open bucket and opens its own with a count of one.
pub open spec fn next_state(state: RunnerState, entry: int, args: Args) -> RunnerState {
    match state {
        RunnerState::Normal { buckets } => RunnerState::Normal {
            buckets: buckets.insert(entry, recorded(state, entry) + 1),
        },
        RunnerState::Stream { count, bucket } => match bucket {
            None => RunnerState::Stream { count: 1, bucket: Some(entry) },
            Some(current) => if entry == current {
                RunnerState::Stream { count: count + 1, bucket }
            } else if out_of_order(args.order, current, entry) {
                state
            } else {
                RunnerState::Stream { count: 1, bucket: Some(entry) }
            },
        },
    }
}

/// The rows that go out on an entry at `entry`, or the error that ends the
/// run. Only in stream mode does an entry give rows, when it closes the open
/// bucket, or an error, when it goes against the order and that is not
/// tolerated.
pub open spec fn emitted(state: RunnerState, entry: int, args: Args) -> Result<
    Seq<(int, nat)>,
    NonMonotonicEntry,
> {
    match state {
        RunnerState::Normal { .. } => Ok(Seq::empty()),
        RunnerState::Stream { count, bucket } => match bucket {
            None => Ok(Seq::empty()),
            Some(current) => if entry == current {
                Ok(Seq::empty())
            } else if out_of_order(args.order, current, entry) {
                if args.tolerant {
                    Ok(Seq::empty())
                } else {
                    Err(NonMonotonicEntry)
                }
            } else {
                Ok(closing_rows(args, current, count, entry))
            },
        },
    }
}

/// The rows with which a run ends: in normal mode the table of all
/// buckets, in stream mode the open bucket with its count, if there is one.
pub open spec fn final_rows(state: RunnerState, args: Args) -> Seq<(int, nat)> {
    match state {
        RunnerState::Normal { buckets } => table(
            listing(buckets, args.order),
            args.granularity.step(),
            args.order,
            args.fill_empty_buckets,
        ),
        RunnerState::Stream { count, bucket } => match bucket {
            Some(open) => seq![(open, count)],
            None => Seq::empty(),
        },
    }
}

/// In normal mode an entry adds one to the count of its bucket and leaves
/// every other count as it was: counts only grow.
pub proof fn lemma_counts_only_grow(state: RunnerState, entry: int, args: Args, bucket: int)
    requires
        state is Normal,
    ensures
        next_state(state, entry, args) is Normal,
        recorded(next_state(state, entry, args), bucket) == recorded(state, bucket) + if bucket
            == entry {
            1nat
        } else {
            0nat
        },
{
}

impl Runner {
    /// The counts are held under the timestamps of instants.
    pub open spec fn wf(&self) -> bool {
        match *self {
            Runner::Normal { buckets } => buckets.wf(),
            Runner::Stream { .. } => true,
        }
    }

    /// In normal mode the buckets that are held have a listing in either
    /// order, so the table with which the run ends is that of a listing.
    pub proof fn lemma_listing(&self, order: DateTimeOrder)
        requires
            self.wf(),
            self@ is Normal,
        ensures
            lists(listing(self@->Normal_buckets, order), self@->Normal_buckets, order),
    {
        lemma_listing_exists(self@->Normal_buckets, order);
    }

    /// The bookkeeping with which a run in `mode` starts.
    pub fn from_mode(mode: Mode) -> (runner: Runner)
        ensures
            runner.wf(),
            runner@ == initial_state(mode),
    {
        match mode {
            Mode::Normal => Runner::Normal { buckets: Counts::new() },
            Mode::Stream => Runner::Stream { count: 0, bucket: None },
        }
    }

    /// The count held for `bucket`.
    pub fn count(&self, bucket: &Instant) -> (count: u64)
        ensures
            count == recorded(self@, bucket@),
    {
        match self {
            Runner::Normal { buckets } => buckets.get(bucket),
            Runner::Stream { count, bucket: open } => match open {
                Some(current) => if current.timestamp() == bucket.timestamp() {
                    *count
                } else {
                    0
                },
                None => 0,
            },
        }
    }

    /// Takes note of an entry in the bucket `entry` and hands back the rows
    /// that are due.
    pub fn handle_bucket_entry(&mut self, entry: Instant, args: &Args) -> (rows: Result<
        Vec<Row>,
        NonMonotonicEntry,
    >)
        requires
            old(self).wf(),
            args.granularity.wf(),
            recorded(old(self)@, entry@) < u64::MAX,
        ensures
            final(self).wf(),
            final(self)@ == next_state(old(self)@, entry@, *args),
            match rows {
                Ok(due) => emitted(old(self)@, entry@, *args) == Ok::<
                    Seq<(int, nat)>,
                    NonMonotonicEntry,
                >(views(due@)),
                Err(error) => emitted(old(self)@, entry@, *args) == Err::<
                    Seq<(int, nat)>,
                    NonMonotonicEntry,
                >(error),
            },
    {
        match self {
            Runner::Normal { buckets } => {
                buckets.add_one(&entry);
                let due: Vec<Row> = Vec::new();
                assert(views(due@) == Seq::<(int, nat)>::empty());
                Ok(due)
            },
            Runner::Stream { count, bucket } => {
                let current = match bucket {
                    Some(open) => *open,
                    None => {
                        *bucket = Some(entry);
                        *count = 1;
                        let due: Vec<Row> = Vec::new();
                        assert(views(due@) == Seq::<(int, nat)>::empty());
                        return Ok(due);
                    },
                };
                let at = entry.timestamp();
                let open_at = current.timestamp();
                if at == open_at {
                    *count = *count + 1;
                    let due: Vec<Row> = Vec::new();
                    assert(views(due@) == Seq::<(int, nat)>::empty());
                    Ok(due)
                } else if match args.order {
                    DateTimeOrder::Ascending => at < open_at,
                    DateTimeOrder::Descending => at > open_at,
                } {
                    if args.tolerant {
                        let due: Vec<Row> = Vec::new();
                        assert(views(due@) == Seq::<(int, nat)>::empty());
                        Ok(due)
                    } else {
                        Err(NonMonotonicEntry)
                    }
                } else {
                    let mut due: Vec<Row> = Vec::new();
                    due.push(Row { bucket: current, count: *count });
                    assert(views(due@) == seq![(current@, *count as nat)]);
                    if args.fill_empty_buckets {
                        match args.order {
                            DateTimeOrder::Ascending => {
                                fill_gap(&mut due, &args.granularity, &current, &entry);
                            },
                            DateTimeOrder::Descending => {
                                fill_gap(&mut due, &args.granularity, &entry, &current);
                            },
                        }
                    } else {
                        assert(views(due@) + Seq::<(int, nat)>::empty() == views(due@));
                    }
                    *count = 1;
                    *bucket = Some(entry);
                    Ok(due)
                }
            },
        }
    }

    /// Ends the run and hands back the rows that are still due.
    pub fn finish(self, args: &Args) -> (rows: Vec<Row>)
        requires
            self.wf(),
            args.granularity.wf(),
        ensures
            views(rows@) == final_rows(self@, *args),
            self@ matches RunnerState::Normal { buckets } ==> lists(
                listing(buckets, args.order),
                buckets,
                args.order,
            ),
    {
        match self {
            Runner::Normal { buckets } => {
                let ghost held = buckets@;
                let entries = buckets.into_sorted(args.order);
                proof {
                    lemma_listing_unique(
                        views(entries@),
                        listing(held, args.order),
                        held,
                        args.order,
                    );
                }
                fill_table(&entries, args)
            },
            Runner::Stream { count, bucket } => {
                let mut rows: Vec<Row> = Vec::new();
                match bucket {
                    Some(open) => {
                        rows.push(Row { bucket: open, count });
                        assert(views(rows@) == seq![(open@, count as nat)]);
                    },
                    None => {
                        assert(views(rows@) == Seq::<(int, nat)>::empty());
                    },
                }
                rows
            },
        }
    }
}

} // verus!
