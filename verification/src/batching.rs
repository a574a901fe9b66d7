//! The database writer's decisions: how telemetry rows are gathered into
//! batches, when a batch is written, and when connecting is given up.
use vstd::prelude::*;

verus! {

/// Rows written in one batch.
pub const TELEMETRY_BATCH_SIZE: usize = 256;

/// What reaches the writer.
pub enum WriterEvent<T> {
    /// A telemetry row.
    Telemetry(T),
    /// An alarm or system event, written on its own after the rows before it.
    Event,
    /// The periodic flush tick.
    Tick,
}

/// Telemetry rows waiting to be written, fewer than a batch.
pub struct TelemetryBatcher<T> {
    pending: Vec<T>,
}

impl<T> View for TelemetryBatcher<T> {
    type V = Seq<T>;

    closed spec fn view(&self) -> Seq<T> {
        self.pending@
    }
}

/// The batches written for `events` starting with `pending` waiting, and
/// what then still waits: a full batch is written when its last row comes,
/// and everything waiting is written before an event and on a tick.
pub open spec fn run_batcher<T>(pending: Seq<T>, events: Seq<WriterEvent<T>>) -> (Seq<Seq<T>>, Seq<T>)
    decreases events.len(),
{
    if events.len() == 0 {
        (Seq::empty(), pending)
    } else {
        let (written, rest) = run_batcher(pending, events.drop_last());
        match events.last() {
            WriterEvent::Telemetry(row) => if rest.len() + 1 >= TELEMETRY_BATCH_SIZE {
                (written.push(rest.push(row)), Seq::empty())
            } else {
                (written, rest.push(row))
            },
            _ => if rest.len() == 0 {
                (written, rest)
            } else {
                (written.push(rest), Seq::empty())
            },
        }
    }
}

/// The rows an event sequence carries, in order.
pub open spec fn rows_of<T>(events: Seq<WriterEvent<T>>) -> Seq<T>
    decreases events.len(),
{
    if events.len() == 0 {
        Seq::empty()
    } else {
        match events.last() {
            WriterEvent::Telemetry(row) => rows_of(events.drop_last()).push(row),
            _ => rows_of(events.drop_last()),
        }
    }
}

impl<T> TelemetryBatcher<T> {
    #[verifier::type_invariant]
    closed spec fn inv(self) -> bool {
        self.pending@.len() < TELEMETRY_BATCH_SIZE
    }

    /// Nothing waiting.
    pub fn new() -> (r: Self)
        ensures
            r@ == Seq::<T>::empty(),
    {
        TelemetryBatcher { pending: Vec::new() }
    }

    /// Fewer rows than a batch wait.
    pub fn pending_len(&self) -> (r: usize)
        ensures
            r == self@.len(),
            r < TELEMETRY_BATCH_SIZE,
    {
        proof {
            use_type_invariant(self);
        }
        self.pending.len()
    }

    /// Adds a row; returns the batch to write when it is full.
    pub fn push_row(&mut self, row: T) -> (r: Option<Vec<T>>)
        ensures
            old(self)@.len() + 1 >= TELEMETRY_BATCH_SIZE ==> (r matches Some(b) && b@ == old(
                self,
            )@.push(row) && final(self)@ == Seq::<T>::empty()),
            old(self)@.len() + 1 < TELEMETRY_BATCH_SIZE ==> r is None && final(self)@ == old(self)@.push(
                row,
            ),
    {
        proof {
            use_type_invariant(&*self);
        }
        let mut pending: Vec<T> = Vec::new();
        std::mem::swap(&mut pending, &mut self.pending);
        pending.push(row);
        if pending.len() >= TELEMETRY_BATCH_SIZE {
            Some(pending)
        } else {
            self.pending = pending;
            None
        }
    }

    /// Takes everything waiting, to be written before an event, on a tick,
    /// or when the writer stops; `None` when nothing waits.
    pub fn take_pending(&mut self) -> (r: Option<Vec<T>>)
        ensures
            final(self)@ == Seq::<T>::empty(),
            old(self)@.len() == 0 ==> r is None,
            old(self)@.len() > 0 ==> (r matches Some(b) && b@ == old(self)@),
    {
        if self.pending.len() == 0 {
            return None;
        }
        let mut pending: Vec<T> = Vec::new();
        std::mem::swap(&mut pending, &mut self.pending);
        Some(pending)
    }

    /// Handles one event: the batch to write now, if any.
    pub fn handle(&mut self, event: WriterEvent<T>) -> (r: Option<Vec<T>>)
        ensures
            ({
                let (written, rest) = run_batcher(old(self)@, seq![event]);
                &&& final(self)@ == rest
                &&& match r {
                    Some(b) => written == seq![b@],
                    None => written == Seq::<Seq<T>>::empty(),
                }
            }),
    {
        let ghost pending = self@;
        proof {
            let es = seq![event];
            assert(es.drop_last() =~= Seq::<WriterEvent<T>>::empty());
            assert(run_batcher(pending, Seq::<WriterEvent<T>>::empty()) == (
                Seq::<Seq<T>>::empty(),
                pending,
            ));
        }
        match event {
            WriterEvent::Telemetry(row) => {
                let r = self.push_row(row);
                proof {
                    if r is Some {
                        assert(seq![r->0@] =~= Seq::<Seq<T>>::empty().push(pending.push(row)));
                    }
                }
                r
            },
            _ => {
                let r = self.take_pending();
                proof {
                    if r is Some {
                        assert(seq![r->0@] =~= Seq::<Seq<T>>::empty().push(pending));
                    }
                }
                r
            },
        }
    }
}

/// The rows written out, then those still waiting, are exactly the rows
/// that arrived, in order: batching loses, repeats and reorders nothing.
pub proof fn lemma_batches_keep_every_row<T>(pending: Seq<T>, events: Seq<WriterEvent<T>>)
    ensures
        run_batcher(pending, events).0.flatten() + run_batcher(pending, events).1 == pending + rows_of(
            events,
        ),
    decreases events.len(),
{
    if events.len() > 0 {
        let init = events.drop_last();
        lemma_batches_keep_every_row(pending, init);
        let (written, rest) = run_batcher(pending, init);
        let before = rows_of(init);
        assert(written.flatten() + rest == pending + before);
        match events.last() {
            WriterEvent::Telemetry(row) => {
                assert(rows_of(events) == before.push(row));
                assert((pending + before).push(row) =~= pending + before.push(row));
                assert(written.flatten() + rest.push(row) =~= (written.flatten() + rest).push(row));
                if rest.len() + 1 >= TELEMETRY_BATCH_SIZE {
                    written.lemma_flatten_push(rest.push(row));
                    assert(written.push(rest.push(row)).flatten() + Seq::<T>::empty() =~= pending
                        + rows_of(events));
                }
            },
            _ => {
                assert(rows_of(events) == before);
                if rest.len() != 0 {
                    written.lemma_flatten_push(rest);
                    assert(written.push(rest).flatten() + Seq::<T>::empty() =~= pending + rows_of(
                        events,
                    ));
                }
            },
        }
    }
}

/// Every batch written holds at most a batch of rows, and what waits
/// afterwards is less than a batch.
pub proof fn lemma_batches_bounded<T>(pending: Seq<T>, events: Seq<WriterEvent<T>>)
    requires
        pending.len() < TELEMETRY_BATCH_SIZE,
    ensures
        run_batcher(pending, events).1.len() < TELEMETRY_BATCH_SIZE,
        forall|i: int|
            0 <= i < run_batcher(pending, events).0.len() ==> 0 < (
            #[trigger] run_batcher(pending, events).0[i]).len() <= TELEMETRY_BATCH_SIZE,
    decreases events.len(),
{
    if events.len() > 0 {
        lemma_batches_bounded(pending, events.drop_last());
    }
}

/// Whether to try connecting again after failed attempt number `attempt`
/// (counted from 1): not once `max_attempts` were made.
pub fn retry_connect(attempt: u32, max_attempts: u32) -> (r: bool)
    ensures
        r == (attempt < max_attempts),
{
    attempt < max_attempts
}

} // verus!
