//! The update cursor. The platform hands out updates in pages: each request
//! names the lowest identifier that is still wanted. The cursor keeps that
//! identifier and turns the pages into one sequence of updates, each
//! delivered once. It decides; its user performs the requests.

use super::types::GetUpdates;
use super::types::Update;
use std::collections::VecDeque;
use vstd::prelude::*;

verus! {

/// The largest number of updates asked for in one request.
pub const PAGE_LIMIT: i64 = 100;

/// Why a cursor could not be made.
#[derive(Clone, Copy, Debug, PartialEq, Eq)]
pub enum ConfigError {
    /// The poll timeout is zero: the cursor would poll without pause.
    ZeroTimeout,
    /// The poll timeout does not fit the request's signed field.
    TimeoutTooLong,
}

/// What the cursor's user has to do next.
#[derive(Clone, Debug, PartialEq, Eq)]
pub enum Step {
    /// Hand this update on; then ask again.
    Emit(Update),
    /// Perform this request and deliver its outcome; then ask again.
    Fetch(GetUpdates),
    /// A request has failed: the sequence is over.
    Done,
}

/// The offset to ask for once `batch` has arrived, where `offset` was asked
/// for before: one above the last identifier of the batch, and unchanged
/// where the batch is empty.
pub open spec fn offset_after(offset: Option<i64>, batch: Seq<Update>) -> Option<i64> {
    if batch.len() == 0 {
        offset
    } else {
        Some((batch.last().update_id + 1) as i64)
    }
}

/// The request that asks for the updates from `offset` on.
pub open spec fn request_for(offset: Option<i64>, poll_timeout: i64) -> GetUpdates {
    GetUpdates {
        offset: offset,
        limit: Some(PAGE_LIMIT),
        timeout: Some(poll_timeout),
        allowed_updates: None,
    }
}

/// A batch whose last identifier has a successor.
pub open spec fn batch_fits(batch: Seq<Update>) -> bool {
    batch.len() > 0 ==> batch.last().update_id < i64::MAX
}

/// What a cursor remembers between two steps.
pub struct Cursor {
    /// The seconds that the platform may hold a request open.
    pub poll_timeout: i64,
    /// The lowest identifier that has not been seen; `None` before the
    /// first update has arrived.
    pub next_offset: Option<i64>,
    /// The updates that have arrived and have not been handed on.
    pub pending: Seq<Update>,
    /// Whether a request has failed.
    pub failed: bool,
}

impl Cursor {
    /// The cursor that has seen nothing.
    pub open spec fn start(poll_timeout: i64) -> Cursor {
        Cursor {
            poll_timeout: poll_timeout,
            next_offset: None,
            pending: Seq::<Update>::empty(),
            failed: false,
        }
    }

    /// What is to be done next: nothing more after a failure; else the
    /// update that has waited longest is handed on; and where none waits,
    /// the next page is asked for.
    pub open spec fn step(self) -> Step {
        if self.failed {
            Step::Done
        } else if self.pending.len() > 0 {
            Step::Emit(self.pending[0])
        } else {
            Step::Fetch(request_for(self.next_offset, self.poll_timeout))
        }
    }

    /// The cursor once `step` has been taken: an update that was handed on
    /// waits no longer.
    pub open spec fn polled(self) -> Cursor {
        if !self.failed && self.pending.len() > 0 {
            Cursor { pending: self.pending.drop_first(), ..self }
        } else {
            self
        }
    }

    /// The cursor once `batch` has arrived.
    pub open spec fn delivered(self, batch: Seq<Update>) -> Cursor {
        Cursor {
            pending: self.pending + batch,
            next_offset: offset_after(self.next_offset, batch),
            ..self
        }
    }

    /// The cursor once a request has failed.
    pub open spec fn broken(self) -> Cursor {
        Cursor { failed: true, ..self }
    }

    /// The cursor once `n` steps have been taken.
    pub open spec fn polled_times(self, n: nat) -> Cursor
        decreases n,
    {
        if n == 0 {
            self
        } else {
            self.polled().polled_times((n - 1) as nat)
        }
    }

    /// The cursor asks for a page: no request has failed and no update
    /// waits.
    pub open spec fn asks(self) -> bool {
        !self.failed && self.pending.len() == 0
    }

    /// The cursor once each batch of `batches` has arrived in turn and its
    /// updates have been handed on.
    pub open spec fn ran(self, batches: Seq<Seq<Update>>) -> Cursor
        decreases batches.len(),
    {
        if batches.len() == 0 {
            self
        } else {
            self.ran(batches.drop_last()).delivered(batches.last()).polled_times(
                batches.last().len(),
            )
        }
    }
}

/// The state of the cursor.
pub struct UpdateStream {
    poll_timeout: i64,
    next_offset: Option<i64>,
    pending: VecDeque<Update>,
    failed: bool,
}

/// Makes a cursor that has seen nothing yet. `poll_timeout` is the number of
/// seconds that the platform may hold a request open; it must be positive and
/// fit the request's field.
pub fn update_stream(poll_timeout: u64) -> (made: Result<UpdateStream, ConfigError>)
    ensures
        poll_timeout == 0 ==> made == Err::<UpdateStream, ConfigError>(ConfigError::ZeroTimeout),
        poll_timeout > i64::MAX ==> made == Err::<UpdateStream, ConfigError>(
            ConfigError::TimeoutTooLong,
        ),
        0 < poll_timeout <= i64::MAX ==> made is Ok && made->Ok_0@ == Cursor::start(
            poll_timeout as i64,
        ),
{
    if poll_timeout == 0 {
        Err(ConfigError::ZeroTimeout)
    } else if poll_timeout > 0x7fff_ffff_ffff_ffff {
        Err(ConfigError::TimeoutTooLong)
    } else {
        Ok(
            UpdateStream {
                poll_timeout: poll_timeout as i64,
                next_offset: None,
                pending: VecDeque::new(),
                failed: false,
            },
        )
    }
}

impl UpdateStream {
    /// What the cursor remembers.
    pub closed spec fn view(&self) -> Cursor {
        Cursor {
            poll_timeout: self.poll_timeout,
            next_offset: self.next_offset,
            pending: self.pending@,
            failed: self.failed,
        }
    }

    /// Says what to do next, and takes the update that it hands out from
    /// those that wait. After a failure nothing is handed out or asked for.
    /// A request is asked for only when no update waits, so that one request
    /// is under way at a time.
    pub fn poll(&mut self) -> (step: Step)
        ensures
            step == old(self)@.step(),
            final(self)@ == old(self)@.polled(),
    {
        if self.failed {
            return Step::Done;
        }
        match self.pending.pop_front() {
            Some(update) => {
                assert(self.pending@ =~= old(self).pending@.drop_first());
                Step::Emit(update)
            },
            None => Step::Fetch(
                GetUpdates {
                    offset: self.next_offset,
                    limit: Some(PAGE_LIMIT),
                    timeout: Some(self.poll_timeout),
                    allowed_updates: None,
                },
            ),
        }
    }

    /// Takes the outcome of a request. The updates of a batch join those that
    /// wait, in the order in which they came, and the offset moves to one
    /// above the last of them; an empty batch changes nothing. A failure ends
    /// the sequence and is handed back.
    pub fn deliver<E>(&mut self, fetched: Result<Vec<Update>, E>) -> (outcome: Result<(), E>)
        requires
            fetched is Ok ==> batch_fits(fetched->Ok_0@),
        ensures
            match fetched {
                Ok(batch) => {
                    &&& outcome == Ok::<(), E>(())
                    &&& final(self)@ == old(self)@.delivered(batch@)
                    &&& batch@.len() == 0 ==> final(self)@ == old(self)@
                },
                Err(e) => {
                    &&& outcome == Err::<(), E>(e)
                    &&& final(self)@ == old(self)@.broken()
                },
            },
    {
        match fetched {
            Ok(batch) => {
                let ghost arrived = batch@;
                let mut batch = batch;
                if batch.len() > 0 {
                    self.next_offset = Some(batch[batch.len() - 1].update_id + 1);
                }
                let mut incoming: VecDeque<Update> = VecDeque::new();
                while batch.len() > 0
                    invariant
                        batch@ + incoming@ == arrived,
                    decreases batch.len(),
                {
                    let ghost rest = batch@;
                    let ghost taken = incoming@;
                    let update = batch.pop().unwrap();
                    incoming.push_front(update);
                    assert(batch@ + incoming@ =~= rest + taken);
                }
                assert(incoming@ =~= arrived);
                self.pending.append(&mut incoming);
                assert(arrived.len() == 0 ==> self.pending@ =~= old(self).pending@);
                Ok(())
            },
            Err(e) => {
                self.failed = true;
                Err(e)
            },
        }
    }
}

/// The offset to ask for once the batches of `batches` have arrived in turn,
/// where `offset` was asked for first.
pub open spec fn offset_after_all(offset: Option<i64>, batches: Seq<Seq<Update>>) -> Option<i64>
    decreases batches.len(),
{
    if batches.len() == 0 {
        offset
    } else {
        offset_after(offset_after_all(offset, batches.drop_last()), batches.last())
    }
}

/// The identifiers of the batch do not go down.
pub open spec fn ascending(batch: Seq<Update>) -> bool {
    forall|i: int, j: int|
        0 <= i < j < batch.len() ==> (#[trigger] batch[i]).update_id <= (#[trigger] batch[j]).update_id
}

/// `id` is the greatest identifier of the batch.
pub open spec fn greatest_id(batch: Seq<Update>, id: i64) -> bool {
    &&& exists|i: int| 0 <= i < batch.len() && (#[trigger] batch[i]).update_id == id
    &&& forall|j: int| 0 <= j < batch.len() ==> (#[trigger] batch[j]).update_id <= id
}

/// No identifier of the batch is above the last one.
pub open spec fn last_is_greatest(batch: Seq<Update>) -> bool {
    forall|j: int| 0 <= j < batch.len() ==> (#[trigger] batch[j]).update_id <= batch.last().update_id
}

/// A batch that comes in ascending order ends with its greatest identifier.
pub proof fn lemma_ascending_ends_greatest(batch: Seq<Update>)
    requires
        ascending(batch),
    ensures
        last_is_greatest(batch),
{
    assert forall|j: int| 0 <= j < batch.len() implies (#[trigger] batch[j]).update_id
        <= batch.last().update_id by {
        if j < batch.len() - 1 {
            assert(batch[j].update_id <= batch[batch.len() - 1].update_id);
        }
    }
}

/// After the batch at `i` has arrived, and it held an update and ended with
/// its greatest identifier, the next request asks for the identifier that
/// follows it, whatever came before.
pub proof fn lemma_next_request(
    cursor: Cursor,
    batches: Seq<Seq<Update>>,
    i: int,
    greatest: i64,
)
    requires
        cursor.asks(),
        0 <= i < batches.len(),
        greatest_id(batches[i], greatest),
        last_is_greatest(batches[i]),
        batch_fits(batches[i]),
    ensures
        offset_after_all(cursor.next_offset, batches.take(i + 1)) == Some((greatest + 1) as i64),
        cursor.ran(batches.take(i + 1)).step() == Step::Fetch(
            request_for(Some((greatest + 1) as i64), cursor.poll_timeout),
        ),
{
    let seen = batches.take(i + 1);
    assert(seen.last() == batches[i]);
    lemma_run(cursor, seen);
}

/// An empty batch leaves the cursor as it was: it asks for the same offset
/// again, and the sequence goes on.
pub proof fn lemma_empty_batch(cursor: Cursor, offset: Option<i64>, batches: Seq<Seq<Update>>)
    ensures
        cursor.delivered(Seq::<Update>::empty()) == cursor,
        cursor.delivered(Seq::<Update>::empty()).step() == cursor.step(),
        cursor.asks() ==> cursor.delivered(Seq::<Update>::empty()).step() is Fetch,
        offset_after_all(offset, batches.push(Seq::<Update>::empty())) == offset_after_all(
            offset,
            batches,
        ),
{
    let more = batches.push(Seq::<Update>::empty());
    assert(more.drop_last() =~= batches);
    assert(cursor.pending + Seq::<Update>::empty() =~= cursor.pending);
}

/// The offset never goes down, as long as no update arrives whose
/// identifier is below the offset that was asked for.
pub proof fn lemma_offset_grows(offset: i64, batch: Seq<Update>)
    requires
        batch_fits(batch),
        batch.len() > 0 ==> batch.last().update_id >= offset,
    ensures
        offset_after(Some(offset), batch) is Some,
        offset_after(Some(offset), batch)->0 >= offset,
        batch.len() > 0 ==> offset_after(Some(offset), batch)->0 > offset,
{
}

/// Steps hand on the updates that wait, the one that has waited longest
/// first.
pub proof fn lemma_steps(cursor: Cursor, n: nat)
    requires
        !cursor.failed,
        n <= cursor.pending.len(),
    ensures
        cursor.polled_times(n) == (Cursor { pending: cursor.pending.skip(n as int), ..cursor }),
        n < cursor.pending.len() ==> cursor.polled_times(n).step() == Step::Emit(
            cursor.pending[n as int],
        ),
    decreases n,
{
    if n == 0 {
        assert(cursor.pending.skip(0) =~= cursor.pending);
    } else {
        let next = cursor.polled();
        lemma_steps(next, (n - 1) as nat);
        assert(next.pending.skip(n - 1) =~= cursor.pending.skip(n as int));
    }
}

/// One round of the cursor. A cursor that asks for a page and is given a
/// batch hands on the updates of that batch, each once and in their order,
/// and nothing else; then it asks for the page that starts one above the
/// last of them, or for the same page again where the batch was empty.
pub proof fn lemma_round(cursor: Cursor, batch: Seq<Update>)
    requires
        cursor.asks(),
    ensures
        cursor.step() == Step::Fetch(request_for(cursor.next_offset, cursor.poll_timeout)),
        forall|k: nat|
            k < batch.len() ==> (#[trigger] cursor.delivered(batch).polled_times(k)).step()
                == Step::Emit(batch[k as int]),
        cursor.delivered(batch).polled_times(batch.len()).asks(),
        cursor.delivered(batch).polled_times(batch.len()).step() == Step::Fetch(
            request_for(offset_after(cursor.next_offset, batch), cursor.poll_timeout),
        ),
{
    let given = cursor.delivered(batch);
    assert(given.pending =~= batch);
    assert forall|k: nat| k < batch.len() implies (#[trigger] given.polled_times(k)).step()
        == Step::Emit(batch[k as int]) by {
        lemma_steps(given, k);
    }
    lemma_steps(given, batch.len());
}

/// However many batches have arrived, the cursor asks for the page that
/// starts one above the last update that it was given, with the poll timeout
/// that it was made with.
pub proof fn lemma_run(cursor: Cursor, batches: Seq<Seq<Update>>)
    requires
        cursor.asks(),
    ensures
        cursor.ran(batches).asks(),
        cursor.ran(batches).next_offset == offset_after_all(cursor.next_offset, batches),
        cursor.ran(batches).step() == Step::Fetch(
            request_for(offset_after_all(cursor.next_offset, batches), cursor.poll_timeout),
        ),
    decreases batches.len(),
{
    if batches.len() > 0 {
        let earlier = cursor.ran(batches.drop_last());
        lemma_run(cursor, batches.drop_last());
        lemma_round(earlier, batches.last());
        lemma_steps(earlier.delivered(batches.last()), batches.last().len());
    }
}

/// A failure ends the sequence: whatever arrives later, no step hands on an
/// update or asks for a page.
pub proof fn lemma_failure_is_final(cursor: Cursor, batch: Seq<Update>)
    ensures
        cursor.broken().step() == Step::Done,
        cursor.broken().polled() == cursor.broken(),
        cursor.broken().delivered(batch).step() == Step::Done,
{
}

} // verus!
