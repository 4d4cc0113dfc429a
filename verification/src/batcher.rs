//! Buffering result documents and delivering them in batches.
//!
//! A flush sends the whole buffer in one call. When it succeeds the buffer
//! is cleared; when it fails the buffer stays as it is and no flush is
//! attempted until a cooldown has passed.

use vstd::prelude::*;

verus! {

/// For how many seconds after a failed flush no flush is attempted.
pub const FLUSH_COOLDOWN: i64 = 600;

/// What a [`ResultBatcher`] holds.
pub struct ResultBatcherView<T> {
    pub buffer: Seq<T>,
    pub retry_after: i64,
}

/// The buffer of result documents that await delivery, and the time after
/// which the next flush may be attempted.
#[derive(Debug)]
pub struct ResultBatcher<T> {
    buffer: Vec<T>,
    retry_after: i64,
}

/// Whether a flush is to be attempted at `now`: there is something to send
/// and the cooldown of the last failure, if any, has passed.
pub open spec fn flush_due<T>(batcher: ResultBatcherView<T>, now: i64) -> bool {
    batcher.buffer.len() > 0 && now > batcher.retry_after
}

/// The time after which a flush may be attempted again when one failed at
/// `now`.
pub open spec fn cooldown_end(now: i64) -> i64 {
    if now + FLUSH_COOLDOWN > i64::MAX {
        i64::MAX
    } else {
        (now + FLUSH_COOLDOWN) as i64
    }
}

/// The batcher after a flush attempted at `now` succeeded or failed: the
/// buffer empty, or untouched and the cooldown begun.
pub open spec fn after_flush<T>(batcher: ResultBatcherView<T>, delivered: bool, now: i64) -> ResultBatcherView<
    T,
> {
    if delivered {
        ResultBatcherView { buffer: Seq::empty(), retry_after: batcher.retry_after }
    } else {
        ResultBatcherView { buffer: batcher.buffer, retry_after: cooldown_end(now) }
    }
}

/// A flush leaves the buffer either empty or exactly as it was.
pub proof fn lemma_flush_is_atomic<T>(batcher: ResultBatcherView<T>, delivered: bool, now: i64)
    ensures
        after_flush(batcher, delivered, now).buffer == if delivered {
            Seq::<T>::empty()
        } else {
            batcher.buffer
        },
        !delivered ==> forall|later: i64|
            later <= cooldown_end(now) ==> !flush_due(after_flush(batcher, delivered, now), later),
{
}

impl<T> View for ResultBatcher<T> {
    type V = ResultBatcherView<T>;

    closed spec fn view(&self) -> ResultBatcherView<T> {
        ResultBatcherView { buffer: self.buffer@, retry_after: self.retry_after }
    }
}

impl<T> ResultBatcher<T> {
    /// Makes an empty batcher that may flush at any time after the epoch.
    pub fn new() -> (batcher: ResultBatcher<T>)
        ensures
            batcher@ == (ResultBatcherView { buffer: Seq::<T>::empty(), retry_after: 0 }),
    {
        ResultBatcher { buffer: Vec::new(), retry_after: 0 }
    }

    /// The number of documents buffered.
    pub fn len(&self) -> (count: usize)
        ensures
            count == self@.buffer.len(),
    {
        self.buffer.len()
    }

    /// The time after which the next flush may be attempted.
    pub fn retry_after(&self) -> (time: i64)
        ensures
            time == self@.retry_after,
    {
        self.retry_after
    }

    /// Adds a document behind those buffered.
    pub fn push(&mut self, document: T)
        ensures
            final(self)@ == (ResultBatcherView {
                buffer: old(self)@.buffer.push(document),
                retry_after: old(self)@.retry_after,
            }),
    {
        self.buffer.push(document);
    }

    /// Whether a flush is to be attempted at `now`.
    pub fn should_flush(&self, now: i64) -> (due: bool)
        ensures
            due == flush_due(self@, now),
    {
        self.buffer.len() > 0 && now > self.retry_after
    }

    /// The documents that a flush sends: all that are buffered, in the
    /// order they came.
    pub fn batch(&self) -> (documents: &Vec<T>)
        ensures
            documents@ == self@.buffer,
    {
        &self.buffer
    }

    /// Takes note of how a flush attempted at `now` ended.
    pub fn flushed(&mut self, delivered: bool, now: i64)
        ensures
            final(self)@ == after_flush(old(self)@, delivered, now),
    {
        if delivered {
            self.buffer.clear();
        } else {
            self.retry_after = if now > i64::MAX - FLUSH_COOLDOWN {
                i64::MAX
            } else {
                now + FLUSH_COOLDOWN
            };
        }
    }
}

} // verus!
