//! The cross-core hand-off: a bounded first-in first-out queue of packed
//! words, with the readiness flags of the hardware queue it models.

use vstd::prelude::*;

verus! {

/// The number of entries that the cross-core queue holds.
pub const QUEUE_DEPTH: usize = 8;

/// A single-producer single-consumer queue of packed words, at most
/// `QUEUE_DEPTH` deep. Words leave in the order in which they entered.
pub struct WordQueue {
    words: Vec<u32>,
}

impl View for WordQueue {
    type V = Seq<u32>;

    /// The queued words, oldest first.
    closed spec fn view(&self) -> Seq<u32> {
        self.words@
    }
}

impl WordQueue {
    /// The queue never holds more than its depth.
    pub open spec fn wf(&self) -> bool {
        self@.len() <= QUEUE_DEPTH
    }

    /// Creates an empty queue.
    pub fn new() -> (r: WordQueue)
        ensures
            r.wf(),
            r@ == Seq::<u32>::empty(),
    {
        WordQueue { words: Vec::new() }
    }

    /// Whether a word can be written without waiting.
    pub fn has_space(&self) -> (r: bool)
        ensures
            r == (self@.len() < QUEUE_DEPTH),
    {
        self.words.len() < QUEUE_DEPTH
    }

    /// Whether a word is ready to be read.
    pub fn has_data(&self) -> (r: bool)
        ensures
            r == (self@.len() > 0),
    {
        self.words.len() > 0
    }

    /// Appends a word; the producer must have seen space first, so nothing is
    /// ever overwritten or dropped.
    pub fn write(&mut self, word: u32)
        requires
            old(self)@.len() < QUEUE_DEPTH,
        ensures
            final(self)@ == old(self)@.push(word),
            final(self).wf(),
    {
        self.words.push(word);
    }

    /// Takes the oldest word, or `None` when the queue is empty.
    pub fn read(&mut self) -> (r: Option<u32>)
        ensures
            old(self)@.len() == 0 ==> r is None && final(self)@ == old(self)@,
            old(self)@.len() > 0 ==> r == Some(old(self)@[0]) && final(self)@ == old(self)@.skip(1),
    {
        if self.words.len() == 0 {
            None
        } else {
            let w = self.words.remove(0);
            assert(self.words@ =~= old(self)@.skip(1));
            Some(w)
        }
    }
}

} // verus!
