//! The hand-off buffer between the capture callback, which appends chunks
//! of samples, and the analysis worker, which takes whole blocks.

use vstd::prelude::*;

verus! {

/// Samples on their way from capture to analysis, oldest first, together
/// with the number of samples that make up one analysis block.
///
/// The buffer prefers fresh data to complete data: a chunk that arrives
/// while a full block is still waiting replaces everything buffered.
pub struct SampleRelay<S> {
    samples: Vec<S>,
    block_size: usize,
}

impl<S> View for SampleRelay<S> {
    type V = Seq<S>;

    /// The buffered samples, oldest first.
    closed spec fn view(&self) -> Seq<S> {
        self.samples@
    }
}

impl<S: Copy> SampleRelay<S> {
    /// Number of samples in one analysis block.
    pub closed spec fn spec_block_size(&self) -> usize {
        self.block_size
    }

    /// Whether a whole block is buffered.
    pub open spec fn spec_is_ready(&self) -> bool {
        self@.len() >= self.block_size()
    }

    /// An empty relay for blocks of `block_size` samples.
    pub fn new(block_size: usize) -> (relay: Self)
        ensures
            relay@ == Seq::<S>::empty(),
            relay.block_size() == block_size,
    {
        SampleRelay { samples: Vec::new(), block_size }
    }

    /// Number of samples in one analysis block.
    #[verifier::when_used_as_spec(spec_block_size)]
    pub fn block_size(&self) -> (n: usize)
        ensures
            n == self.block_size(),
    {
        self.block_size
    }

    /// Number of samples buffered.
    pub fn len(&self) -> (n: usize)
        ensures
            n == self@.len(),
    {
        self.samples.len()
    }

    /// Whether a whole block is buffered.
    #[verifier::when_used_as_spec(spec_is_ready)]
    pub fn is_ready(&self) -> (ready: bool)
        ensures
            ready == self.is_ready(),
    {
        self.samples.len() >= self.block_size
    }

    /// Absorbs a chunk from the capture side. If a whole block was already
    /// waiting, it is stale: everything buffered is dropped first, so the
    /// buffer never grows past one block plus one chunk.
    pub fn push(&mut self, chunk: &[S])
        ensures
            final(self).block_size() == old(self).block_size(),
            final(self)@ == if old(self).is_ready() {
                chunk@
            } else {
                old(self)@ + chunk@
            },
            final(self)@.len() <= old(self).block_size() + chunk@.len(),
    {
        if self.samples.len() >= self.block_size {
            self.samples.clear();
        }
        self.samples.reserve(chunk.len());
        let ghost kept = self.samples@;
        let mut i: usize = 0;
        while i < chunk.len()
            invariant
                i <= chunk.len(),
                self.block_size == old(self).block_size,
                self.samples@ == kept + chunk@.take(i as int),
            decreases chunk.len() - i,
        {
            self.samples.push(chunk[i]);
            assert(self.samples@ =~= kept + chunk@.take(i + 1));
            i += 1;
        }
        assert(chunk@.take(chunk.len() as int) =~= chunk@);
        assert(Seq::<S>::empty() + chunk@ =~= chunk@);
    }

    /// Takes the oldest block out of the buffer, if a whole block is there;
    /// what arrived after it stays buffered, in order.
    pub fn take_block(&mut self) -> (block: Option<Vec<S>>)
        ensures
            final(self).block_size() == old(self).block_size(),
            block is Some <==> old(self).is_ready(),
            block is Some ==> block->0@ == old(self)@.take(old(self).block_size() as int),
            block is Some ==> final(self)@ == old(self)@.skip(old(self).block_size() as int),
            block is None ==> final(self)@ == old(self)@,
    {
        if self.samples.len() < self.block_size {
            return None;
        }
        let mut block = self.samples.split_off(self.block_size);
        core::mem::swap(&mut self.samples, &mut block);
        assert(block@ =~= old(self)@.take(old(self).block_size() as int));
        assert(self.samples@ =~= old(self)@.skip(old(self).block_size() as int));
        Some(block)
    }
}

} // verus!
