//! The analysis worker's decisions and the slot through which it publishes
//! spectra to the renderer.

use vstd::prelude::*;

use crate::input_stream::SampleRelay;

verus! {

/// What the analysis worker does next.
pub enum WorkerAction<S> {
    /// Termination was requested: leave the loop.
    Exit,
    /// No whole block is buffered: wait for the capture side.
    Wait,
    /// Analyze this block and publish its spectrum.
    Analyze(Vec<S>),
}

/// One turn of the analysis worker: decides what to do from the termination
/// flag and the relay, and takes the block out of the relay when there is
/// one to analyze. Termination wins over a waiting block.
pub fn worker_step<S: Copy>(terminate: bool, relay: &mut SampleRelay<S>) -> (action:
    WorkerAction<S>)
    ensures
        final(relay).block_size() == old(relay).block_size(),
        terminate ==> action is Exit && final(relay)@ == old(relay)@,
        !terminate && !old(relay).is_ready() ==> action is Wait && final(relay)@ == old(relay)@,
        !terminate && old(relay).is_ready() ==> action is Analyze,
        action matches WorkerAction::Analyze(block) ==> block@ == old(relay)@.take(
            old(relay).block_size() as int,
        ) && final(relay)@ == old(relay)@.skip(old(relay).block_size() as int),
{
    if terminate {
        return WorkerAction::Exit;
    }
    match relay.take_block() {
        Some(block) => WorkerAction::Analyze(block),
        None => WorkerAction::Wait,
    }
}

/// The slot that holds the most recently published spectrum. A spectrum is
/// replaced as a whole, so a reader sees either all of the old one or all
/// of the new one.
pub struct SpectrumSlot<T> {
    latest: Option<Vec<T>>,
}

impl<T> View for SpectrumSlot<T> {
    type V = Option<Seq<T>>;

    /// The published spectrum, or `None` before the first.
    closed spec fn view(&self) -> Option<Seq<T>> {
        match self.latest {
            Some(spectrum) => Some(spectrum@),
            None => None,
        }
    }
}

impl<T: Copy> SpectrumSlot<T> {
    /// A slot in which nothing has been published.
    pub fn new() -> (slot: Self)
        ensures
            slot@ is None,
    {
        SpectrumSlot { latest: None }
    }

    /// Publishes `spectrum` in place of whatever the slot held.
    pub fn publish(&mut self, spectrum: Vec<T>)
        ensures
            final(self)@ == Some(spectrum@),
    {
        self.latest = Some(spectrum);
    }

    /// A copy of the published spectrum, or `None` if there is none yet.
    pub fn snapshot(&self) -> (copy: Option<Vec<T>>)
        ensures
            copy is Some <==> self@ is Some,
            copy is Some ==> copy->0@ == self@->0,
    {
        match &self.latest {
            None => None,
            Some(spectrum) => {
                let mut values: Vec<T> = Vec::with_capacity(spectrum.len());
                let mut i: usize = 0;
                while i < spectrum.len()
                    invariant
                        i <= spectrum.len(),
                        values@ == spectrum@.take(i as int),
                    decreases spectrum.len() - i,
                {
                    values.push(spectrum[i]);
                    assert(values@ =~= spectrum@.take(i + 1));
                    i += 1;
                }
                assert(spectrum@.take(spectrum.len() as int) =~= spectrum@);
                Some(values)
            },
        }
    }
}

} // verus!
