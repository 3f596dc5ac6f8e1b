//! The lifecycle capability shared by all block effects.
//!
//! A host drives any effect through the same three calls: `prepare` sizes
//! internal state for an audio format, `reset` clears history across stream
//! restarts, and `process_inplace` transforms one block per call. Each
//! implementation supplies, through the spec functions, its own invariant,
//! preconditions and exact behaviour, so a host verified against this trait
//! works with heterogeneous effects.

use crate::buffer_view::BufferViewMut;
use vstd::prelude::*;

verus! {

/// A block-based audio effect with a configure / clear-history /
/// process-in-place lifecycle.
pub trait Effect: Sized {
    /// Invariant the effect maintains between calls.
    spec fn inv(&self) -> bool;

    /// When `prepare` may be called.
    spec fn prepare_req(&self, sample_rate: u64, block_size: usize) -> bool;

    /// What `prepare` establishes.
    spec fn prepare_ens(pre: Self, post: Self, sample_rate: u64, block_size: usize) -> bool;

    /// What `reset` establishes.
    spec fn reset_ens(pre: Self, post: Self) -> bool;

    /// When a block may be processed.
    spec fn process_req(&self, buffer: &BufferViewMut) -> bool;

    /// How the processed block and the new state relate to the input block
    /// and the old state.
    spec fn process_ens(
        pre: Self,
        post: Self,
        input: Seq<Seq<i64>>,
        output: Seq<Seq<i64>>,
    ) -> bool;

    /// (Re)initializes internal sizing and derived parameters for a new
    /// audio format. Must be called before the first `process_inplace` and
    /// again whenever the sample rate changes.
    fn prepare(&mut self, sample_rate: u64, block_size: usize)
        requires
            old(self).inv(),
            old(self).prepare_req(sample_rate, block_size),
        ensures
            final(self).inv(),
            Self::prepare_ens(*old(self), *final(self), sample_rate, block_size),
    ;

    /// Zeroes all per-channel history without changing sizing, to prevent
    /// audio ghosts across stream restarts.
    fn reset(&mut self)
        requires
            old(self).inv(),
        ensures
            final(self).inv(),
            Self::reset_ens(*old(self), *final(self)),
    ;

    /// Transforms one block of samples per channel, in place.
    fn process_inplace(&mut self, buffer: &mut BufferViewMut)
        requires
            old(self).inv(),
            old(self).process_req(old(buffer)),
        ensures
            final(self).inv(),
            final(buffer).wf(),
            Self::process_ens(*old(self), *final(self), old(buffer)@, final(buffer)@),
    ;
}

} // verus!
