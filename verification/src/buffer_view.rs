//! Multi-channel audio block passed to an effect for in-place processing.
//!
//! A `BufferViewMut` holds one sample sequence per channel; all channels have
//! the same length. An effect transforms the samples in place and the host
//! takes the block back afterwards.

use vstd::prelude::*;

verus! {

/// A block of equal-length sample channels, viewed as `Seq<Seq<i64>>`.
pub struct BufferViewMut {
    channels: Vec<Vec<i64>>,
}

impl View for BufferViewMut {
    type V = Seq<Seq<i64>>;

    closed spec fn view(&self) -> Seq<Seq<i64>> {
        self.channels@.map_values(|c: Vec<i64>| c@)
    }
}

impl BufferViewMut {
    /// All channels hold the same number of samples.
    pub open spec fn wf(&self) -> bool {
        forall|c: int| 0 <= c < self@.len() ==> (#[trigger] self@[c]).len() == self@[0].len()
    }

    /// Wraps host-provided channel storage. All channels must have the same
    /// length; a mismatched block is a caller error.
    pub fn new(channels: Vec<Vec<i64>>) -> (r: Self)
        requires
            forall|c: int|
                0 <= c < channels@.len() ==> (#[trigger] channels@[c])@.len()
                    == channels@[0]@.len(),
        ensures
            r.wf(),
            r@.len() == channels@.len(),
            forall|c: int| 0 <= c < channels@.len() ==> #[trigger] r@[c] == channels@[c]@,
    {
        let r = BufferViewMut { channels };
        proof {
            assert(forall|c: int|
                0 <= c < r.channels@.len() ==> #[trigger] r@[c] == r.channels@[c]@);
        }
        r
    }

    /// Number of channels in the block.
    pub fn num_channels(&self) -> (n: usize)
        ensures
            n == self@.len(),
    {
        self.channels.len()
    }

    /// Number of samples per channel (zero for a block with no channels).
    pub fn num_samples(&self) -> (n: usize)
        ensures
            self@.len() == 0 ==> n == 0,
            self@.len() > 0 ==> n == self@[0].len(),
    {
        if self.channels.len() == 0 {
            0
        } else {
            self.channels[0].len()
        }
    }

    /// Read-only access to one channel.
    pub fn channel(&self, c: usize) -> (r: &Vec<i64>)
        requires
            c < self@.len(),
        ensures
            r@ == self@[c as int],
    {
        &self.channels[c]
    }

    /// Mutable access to one channel, for in-place processing.
    pub fn channel_mut(&mut self, c: usize) -> (r: &mut Vec<i64>)
        requires
            c < old(self)@.len(),
        ensures
            r@ == old(self)@[c as int],
            final(self)@ =~= old(self)@.update(c as int, final(r)@),
    {
        &mut self.channels[c]
    }

    /// Hands the processed channel storage back to the host.
    pub fn into_channels(self) -> (r: Vec<Vec<i64>>)
        ensures
            r@.len() == self@.len(),
            forall|c: int| 0 <= c < r@.len() ==> (#[trigger] r@[c])@ == self@[c],
    {
        self.channels
    }
}

} // verus!
