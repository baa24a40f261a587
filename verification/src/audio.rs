//! Planar multi-channel audio buffers and the errors of the core engine layer.

use vstd::prelude::*;

verus! {

/// Errors produced by the core engine layer. `N` is the numeric type of
/// sample rates.
#[derive(Debug, Clone, PartialEq)]
pub enum CoreError<N> {
    BufferSizeMismatch { expected: usize, actual: usize },
    ChannelCountMismatch { expected: usize, actual: usize },
    InvalidSampleRate { rate: N },
    InvalidBlockSize { size: usize },
    CloudNotFound { id: u64 },
    ParticlePoolExhausted { cloud_id: u64, max: usize },
}

/// Planar multi-channel audio buffer: one sample vector per channel, each of
/// length `frames`. `S` is the sample type.
#[derive(Debug, Clone)]
pub struct AudioBlock<S> {
    /// One sample buffer per channel.
    pub channels: Vec<Vec<S>>,
    /// Number of frames (samples per channel) in this block.
    pub frames: usize,
}

impl<S: Copy> AudioBlock<S> {
    /// Every channel holds exactly `frames` samples.
    pub open spec fn wf(&self) -> bool {
        forall|c: int| 0 <= c < self.channels@.len() ==> #[trigger] self.channels@[c]@.len()
            == self.frames
    }

    /// Every sample equals `value`.
    pub open spec fn all_samples(&self, value: S) -> bool {
        forall|c: int, i: int|
            0 <= c < self.channels@.len() && 0 <= i < self.channels@[c]@.len()
                ==> #[trigger] self.channels@[c]@[i] == value
    }

    /// A block of `n_channels` channels of `frames` samples, each `zero`.
    pub fn new(n_channels: usize, frames: usize, zero: S) -> (block: Self)
        ensures
            block.wf(),
            block.channels@.len() == n_channels,
            block.frames == frames,
            block.all_samples(zero),
    {
        let mut channels: Vec<Vec<S>> = Vec::new();
        let mut c: usize = 0;
        while c < n_channels
            invariant
                c <= n_channels,
                channels@.len() == c,
                forall|k: int| 0 <= k < c ==> #[trigger] channels@[k]@.len() == frames,
                forall|k: int, i: int|
                    0 <= k < c && 0 <= i < frames ==> #[trigger] channels@[k]@[i] == zero,
            decreases n_channels - c,
        {
            let mut channel: Vec<S> = Vec::new();
            let mut i: usize = 0;
            while i < frames
                invariant
                    i <= frames,
                    channel@.len() == i,
                    forall|j: int| 0 <= j < i ==> #[trigger] channel@[j] == zero,
                decreases frames - i,
            {
                channel.push(zero);
                i = i + 1;
            }
            channels.push(channel);
            c = c + 1;
        }
        AudioBlock { channels, frames }
    }

    /// Set every sample to `zero`, in place; the shape is unchanged.
    pub fn silence(&mut self, zero: S)
        ensures
            final(self).frames == old(self).frames,
            final(self).channels@.len() == old(self).channels@.len(),
            forall|c: int| 0 <= c < old(self).channels@.len() ==> #[trigger] final(self).channels@[c]@.len()
                == old(self).channels@[c]@.len(),
            final(self).all_samples(zero),
    {
        let n = self.channels.len();
        let mut c: usize = 0;
        while c < n
            invariant
                c <= n,
                n == self.channels@.len(),
                self.frames == old(self).frames,
                self.channels@.len() == old(self).channels@.len(),
                forall|k: int| 0 <= k < n ==> #[trigger] self.channels@[k]@.len() == old(self).channels@[k]@.len(),
                forall|k: int, i: int|
                    0 <= k < c && 0 <= i < self.channels@[k]@.len() ==> #[trigger] self.channels@[k]@[i]
                        == zero,
            decreases n - c,
        {
            let len = self.channels[c].len();
            let mut i: usize = 0;
            while i < len
                invariant
                    i <= len,
                    c < n,
                    n == self.channels@.len(),
                    len == self.channels@[c as int]@.len(),
                    self.frames == old(self).frames,
                    self.channels@.len() == old(self).channels@.len(),
                    forall|k: int| 0 <= k < n ==> #[trigger] self.channels@[k]@.len() == old(self).channels@[k]@.len(),
                    forall|k: int, j: int|
                        0 <= k < c && 0 <= j < self.channels@[k]@.len() ==> #[trigger] self.channels@[k]@[j]
                            == zero,
                    forall|j: int| 0 <= j < i ==> #[trigger] self.channels@[c as int]@[j] == zero,
                decreases len - i,
            {
                self.channels[c][i] = zero;
                i = i + 1;
            }
            c = c + 1;
        }
    }

    /// Number of channels.
    pub fn n_channels(&self) -> (n: usize)
        ensures
            n == self.channels@.len(),
    {
        self.channels.len()
    }

    /// Whether `src` can be mixed into this block: the channel counts must
    /// agree first, then the frame counts.
    pub fn check_mix_source<N>(&self, src: &AudioBlock<S>) -> (r: Result<(), CoreError<N>>)
        ensures
            src.channels@.len() != self.channels@.len() ==> r == Err::<(), CoreError<N>>(
                CoreError::ChannelCountMismatch {
                    expected: self.channels@.len() as usize,
                    actual: src.channels@.len() as usize,
                },
            ),
            src.channels@.len() == self.channels@.len() && src.frames != self.frames ==> r
                == Err::<(), CoreError<N>>(
                CoreError::BufferSizeMismatch { expected: self.frames, actual: src.frames },
            ),
            src.channels@.len() == self.channels@.len() && src.frames == self.frames ==> r
                is Ok,
    {
        if src.n_channels() != self.n_channels() {
            return Err(
                CoreError::ChannelCountMismatch {
                    expected: self.n_channels(),
                    actual: src.n_channels(),
                },
            );
        }
        if src.frames != self.frames {
            return Err(CoreError::BufferSizeMismatch { expected: self.frames, actual: src.frames });
        }
        Ok(())
    }
}

/// The ambisonic order whose ACN channel count, `(order + 1)^2`, is
/// `channels`, for orders 0 to 3.
pub fn ambisonic_order(channels: usize) -> (order: Option<usize>)
    ensures
        order == Some(0usize) <==> channels == 1,
        order == Some(1usize) <==> channels == 4,
        order == Some(2usize) <==> channels == 9,
        order == Some(3usize) <==> channels == 16,
        order is None ==> channels != 1 && channels != 4 && channels != 9 && channels != 16,
{
    match channels {
        1 => Some(0),
        4 => Some(1),
        9 => Some(2),
        16 => Some(3),
        _ => None,
    }
}

/// Index of the first inactive slot of a pool, if any.
pub fn first_inactive(active: &[bool]) -> (r: Option<usize>)
    ensures
        r is None <==> forall|i: int| 0 <= i < active@.len() ==> active@[i],
        r matches Some(i) ==> i < active@.len() && !active@[i as int] && forall|j: int|
            0 <= j < i ==> active@[j],
{
    let mut i: usize = 0;
    while i < active.len()
        invariant
            i <= active@.len(),
            forall|j: int| 0 <= j < i ==> active@[j],
        decreases active@.len() - i,
    {
        if !active[i] {
            return Some(i);
        }
        i = i + 1;
    }
    None
}


/// How many frames the next block of an offline render holds: a full block,
/// or the frames that remain when fewer remain.
pub fn render_block_frames(total_frames: u64, frames_rendered: u64, block_size: usize) -> (frames: usize)
    requires
        frames_rendered < total_frames,
    ensures
        frames as int == if total_frames - frames_rendered < block_size {
            total_frames - frames_rendered
        } else {
            block_size as int
        },
        frames_rendered + frames <= total_frames,
        block_size > 0 ==> frames > 0,
{
    let remaining = total_frames - frames_rendered;
    if remaining < block_size as u64 {
        remaining as usize
    } else {
        block_size
    }
}

impl<S: Copy> AudioBlock<S> {
    /// The first `frames` frames of every channel, as a block of its own: the
    /// last, shorter block of a render.
    pub fn trimmed(&self, frames: usize) -> (block: Self)
        requires
            self.wf(),
            frames <= self.frames,
        ensures
            block.wf(),
            block.frames == frames,
            block.channels@.len() == self.channels@.len(),
            forall|c: int| 0 <= c < self.channels@.len() ==> #[trigger] block.channels@[c]@
                == self.channels@[c]@.take(frames as int),
    {
        let n = self.channels.len();
        let mut channels: Vec<Vec<S>> = Vec::new();
        let mut c: usize = 0;
        while c < n
            invariant
                c <= n,
                n == self.channels@.len(),
                self.wf(),
                frames <= self.frames,
                channels@.len() == c,
                forall|k: int| 0 <= k < c ==> #[trigger] channels@[k]@ == self.channels@[k]@.take(
                    frames as int,
                ),
            decreases n - c,
        {
            assert(self.channels@[c as int]@.len() == self.frames);
            let mut channel: Vec<S> = Vec::new();
            let mut i: usize = 0;
            while i < frames
                invariant
                    i <= frames,
                    c < n,
                    n == self.channels@.len(),
                    frames <= self.channels@[c as int]@.len(),
                    channel@ == self.channels@[c as int]@.take(i as int),
                decreases frames - i,
            {
                channel.push(self.channels[c][i]);
                i = i + 1;
                assert(channel@ =~= self.channels@[c as int]@.take(i as int));
            }
            channels.push(channel);
            c = c + 1;
        }
        AudioBlock { channels, frames }
    }
}

} // verus!
