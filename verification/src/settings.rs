//! Processing settings shared by the analysis stages.

use crate::framing::FrameAssembler;
use vstd::prelude::*;

verus! {

/// Analysis window applied to a frame before the Fourier transform.
#[derive(Debug, Clone, Copy, PartialEq, Eq, Structural)]
pub enum WindowType {
    Hann,
    FlatTop,
    Triangular,
}

impl Default for WindowType {
    fn default() -> (w: WindowType)
        ensures
            w == WindowType::Hann,
    {
        WindowType::Hann
    }
}

/// How the captured stream is cut and transformed. All sizes are counted in
/// samples of one channel.
#[derive(Debug, Clone, Copy)]
pub struct ProcessingSettings {
    pub sample_rate: u32,
    pub hop_size: usize,
    pub buffer_size: usize,
    pub fft_size: usize,
    pub window_type: WindowType,
}

impl Default for ProcessingSettings {
    fn default() -> (s: ProcessingSettings)
        ensures
            s.sample_rate == 48000,
            s.hop_size == 480,
            s.buffer_size == 1024,
            s.fft_size == 2048,
            s.window_type == WindowType::Hann,
    {
        ProcessingSettings {
            sample_rate: 48000,
            hop_size: 480,
            buffer_size: 1024,
            fft_size: 2048,
            window_type: WindowType::Hann,
        }
    }
}

/// Whether `n` is a power of two.
pub open spec fn power_of_two(n: nat) -> bool
    decreases n,
{
    n == 1 || (n > 1 && n % 2 == 0 && power_of_two(n / 2))
}

/// Decides `power_of_two`.
pub fn is_power_of_two(n: usize) -> (b: bool)
    ensures
        b == power_of_two(n as nat),
{
    if n == 0 {
        return false;
    }
    let mut rest: usize = n;
    while rest % 2 == 0
        invariant
            0 < rest <= n,
            power_of_two(n as nat) == power_of_two(rest as nat),
        decreases rest,
    {
        rest = rest / 2;
    }
    rest == 1
}

impl ProcessingSettings {
    /// The sizes fit together: a hop is not empty and not longer than a
    /// frame, a frame is not longer than the transform, and the transform's
    /// size is a power of two.
    pub open spec fn valid(&self) -> bool {
        &&& 0 < self.hop_size <= self.buffer_size <= self.fft_size
        &&& power_of_two(self.fft_size as nat)
    }

    /// Decides `valid`.
    pub fn is_valid(&self) -> (b: bool)
        ensures
            b == self.valid(),
    {
        0 < self.hop_size && self.hop_size <= self.buffer_size && self.buffer_size
            <= self.fft_size && is_power_of_two(self.fft_size)
    }

    /// Number of bins of the magnitude spectrum: `fft_size / 2 + 1`.
    pub fn spectrum_len(&self) -> (n: usize)
        ensures
            n == self.fft_size / 2 + 1,
    {
        self.fft_size / 2 + 1
    }

    /// The assembler for a stream of `channels` interleaved channels: frames
    /// of `buffer_size * channels` samples, `hop_size * channels` apart.
    /// `None` when the settings are not valid, there is no channel, or a
    /// frame is too long to be counted.
    pub fn assembler<T>(&self, channels: u16) -> (r: Option<FrameAssembler<T>>)
        ensures
            r.is_some() <==> self.valid() && channels > 0 && self.buffer_size * channels
                <= usize::MAX,
            r matches Some(a) ==> {
                &&& a.wf()
                &&& a.frame_len() == self.buffer_size * channels
                &&& a.hop_len() == self.hop_size * channels
                &&& a.stream() == Seq::<T>::empty()
                &&& a.delivered() == 0
            },
    {
        if !self.is_valid() || channels == 0 {
            return None;
        }
        let c = channels as usize;
        match self.buffer_size.checked_mul(c) {
            None => None,
            Some(frame_len) => {
                proof {
                    assert(self.hop_size * c <= self.buffer_size * c) by (nonlinear_arith)
                        requires
                            self.hop_size <= self.buffer_size,
                            c > 0,
                    ;
                    assert(0 < self.hop_size * c) by (nonlinear_arith)
                        requires
                            self.hop_size > 0,
                            c > 0,
                    ;
                }
                let hop_len = self.hop_size * c;
                Some(FrameAssembler::new(frame_len, hop_len))
            },
        }
    }
}

} // verus!
