//! Splitting an interleaved block of samples into its channels.

use vstd::prelude::*;

verus! {

/// Number of samples of channel `c` in an interleaved block of `len`
/// samples with `channels` channels.
pub open spec fn channel_len(len: nat, channels: nat, c: nat) -> nat {
    if c < len && channels > 0 {
        ((len - c - 1) / (channels as int) + 1) as nat
    } else {
        0
    }
}

/// Channel `c` of the interleaved block `data`: its `i`-th sample is
/// `data[i * channels + c]`.
pub open spec fn channel_of<T>(data: Seq<T>, channels: nat, c: nat) -> Seq<T> {
    Seq::new(channel_len(data.len(), channels, c), |i: int| data[i * channels + c])
}

/// In a block of whole sample frames every channel has as many samples as
/// the block has frames.
pub proof fn lemma_channel_len_whole(frames: nat, channels: nat, c: nat)
    requires
        c < channels,
    ensures
        channel_len(frames * channels, channels, c) == frames,
{
    let len = frames * channels;
    if frames == 0 {
        assert(len == 0) by (nonlinear_arith)
            requires
                len == frames * channels,
                frames == 0,
        ;
    } else {
        assert(len >= channels) by (nonlinear_arith)
            requires
                len == frames * channels,
                frames >= 1,
        ;
        let a = (len - c - 1) as int;
        let h = channels as int;
        assert(a == (frames - 1) * h + (h - 1 - c)) by (nonlinear_arith)
            requires
                a == frames * h - c - 1,
        ;
        vstd::arithmetic::div_mod::lemma_fundamental_div_mod_converse(
            a,
            h,
            (frames - 1) as int,
            h - 1 - c,
        );
    }
}

/// The samples of one channel.
fn one_channel<T: Copy>(data: &[T], channels: usize, c: usize) -> (out: Vec<T>)
    requires
        c < channels,
    ensures
        out@ == channel_of(data@, channels as nat, c as nat),
{
    let mut out: Vec<T> = Vec::new();
    if c >= data.len() {
        proof {
            assert(out@ =~= channel_of(data@, channels as nat, c as nat));
        }
        return out;
    }
    let mut at: usize = c;
    proof {
        assert(out@.len() * channels == 0) by (nonlinear_arith)
            requires
                out@.len() == 0,
        ;
    }
    loop
        invariant_except_break
            at < data@.len(),
            at == out@.len() * channels + c,
        invariant
            c < channels,
            forall|i: int| 0 <= i < out@.len() ==> out@[i] == data@[i * channels + c],
        ensures
            out@.len() == channel_len(data@.len(), channels as nat, c as nat),
            forall|i: int| 0 <= i < out@.len() ==> out@[i] == data@[i * channels + c],
        decreases data@.len() - at,
    {
        out.push(data[at]);
        let ghost n = out@.len() as int;
        proof {
            assert(n * channels + c == at + channels) by (nonlinear_arith)
                requires
                    at == (n - 1) * channels + c,
            ;
        }
        if data.len() - at <= channels {
            proof {
                // `n` samples fit, one more does not
                let a = (data@.len() - c - 1) as int;
                let h = channels as int;
                let r = a - (n - 1) * h;
                assert(0 <= r < h);
                assert(a == h * (n - 1) + r) by (nonlinear_arith)
                    requires
                        r == a - (n - 1) * h,
                ;
                vstd::arithmetic::div_mod::lemma_fundamental_div_mod_converse(a, h, n - 1, r);
            }
            break ;
        }
        at += channels;
    }
    proof {
        assert(out@ =~= channel_of(data@, channels as nat, c as nat));
    }
    out
}

/// Splits the interleaved block `data` into `channels` channels.
pub fn split_channels<T: Copy>(data: &[T], channels: u16) -> (out: Vec<Vec<T>>)
    ensures
        out@.len() == channels,
        forall|c: int|
            0 <= c < channels ==> (#[trigger] out@[c])@ == channel_of(
                data@,
                channels as nat,
                c as nat,
            ),
{
    let mut out: Vec<Vec<T>> = Vec::new();
    let mut c: u16 = 0;
    while c < channels
        invariant
            c <= channels,
            out@.len() == c,
            forall|k: int|
                0 <= k < c ==> (#[trigger] out@[k])@ == channel_of(
                    data@,
                    channels as nat,
                    k as nat,
                ),
        decreases channels - c,
    {
        let channel = one_channel(data, channels as usize, c as usize);
        out.push(channel);
        c += 1;
    }
    out
}

} // verus!
