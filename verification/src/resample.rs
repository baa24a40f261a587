//! The checks a resampler makes on its channel layout and input, and the
//! conversion of its interleaved output back to planar channels.

use vstd::prelude::*;
use vstd::string::*;

verus! {

/// The decimal digit for `d < 10`.
pub open spec fn decimal_digit(d: int) -> char {
    "0123456789"@[d]
}

/// `n` written in decimal, without leading zeros.
pub open spec fn decimal(n: nat) -> Seq<char>
    decreases n,
{
    if n < 10 {
        seq![decimal_digit(n as int)]
    } else {
        decimal(n / 10) + seq![decimal_digit((n % 10) as int)]
    }
}

/// `n` in decimal notation.
pub fn decimal_string(n: usize) -> (text: String)
    ensures
        text@ == decimal(n as nat),
    decreases n,
{
    let digits = "0123456789";
    proof {
        reveal_strlit("0123456789");
    }
    if n < 10 {
        digits.substring_char(n, n + 1).to_owned()
    } else {
        let mut text = decimal_string(n / 10);
        let d = n % 10;
        text.append(digits.substring_char(d, d + 1));
        text
    }
}

/// The report for an input with the wrong number of channels.
pub open spec fn channel_count_message(expected: nat, actual: nat) -> Seq<char> {
    "expected "@ + decimal(expected) + " input channels, got "@ + decimal(actual)
}

/// A resampler needs at least one channel.
pub fn check_resampler_channels(channels: usize) -> (r: Result<(), String>)
    ensures
        channels > 0 ==> r is Ok,
        channels == 0 ==> (r matches Err(m) && m@ == "resampler must have at least one channel"@),
{
    if channels == 0 {
        return Err("resampler must have at least one channel".to_owned());
    }
    Ok(())
}

/// Check planar input whose channels have the given lengths for a resampler
/// of `channels` channels: the channel count must match; an input without
/// samples needs no resampling (`None`); otherwise all channels must be
/// equally long, and their common length is returned.
pub fn check_resample_input(channels: usize, channel_lengths: &[usize]) -> (r: Result<
    Option<usize>,
    String,
>)
    ensures
        channel_lengths@.len() != channels ==> (r matches Err(m) && m@ == channel_count_message(
            channels as nat,
            channel_lengths@.len(),
        )),
        channel_lengths@.len() == channels && (channels == 0 || channel_lengths@[0] == 0) ==> r
            == Ok::<Option<usize>, String>(None),
        channel_lengths@.len() == channels && channels > 0 && channel_lengths@[0] > 0 ==> ({
            let equal = forall|c: int|
                0 <= c < channels ==> #[trigger] channel_lengths@[c] == channel_lengths@[0];
            &&& equal ==> r == Ok::<Option<usize>, String>(Some(channel_lengths@[0]))
            &&& !equal ==> (r matches Err(m) && m@
                == "all input channels must have the same frame count"@)
        }),
{
    if channel_lengths.len() != channels {
        let mut message = "expected ".to_owned();
        message.append(decimal_string(channels).as_str());
        message.append(" input channels, got ");
        message.append(decimal_string(channel_lengths.len()).as_str());
        return Err(message);
    }
    if channel_lengths.len() == 0 || channel_lengths[0] == 0 {
        return Ok(None);
    }
    let frames = channel_lengths[0];
    let mut c: usize = 0;
    while c < channel_lengths.len()
        invariant
            c <= channel_lengths@.len(),
            channel_lengths@.len() == channels,
            frames == channel_lengths@[0],
            frames > 0,
            forall|k: int| 0 <= k < c ==> channel_lengths@[k] == frames,
        decreases channel_lengths@.len() - c,
    {
        if channel_lengths[c] != frames {
            return Err("all input channels must have the same frame count".to_owned());
        }
        c = c + 1;
    }
    Ok(Some(frames))
}

/// Split interleaved samples, `channels` per frame, into one vector per
/// channel of `frames` samples: sample `f` of channel `c` is
/// `data[f * channels + c]`.
pub fn deinterleave<T: Copy>(data: &[T], channels: usize, frames: usize) -> (planar: Vec<Vec<T>>)
    requires
        frames * channels <= data@.len(),
    ensures
        planar@.len() == channels,
        forall|c: int| 0 <= c < channels ==> #[trigger] planar@[c]@.len() == frames,
        forall|c: int, f: int|
            0 <= c < channels && 0 <= f < frames ==> #[trigger] planar@[c]@[f] == data@[f
                * channels + c],
{
    let n = data.len();
    let mut planar: Vec<Vec<T>> = Vec::new();
    let mut c: usize = 0;
    while c < channels
        invariant
            c <= channels,
            n == data@.len(),
            frames * channels <= data@.len(),
            planar@.len() == c,
            forall|k: int| 0 <= k < c ==> #[trigger] planar@[k]@.len() == frames,
            forall|k: int, f: int|
                0 <= k < c && 0 <= f < frames ==> #[trigger] planar@[k]@[f] == data@[f
                    * channels + k],
        decreases channels - c,
    {
        let mut channel: Vec<T> = Vec::new();
        let mut f: usize = 0;
        while f < frames
            invariant
                c < channels,
                n == data@.len(),
                f <= frames,
                frames * channels <= data@.len(),
                channel@.len() == f,
                forall|g: int| 0 <= g < f ==> #[trigger] channel@[g] == data@[g * channels + c],
            decreases frames - f,
        {
            proof {
                assert(f * channels + c < frames * channels) by (nonlinear_arith)
                    requires
                        f < frames,
                        c < channels,
                ;
            }
            channel.push(data[f * channels + c]);
            f = f + 1;
        }
        planar.push(channel);
        c = c + 1;
    }
    planar
}

} // verus!
