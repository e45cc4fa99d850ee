//! Colours with 8 and 16 bits per channel, and their hexadecimal notation.

use crate::hex::{pair, pair_value};
use vstd::prelude::*;
use vstd::string::StringSliceAdditionalSpecFns;

verus! {

/// A 16-bit level on the scale of 8 bits: `value * 255 / 65535`, rounded
/// down.
pub open spec fn downsampled(value: u16) -> u8 {
    ((value * 255) / 65535) as u8
}

/// An 8-bit level on the scale of 16 bits: `value * 65535 / 255`.
pub open spec fn upsampled(value: u8) -> u16 {
    ((value * 65535) / 255) as u16
}

/// Scaling by 65535 / 255 is scaling by 257.
pub proof fn lemma_scale_is_257(wide: u16, narrow: u8)
    ensures
        downsampled(wide) == wide / 257,
        upsampled(narrow) == narrow * 257,
{
    let w = wide as int;
    let n = narrow as int;
    assert((w * 255) / 65535 == w / 257) by (nonlinear_arith)
        requires
            0 <= w <= 65535,
    ;
    assert((n * 65535) / 255 == n * 257) by (nonlinear_arith)
        requires
            0 <= n <= 255,
    ;
}

/// Scaling a level up and down again gives the level back.
pub proof fn lemma_upsample_downsample(value: u8)
    ensures
        downsampled(upsampled(value)) == value,
{
    lemma_scale_is_257(0, value);
    lemma_scale_is_257(upsampled(value), 0);
}

/// Scales a 16-bit colour down to 8 bits per channel.
pub fn color_downsample(color: [u16; 3]) -> (out: [u8; 3])
    ensures
        out@ == seq![downsampled(color[0]), downsampled(color[1]), downsampled(color[2])],
{
    proof {
        lemma_scale_is_257(color[0], 0);
        lemma_scale_is_257(color[1], 0);
        lemma_scale_is_257(color[2], 0);
    }
    let out = [(color[0] / 257) as u8, (color[1] / 257) as u8, (color[2] / 257) as u8];
    out
}

/// Scales an 8-bit colour up to 16 bits per channel.
pub fn color_upsample(color: [u8; 3]) -> (out: [u16; 3])
    ensures
        out@ == seq![upsampled(color[0]), upsampled(color[1]), upsampled(color[2])],
{
    proof {
        lemma_scale_is_257(0, color[0]);
        lemma_scale_is_257(0, color[1]);
        lemma_scale_is_257(0, color[2]);
    }
    let r: u16 = color[0] as u16 * 257;
    let g: u16 = color[1] as u16 * 257;
    let b: u16 = color[2] as u16 * 257;
    let out = [r, g, b];
    out
}

/// The upper-case hexadecimal digit for `n`.
pub open spec fn hex_char(n: int) -> char {
    if n == 0 {
        '0'
    } else if n == 1 {
        '1'
    } else if n == 2 {
        '2'
    } else if n == 3 {
        '3'
    } else if n == 4 {
        '4'
    } else if n == 5 {
        '5'
    } else if n == 6 {
        '6'
    } else if n == 7 {
        '7'
    } else if n == 8 {
        '8'
    } else if n == 9 {
        '9'
    } else if n == 10 {
        'A'
    } else if n == 11 {
        'B'
    } else if n == 12 {
        'C'
    } else if n == 13 {
        'D'
    } else if n == 14 {
        'E'
    } else {
        'F'
    }
}

/// `v` in upper-case hexadecimal, padded with zeros to two digits.
pub open spec fn hex_upper(v: u16) -> Seq<char> {
    if v < 0x100 {
        seq![hex_char(v as int / 16), hex_char(v as int % 16)]
    } else if v < 0x1000 {
        seq![hex_char(v as int / 256), hex_char(v as int / 16 % 16), hex_char(v as int % 16)]
    } else {
        seq![
            hex_char(v as int / 4096),
            hex_char(v as int / 256 % 16),
            hex_char(v as int / 16 % 16),
            hex_char(v as int % 16),
        ]
    }
}

/// The notation of a colour: `#` and the three channels in hexadecimal.
pub open spec fn hex_notation(color: [u16; 3]) -> Seq<char> {
    seq!['#'] + hex_upper(color[0]) + hex_upper(color[1]) + hex_upper(color[2])
}

/// The digit `n` as text.
fn digit_text(n: u16) -> (s: &'static str)
    requires
        n < 16,
    ensures
        s@ == seq![hex_char(n as int)],
{
    proof {
        reveal_strlit("0");
        reveal_strlit("1");
        reveal_strlit("2");
        reveal_strlit("3");
        reveal_strlit("4");
        reveal_strlit("5");
        reveal_strlit("6");
        reveal_strlit("7");
        reveal_strlit("8");
        reveal_strlit("9");
        reveal_strlit("A");
        reveal_strlit("B");
        reveal_strlit("C");
        reveal_strlit("D");
        reveal_strlit("E");
        reveal_strlit("F");
    }
    let s = if n == 0 {
        "0"
    } else if n == 1 {
        "1"
    } else if n == 2 {
        "2"
    } else if n == 3 {
        "3"
    } else if n == 4 {
        "4"
    } else if n == 5 {
        "5"
    } else if n == 6 {
        "6"
    } else if n == 7 {
        "7"
    } else if n == 8 {
        "8"
    } else if n == 9 {
        "9"
    } else if n == 10 {
        "A"
    } else if n == 11 {
        "B"
    } else if n == 12 {
        "C"
    } else if n == 13 {
        "D"
    } else if n == 14 {
        "E"
    } else {
        "F"
    };
    proof {
        assert(s@ =~= seq![hex_char(n as int)]);
    }
    s
}

/// Appends one channel to `text`.
fn push_channel(text: &mut String, v: u16)
    ensures
        final(text)@ == old(text)@ + hex_upper(v),
{
    let ghost before = text@;
    if v >= 0x1000 {
        text.append(digit_text(v / 4096));
    }
    if v >= 0x100 {
        text.append(digit_text(v / 256 % 16));
    }
    text.append(digit_text(v / 16 % 16));
    text.append(digit_text(v % 16));
    proof {
        assert(text@ =~= before + hex_upper(v));
    }
}

/// Writes a colour as `#` followed by its three channels in upper-case
/// hexadecimal, each with at least two digits.
pub fn color_to_hex(color: &[u16; 3]) -> (text: String)
    ensures
        text@ == hex_notation(*color),
{
    proof {
        reveal_strlit("#");
    }
    let mut text = String::from_str("#");
    proof {
        assert(text@ =~= seq!['#']);
    }
    push_channel(&mut text, color[0]);
    push_channel(&mut text, color[1]);
    push_channel(&mut text, color[2]);
    text
}

/// Whether `text` has the shape of a colour: one character of one byte, then
/// three well-formed pairs of hexadecimal characters.
pub open spec fn is_hex_color(text: Seq<u8>) -> bool {
    &&& text.len() >= 7
    &&& text[0] < 0x80
    &&& pair_value(text[1], text[2]).is_some()
    &&& pair_value(text[3], text[4]).is_some()
    &&& pair_value(text[5], text[6]).is_some()
}

/// Reads a colour from its notation: the three pairs after the first
/// character give the three channels. What follows them is not read.
pub fn hex_to_color(hex: &str) -> (color: [u16; 3])
    requires
        is_hex_color(hex.spec_bytes()),
    ensures
        color@ == seq![
            pair_value(hex.spec_bytes()[1], hex.spec_bytes()[2]).unwrap() as u16,
            pair_value(hex.spec_bytes()[3], hex.spec_bytes()[4]).unwrap() as u16,
            pair_value(hex.spec_bytes()[5], hex.spec_bytes()[6]).unwrap() as u16,
        ],
{
    let text = hex.as_bytes();
    let r = pair(text[1], text[2]).unwrap();
    let g = pair(text[3], text[4]).unwrap();
    let b = pair(text[5], text[6]).unwrap();
    let color = [r as u16, g as u16, b as u16];
    color
}

/// Reads a colour from its notation if it has the shape of one.
pub fn parse_hex_color(hex: &str) -> (color: Option<[u16; 3]>)
    ensures
        color.is_some() <==> is_hex_color(hex.spec_bytes()),
        color matches Some(c) ==> c@ == seq![
            pair_value(hex.spec_bytes()[1], hex.spec_bytes()[2]).unwrap() as u16,
            pair_value(hex.spec_bytes()[3], hex.spec_bytes()[4]).unwrap() as u16,
            pair_value(hex.spec_bytes()[5], hex.spec_bytes()[6]).unwrap() as u16,
        ],
{
    let text = hex.as_bytes();
    if text.len() < 7 || text[0] >= 0x80 {
        return None;
    }
    if pair(text[1], text[2]).is_none() || pair(text[3], text[4]).is_none() || pair(
        text[5],
        text[6],
    ).is_none() {
        return None;
    }
    Some(hex_to_color(hex))
}


/// What a channel shows after `new` arrived: the sum of both levels, full at
/// most, when colours add up, and else the new level alone.
pub open spec fn merged_level(old: u16, new: u16, additive: bool) -> u16 {
    if !additive {
        new
    } else if old + new > u16::MAX {
        u16::MAX
    } else {
        (old + new) as u16
    }
}

/// What a light shows after the colour `new` arrived.
pub open spec fn merged_color(old: [u16; 3], new: [u16; 3], additive: bool) -> [u16; 3] {
    [
        merged_level(old[0], new[0], additive),
        merged_level(old[1], new[1], additive),
        merged_level(old[2], new[2], additive),
    ]
}

/// What the lights `current` show after `colors` arrived, light by light.
/// Lights that were not there yet start dark; lights without a new colour
/// keep theirs.
pub open spec fn merged(current: Seq<[u16; 3]>, colors: Seq<[u16; 3]>, additive: bool) -> Seq<
    [u16; 3],
> {
    Seq::new(
        if current.len() >= colors.len() {
            current.len()
        } else {
            colors.len()
        },
        |i: int|
            if i < colors.len() {
                merged_color(
                    if i < current.len() {
                        current[i]
                    } else {
                        [0u16, 0u16, 0u16]
                    },
                    colors[i],
                    additive,
                )
            } else {
                current[i]
            },
    )
}

/// Lets the colours `colors` arrive at the lights `current`.
pub fn update_color(current: &mut Vec<[u16; 3]>, colors: &[[u16; 3]], additive: bool)
    ensures
        final(current)@ == merged(old(current)@, colors@, additive),
{
    let ghost before = current@;
    let dark: [u16; 3] = [0, 0, 0];
    while current.len() < colors.len()
        invariant
            dark == [0u16, 0u16, 0u16],
            before.len() <= current@.len(),
            current@.len() <= colors@.len() || current@.len() == before.len(),
            forall|i: int| 0 <= i < before.len() ==> current@[i] == before[i],
            forall|i: int| before.len() <= i < current@.len() ==> current@[i] == dark,
        decreases colors@.len() - current@.len(),
    {
        current.push(dark);
    }
    let ghost padded = current@;
    let mut i: usize = 0;
    while i < colors.len()
        invariant
            i <= colors@.len(),
            colors@.len() <= current@.len(),
            current@.len() == padded.len(),
            forall|k: int|
                0 <= k < i ==> current@[k] == merged_color(padded[k], colors@[k], additive),
            forall|k: int| i <= k < current@.len() ==> current@[k] == padded[k],
        decreases colors@.len() - i,
    {
        let old_color = current[i];
        let new_color = colors[i];
        let merged_now = if additive {
            [
                old_color[0].saturating_add(new_color[0]),
                old_color[1].saturating_add(new_color[1]),
                old_color[2].saturating_add(new_color[2]),
            ]
        } else {
            [new_color[0], new_color[1], new_color[2]]
        };
        current.set(i, merged_now);
        i += 1;
    }
    proof {
        assert(current@ =~= merged(before, colors@, additive));
    }
}

} // verus!
