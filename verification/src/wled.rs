//! Datagrams for addressable LED strips.
//!
//! A datagram starts with two bytes, the mode (`0x02` for strips with three
//! colours per LED, `0x03` for strips with a white channel) and the number
//! of seconds after which the strip falls back to its own programme, and
//! goes on with the bytes of one LED after the other.

use crate::onset::OnsetKind;
use crate::wire::{freeze, payload, put_slice, put_u8, with_capacity, written};
use bytes::Bytes;
use bytes::BytesMut;
use std::collections::VecDeque;
use vstd::prelude::*;

verus! {

/// A stretch of a strip that is driven as one.
#[derive(Debug)]
pub struct Segment {
    pub start: usize,
    pub stop: usize,
}

/// What is known of a strip: its name, where it listens, how many LEDs it
/// has and whether they have a white channel.
#[derive(Debug)]
pub struct LEDStrip {
    name: String,
    led_count: u16,
    ip: String,
    port: u16,
    segments: Vec<Segment>,
    rgbw: bool,
}

impl LEDStrip {
    /// Number of LEDs.
    pub closed spec fn spec_led_count(&self) -> u16 {
        self.led_count
    }

    /// Whether the LEDs have a white channel.
    pub closed spec fn spec_rgbw(&self) -> bool {
        self.rgbw
    }

    /// The port on which the strip takes datagrams.
    pub closed spec fn spec_port(&self) -> u16 {
        self.port
    }

    /// The strip's name.
    pub closed spec fn spec_name(&self) -> Seq<char> {
        self.name@
    }

    /// The strip's address.
    pub closed spec fn spec_ip(&self) -> Seq<char> {
        self.ip@
    }

    /// The segments of the strip.
    pub closed spec fn spec_segments(&self) -> Seq<Segment> {
        self.segments@
    }

    /// A strip whose LEDs all belong to one segment.
    pub fn new(name: String, led_count: u16, ip: String, port: u16, rgbw: bool) -> (strip: Self)
        ensures
            strip.spec_name() == name@,
            strip.spec_ip() == ip@,
            strip.spec_led_count() == led_count,
            strip.spec_rgbw() == rgbw,
            strip.spec_port() == port,
            strip.spec_segments().len() == 1,
            strip.spec_segments()[0].start == 0,
            strip.spec_segments()[0].stop == led_count,
    {
        let mut segments: Vec<Segment> = Vec::new();
        segments.push(Segment { start: 0, stop: led_count as usize });
        LEDStrip { name, led_count, ip, port, segments, rgbw }
    }

    /// Number of LEDs.
    #[verifier::when_used_as_spec(spec_led_count)]
    pub fn led_count(&self) -> (n: u16)
        ensures
            n == self.spec_led_count(),
    {
        self.led_count
    }

    /// Whether the LEDs have a white channel.
    #[verifier::when_used_as_spec(spec_rgbw)]
    pub fn rgbw(&self) -> (b: bool)
        ensures
            b == self.spec_rgbw(),
    {
        self.rgbw
    }

    /// The port on which the strip takes datagrams.
    #[verifier::when_used_as_spec(spec_port)]
    pub fn port(&self) -> (p: u16)
        ensures
            p == self.spec_port(),
    {
        self.port
    }

    /// The strip's name.
    pub fn name(&self) -> (name: &String)
        ensures
            name@ == self.spec_name(),
    {
        &self.name
    }

    /// The strip's address.
    pub fn ip(&self) -> (ip: &String)
        ensures
            ip@ == self.spec_ip(),
    {
        &self.ip
    }
}

/// The envelopes of an onset sink.
#[derive(Debug, Clone, Copy, PartialEq, Eq, Structural)]
pub enum Envelope {
    Drum,
    Note,
    Hihat,
}

/// The envelope of an onset sink that an onset of kind `kind` acts on, if
/// any.
pub open spec fn envelope_of(kind: OnsetKind) -> Option<Envelope> {
    match kind {
        OnsetKind::Kick => Some(Envelope::Drum),
        OnsetKind::Note => Some(Envelope::Note),
        OnsetKind::Hihat => Some(Envelope::Hihat),
        _ => None,
    }
}

/// Computes `envelope_of`.
pub fn envelope_for(kind: OnsetKind) -> (e: Option<Envelope>)
    ensures
        e == envelope_of(kind),
{
    match kind {
        OnsetKind::Kick => Some(Envelope::Drum),
        OnsetKind::Note => Some(Envelope::Note),
        OnsetKind::Hihat => Some(Envelope::Hihat),
        _ => None,
    }
}

/// The two bytes in front of every datagram.
pub open spec fn strip_prefix(rgbw: bool, timeout: u8) -> Seq<u8> {
    seq![if rgbw { 0x03u8 } else { 0x02u8 }, timeout]
}

/// `a + b`, or 255 where that is more.
pub open spec fn capped(a: u8, b: u8) -> u8 {
    if a + b > 255 {
        255u8
    } else {
        (a + b) as u8
    }
}

/// The bytes of one LED that is lit red by `level[0]`, blue by `level[1]`
/// and white by `level[2]`. With a white channel the three go to their own
/// channels; without, the white is added to red, green and blue.
pub open spec fn onset_led(rgbw: bool, level: [u8; 3]) -> Seq<u8> {
    if rgbw {
        seq![level[0], 0u8, level[1], level[2]]
    } else {
        seq![capped(level[0], level[2]), level[2], capped(level[1], level[2])]
    }
}

/// The bytes of the LEDs `levels`, first to last.
pub open spec fn onset_leds(rgbw: bool, levels: Seq<[u8; 3]>) -> Seq<u8>
    decreases levels.len(),
{
    if levels.len() == 0 {
        Seq::empty()
    } else {
        onset_leds(rgbw, levels.drop_last()) + onset_led(rgbw, levels.last())
    }
}

/// Number of LEDs from the centre of a strip of `led_count` LEDs to one of
/// its ends; the centre LED of an odd strip counts.
pub open spec fn half_of(led_count: nat) -> nat {
    led_count / 2 + led_count % 2
}

/// A strip of `led_count` LEDs that shows `half` from its centre outwards on
/// both sides. An odd strip has one LED in its centre, which shows the first
/// of `half`; on an even strip the two LEDs at the centre both do.
pub open spec fn mirrored<T>(half: Seq<T>, led_count: nat) -> Seq<T> {
    half.reverse() + half.skip((led_count % 2) as int)
}

/// A mirrored strip has a pixel for every LED and reads the same from both
/// ends.
pub proof fn lemma_mirrored<T>(half: Seq<T>, led_count: nat)
    requires
        half.len() == half_of(led_count),
    ensures
        mirrored(half, led_count).len() == led_count,
        forall|i: int|
            0 <= i < led_count ==> #[trigger] mirrored(half, led_count)[i] == mirrored(
                half,
                led_count,
            )[led_count - 1 - i],
{
    let strip = mirrored(half, led_count);
    let odd = (led_count % 2) as int;
    let h = half.len() as int;
    assert(strip.len() == led_count);
    assert forall|i: int| 0 <= i < led_count implies #[trigger] strip[i] == strip[led_count - 1
        - i] by {
        if i < h {
            assert(strip[i] == half[h - 1 - i]);
            if led_count - 1 - i >= h {
                assert(strip[led_count - 1 - i] == half.skip(odd)[led_count - 1 - i - h]);
            }
        } else {
            assert(strip[i] == half.skip(odd)[i - h]);
            assert(strip[led_count - 1 - i] == half[h - 1 - (led_count - 1 - i)]);
        }
    }
}

/// Every LED takes four bytes with a white channel and three without.
pub proof fn lemma_onset_leds_len(rgbw: bool, levels: Seq<[u8; 3]>)
    ensures
        onset_leds(rgbw, levels).len() == (if rgbw { 4int } else { 3int }) * levels.len(),
    decreases levels.len(),
{
    if levels.len() > 0 {
        lemma_onset_leds_len(rgbw, levels.drop_last());
    }
}

/// The part of an onset sink's state that shapes its datagrams.
#[derive(Debug)]
pub struct OnsetState {
    led_count: u16,
    rgbw: bool,
    prefix: Vec<u8>,
}

impl OnsetState {
    /// Number of LEDs of the strip.
    pub closed spec fn spec_led_count(&self) -> u16 {
        self.led_count
    }

    /// Whether the white channel is driven.
    pub closed spec fn spec_rgbw(&self) -> bool {
        self.rgbw
    }

    /// The two bytes in front of every datagram.
    pub closed spec fn prefix(&self) -> Seq<u8> {
        self.prefix@
    }

    /// The prefix has two bytes.
    pub open spec fn wf(&self) -> bool {
        self.prefix().len() == 2
    }

    /// The state of a strip of `led_count` LEDs.
    pub fn init(led_count: u16, rgbw: bool, timeout: u8) -> (state: Self)
        ensures
            state.wf(),
            state.spec_led_count() == led_count,
            state.spec_rgbw() == rgbw,
            state.prefix() == strip_prefix(rgbw, timeout),
    {
        let prefix = if rgbw {
            vec![0x03u8, timeout]
        } else {
            vec![0x02u8, timeout]
        };
        proof {
            assert(prefix@ =~= strip_prefix(rgbw, timeout));
        }
        OnsetState { led_count, rgbw, prefix }
    }

    /// Number of LEDs of the strip.
    #[verifier::when_used_as_spec(spec_led_count)]
    pub fn led_count(&self) -> (n: u16)
        ensures
            n == self.spec_led_count(),
    {
        self.led_count
    }

    /// Number of LEDs from the centre to one end of the strip.
    pub fn half(&self) -> (n: usize)
        ensures
            n == half_of(self.spec_led_count() as nat),
    {
        (self.led_count / 2) as usize + (self.led_count % 2) as usize
    }

    /// Appends the bytes of one LED.
    fn put_led(&self, buf: &mut BytesMut, level: [u8; 3])
        requires
            written(*old(buf)).len() + 4 <= isize::MAX,
        ensures
            written(*final(buf)) == written(*old(buf)) + onset_led(self.rgbw, level),
    {
        let ghost before = written(*buf);
        if self.rgbw {
            put_u8(buf, level[0]);
            put_u8(buf, 0);
            put_u8(buf, level[1]);
            put_u8(buf, level[2]);
        } else {
            put_u8(buf, level[0].saturating_add(level[2]));
            put_u8(buf, level[2]);
            put_u8(buf, level[1].saturating_add(level[2]));
        }
        proof {
            assert(written(*buf) =~= before + onset_led(self.rgbw, level));
        }
    }

    /// The datagram for the levels `levels` of one half of the strip, given
    /// from the centre outwards: the prefix, then the bytes of every LED of
    /// the strip, which shows the half mirrored around its centre.
    pub fn poll(&self, levels: &[[u8; 3]]) -> (data: Bytes)
        requires
            self.wf(),
            levels@.len() == half_of(self.spec_led_count() as nat),
        ensures
            payload(data) == self.prefix() + onset_leds(
                self.spec_rgbw(),
                mirrored(levels@, self.spec_led_count() as nat),
            ),
            payload(data).len() == 2 + (if self.spec_rgbw() {
                4int
            } else {
                3int
            }) * self.spec_led_count(),
    {
        let half = levels.len();
        let odd = (self.led_count % 2) as usize;
        let mut buf = with_capacity(2 + 8 * half);
        put_slice(&mut buf, self.prefix.as_slice());
        let ghost mut shown: Seq<[u8; 3]> = Seq::empty();
        proof {
            assert(Seq::<u8>::empty() + self.prefix@ =~= self.prefix@);
            assert(self.prefix@ + onset_leds(self.rgbw, shown) =~= self.prefix@);
        }
        let mut i: usize = half;
        while i > 0
            invariant
                i <= half,
                half == levels@.len(),
                half <= 32768,
                self.wf(),
                shown.len() == half - i,
                forall|k: int| 0 <= k < shown.len() ==> shown[k] == levels@[half - 1 - k],
                written(buf) == self.prefix@ + onset_leds(self.rgbw, shown),
            decreases i,
        {
            i -= 1;
            proof {
                lemma_onset_leds_len(self.rgbw, shown);
                assert(shown.push(levels@[i as int]).drop_last() =~= shown);
            }
            self.put_led(&mut buf, levels[i]);
            proof {
                shown = shown.push(levels@[i as int]);
                assert(written(buf) =~= self.prefix@ + onset_leds(self.rgbw, shown));
            }
        }
        proof {
            assert(shown =~= levels@.reverse());
        }
        let mut j: usize = odd;
        proof {
            assert(levels@.subrange(odd as int, odd as int) =~= Seq::<[u8; 3]>::empty());
            assert(shown =~= levels@.reverse() + levels@.subrange(odd as int, j as int));
        }
        while j < half
            invariant
                odd <= j <= half || (half == 0 && j == odd),
                odd <= 1,
                half == levels@.len(),
                half <= 32768,
                self.wf(),
                shown == levels@.reverse() + levels@.subrange(odd as int, j as int),
                written(buf) == self.prefix@ + onset_leds(self.rgbw, shown),
            decreases half - j,
        {
            proof {
                lemma_onset_leds_len(self.rgbw, shown);
                assert(shown.push(levels@[j as int]).drop_last() =~= shown);
            }
            self.put_led(&mut buf, levels[j]);
            proof {
                shown = shown.push(levels@[j as int]);
                assert(shown =~= levels@.reverse() + levels@.subrange(odd as int, j + 1));
                assert(written(buf) =~= self.prefix@ + onset_leds(self.rgbw, shown));
            }
            j += 1;
        }
        proof {
            assert(levels@.subrange(odd as int, half as int) =~= levels@.skip(odd as int));
            assert(shown == mirrored(levels@, self.led_count as nat));
            lemma_mirrored(levels@, self.led_count as nat);
            lemma_onset_leds_len(self.rgbw, shown);
        }
        freeze(buf)
    }
}

/// The colours of a strip after `rgb` moved in: the oldest colour leaves. A
/// strip without LEDs stays without colours.
pub open spec fn shifted(colors: Seq<[u8; 3]>, rgb: [u8; 3]) -> Seq<[u8; 3]> {
    if colors.len() > 0 {
        colors.skip(1).push(rgb)
    } else {
        colors
    }
}

/// The order in which a strip of `led_count` LEDs shows `colors`, oldest
/// first in `colors`. Straight, the newest colour is on the first LED.
/// Centred, the newest colour is in the middle and the colours age towards
/// both ends.
pub open spec fn rendered(colors: Seq<[u8; 3]>, led_count: nat, center: bool) -> Seq<[u8; 3]> {
    if !center {
        colors.reverse()
    } else {
        let half = led_count / 2;
        let odd = led_count % 2;
        colors.reverse().take((half + odd) as int).reverse() + colors.reverse().skip(
            odd as int,
        ).take(half as int)
    }
}

/// The bytes of the colours `colors`, first to last.
pub open spec fn rgb_bytes(colors: Seq<[u8; 3]>) -> Seq<u8>
    decreases colors.len(),
{
    if colors.len() == 0 {
        Seq::empty()
    } else {
        rgb_bytes(colors.drop_last()) + seq![colors.last()[0], colors.last()[1], colors.last()[2]]
    }
}

/// Every colour takes three bytes.
pub proof fn lemma_rgb_bytes_len(colors: Seq<[u8; 3]>)
    ensures
        rgb_bytes(colors).len() == 3 * colors.len(),
    decreases colors.len(),
{
    if colors.len() > 0 {
        lemma_rgb_bytes_len(colors.drop_last());
    }
}

/// The part of a spectrum sink's state that shapes its datagrams: the
/// colours that run along the strip.
pub struct SpectrumState {
    colors: VecDeque<[u8; 3]>,
    prefix: Vec<u8>,
    led_count: u16,
    center: bool,
}

impl SpectrumState {
    /// The colours on the strip, oldest first.
    pub closed spec fn colors(&self) -> Seq<[u8; 3]> {
        self.colors@
    }

    /// The two bytes in front of every datagram.
    pub closed spec fn prefix(&self) -> Seq<u8> {
        self.prefix@
    }

    /// Number of LEDs of the strip.
    pub closed spec fn spec_led_count(&self) -> u16 {
        self.led_count
    }

    /// Whether the colours run from the centre to both ends.
    pub closed spec fn center(&self) -> bool {
        self.center
    }

    /// There is one colour for every LED, and the prefix has two bytes.
    pub open spec fn wf(&self) -> bool {
        &&& self.prefix().len() == 2
        &&& self.colors().len() == self.spec_led_count()
    }

    /// A dark strip of `led_count` LEDs.
    pub fn init(led_count: u16, center: bool, timeout: u8) -> (state: Self)
        ensures
            state.wf(),
            state.spec_led_count() == led_count,
            state.center() == center,
            state.prefix() == strip_prefix(false, timeout),
            state.colors() == Seq::new(led_count as nat, |i: int| [0u8, 0u8, 0u8]),
    {
        let prefix = vec![0x02u8, timeout];
        proof {
            assert(prefix@ =~= strip_prefix(false, timeout));
        }
        let dark: [u8; 3] = [0, 0, 0];
        let mut colors: VecDeque<[u8; 3]> = VecDeque::with_capacity(led_count as usize);
        let mut i: u16 = 0;
        while i < led_count
            invariant
                i <= led_count,
                dark == [0u8, 0u8, 0u8],
                colors@ == Seq::new(i as nat, |k: int| [0u8, 0u8, 0u8]),
            decreases led_count - i,
        {
            colors.push_back(dark);
            proof {
                assert(Seq::new(i as nat, |k: int| [0u8, 0u8, 0u8]).push(dark) =~= Seq::new(
                    (i + 1) as nat,
                    |k: int| [0u8, 0u8, 0u8],
                ));
            }
            i += 1;
        }
        SpectrumState { colors, prefix, led_count, center }
    }

    /// Moves the colour `rgb` onto the strip; the oldest colour leaves it.
    pub fn shift_in(&mut self, rgb: [u8; 3])
        requires
            old(self).wf(),
        ensures
            final(self).wf(),
            final(self).colors() == shifted(old(self).colors(), rgb),
            final(self).prefix() == old(self).prefix(),
            final(self).spec_led_count() == old(self).spec_led_count(),
            final(self).center() == old(self).center(),
    {
        if self.colors.len() > 0 {
            let _ = self.colors.pop_front();
            self.colors.push_back(rgb);
            proof {
                assert(old(self).colors().subrange(1, old(self).colors().len() as int)
                    =~= old(self).colors().skip(1));
            }
        }
    }

    /// Appends one colour.
    fn put_rgb(buf: &mut BytesMut, rgb: [u8; 3])
        requires
            written(*old(buf)).len() + 3 <= isize::MAX,
        ensures
            written(*final(buf)) == written(*old(buf)) + seq![rgb[0], rgb[1], rgb[2]],
    {
        let ghost before = written(*buf);
        put_u8(buf, rgb[0]);
        put_u8(buf, rgb[1]);
        put_u8(buf, rgb[2]);
        proof {
            assert(written(*buf) =~= before + seq![rgb[0], rgb[1], rgb[2]]);
        }
    }

    /// The datagram for the colours on the strip: the prefix, then the
    /// colours in the order in which the strip shows them.
    pub fn poll(&self) -> (data: Bytes)
        requires
            self.wf(),
        ensures
            payload(data) == self.prefix() + rgb_bytes(
                rendered(self.colors(), self.spec_led_count() as nat, self.center()),
            ),
            payload(data).len() == 2 + 3 * self.spec_led_count(),
    {
        let n = self.colors.len();
        let mut buf = with_capacity(2 + 3 * n);
        put_slice(&mut buf, self.prefix.as_slice());
        let ghost colors = self.colors@;
        let ghost mut shown: Seq<[u8; 3]> = Seq::empty();
        proof {
            assert(Seq::<u8>::empty() + self.prefix@ =~= self.prefix@);
            assert(self.prefix@ + rgb_bytes(shown) =~= self.prefix@);
        }
        if !self.center {
            let mut i: usize = n;
            while i > 0
                invariant
                    i <= n,
                    n == colors.len(),
                    colors == self.colors@,
                    self.wf(),
                    shown.len() == n - i,
                    forall|k: int| 0 <= k < shown.len() ==> shown[k] == colors[n - 1 - k],
                    written(buf) == self.prefix@ + rgb_bytes(shown),
                decreases i,
            {
                i -= 1;
                proof {
                    lemma_rgb_bytes_len(shown);
                    assert(shown.push(colors[i as int]).drop_last() =~= shown);
                }
                Self::put_rgb(&mut buf, self.colors[i]);
                proof {
                    shown = shown.push(colors[i as int]);
                    assert(written(buf) =~= self.prefix@ + rgb_bytes(shown));
                }
            }
            proof {
                assert(shown =~= rendered(colors, self.led_count as nat, false));
            }
        } else {
            let half = (self.led_count / 2) as usize;
            let odd = (self.led_count % 2) as usize;
            let first = n - (half + odd);
            let mut i: usize = first;
            while i < n
                invariant
                    first <= i <= n,
                    n == colors.len(),
                    colors == self.colors@,
                    self.wf(),
                    shown == colors.subrange(first as int, i as int),
                    written(buf) == self.prefix@ + rgb_bytes(shown),
                decreases n - i,
            {
                proof {
                    lemma_rgb_bytes_len(shown);
                    assert(shown.push(colors[i as int]).drop_last() =~= shown);
                }
                Self::put_rgb(&mut buf, self.colors[i]);
                proof {
                    shown = shown.push(colors[i as int]);
                    assert(shown =~= colors.subrange(first as int, i + 1));
                    assert(written(buf) =~= self.prefix@ + rgb_bytes(shown));
                }
                i += 1;
            }
            let ghost inner = shown;
            proof {
                assert(inner =~= colors.reverse().take((half + odd) as int).reverse());
            }
            let mut t: usize = 0;
            while t < half
                invariant
                    t <= half,
                    half + odd <= n,
                    odd <= 1,
                    n == colors.len(),
                    colors == self.colors@,
                    self.wf(),
                    shown.len() == inner.len() + t,
                    inner.len() == half + odd,
                    forall|k: int| 0 <= k < inner.len() ==> shown[k] == inner[k],
                    forall|k: int|
                        inner.len() <= k < shown.len() ==> shown[k] == colors[n - 1 - odd - (k
                            - inner.len())],
                    written(buf) == self.prefix@ + rgb_bytes(shown),
                decreases half - t,
            {
                let at = n - 1 - odd - t;
                proof {
                    lemma_rgb_bytes_len(shown);
                    assert(shown.push(colors[at as int]).drop_last() =~= shown);
                }
                Self::put_rgb(&mut buf, self.colors[at]);
                proof {
                    shown = shown.push(colors[at as int]);
                    assert(written(buf) =~= self.prefix@ + rgb_bytes(shown));
                }
                t += 1;
            }
            proof {
                assert(shown =~= rendered(colors, self.led_count as nat, true));
            }
        }
        proof {
            lemma_rgb_bytes_len(shown);
        }
        freeze(buf)
    }
}

} // verus!
