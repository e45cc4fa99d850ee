//! Datagrams of the entertainment protocol of a lighting bridge.
//!
//! A datagram is a header — the protocol's name, its version, reserved bytes
//! and the entertainment area's identifier — followed by one record of seven
//! bytes for each light channel of the area: the channel's identifier and
//! the red, green and blue level, 16 bit each, most significant byte first.

use crate::onset::OnsetKind;
use crate::wire::{be16, freeze, payload, put_slice, put_u16, put_u8, with_capacity};
use bytes::Bytes;
use vstd::prelude::*;
use vstd::string::StringSliceAdditionalSpecFns;

verus! {

/// The protocol's name, `HueStream`, then version 2.0, the sequence number,
/// two reserved bytes, the colour space (RGB) and one more reserved byte.
pub open spec fn protocol_header() -> Seq<u8> {
    seq![
        0x48u8, 0x75, 0x65, 0x53, 0x74, 0x72, 0x65, 0x61, 0x6d,
        0x02, 0x00, 0x00, 0x00, 0x00, 0x00, 0x00,
    ]
}

/// The header of every datagram for the area `area_id`.
pub open spec fn stream_prefix(area_id: Seq<u8>) -> Seq<u8> {
    protocol_header() + area_id
}

/// The levels that the lights show for the three envelopes: the hi-hat adds
/// an eighth of its level as white to all channels, the kick drives red, and
/// half of the note's level drives blue. A channel that is full stays full.
pub open spec fn mixed_levels(drum: u16, hihat: u16, note: u16) -> Seq<u16> {
    let white = hihat / 8;
    let blue = note / 2;
    seq![
        if drum + white > u16::MAX { u16::MAX } else { (drum + white) as u16 },
        white as u16,
        if blue + white > u16::MAX { u16::MAX } else { (blue + white) as u16 },
    ]
}

/// The record of one channel.
pub open spec fn channel_record(id: u8, color: Seq<u16>) -> Seq<u8> {
    seq![id] + be16(color[0]) + be16(color[1]) + be16(color[2])
}

/// The records of `channels`, all with the same colour.
pub open spec fn channel_records(channels: Seq<u8>, color: Seq<u16>) -> Seq<u8>
    decreases channels.len(),
{
    if channels.len() == 0 {
        Seq::empty()
    } else {
        channel_records(channels.drop_last(), color) + channel_record(channels.last(), color)
    }
}

/// Every channel takes seven bytes.
pub proof fn lemma_records_len(channels: Seq<u8>, color: Seq<u16>)
    ensures
        channel_records(channels, color).len() == 7 * channels.len(),
    decreases channels.len(),
{
    if channels.len() > 0 {
        lemma_records_len(channels.drop_last(), color);
    }
}

/// Computes `mixed_levels`.
pub fn mix_levels(drum: u16, hihat: u16, note: u16) -> (color: [u16; 3])
    ensures
        color@ == mixed_levels(drum, hihat, note),
{
    let white: u16 = hihat >> 3;
    let blue: u16 = note >> 1;
    proof {
        assert(hihat >> 3 == hihat / 8) by (bit_vector);
        assert(note >> 1 == note / 2) by (bit_vector);
    }
    let color = [drum.saturating_add(white), white, blue.saturating_add(white)];
    color
}

/// The oldest software of a bridge that streams.
pub const MIN_SOFTWARE_VERSION: u32 = 1948086000;

/// Whether a bridge with the software `version` can stream.
pub fn version_supported(version: u32) -> (ok: bool)
    ensures
        ok == (version >= MIN_SOFTWARE_VERSION),
{
    version >= MIN_SOFTWARE_VERSION
}

/// The envelopes of a bridge sink.
#[derive(Debug, Clone, Copy, PartialEq, Eq, Structural)]
pub enum Envelope {
    Fullband,
    Drum,
    Hihat,
    Note,
}

/// The envelope that an onset of kind `kind` acts on, if any: each envelope
/// answers to the kind of its name.
pub open spec fn envelope_of(kind: OnsetKind) -> Option<Envelope> {
    match kind {
        OnsetKind::Full => Some(Envelope::Fullband),
        OnsetKind::Kick => Some(Envelope::Drum),
        OnsetKind::Hihat => Some(Envelope::Hihat),
        OnsetKind::Note => Some(Envelope::Note),
        _ => None,
    }
}

/// Computes `envelope_of`.
pub fn envelope_for(kind: OnsetKind) -> (e: Option<Envelope>)
    ensures
        e == envelope_of(kind),
{
    match kind {
        OnsetKind::Full => Some(Envelope::Fullband),
        OnsetKind::Kick => Some(Envelope::Drum),
        OnsetKind::Hihat => Some(Envelope::Hihat),
        OnsetKind::Note => Some(Envelope::Note),
        _ => None,
    }
}

/// The part of a bridge sink's state that shapes its datagrams: the header,
/// serialised once, and the identifiers of the area's channels.
pub struct StreamState {
    prefix: Vec<u8>,
    channels: Vec<u8>,
}

impl StreamState {
    /// The header of every datagram.
    pub closed spec fn prefix(&self) -> Seq<u8> {
        self.prefix@
    }

    /// The identifiers of the channels, in the order of their records.
    pub closed spec fn channels(&self) -> Seq<u8> {
        self.channels@
    }

    /// A datagram of this state fits into a buffer.
    pub open spec fn wf(&self) -> bool {
        self.prefix().len() + 7 * self.channels().len() <= isize::MAX
    }

    /// The state for the area `area_id` with the channels `channels`.
    pub fn with_area(area_id: &str, channels: Vec<u8>) -> (state: Self)
        requires
            16 + area_id.spec_bytes().len() + 7 * channels@.len() <= isize::MAX,
        ensures
            state.wf(),
            state.prefix() == stream_prefix(area_id.spec_bytes()),
            state.channels() == channels@,
    {
        let mut prefix: Vec<u8> = vec![
            0x48u8, 0x75, 0x65, 0x53, 0x74, 0x72, 0x65, 0x61, 0x6d,
            0x02, 0x00, 0x00, 0x00, 0x00, 0x00, 0x00,
        ];
        proof {
            assert(prefix@ =~= protocol_header());
        }
        let id = area_id.as_bytes();
        let mut i: usize = 0;
        while i < id.len()
            invariant
                i <= id@.len(),
                prefix@ == protocol_header() + id@.subrange(0, i as int),
            decreases id@.len() - i,
        {
            prefix.push(id[i]);
            proof {
                assert(id@.subrange(0, i as int).push(id@[i as int]) =~= id@.subrange(0, i + 1));
                assert((protocol_header() + id@.subrange(0, i as int)).push(id@[i as int])
                    =~= protocol_header() + id@.subrange(0, i + 1));
            }
            i += 1;
        }
        proof {
            assert(id@.subrange(0, id@.len() as int) =~= id@);
        }
        StreamState { prefix, channels }
    }

    /// Number of channels.
    pub fn channel_count(&self) -> (n: usize)
        ensures
            n == self.channels().len(),
    {
        self.channels.len()
    }

    /// The datagram in which every channel shows `color`.
    pub fn poll_color(&self, color: [u16; 3]) -> (data: Bytes)
        requires
            self.wf(),
        ensures
            payload(data) == self.prefix() + channel_records(self.channels(), color@),
            payload(data).len() == self.prefix().len() + 7 * self.channels().len(),
    {
        let mut buf = with_capacity(self.prefix.len() + 7 * self.channels.len());
        put_slice(&mut buf, self.prefix.as_slice());
        proof {
            assert(Seq::<u8>::empty() + self.prefix@ =~= self.prefix@);
            assert(self.channels@.subrange(0, 0) =~= Seq::<u8>::empty());
        }
        let mut i: usize = 0;
        while i < self.channels.len()
            invariant
                i <= self.channels@.len(),
                self.wf(),
                crate::wire::written(buf) == self.prefix@ + channel_records(
                    self.channels@.subrange(0, i as int),
                    color@,
                ),
            decreases self.channels@.len() - i,
        {
            let ghost before = crate::wire::written(buf);
            let ghost done = self.channels@.subrange(0, i as int);
            proof {
                lemma_records_len(done, color@);
                let next = self.channels@.subrange(0, i + 1);
                assert(next.drop_last() =~= done);
                assert(next.last() == self.channels@[i as int]);
            }
            put_u8(&mut buf, self.channels[i]);
            put_u16(&mut buf, color[0]);
            put_u16(&mut buf, color[1]);
            put_u16(&mut buf, color[2]);
            proof {
                assert(crate::wire::written(buf) =~= before + channel_record(
                    self.channels@[i as int],
                    color@,
                ));
                assert(crate::wire::written(buf) =~= self.prefix@ + channel_records(
                    self.channels@.subrange(0, i + 1),
                    color@,
                ));
            }
            i += 1;
        }
        proof {
            assert(self.channels@.subrange(0, self.channels@.len() as int) =~= self.channels@);
            lemma_records_len(self.channels@, color@);
        }
        freeze(buf)
    }

    /// The datagram for the envelope levels `drum`, `hihat` and `note`, each
    /// on the scale of 16 bits: every channel shows their mix.
    pub fn poll_levels(&self, drum: u16, hihat: u16, note: u16) -> (data: Bytes)
        requires
            self.wf(),
        ensures
            payload(data) == self.prefix() + channel_records(
                self.channels(),
                mixed_levels(drum, hihat, note),
            ),
            payload(data).len() == self.prefix().len() + 7 * self.channels().len(),
    {
        self.poll_color(mix_levels(drum, hihat, note))
    }
}

} // verus!
