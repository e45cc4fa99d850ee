use music_sync::hue::{envelope_for, mix_levels, Envelope, StreamState};
use music_sync::onset::OnsetKind;
use music_sync::wled::{LEDStrip, OnsetState, SpectrumState};

const AREA: &str = "01234567-89ab-cdef-0123-456789abcdef";

fn header() -> Vec<u8> {
    let mut expected = b"HueStream".to_vec();
    expected.extend([2, 0, 0, 0, 0, 0, 0]);
    expected.extend(AREA.as_bytes());
    expected
}

#[test]
fn bridge_datagram_is_byte_exact() {
    let state = StreamState::with_area(AREA, vec![0, 1, 7]);
    assert_eq!(state.channel_count(), 3);
    let data = state.poll_color([0x1234, 0xabcd, 0x00ff]);
    let mut expected = header();
    assert_eq!(expected.len(), 16 + 36);
    for id in [0u8, 1, 7] {
        expected.extend([id, 0x12, 0x34, 0xab, 0xcd, 0x00, 0xff]);
    }
    assert_eq!(&data[..], &expected[..]);
}

#[test]
fn bridge_datagram_without_channels_is_the_header() {
    let state = StreamState::with_area(AREA, vec![]);
    assert_eq!(&state.poll_levels(1, 2, 3)[..], &header()[..]);
}

#[test]
fn envelope_levels_are_mixed() {
    // white = hihat >> 3, blue = note >> 1
    assert_eq!(mix_levels(1000, 800, 600), [1100, 100, 400]);
    assert_eq!(mix_levels(0, 0, 0), [0, 0, 0]);
    assert_eq!(mix_levels(0, 7, 1), [0, 0, 0]);
    assert_eq!(mix_levels(65535, 65535, 65535), [65535, 8191, 40958]);
    assert_eq!(mix_levels(60000, 65535, 0), [65535, 8191, 8191]);
}

#[test]
fn bridge_datagram_for_levels() {
    let state = StreamState::with_area(AREA, vec![3]);
    let data = state.poll_levels(0x8000, 0x0800, 0x0200);
    let mut expected = header();
    expected.extend([3, 0x81, 0x00, 0x01, 0x00, 0x02, 0x00]);
    assert_eq!(&data[..], &expected[..]);
}

#[test]
fn silent_bridge_datagram_is_dark() {
    let state = StreamState::with_area(AREA, vec![0, 1]);
    let data = state.poll_levels(0, 0, 0);
    let colours = &data[52..];
    assert_eq!(colours, &[0, 0, 0, 0, 0, 0, 0, 1, 0, 0, 0, 0, 0, 0]);
}

#[test]
fn bridge_envelopes_answer_to_their_kinds() {
    assert_eq!(envelope_for(OnsetKind::Full), Some(Envelope::Fullband));
    assert_eq!(envelope_for(OnsetKind::Kick), Some(Envelope::Drum));
    assert_eq!(envelope_for(OnsetKind::Hihat), Some(Envelope::Hihat));
    assert_eq!(envelope_for(OnsetKind::Note), Some(Envelope::Note));
    assert_eq!(envelope_for(OnsetKind::Snare), None);
    assert_eq!(envelope_for(OnsetKind::Atmosphere), None);
    assert_eq!(envelope_for(OnsetKind::Raw), None);
}

#[test]
fn strip_envelopes_answer_to_their_kinds() {
    assert_eq!(music_sync::wled::envelope_for(OnsetKind::Kick), Some(music_sync::wled::Envelope::Drum));
    assert_eq!(music_sync::wled::envelope_for(OnsetKind::Note), Some(music_sync::wled::Envelope::Note));
    assert_eq!(music_sync::wled::envelope_for(OnsetKind::Hihat), Some(music_sync::wled::Envelope::Hihat));
    assert_eq!(music_sync::wled::envelope_for(OnsetKind::Full), None);
    assert_eq!(music_sync::wled::envelope_for(OnsetKind::Raw), None);
}

#[test]
fn onset_strip_is_mirrored() {
    let state = OnsetState::init(6, false, 2);
    assert_eq!(state.led_count(), 6);
    assert_eq!(state.half(), 3);
    // red, blue, white from the centre outwards
    let levels = [[10, 20, 1], [30, 40, 2], [250, 0, 10]];
    let data = state.poll(&levels);
    let expected = [
        0x02, 2, // prefix
        255, 10, 10, 32, 2, 42, 11, 1, 21, // reversed half
        11, 1, 21, 32, 2, 42, 255, 10, 10, // half
    ];
    assert_eq!(&data[..], &expected[..]);
}

#[test]
fn onset_strip_with_white_channel() {
    let state = OnsetState::init(4, true, 5);
    let data = state.poll(&[[1, 2, 3], [4, 5, 6]]);
    let expected = [0x03, 5, 4, 0, 5, 6, 1, 0, 2, 3, 1, 0, 2, 3, 4, 0, 5, 6];
    assert_eq!(&data[..], &expected[..]);
}

#[test]
fn odd_onset_strip_has_one_led_in_its_centre() {
    let state = OnsetState::init(5, false, 1);
    assert_eq!(state.half(), 3);
    let data = state.poll(&[[9, 0, 0], [5, 0, 2], [1, 7, 0]]);
    assert_eq!(data.len(), 2 + 3 * 5);
    let expected = [
        0x02, 1, // prefix
        1, 0, 7, 7, 2, 2, // outer and inner LED of the first side
        9, 0, 0, // centre
        7, 2, 2, 1, 0, 7, // inner and outer LED of the second side
    ];
    assert_eq!(&data[..], &expected[..]);
}

#[test]
fn onset_datagram_has_a_group_for_every_led() {
    for led_count in 0..40u16 {
        for rgbw in [false, true] {
            let state = OnsetState::init(led_count, rgbw, 3);
            let levels: Vec<[u8; 3]> = (0..state.half()).map(|i| [i as u8 + 1, 0, 0]).collect();
            let data = state.poll(&levels);
            let group = if rgbw { 4 } else { 3 };
            assert_eq!(data.len(), 2 + group * led_count as usize);
            assert_eq!(data[0], if rgbw { 0x03 } else { 0x02 });
            assert_eq!(data[1], 3);
            let pixels: Vec<&[u8]> = data[2..].chunks(group).collect();
            for k in 0..pixels.len() {
                assert_eq!(pixels[k], pixels[pixels.len() - 1 - k]);
            }
        }
    }
}

#[test]
fn single_led_shows_the_centre() {
    let state = OnsetState::init(1, true, 1);
    assert_eq!(&state.poll(&[[4, 5, 6]])[..], &[0x03, 1, 4, 0, 5, 6]);
    let none = OnsetState::init(0, false, 1);
    assert_eq!(&none.poll(&[])[..], &[0x02, 1]);
}

#[test]
fn spectrum_strip_starts_dark() {
    let state = SpectrumState::init(3, false, 2);
    assert_eq!(&state.poll()[..], &[0x02, 2, 0, 0, 0, 0, 0, 0, 0, 0, 0]);
}

#[test]
fn spectrum_strip_shows_newest_colour_first() {
    let mut state = SpectrumState::init(3, false, 2);
    state.shift_in([1, 1, 1]);
    state.shift_in([2, 2, 2]);
    assert_eq!(&state.poll()[..], &[0x02, 2, 2, 2, 2, 1, 1, 1, 0, 0, 0]);
    state.shift_in([3, 3, 3]);
    state.shift_in([4, 4, 4]);
    assert_eq!(&state.poll()[..], &[0x02, 2, 4, 4, 4, 3, 3, 3, 2, 2, 2]);
}

#[test]
fn centred_spectrum_strip_even() {
    let mut state = SpectrumState::init(4, true, 9);
    for v in 1..=4u8 {
        state.shift_in([v, v, v]);
    }
    // oldest to newest 1 2 3 4: the newest half towards the middle, then back out
    assert_eq!(&state.poll()[..], &[0x02, 9, 3, 3, 3, 4, 4, 4, 4, 4, 4, 3, 3, 3]);
}

#[test]
fn centred_spectrum_strip_odd() {
    let mut state = SpectrumState::init(5, true, 9);
    for v in 1..=5u8 {
        state.shift_in([v, 0, v]);
    }
    let expected = [0x02, 9, 3, 0, 3, 4, 0, 4, 5, 0, 5, 4, 0, 4, 3, 0, 3];
    assert_eq!(&state.poll()[..], &expected[..]);
}

#[test]
fn strip_descriptor() {
    let strip = LEDStrip::new("desk".to_string(), 120, "10.0.0.7".to_string(), 21324, true);
    assert_eq!(strip.led_count(), 120);
    assert_eq!(strip.port(), 21324);
    assert!(strip.rgbw());
    assert_eq!(strip.name(), "desk");
    assert_eq!(strip.ip(), "10.0.0.7");
}

#[test]
fn spectrum_datagram_has_a_colour_for_every_led() {
    for led_count in 0..20u16 {
        for center in [false, true] {
            let mut state = SpectrumState::init(led_count, center, 4);
            for v in 0..30u8 {
                state.shift_in([v, v, v]);
            }
            let data = state.poll();
            assert_eq!(data.len(), 2 + 3 * led_count as usize);
            assert_eq!(&data[..2], &[0x02, 4]);
        }
    }
}

#[test]
fn strip_without_leds_shows_nothing() {
    let mut state = SpectrumState::init(0, false, 2);
    state.shift_in([1, 2, 3]);
    assert_eq!(&state.poll()[..], &[0x02, 2]);
}

#[test]
fn bridge_datagram_has_seven_bytes_for_every_channel() {
    for n in 0..12u8 {
        let state = StreamState::with_area(AREA, (0..n).collect());
        assert_eq!(state.poll_levels(9, 9, 9).len(), 16 + 36 + 7 * n as usize);
    }
}
