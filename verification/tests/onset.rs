use music_sync::onset::{
    console_row, flux_onsets, hfc_onsets, loudest, loudest_in, Crossings, Onset, OnsetKind,
};
use music_sync::serialize::OnsetContainer;

fn kinds(onsets: &[Onset<f32>]) -> Vec<OnsetKind> {
    onsets.iter().map(|o| o.kind()).collect()
}

const NONE: Crossings = Crossings { full: false, drum: false, note: false, hihat: false };
const ALL: Crossings = Crossings { full: true, drum: true, note: true, hihat: true };

#[test]
fn silent_frame_emits_nothing() {
    let onsets: Vec<Onset<f32>> = hfc_onsets(true, ALL, 3.0, 0.5, 0.9, 7, 3);
    assert!(onsets.is_empty());
}

#[test]
fn quiet_frame_emits_atmosphere_and_raw() {
    let onsets = hfc_onsets(false, NONE, 3.0f32, 0.5, 0.9, 7, 3);
    assert_eq!(kinds(&onsets), [OnsetKind::Atmosphere, OnsetKind::Raw]);
    assert_eq!(onsets[0].strength(), 0.5);
    assert_eq!(onsets[0].bin(), Some(7));
    assert_eq!(onsets[1].strength(), 3.0);
    assert_eq!(onsets[1].bin(), None);
}

#[test]
fn all_crossings_emit_in_order() {
    let onsets = hfc_onsets(false, ALL, 3.0f32, 0.5, 0.9, 7, 3);
    assert_eq!(
        kinds(&onsets),
        [OnsetKind::Full, OnsetKind::Raw, OnsetKind::Kick, OnsetKind::Note, OnsetKind::Hihat]
    );
    assert_eq!(onsets[0].strength(), 0.5);
    assert_eq!(onsets[2].strength(), 0.5);
    assert_eq!(onsets[3].strength(), 0.5);
    assert_eq!(onsets[3].bin(), Some(3));
    assert_eq!(onsets[4].strength(), 0.9);
}

#[test]
fn single_crossings() {
    let drum = Crossings { drum: true, ..NONE };
    assert_eq!(
        kinds(&hfc_onsets(false, drum, 1.0f32, 0.5, 0.9, 0, 0)),
        [OnsetKind::Atmosphere, OnsetKind::Raw, OnsetKind::Kick]
    );
    let hihat = Crossings { hihat: true, ..NONE };
    assert_eq!(
        kinds(&flux_onsets(hihat, 1.0f32, 0.5, 0.9, 0)),
        [OnsetKind::Raw, OnsetKind::Hihat]
    );
}

#[test]
fn flux_detector_always_emits_raw() {
    let onsets = flux_onsets(NONE, 0.0f32, 0.0, 0.0, 0);
    assert_eq!(kinds(&onsets), [OnsetKind::Raw]);
    assert_eq!(onsets[0].strength(), 0.0);
}

#[test]
fn flux_detector_order() {
    let onsets = flux_onsets(ALL, 4.0f32, 0.25, 0.75, 21);
    assert_eq!(
        kinds(&onsets),
        [OnsetKind::Raw, OnsetKind::Full, OnsetKind::Kick, OnsetKind::Hihat, OnsetKind::Note]
    );
    assert_eq!(onsets[0].strength(), 4.0);
    assert_eq!(onsets[1].strength(), 0.25);
    assert_eq!(onsets[3].strength(), 0.75);
    assert_eq!(onsets[4].bin(), Some(21));
}

#[test]
fn first_of_equal_maxima_wins() {
    assert_eq!(loudest(&[1, 5, 3, 5, 2]), 1);
    assert_eq!(loudest(&[0, 0, 0]), 0);
    assert_eq!(loudest(&[9]), 0);
    assert_eq!(loudest(&[1, 2, 3]), 2);
}

#[test]
fn loudest_of_a_range_is_a_bin_of_the_spectrum() {
    let keys = [9, 1, 4, 4, 2, 8];
    assert_eq!(loudest_in(&keys, 1, 5), 2);
    assert_eq!(loudest_in(&keys, 4, 6), 5);
    assert_eq!(loudest_in(&keys, 0, 6), 0);
    assert_eq!(loudest_in(&keys, 3, 4), 3);
}

#[test]
fn magnitudes_are_ordered_as_their_bits() {
    let spectrum = [0.0f32, 0.25, 3.5, 0.125, 3.5];
    let keys: Vec<u32> = spectrum.iter().map(|x| x.to_bits()).collect();
    assert_eq!(loudest(&keys), 2);
}

#[test]
fn console_rows() {
    assert_eq!(console_row(OnsetKind::Kick), Some(0));
    assert_eq!(console_row(OnsetKind::Hihat), Some(1));
    assert_eq!(console_row(OnsetKind::Full), Some(2));
    assert_eq!(console_row(OnsetKind::Note), Some(3));
    assert_eq!(console_row(OnsetKind::Atmosphere), Some(4));
    assert_eq!(console_row(OnsetKind::Snare), None);
    assert_eq!(console_row(OnsetKind::Raw), None);
}

#[test]
fn container_keeps_time() {
    let mut log: OnsetContainer<f32> = OnsetContainer::init(48000, 480);
    assert_eq!(log.interval(), 10);
    assert_eq!(log.now(), 0);
    log.process_onset(Onset::Full(0.5));
    log.process_onset(Onset::Raw(1.5));
    log.update();
    log.process_onset(Onset::Kick(0.25));
    log.process_onset(Onset::Full(0.75));
    log.update();
    assert_eq!(log.now(), 20);
    assert_eq!(log.len(), 3);
    assert_eq!(log.raw_values(), &vec![1.5]);
    let full = log.entries_of(OnsetKind::Full);
    assert_eq!(full.len(), 2);
    assert_eq!(full[0].0, 0);
    assert_eq!(full[0].1.strength(), 0.5);
    assert_eq!(full[1].0, 10);
    assert_eq!(full[1].1.strength(), 0.75);
    let kick = log.entries_of(OnsetKind::Kick);
    assert_eq!(kick.len(), 1);
    assert_eq!(kick[0].0, 10);
    assert!(log.entries_of(OnsetKind::Raw).is_empty());
    assert!(log.entries_of(OnsetKind::Hihat).is_empty());
}

#[test]
fn interval_is_rounded_down() {
    assert_eq!(OnsetContainer::<f32>::init(44100, 512).interval(), 11);
    assert_eq!(OnsetContainer::<f32>::init(48000, 47).interval(), 0);
    assert_eq!(OnsetContainer::<f32>::init(1, 5_000_000).interval(), u32::MAX);
    assert_eq!(OnsetContainer::<f32>::init(0, 480).interval(), u32::MAX);
    assert_eq!(OnsetContainer::<f32>::init(0, 0).interval(), 0);
}

#[test]
fn silence_fills_the_raw_list_only() {
    let mut log: OnsetContainer<f32> = OnsetContainer::init(48000, 480);
    for _ in 0..19 {
        for onset in flux_onsets(NONE, 0.0f32, 0.0, 0.0, 0) {
            log.process_onset(onset);
        }
        log.update();
    }
    assert_eq!(log.len(), 0);
    assert_eq!(log.raw_values(), &vec![0.0f32; 19]);
    assert_eq!(log.now(), 190);
}
