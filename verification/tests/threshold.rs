use music_sync::threshold::{History, Refractory};

fn run(delay: usize, inputs: &[bool]) -> Vec<bool> {
    let mut register = Refractory::new(delay);
    inputs.iter().map(|x| register.step(*x)).collect()
}

fn exceeds(history: &History<f32>, value: f32, fixed: f32, dynamic: f32) -> bool {
    let past: Vec<f32> = (0..history.len()).map(|i| *history.get(i)).collect();
    let max = past.iter().fold(0.0f32, |a, b| a.max(*b));
    let mean = past.iter().sum::<f32>() / past.len() as f32;
    value >= max && value >= mean + mean * dynamic + fixed
}

#[test]
fn tentative_onset_is_emitted_after_the_delay() {
    let flux = [0.0f32, 0.0, 10.0, 10.0, 10.0, 0.0, 0.0, 10.0, 0.0, 0.0, 0.0];
    let mut history: History<f32> = History::filled(2, 0.0);
    let mut register = Refractory::new(2);
    let mut emitted = Vec::new();
    for value in flux {
        let above = exceeds(&history, value, 1.0, 0.0);
        history.record(value);
        emitted.push(register.step(above));
    }
    // the onsets of hops 2 and 7, each two hops later; hop 3 exceeds too
    // but falls into the dead time of hop 2
    let expected =
        [false, false, false, false, true, false, false, false, false, true, false];
    assert_eq!(emitted, expected);
}

#[test]
fn first_emission_of_a_flux_burst() {
    let exceeds = [false, false, true, true, false, false, false];
    let emitted = run(2, &exceeds);
    assert_eq!(emitted, [false, false, false, false, true, false, false]);
}

#[test]
fn emitted_onsets_keep_their_distance() {
    for delay in 0..5usize {
        let emitted = run(delay, &[true; 40]);
        let at: Vec<usize> = (0..emitted.len()).filter(|i| emitted[*i]).collect();
        assert!(!at.is_empty());
        assert_eq!(at[0], delay);
        for pair in at.windows(2) {
            assert_eq!(pair[1] - pair[0], delay + 1);
        }
    }
}

#[test]
fn spacing_holds_for_irregular_inputs() {
    let mut seed: u32 = 12345;
    for delay in 0..4usize {
        let mut inputs = Vec::new();
        for _ in 0..500 {
            seed = seed.wrapping_mul(1664525).wrapping_add(1013904223);
            inputs.push(seed >> 16 & 3 != 0);
        }
        let emitted = run(delay, &inputs);
        let at: Vec<usize> = (0..emitted.len()).filter(|i| emitted[*i]).collect();
        for pair in at.windows(2) {
            assert!(pair[1] - pair[0] >= delay + 1);
        }
    }
}

#[test]
fn without_delay_every_exceeding_hop_is_emitted() {
    let inputs = [true, true, false, true];
    assert_eq!(run(0, &inputs), inputs);
}

#[test]
fn quiet_register_accepts() {
    let mut register = Refractory::new(3);
    assert!(register.is_quiet());
    assert!(!register.step(true));
    assert!(!register.is_quiet());
    assert!(!register.step(true));
    assert!(!register.step(false));
    assert!(register.step(false));
    assert!(register.is_quiet());
}

#[test]
fn history_drops_its_oldest_value() {
    let mut history: History<f32> = History::new(3);
    assert_eq!(history.len(), 0);
    for v in [1.0, 2.0, 3.0] {
        history.record(v);
    }
    assert_eq!(history.len(), 3);
    history.record(4.0);
    assert_eq!(history.len(), 3);
    assert_eq!(*history.get(0), 2.0);
    assert_eq!(*history.get(1), 3.0);
    assert_eq!(*history.get(2), 4.0);
}

#[test]
fn filled_history_shifts() {
    let mut history: History<f32> = History::filled(2, 0.0);
    assert_eq!(history.len(), 2);
    assert_eq!(*history.get(0), 0.0);
    history.record(10.0);
    assert_eq!(*history.get(0), 0.0);
    assert_eq!(*history.get(1), 10.0);
    history.record(7.0);
    assert_eq!(*history.get(0), 10.0);
    assert_eq!(*history.get(1), 7.0);
}

#[test]
fn history_without_capacity_keeps_one_value() {
    let mut history: History<u8> = History::new(0);
    history.record(1);
    history.record(2);
    assert_eq!(history.len(), 1);
    assert_eq!(*history.get(0), 2);
}
