use music_sync::filterbank::{MelFilterBank, MelFilterBankSettings, Weight};

fn w(num: usize, den: usize) -> Weight {
    Weight { num, den }
}

#[test]
fn default_bank_size() {
    let settings = MelFilterBankSettings::default();
    assert_eq!(settings.bands, 82);
    assert_eq!(settings.max_frequency, 20_000);
}

#[test]
fn triangles_rise_and_fall() {
    let bank = MelFilterBank::init(&[0, 2, 6, 8]);
    assert_eq!(bank.bands(), 2);
    let first = bank.band(0);
    assert_eq!(first.start, 0);
    assert_eq!(first.weights, vec![w(0, 2), w(1, 2), w(4, 4), w(3, 4), w(2, 4), w(1, 4)]);
    let second = bank.band(1);
    assert_eq!(second.start, 2);
    assert_eq!(second.weights, vec![w(0, 4), w(1, 4), w(2, 4), w(3, 4), w(2, 2), w(1, 2)]);
}

#[test]
fn weights_at_a_bin_sum_to_at_most_one() {
    let edges = [0usize, 1, 3, 3, 7, 12, 12, 20];
    let bank = MelFilterBank::init(&edges);
    assert_eq!(bank.bands(), 6);
    for bin in 0..25usize {
        let mut total = 0.0f64;
        let mut covering = Vec::new();
        for m in 0..bank.bands() {
            let band = bank.band(m);
            if bin >= band.start && bin < band.start + band.weights.len() {
                let weight = band.weights[bin - band.start];
                assert!(weight.den > 0);
                assert!(weight.num <= weight.den);
                total += weight.num as f64 / weight.den as f64;
                covering.push(m);
            }
        }
        assert!(total <= 1.0 + 1e-12);
        for pair in covering.windows(2) {
            assert!(pair[1] - pair[0] <= 2);
        }
        if bin >= 1 && bin < 12 {
            assert!((total - 1.0).abs() < 1e-12);
        }
    }
}

#[test]
fn distant_bands_share_no_bin() {
    let bank = MelFilterBank::init(&[0, 2, 5, 9, 14, 20]);
    for a in 0..bank.bands() {
        for b in a + 2..bank.bands() {
            let end_a = bank.band(a).start + bank.band(a).weights.len();
            assert!(end_a <= bank.band(b).start);
        }
    }
}

#[test]
fn too_few_edges_give_no_band() {
    assert_eq!(MelFilterBank::init(&[]).bands(), 0);
    assert_eq!(MelFilterBank::init(&[3, 4]).bands(), 0);
    let flat = MelFilterBank::init(&[5, 5, 5]);
    assert_eq!(flat.bands(), 1);
    assert!(flat.band(0).weights.is_empty());
}

#[test]
fn sortedness_is_decided() {
    assert!(MelFilterBank::is_sorted(&[]));
    assert!(MelFilterBank::is_sorted(&[1]));
    assert!(MelFilterBank::is_sorted(&[1, 1, 2, 9]));
    assert!(!MelFilterBank::is_sorted(&[1, 3, 2]));
    assert!(!MelFilterBank::is_sorted(&[2, 1]));
}
