//! Onset events and the rules by which the detectors emit them.
//!
//! A detector scores each frame and compares its scores against adaptive
//! thresholds. Scoring and comparing is numeric work of the caller; what is
//! emitted for a given outcome of the comparisons is decided here. The type
//! of a strength is left open.

use vstd::prelude::*;

verus! {

/// A musical event found in one frame. Every kind carries a strength;
/// `Atmosphere` and `Note` also carry the bin of the dominant frequency.
#[derive(Debug, Clone, Copy)]
pub enum Onset<S> {
    Full(S),
    Atmosphere(S, u16),
    Note(S, u16),
    Kick(S),
    Snare(S),
    Hihat(S),
    Raw(S),
}

/// The kind of an onset.
#[derive(Debug, Clone, Copy, PartialEq, Eq, Structural)]
pub enum OnsetKind {
    Full,
    Atmosphere,
    Note,
    Kick,
    Snare,
    Hihat,
    Raw,
}

impl<S> Onset<S> {
    /// The kind of this onset.
    pub open spec fn spec_kind(&self) -> OnsetKind {
        match self {
            Onset::Full(_) => OnsetKind::Full,
            Onset::Atmosphere(_, _) => OnsetKind::Atmosphere,
            Onset::Note(_, _) => OnsetKind::Note,
            Onset::Kick(_) => OnsetKind::Kick,
            Onset::Snare(_) => OnsetKind::Snare,
            Onset::Hihat(_) => OnsetKind::Hihat,
            Onset::Raw(_) => OnsetKind::Raw,
        }
    }

    /// The strength of this onset.
    pub open spec fn spec_strength(&self) -> S {
        match self {
            Onset::Full(s) => *s,
            Onset::Atmosphere(s, _) => *s,
            Onset::Note(s, _) => *s,
            Onset::Kick(s) => *s,
            Onset::Snare(s) => *s,
            Onset::Hihat(s) => *s,
            Onset::Raw(s) => *s,
        }
    }

    /// The bin of the dominant frequency, for the kinds that carry one.
    pub open spec fn spec_bin(&self) -> Option<u16> {
        match self {
            Onset::Atmosphere(_, bin) => Some(*bin),
            Onset::Note(_, bin) => Some(*bin),
            _ => None,
        }
    }

    /// The kind of this onset.
    #[verifier::when_used_as_spec(spec_kind)]
    pub fn kind(&self) -> (k: OnsetKind)
        ensures
            k == self.spec_kind(),
    {
        match self {
            Onset::Full(_) => OnsetKind::Full,
            Onset::Atmosphere(_, _) => OnsetKind::Atmosphere,
            Onset::Note(_, _) => OnsetKind::Note,
            Onset::Kick(_) => OnsetKind::Kick,
            Onset::Snare(_) => OnsetKind::Snare,
            Onset::Hihat(_) => OnsetKind::Hihat,
            Onset::Raw(_) => OnsetKind::Raw,
        }
    }

    /// The bin of the dominant frequency, for the kinds that carry one.
    #[verifier::when_used_as_spec(spec_bin)]
    pub fn bin(&self) -> (b: Option<u16>)
        ensures
            b == self.spec_bin(),
    {
        match self {
            Onset::Atmosphere(_, bin) => Some(*bin),
            Onset::Note(_, bin) => Some(*bin),
            _ => None,
        }
    }
}

impl<S: Copy> Onset<S> {
    /// The strength of this onset.
    pub fn strength(&self) -> (s: S)
        ensures
            s == self.spec_strength(),
    {
        match self {
            Onset::Full(s) => *s,
            Onset::Atmosphere(s, _) => *s,
            Onset::Note(s, _) => *s,
            Onset::Kick(s) => *s,
            Onset::Snare(s) => *s,
            Onset::Hihat(s) => *s,
            Onset::Raw(s) => *s,
        }
    }
}

/// The row of the console display that shows onsets of kind `kind`, if any.
pub open spec fn console_row_of(kind: OnsetKind) -> Option<usize> {
    match kind {
        OnsetKind::Kick => Some(0usize),
        OnsetKind::Hihat => Some(1usize),
        OnsetKind::Full => Some(2usize),
        OnsetKind::Note => Some(3usize),
        OnsetKind::Atmosphere => Some(4usize),
        _ => None,
    }
}

/// Computes `console_row_of`.
pub fn console_row(kind: OnsetKind) -> (row: Option<usize>)
    ensures
        row == console_row_of(kind),
{
    match kind {
        OnsetKind::Kick => Some(0),
        OnsetKind::Hihat => Some(1),
        OnsetKind::Full => Some(2),
        OnsetKind::Note => Some(3),
        OnsetKind::Atmosphere => Some(4),
        _ => None,
    }
}

/// Which of a detector's four scores crossed their thresholds in one frame.
#[derive(Debug, Clone, Copy, PartialEq, Eq, Structural)]
pub struct Crossings {
    pub full: bool,
    pub drum: bool,
    pub note: bool,
    pub hihat: bool,
}

/// `seq![onset]` if `emit`, else nothing.
pub open spec fn when<S>(emit: bool, onset: Onset<S>) -> Seq<Onset<S>> {
    if emit {
        seq![onset]
    } else {
        Seq::empty()
    }
}

/// What the high-frequency-content detector emits for one frame.
///
/// A silent frame gives nothing. Otherwise the full band gives `Full` when
/// its score crossed and `Atmosphere` with the loudest bin when it did not;
/// the full-band score itself follows as `Raw`; then come `Kick`, `Note`
/// with the loudest bin of the mid range, and `Hihat`, each if its score
/// crossed. `Hihat` carries the peak, the others the RMS.
pub open spec fn hfc_events<S>(
    silent: bool,
    crossed: Crossings,
    weight: S,
    rms: S,
    peak: S,
    loudest: u16,
    loudest_mid: u16,
) -> Seq<Onset<S>> {
    if silent {
        Seq::empty()
    } else {
        seq![
            if crossed.full { Onset::Full(rms) } else { Onset::Atmosphere(rms, loudest) },
            Onset::Raw(weight),
        ] + when(crossed.drum, Onset::Kick(rms)) + when(
            crossed.note,
            Onset::Note(rms, loudest_mid),
        ) + when(crossed.hihat, Onset::Hihat(peak))
    }
}

/// What the spectral-flux detector emits for one frame: always the hi-hat
/// score as `Raw`, then `Full`, `Kick`, `Hihat` and `Note` with the loudest
/// bin, each if its score crossed. `Hihat` carries the peak, the others the
/// RMS.
pub open spec fn flux_events<S>(
    crossed: Crossings,
    hihat_score: S,
    rms: S,
    peak: S,
    loudest: u16,
) -> Seq<Onset<S>> {
    seq![Onset::Raw(hihat_score)] + when(crossed.full, Onset::Full(rms)) + when(
        crossed.drum,
        Onset::Kick(rms),
    ) + when(crossed.hihat, Onset::Hihat(peak)) + when(crossed.note, Onset::Note(rms, loudest))
}

/// Silence neutrality of the emission rules: a silent frame gives no onset
/// from the high-frequency-content detector, and a frame in which no score
/// crossed gives nothing but the diagnostic `Raw` from the spectral-flux
/// detector.
pub proof fn lemma_silence_emits_nothing<S>(
    crossed: Crossings,
    weight: S,
    rms: S,
    peak: S,
    loudest: u16,
    loudest_mid: u16,
)
    ensures
        hfc_events(true, crossed, weight, rms, peak, loudest, loudest_mid) == Seq::<
            Onset<S>,
        >::empty(),
        !crossed.full && !crossed.drum && !crossed.note && !crossed.hihat ==> flux_events(
            crossed,
            weight,
            rms,
            peak,
            loudest,
        ) == seq![Onset::Raw(weight)],
{
    if !crossed.full && !crossed.drum && !crossed.note && !crossed.hihat {
        assert(flux_events(crossed, weight, rms, peak, loudest) =~= seq![Onset::Raw(weight)]);
    }
}

/// Emits the onsets of the high-frequency-content detector for one frame.
pub fn hfc_onsets<S: Copy>(
    silent: bool,
    crossed: Crossings,
    weight: S,
    rms: S,
    peak: S,
    loudest: u16,
    loudest_mid: u16,
) -> (onsets: Vec<Onset<S>>)
    ensures
        onsets@ == hfc_events(silent, crossed, weight, rms, peak, loudest, loudest_mid),
{
    let mut onsets: Vec<Onset<S>> = Vec::new();
    if silent {
        return onsets;
    }
    if crossed.full {
        onsets.push(Onset::Full(rms));
    } else {
        onsets.push(Onset::Atmosphere(rms, loudest));
    }
    onsets.push(Onset::Raw(weight));
    if crossed.drum {
        onsets.push(Onset::Kick(rms));
    }
    if crossed.note {
        onsets.push(Onset::Note(rms, loudest_mid));
    }
    if crossed.hihat {
        onsets.push(Onset::Hihat(peak));
    }
    proof {
        assert(onsets@ =~= hfc_events(silent, crossed, weight, rms, peak, loudest, loudest_mid));
    }
    onsets
}

/// Emits the onsets of the spectral-flux detector for one frame.
pub fn flux_onsets<S: Copy>(
    crossed: Crossings,
    hihat_score: S,
    rms: S,
    peak: S,
    loudest: u16,
) -> (onsets: Vec<Onset<S>>)
    ensures
        onsets@ == flux_events(crossed, hihat_score, rms, peak, loudest),
{
    let mut onsets: Vec<Onset<S>> = Vec::new();
    onsets.push(Onset::Raw(hihat_score));
    if crossed.full {
        onsets.push(Onset::Full(rms));
    }
    if crossed.drum {
        onsets.push(Onset::Kick(rms));
    }
    if crossed.hihat {
        onsets.push(Onset::Hihat(peak));
    }
    if crossed.note {
        onsets.push(Onset::Note(rms, loudest));
    }
    proof {
        assert(onsets@ =~= flux_events(crossed, hihat_score, rms, peak, loudest));
    }
    onsets
}

/// Whether `at` is the first position of a largest value among
/// `keys[lo..hi]`.
pub open spec fn first_maximum_in(keys: Seq<u32>, lo: int, hi: int, at: int) -> bool {
    &&& lo <= at < hi
    &&& forall|j: int| lo <= j < hi ==> keys[j] <= keys[at]
    &&& forall|j: int| lo <= j < at ==> keys[j] < keys[at]
}

/// Whether `at` is the first position of a largest value in `keys`.
pub open spec fn first_maximum(keys: Seq<u32>, at: int) -> bool {
    first_maximum_in(keys, 0, keys.len() as int, at)
}

/// The bin of the first largest value among the bins `lo..hi` of `keys`.
/// The keys stand for magnitudes and are ordered as they are.
pub fn loudest_in(keys: &[u32], lo: usize, hi: usize) -> (at: usize)
    requires
        lo < hi <= keys@.len(),
    ensures
        first_maximum_in(keys@, lo as int, hi as int, at as int),
{
    let mut best: usize = lo;
    let mut i: usize = lo + 1;
    while i < hi
        invariant
            lo <= best < i <= hi <= keys@.len(),
            forall|j: int| lo <= j < i ==> keys@[j] <= keys@[best as int],
            forall|j: int| lo <= j < best ==> keys@[j] < keys@[best as int],
        decreases hi - i,
    {
        if keys[i] > keys[best] {
            best = i;
        }
        i += 1;
    }
    best
}

/// The bin of the first largest value in `keys`.
pub fn loudest(keys: &[u32]) -> (at: usize)
    requires
        keys@.len() > 0,
    ensures
        first_maximum(keys@, at as int),
{
    loudest_in(keys, 0, keys.len())
}

} // verus!
