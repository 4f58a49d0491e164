use crate::grouping::{
    group_note_ons, lemma_merge_in_range, lemma_note_ons_in_range, lemma_runs_in_range,
    merge_note_ons, merged_note_ons, pitches_in_range, run_pitches_in_range, runs, runs_view,
    ticks_increasing, ticks_sorted, track_note_ons, TimedPitch,
};
use crate::smf::{
    decode_smf, division_decodable, header_division_decodable, keys_in_range, smf_decoded, EventClass, MidiEvent, MidiFile, MidiFileView, FORMAT_PARALLEL,
    TIMING_TIMECODE_BIT,
};
use vstd::arithmetic::div_mod::lemma_fundamental_div_mod;
use vstd::prelude::*;

verus! {

/// Why a file cannot drive a pattern.
#[derive(Clone, Copy, Debug, PartialEq, Eq, Structural)]
pub enum PatternError {
    /// The bytes do not hold a symbolic-music file.
    Unreadable,
    /// The file's tracks are not meant to play simultaneously.
    NotParallel,
    /// The file's timing is not a positive number of ticks per beat.
    NotMetrical,
    /// The global track declares time signatures with different numerators.
    ConflictingTimeSignatures,
    /// The global track declares no time signature.
    MissingTimeSignature,
    /// The global track declares no positive tempo.
    MissingTempo,
    /// A target track index is beyond the file's tracks.
    MissingTrack,
}

/// Tempo of a file: microseconds per beat, ticks per beat, and the beats per
/// measure when the time signature was resolved.
#[derive(Clone, Copy, Debug, PartialEq, Eq, Structural)]
pub struct MidiTiming {
    pub micros_per_beat: u32,
    pub ticks_per_beat: u16,
    pub beats_per_measure: Option<u8>,
}

/// What the time-signature events of a track declare.
pub enum SignatureScan {
    Absent,
    Single(u8),
    Conflicting,
}

/// The tempo in force at the end of `events`: the value of the last tempo
/// event, or zero when there is none.
pub open spec fn last_tempo(events: Seq<MidiEvent>) -> u32
    decreases events.len(),
{
    if events.len() == 0 {
        0
    } else {
        match events.last().kind {
            EventClass::Tempo { micros_per_beat } => micros_per_beat,
            _ => last_tempo(events.drop_last()),
        }
    }
}

/// The time signatures of `events`, read in order: a second numerator that
/// differs from the first is a conflict.
pub open spec fn scan_signatures(events: Seq<MidiEvent>) -> SignatureScan
    decreases events.len(),
{
    if events.len() == 0 {
        SignatureScan::Absent
    } else {
        let before = scan_signatures(events.drop_last());
        match events.last().kind {
            EventClass::TimeSignature { numerator } => match before {
                SignatureScan::Absent => SignatureScan::Single(numerator),
                SignatureScan::Single(n) => if n == numerator {
                    SignatureScan::Single(n)
                } else {
                    SignatureScan::Conflicting
                },
                SignatureScan::Conflicting => SignatureScan::Conflicting,
            },
            _ => before,
        }
    }
}

/// The global timing track: the first track, or no events when there is none.
pub open spec fn global_track(f: MidiFileView) -> Seq<MidiEvent> {
    if f.tracks.len() > 0 {
        f.tracks[0]
    } else {
        Seq::empty()
    }
}

/// The timing of a file, or the first reason it has none. With
/// `require_signature` the global track must declare exactly one time signature
/// numerator, which becomes the beats per measure; without it the beats per
/// measure are left out.
pub open spec fn timing_of(f: MidiFileView, require_signature: bool) -> Result<MidiTiming, PatternError> {
    let global = global_track(f);
    let signatures = scan_signatures(global);
    if f.format != FORMAT_PARALLEL {
        Err(PatternError::NotParallel)
    } else if f.timing >= TIMING_TIMECODE_BIT || f.timing == 0 {
        Err(PatternError::NotMetrical)
    } else if require_signature && signatures is Conflicting {
        Err(PatternError::ConflictingTimeSignatures)
    } else if require_signature && signatures is Absent {
        Err(PatternError::MissingTimeSignature)
    } else if last_tempo(global) == 0 {
        Err(PatternError::MissingTempo)
    } else {
        Ok(
            MidiTiming {
                micros_per_beat: last_tempo(global),
                ticks_per_beat: f.timing,
                beats_per_measure: match signatures {
                    SignatureScan::Single(n) => if require_signature {
                        Some(n)
                    } else {
                        None
                    },
                    _ => None,
                },
            },
        )
    }
}

/// A valid timing: tempo and ticks per beat are positive.
pub open spec fn timing_valid(t: MidiTiming) -> bool {
    t.micros_per_beat > 0 && t.ticks_per_beat > 0
}

/// Resolves the tempo of `midi` from its global timing track (the first
/// track): the last tempo event gives the microseconds per beat, the header's
/// division word the ticks per beat.
pub fn get_timing(midi: &MidiFile, require_signature: bool) -> (r: Result<MidiTiming, PatternError>)
    ensures
        r == timing_of(midi@, require_signature),
        r matches Ok(t) ==> timing_valid(t),
{
    if midi.format != FORMAT_PARALLEL {
        return Err(PatternError::NotParallel);
    }
    if midi.timing >= TIMING_TIMECODE_BIT || midi.timing == 0 {
        return Err(PatternError::NotMetrical);
    }
    let ghost global = global_track(midi@);
    let mut micros_per_beat: u32 = 0;
    let mut signature: Option<u8> = None;
    let mut conflicting = false;
    if midi.tracks.len() > 0 {
        let track = &midi.tracks[0];
        assert(track@ == global);
        let mut i: usize = 0;
        while i < track.len()
            invariant
                i <= track.len(),
                track@ == global,
                micros_per_beat == last_tempo(global.take(i as int)),
                match scan_signatures(global.take(i as int)) {
                    SignatureScan::Absent => !conflicting && signature is None,
                    SignatureScan::Single(n) => !conflicting && signature == Some(n),
                    SignatureScan::Conflicting => conflicting,
                },
            decreases track.len() - i,
        {
            assert(global.take(i + 1).drop_last() == global.take(i as int));
            let event = track[i];
            match event.kind {
                EventClass::Tempo { micros_per_beat: t } => {
                    micros_per_beat = t;
                },
                EventClass::TimeSignature { numerator } => {
                    if !conflicting {
                        match signature {
                            None => {
                                signature = Some(numerator);
                            },
                            Some(n) => {
                                if n != numerator {
                                    conflicting = true;
                                }
                            },
                        }
                    }
                },
                _ => {},
            }
            i = i + 1;
        }
        assert(global.take(track.len() as int) == global);
    } else {
        assert(global == Seq::<MidiEvent>::empty());
    }
    if require_signature && conflicting {
        return Err(PatternError::ConflictingTimeSignatures);
    }
    if require_signature && signature.is_none() {
        return Err(PatternError::MissingTimeSignature);
    }
    if micros_per_beat == 0 {
        return Err(PatternError::MissingTempo);
    }
    let beats_per_measure = if require_signature {
        signature
    } else {
        None
    };
    Ok(MidiTiming { micros_per_beat, ticks_per_beat: midi.timing, beats_per_measure })
}

/// Direction of a note's pitch relative to the note before it.
#[derive(Clone, Copy, Debug, PartialEq, Eq, Structural)]
pub enum RelativePitch {
    High,
    Low,
}

/// One note of the pattern: when it sounds, in milliseconds from the start of
/// the stream; its pitch; and the direction the player is expected to press.
#[derive(Clone, Copy, Debug, PartialEq, Eq, Structural)]
pub struct PatternNote {
    pub time: u32,
    pub pitch: u8,
    pub relative_pitch: RelativePitch,
}

/// Sum of the pitches.
pub open spec fn pitch_sum(ps: Seq<u8>) -> int
    decreases ps.len(),
{
    if ps.len() == 0 {
        0
    } else {
        pitch_sum(ps.drop_last()) + ps.last()
    }
}

/// The arithmetic mean of the pitches, rounded to the nearest integer, halves
/// rounded up.
pub open spec fn round_mean(ps: Seq<u8>) -> int {
    (2 * pitch_sum(ps) + ps.len()) / (2 * ps.len() as int)
}

/// Direction of `pitch` after a note of pitch `prior` labelled `prior_dir`:
/// the same pitch keeps the direction, a higher one is `High`, a lower `Low`.
pub open spec fn next_direction(prior: u8, prior_dir: RelativePitch, pitch: u8) -> RelativePitch {
    if pitch == prior {
        prior_dir
    } else if pitch > prior {
        RelativePitch::High
    } else {
        RelativePitch::Low
    }
}

/// Directions of a sequence of pitches, left to right; the first is `High`.
pub open spec fn labels(ps: Seq<u8>) -> Seq<RelativePitch>
    decreases ps.len(),
{
    if ps.len() == 0 {
        Seq::empty()
    } else {
        let before = labels(ps.drop_last());
        if ps.len() == 1 {
            before.push(RelativePitch::High)
        } else {
            before.push(next_direction(ps[ps.len() - 2], before.last(), ps.last()))
        }
    }
}

/// Milliseconds from the start of the stream to `tick`, rounded down, or the
/// largest `u32` when later than that.
pub open spec fn tick_time_ms(tick: int, t: MidiTiming) -> u32 {
    let ms = tick * t.micros_per_beat / (1000 * t.ticks_per_beat as int);
    if ms > u32::MAX {
        u32::MAX
    } else {
        ms as u32
    }
}

/// Every target names a track of the file.
pub open spec fn targets_present(f: MidiFileView, targets: Seq<usize>) -> bool {
    forall|i: int| 0 <= i < targets.len() ==> #[trigger] targets[i] < f.tracks.len()
}

/// Effective pitch of each run of simultaneous note-ons.
pub open spec fn run_pitches(gs: Seq<(u128, Seq<u8>)>) -> Seq<u8> {
    gs.map_values(|g: (u128, Seq<u8>)| round_mean(g.1) as u8)
}

/// The pattern of the target tracks: their note-ons merged by tick, grouped
/// into runs of equal tick, each run one note at the run's time with the
/// rounded mean of its pitches, labelled by direction.
pub open spec fn pattern_of(f: MidiFileView, t: MidiTiming, targets: Seq<usize>) -> Seq<PatternNote> {
    let gs = runs(merged_note_ons(f.tracks, targets));
    let pitches = run_pitches(gs);
    let dirs = labels(pitches);
    Seq::new(
        gs.len(),
        |i: int|
            PatternNote {
                time: tick_time_ms(gs[i].0 as int, t),
                pitch: pitches[i],
                relative_pitch: dirs[i],
            },
    )
}

/// Notes in order of non-decreasing time.
pub open spec fn time_ascending(notes: Seq<PatternNote>) -> bool {
    forall|i: int, j: int| 0 <= i <= j < notes.len() ==> #[trigger] notes[i].time <= #[trigger] notes[j].time
}

/// A later tick is never at an earlier millisecond.
pub proof fn lemma_tick_time_monotonic(a: int, b: int, t: MidiTiming)
    requires
        0 <= a <= b,
        timing_valid(t),
    ensures
        tick_time_ms(a, t) <= tick_time_ms(b, t),
{
    let m = t.micros_per_beat as int;
    assert(a * m <= b * m) by (nonlinear_arith)
        requires
            0 <= a <= b,
            m > 0,
    ;
    vstd::arithmetic::div_mod::lemma_div_is_ordered(a * m, b * m, 1000 * t.ticks_per_beat as int);
}

/// Every note has a pitch below 128.
pub open spec fn notes_in_range(notes: Seq<PatternNote>) -> bool {
    forall|i: int| 0 <= i < notes.len() ==> #[trigger] notes[i].pitch < 128
}

proof fn lemma_pitch_sum_below(ps: Seq<u8>)
    requires
        forall|j: int| 0 <= j < ps.len() ==> #[trigger] ps[j] < 128,
    ensures
        0 <= pitch_sum(ps) <= 127 * ps.len(),
    decreases ps.len(),
{
    if ps.len() > 0 {
        let prefix = ps.drop_last();
        assert forall|j: int| 0 <= j < prefix.len() implies #[trigger] prefix[j] < 128 by {
            assert(prefix[j] == ps[j]);
        }
        lemma_pitch_sum_below(prefix);
        assert(ps[ps.len() - 1] < 128);
    }
}

/// The rounded mean of pitches below 128 is below 128.
pub proof fn lemma_round_mean_in_range(ps: Seq<u8>)
    requires
        ps.len() > 0,
        forall|j: int| 0 <= j < ps.len() ==> #[trigger] ps[j] < 128,
    ensures
        0 <= round_mean(ps) < 128,
{
    lemma_pitch_sum_below(ps);
    let x = 2 * pitch_sum(ps) + ps.len();
    let d = 2 * ps.len() as int;
    lemma_fundamental_div_mod(x, d);
    let q = x / d;
    let m = x % d;
    assert(0 <= q < 128) by (nonlinear_arith)
        requires
            x == d * q + m,
            0 <= m < d,
            0 <= x <= 255 * ps.len(),
            d == 2 * ps.len(),
            ps.len() > 0,
    ;
}

pub proof fn lemma_labels_len(ps: Seq<u8>)
    ensures
        labels(ps).len() == ps.len(),
    decreases ps.len(),
{
    if ps.len() > 0 {
        lemma_labels_len(ps.drop_last());
    }
}

proof fn lemma_pitch_sum_bound(ps: Seq<u8>)
    ensures
        0 <= pitch_sum(ps) <= 255 * ps.len(),
    decreases ps.len(),
{
    if ps.len() > 0 {
        lemma_pitch_sum_bound(ps.drop_last());
    }
}

/// The rounded mean of a non-empty list of pitches.
pub fn average_pitch(pitches: &Vec<u8>) -> (r: u8)
    requires
        pitches.len() > 0,
    ensures
        r == round_mean(pitches@),
{
    let mut sum: u128 = 0;
    let mut i: usize = 0;
    while i < pitches.len()
        invariant
            i <= pitches.len(),
            sum == pitch_sum(pitches@.take(i as int)),
        decreases pitches.len() - i,
    {
        assert(pitches@.take(i + 1).drop_last() == pitches@.take(i as int));
        proof {
            lemma_pitch_sum_bound(pitches@.take(i as int));
        }
        assert(sum <= 255 * 0x1_0000_0000_0000_0000u128) by (nonlinear_arith)
            requires
                sum <= 255 * i,
                i < 0x1_0000_0000_0000_0000u128,
        ;
        sum = sum + pitches[i] as u128;
        i = i + 1;
    }
    assert(pitches@.take(pitches.len() as int) == pitches@);
    proof {
        lemma_pitch_sum_bound(pitches@);
    }
    let n = pitches.len() as u128;
    let numerator = 2 * sum + n;
    let denominator = 2 * n;
    let mean = numerator / denominator;
    proof {
        lemma_fundamental_div_mod(numerator as int, denominator as int);
        let q = numerator as int / denominator as int;
        let m = numerator as int % denominator as int;
        assert(q < 256) by (nonlinear_arith)
            requires
                numerator == denominator * q + m,
                0 <= m,
                numerator <= 511 * n,
                denominator == 2 * n,
                n > 0,
        ;
    }
    mean as u8
}

/// Directions of `pitches`, left to right: the first is `High`; each later one
/// keeps the direction of the note before it when the pitch is the same, and
/// is `High` when the pitch is higher, `Low` when lower.
pub fn label_directions(pitches: &Vec<u8>) -> (r: Vec<RelativePitch>)
    ensures
        r@ == labels(pitches@),
{
    let mut out: Vec<RelativePitch> = Vec::new();
    let mut prior_pitch: u8 = 0;
    let mut prior = RelativePitch::High;
    let mut i: usize = 0;
    while i < pitches.len()
        invariant
            i <= pitches.len(),
            out@ == labels(pitches@.take(i as int)),
            out@.len() == i,
            i == 0 ==> prior_pitch == 0 && prior == RelativePitch::High,
            i > 0 ==> prior_pitch == pitches@[i - 1] && prior == out@.last(),
        decreases pitches.len() - i,
    {
        let ghost prefix = pitches@.take(i + 1);
        assert(prefix.drop_last() == pitches@.take(i as int));
        let pitch = pitches[i];
        let direction = if pitch == prior_pitch {
            prior
        } else if pitch > prior_pitch {
            RelativePitch::High
        } else {
            RelativePitch::Low
        };
        out.push(direction);
        prior = direction;
        prior_pitch = pitch;
        i = i + 1;
    }
    assert(pitches@.take(pitches.len() as int) == pitches@);
    out
}

/// Milliseconds from the start of the stream to `tick`, rounded down, or the
/// largest `u32` when later than that.
pub fn tick_to_ms(tick: u128, timing: &MidiTiming) -> (r: u32)
    requires
        timing_valid(*timing),
    ensures
        r == tick_time_ms(tick as int, *timing),
{
    let divisor: u128 = 1000 * (timing.ticks_per_beat as u128);
    match tick.checked_mul(timing.micros_per_beat as u128) {
        Some(product) => {
            let ms = product / divisor;
            if ms > u32::MAX as u128 {
                u32::MAX
            } else {
                ms as u32
            }
        },
        None => {
            proof {
                let x = tick * timing.micros_per_beat;
                lemma_fundamental_div_mod(x, divisor as int);
                let q = x / divisor as int;
                let m = x % divisor as int;
                assert(q > u32::MAX) by (nonlinear_arith)
                    requires
                        x == divisor * q + m,
                        0 <= m < divisor,
                        x > u128::MAX,
                        0 < divisor <= 1000 * 65535,
                ;
            }
            u32::MAX
        },
    }
}

/// The pattern of the target tracks of `midi` under `timing`: their note-ons
/// merged by tick, grouped into runs of simultaneous note-ons, each run one
/// note at the run's time with the rounded mean of its pitches, labelled by
/// direction. Fails when a target names no track of the file.
pub fn get_pattern(midi: &MidiFile, timing: &MidiTiming, targets: &[usize]) -> (r: Result<Vec<PatternNote>, PatternError>)
    requires
        timing_valid(*timing),
    ensures
        match r {
            Ok(notes) => targets_present(midi@, targets@) && notes@ == pattern_of(midi@, *timing, targets@),
            Err(e) => !targets_present(midi@, targets@) && e == PatternError::MissingTrack,
        },
        r matches Ok(notes) ==> time_ascending(notes@),
        r matches Ok(notes) ==> (keys_in_range(midi@) ==> notes_in_range(notes@)),
{
    let mut merged: Vec<TimedPitch> = Vec::new();
    let mut k: usize = 0;
    while k < targets.len()
        invariant
            k <= targets.len(),
            merged@ == merged_note_ons(midi@.tracks, targets@.take(k as int)),
            ticks_sorted(merged@),
            keys_in_range(midi@) ==> pitches_in_range(merged@),
            forall|j: int| 0 <= j < k ==> #[trigger] targets@[j] < midi@.tracks.len(),
        decreases targets.len() - k,
    {
        let target = targets[k];
        if target >= midi.tracks.len() {
            assert(!targets_present(midi@, targets@)) by {
                assert(targets@[k as int] >= midi@.tracks.len());
            }
            return Err(PatternError::MissingTrack);
        }
        assert(targets@.take(k + 1).drop_last() == targets@.take(k as int));
        let notes = track_note_ons(&midi.tracks[target]);
        proof {
            if keys_in_range(midi@) {
                let events = midi@.tracks[target as int];
                assert forall|e: int| 0 <= e < events.len() implies match #[trigger] events[e].kind {
                    EventClass::NoteOn { key } => key < 128,
                    _ => true,
                } by {
                    assert(midi@.tracks[target as int][e] == events[e]);
                }
                lemma_note_ons_in_range(events);
                lemma_merge_in_range(merged@, notes@);
            }
        }
        merged = merge_note_ons(&merged, &notes);
        k = k + 1;
    }
    assert(targets@.take(targets.len() as int) == targets@);
    let groups = group_note_ons(&merged);
    assert(ticks_increasing(runs_view(groups@)));
    let ghost gs = runs_view(groups@);
    let mut pitches: Vec<u8> = Vec::new();
    let mut i: usize = 0;
    while i < groups.len()
        invariant
            i <= groups.len(),
            gs == runs_view(groups@),
            gs == runs(merged@),
            merged@ == merged_note_ons(midi@.tracks, targets@),
            pitches@ =~= run_pitches(gs).take(i as int),
        decreases groups.len() - i,
    {
        assert(gs[i as int].1.len() > 0) by {
            crate::grouping::lemma_runs_nonempty(merged@, i as int);
        }
        let pitch = average_pitch(&groups[i].1);
        pitches.push(pitch);
        i = i + 1;
    }
    assert(run_pitches(gs).take(groups.len() as int) =~= run_pitches(gs));
    let directions = label_directions(&pitches);
    proof {
        lemma_labels_len(pitches@);
    }
    let mut out: Vec<PatternNote> = Vec::new();
    let mut i: usize = 0;
    while i < groups.len()
        invariant
            i <= groups.len(),
            gs == runs_view(groups@),
            gs == runs(merged@),
            merged@ == merged_note_ons(midi@.tracks, targets@),
            pitches@ == run_pitches(gs),
            directions@ == labels(pitches@),
            directions@.len() == groups.len(),
            out@ =~= pattern_of(midi@, *timing, targets@).take(i as int),
            timing_valid(*timing),
        decreases groups.len() - i,
    {
        let time = tick_to_ms(groups[i].0, timing);
        let note = PatternNote { time, pitch: pitches[i], relative_pitch: directions[i] };
        assert(note == pattern_of(midi@, *timing, targets@)[i as int]);
        out.push(note);
        i = i + 1;
    }
    assert(pattern_of(midi@, *timing, targets@).take(groups.len() as int) =~= pattern_of(midi@, *timing, targets@));
    assert forall|a: int, b: int| 0 <= a <= b < out@.len() implies #[trigger] out@[a].time <= #[trigger] out@[b].time by {
        if a < b {
            assert(gs[a].0 < gs[b].0);
        }
        lemma_tick_time_monotonic(gs[a].0 as int, gs[b].0 as int, *timing);
    }
    proof {
        if keys_in_range(midi@) {
            lemma_runs_in_range(merged@);
            assert forall|i: int| 0 <= i < out@.len() implies #[trigger] out@[i].pitch < 128 by {
                crate::grouping::lemma_runs_nonempty(merged@, i);
                assert forall|j: int| 0 <= j < gs[i].1.len() implies #[trigger] gs[i].1[j] < 128 by {
                    assert(run_pitches_in_range(gs));
                }
                lemma_round_mean_in_range(gs[i].1);
            }
        }
    }
    Ok(out)
}

/// Timing and pattern of a decoded file, or the first reason there are none.
pub open spec fn file_extraction_of(decoded: Option<MidiFileView>, targets: Seq<usize>, require_signature: bool) -> Result<(MidiTiming, Seq<PatternNote>), PatternError> {
    match decoded {
        None => Err(PatternError::Unreadable),
        Some(f) => match timing_of(f, require_signature) {
            Err(e) => Err(e),
            Ok(t) => if targets_present(f, targets) {
                Ok((t, pattern_of(f, t, targets)))
            } else {
                Err(PatternError::MissingTrack)
            },
        },
    }
}

/// Timing and pattern of the file in `bytes`, or the first reason there are
/// none. Bytes whose header division the decoder cannot read are unreadable.
pub open spec fn extraction_of(bytes: Seq<u8>, targets: Seq<usize>, require_signature: bool) -> Result<(MidiTiming, Seq<PatternNote>), PatternError> {
    if !division_decodable(bytes) {
        Err(PatternError::Unreadable)
    } else {
        file_extraction_of(smf_decoded(bytes), targets, require_signature)
    }
}

/// Decodes the symbolic-music file in `bytes` and extracts its timing and the
/// pattern of its target tracks.
pub fn extract_pattern(bytes: &[u8], targets: &[usize], require_signature: bool) -> (r: Result<(MidiTiming, Vec<PatternNote>), PatternError>)
    ensures
        match r {
            Ok((t, notes)) => extraction_of(bytes@, targets@, require_signature) == Ok::<
                (MidiTiming, Seq<PatternNote>),
                PatternError,
            >((t, notes@)),
            Err(e) => extraction_of(bytes@, targets@, require_signature) == Err::<
                (MidiTiming, Seq<PatternNote>),
                PatternError,
            >(e),
        },
        r matches Ok((_, notes)) ==> time_ascending(notes@) && notes_in_range(notes@),
{
    if !header_division_decodable(bytes) {
        return Err(PatternError::Unreadable);
    }
    let midi = match decode_smf(bytes) {
        Some(m) => m,
        None => {
            return Err(PatternError::Unreadable);
        },
    };
    let timing = get_timing(&midi, require_signature)?;
    let notes = get_pattern(&midi, &timing, targets)?;
    Ok((timing, notes))
}

/// No event of `events` is a tempo event.
pub open spec fn lacks_tempo(events: Seq<MidiEvent>) -> bool {
    forall|i: int| 0 <= i < events.len() ==> !(#[trigger] events[i].kind is Tempo)
}

proof fn lemma_no_tempo_is_zero(events: Seq<MidiEvent>)
    requires
        lacks_tempo(events),
    ensures
        last_tempo(events) == 0,
    decreases events.len(),
{
    if events.len() > 0 {
        let prefix = events.drop_last();
        assert(lacks_tempo(prefix)) by {
            assert forall|i: int| 0 <= i < prefix.len() implies !(#[trigger] prefix[i].kind is Tempo) by {
                assert(prefix[i] == events[i]);
            }
        }
        assert(!(events[events.len() - 1].kind is Tempo));
        lemma_no_tempo_is_zero(prefix);
    }
}

/// A file whose global track holds no tempo event fails with `MissingTempo`,
/// in its timing and in any extraction, once the checks made before it pass:
/// the tracks play simultaneously, the division is a positive tick count,
/// and, when required, the time signature is declared once.
pub proof fn lemma_missing_tempo_reported(f: MidiFileView, require_signature: bool, targets: Seq<usize>)
    requires
        f.format == FORMAT_PARALLEL,
        0 < f.timing < TIMING_TIMECODE_BIT,
        lacks_tempo(global_track(f)),
        require_signature ==> scan_signatures(global_track(f)) is Single,
    ensures
        timing_of(f, require_signature) == Err::<MidiTiming, PatternError>(PatternError::MissingTempo),
        file_extraction_of(Some(f), targets, require_signature) == Err::<
            (MidiTiming, Seq<PatternNote>),
            PatternError,
        >(PatternError::MissingTempo),
{
    lemma_no_tempo_is_zero(global_track(f));
}

/// A file whose tracks are not meant to play simultaneously fails with
/// `NotParallel`, in its timing and in any extraction.
pub proof fn lemma_wrong_format_reported(f: MidiFileView, require_signature: bool, targets: Seq<usize>)
    requires
        f.format != FORMAT_PARALLEL,
    ensures
        timing_of(f, require_signature) == Err::<MidiTiming, PatternError>(PatternError::NotParallel),
        file_extraction_of(Some(f), targets, require_signature) == Err::<
            (MidiTiming, Seq<PatternNote>),
            PatternError,
        >(PatternError::NotParallel),
{
}

/// Extraction depends on the bytes alone: the same bytes, tracks and
/// time-signature requirement give the same timing and the same notes.
pub proof fn lemma_extraction_deterministic(a: Seq<u8>, b: Seq<u8>, targets: Seq<usize>, require_signature: bool)
    requires
        a == b,
    ensures
        extraction_of(a, targets, require_signature) == extraction_of(b, targets, require_signature),
{
}

} // verus!
