use std::sync::atomic::Ordering;

use upbeat::anim::AnimSettings;
use upbeat::battle::{is_next_measure, Combatant};
use upbeat::clock::CountingSource;
use upbeat::grouping::{group_note_ons, merge_note_ons, track_note_ons};
use upbeat::judge::{judge, judge_window, relative_pitch_of, NavDirection, RelativePitchInput};
use upbeat::pattern::{
    average_pitch, extract_pattern, get_pattern, get_timing, label_directions, tick_to_ms, MidiTiming,
    PatternError, PatternNote, RelativePitch,
};
use upbeat::pattern::RelativePitch::{High, Low};
use upbeat::smf::{EventClass, MidiEvent, MidiFile};

fn ev(delta: u32, kind: EventClass) -> MidiEvent {
    MidiEvent { delta, kind }
}

fn note(delta: u32, key: u8) -> MidiEvent {
    ev(delta, EventClass::NoteOn { key })
}

fn tempo(micros_per_beat: u32) -> MidiEvent {
    ev(0, EventClass::Tempo { micros_per_beat })
}

fn signature(numerator: u8) -> MidiEvent {
    ev(0, EventClass::TimeSignature { numerator })
}

fn file(format: u16, timing: u16, tracks: Vec<Vec<MidiEvent>>) -> MidiFile {
    MidiFile { format, timing, tracks }
}

fn timing_120bpm() -> MidiTiming {
    MidiTiming { micros_per_beat: 500_000, ticks_per_beat: 480, beats_per_measure: Some(4) }
}

fn pattern_at(times: &[u32], dirs: &[RelativePitch]) -> Vec<PatternNote> {
    times
        .iter()
        .zip(dirs.iter())
        .map(|(&time, &relative_pitch)| PatternNote { time, pitch: 60, relative_pitch })
        .collect()
}

// Raw Standard MIDI File bytes: header chunk and one chunk per track.
fn smf_bytes(format: u16, division: u16, tracks: &[Vec<u8>]) -> Vec<u8> {
    let mut out = b"MThd".to_vec();
    out.extend_from_slice(&6u32.to_be_bytes());
    out.extend_from_slice(&format.to_be_bytes());
    out.extend_from_slice(&(tracks.len() as u16).to_be_bytes());
    out.extend_from_slice(&division.to_be_bytes());
    for t in tracks {
        let mut body = t.clone();
        body.extend_from_slice(&[0x00, 0xFF, 0x2F, 0x00]);
        out.extend_from_slice(b"MTrk");
        out.extend_from_slice(&(body.len() as u32).to_be_bytes());
        out.extend_from_slice(&body);
    }
    out
}

fn raw_tempo(micros: u32) -> Vec<u8> {
    let b = micros.to_be_bytes();
    vec![0x00, 0xFF, 0x51, 0x03, b[1], b[2], b[3]]
}

fn raw_signature(numerator: u8) -> Vec<u8> {
    vec![0x00, 0xFF, 0x58, 0x04, numerator, 0x02, 0x18, 0x08]
}

fn raw_note_on(delta: u8, key: u8) -> Vec<u8> {
    vec![delta, 0x90, key, 0x64]
}

fn global_track_bytes() -> Vec<u8> {
    let mut t = raw_tempo(500_000);
    t.extend(raw_signature(4));
    t
}

fn melody_track_bytes() -> Vec<u8> {
    let mut t = raw_note_on(0, 60);
    t.extend(raw_note_on(120, 64));
    t.extend(raw_note_on(120, 62));
    t
}

// ---- clock ----

#[test]
fn counter_starts_at_zero_and_counts_per_budget() {
    let (mut source, counter) = CountingSource::new((), 48_000, 2);
    assert_eq!(counter.load(Ordering::Relaxed), 0);
    for _ in 0..95 {
        assert_eq!(source.pass_sample(Some(0.0f32), 48_000, 2), Some(0.0f32));
    }
    assert_eq!(counter.load(Ordering::Relaxed), 0);
    source.pass_sample(Some(0.0f32), 48_000, 2);
    assert_eq!(counter.load(Ordering::Relaxed), 1);
}

#[test]
fn one_second_at_48khz_stereo_counts_1000_ms() {
    let (mut source, counter) = CountingSource::new((), 48_000, 2);
    for _ in 0..(48_000 * 2) {
        source.pass_sample(Some(0i16), 48_000, 2);
    }
    assert_eq!(counter.load(Ordering::Relaxed), 1000);
}

#[test]
fn one_second_at_22050hz_mono_counts_1002_ms() {
    // 22 samples a millisecond: 22050 / 22 = 1002 whole budgets.
    let (mut source, counter) = CountingSource::new((), 22_050, 1);
    for _ in 0..22_050 {
        source.pass_sample(Some(0i16), 22_050, 1);
    }
    assert_eq!(counter.load(Ordering::Relaxed), 1002);
}

#[test]
fn one_second_at_44100hz_stereo_counts_1002_ms() {
    let (mut source, counter) = CountingSource::new((), 44_100, 2);
    for _ in 0..(44_100 * 2) {
        source.pass_sample(Some(0i16), 44_100, 2);
    }
    assert_eq!(counter.load(Ordering::Relaxed), 1002);
}

#[test]
fn exhaustion_passes_through_without_counting() {
    let (mut source, counter) = CountingSource::new((), 1_000, 1);
    assert_eq!(source.pass_sample(None::<f32>, 1_000, 1), None);
    assert_eq!(counter.load(Ordering::Relaxed), 0);
    assert_eq!(source.pass_sample(Some(1.5f32), 1_000, 1), Some(1.5f32));
    assert_eq!(counter.load(Ordering::Relaxed), 1);
}

#[test]
fn counter_never_decreases_while_pulling() {
    let (mut source, counter) = CountingSource::new((), 8_000, 2);
    let mut last = 0;
    for i in 0..10_000u32 {
        let item = if i % 7 == 0 { None } else { Some(i) };
        source.pass_sample(item, 8_000, 2);
        let now = counter.load(Ordering::Relaxed);
        assert!(now >= last);
        last = now;
    }
    assert!(last > 0);
}

#[test]
fn sub_kilohertz_stream_counts_every_sample() {
    let (mut source, counter) = CountingSource::new((), 500, 1);
    for _ in 0..10 {
        source.pass_sample(Some(0u8), 500, 1);
    }
    assert_eq!(counter.load(Ordering::Relaxed), 10);
}

#[test]
fn reset_takes_the_new_format() {
    let (mut source, counter) = CountingSource::new((), 48_000, 2);
    source.reset_samples_till_next_ms(2_000, 1);
    source.pass_sample(Some(0u8), 2_000, 1);
    assert_eq!(counter.load(Ordering::Relaxed), 0);
    source.pass_sample(Some(0u8), 2_000, 1);
    assert_eq!(counter.load(Ordering::Relaxed), 1);
}

#[test]
fn wrapped_source_is_reachable() {
    let (mut source, _counter) = CountingSource::new(vec![1u8, 2, 3], 1_000, 1);
    assert_eq!(source.input().len(), 3);
    source.input_mut().push(4);
    assert_eq!(source.input(), &vec![1u8, 2, 3, 4]);
}

// ---- timing ----

#[test]
fn timing_from_global_track() {
    let midi = file(1, 480, vec![vec![signature(4), tempo(600_000), tempo(500_000)]]);
    assert_eq!(get_timing(&midi, true), Ok(timing_120bpm()));
    let loose = MidiTiming { beats_per_measure: None, ..timing_120bpm() };
    assert_eq!(get_timing(&midi, false), Ok(loose));
}

#[test]
fn timing_rejects_non_parallel_format() {
    let midi = file(0, 480, vec![vec![signature(4), tempo(500_000)]]);
    assert_eq!(get_timing(&midi, true), Err(PatternError::NotParallel));
    let midi = file(2, 480, vec![vec![signature(4), tempo(500_000)]]);
    assert_eq!(get_timing(&midi, false), Err(PatternError::NotParallel));
}

#[test]
fn timing_rejects_timecode_division() {
    let midi = file(1, 0xE728, vec![vec![signature(4), tempo(500_000)]]);
    assert_eq!(get_timing(&midi, true), Err(PatternError::NotMetrical));
    let midi = file(1, 0, vec![vec![signature(4), tempo(500_000)]]);
    assert_eq!(get_timing(&midi, true), Err(PatternError::NotMetrical));
}

#[test]
fn timing_requires_a_tempo() {
    let midi = file(1, 480, vec![vec![signature(4)], vec![tempo(500_000)]]);
    assert_eq!(get_timing(&midi, true), Err(PatternError::MissingTempo));
    let midi = file(1, 480, vec![vec![signature(4), tempo(0)]]);
    assert_eq!(get_timing(&midi, true), Err(PatternError::MissingTempo));
    let midi = file(1, 480, vec![]);
    assert_eq!(get_timing(&midi, false), Err(PatternError::MissingTempo));
}

#[test]
fn timing_checks_time_signatures_when_required() {
    let none = file(1, 480, vec![vec![tempo(500_000)]]);
    assert_eq!(get_timing(&none, true), Err(PatternError::MissingTimeSignature));
    assert!(get_timing(&none, false).is_ok());
    let conflict = file(1, 480, vec![vec![signature(4), tempo(500_000), signature(3)]]);
    assert_eq!(get_timing(&conflict, true), Err(PatternError::ConflictingTimeSignatures));
    let repeated = file(1, 480, vec![vec![signature(3), tempo(500_000), signature(3)]]);
    assert_eq!(get_timing(&repeated, true).unwrap().beats_per_measure, Some(3));
}

#[test]
fn ticks_convert_to_milliseconds() {
    let t = timing_120bpm();
    assert_eq!(tick_to_ms(0, &t), 0);
    assert_eq!(tick_to_ms(480, &t), 500);
    assert_eq!(tick_to_ms(960, &t), 1000);
    assert_eq!(tick_to_ms(1, &t), 1);
    let odd = MidiTiming { micros_per_beat: 500_000, ticks_per_beat: 96, beats_per_measure: None };
    assert_eq!(tick_to_ms(1, &odd), 5);
    assert_eq!(tick_to_ms(u128::MAX, &t), u32::MAX);
    assert_eq!(tick_to_ms(1u128 << 100, &t), u32::MAX);
}

// ---- pattern ----

#[test]
fn directions_follow_pitch_changes() {
    assert_eq!(label_directions(&vec![60, 60, 64, 60, 55]), vec![High, High, High, Low, Low]);
    assert_eq!(label_directions(&vec![]), vec![]);
    assert_eq!(label_directions(&vec![0]), vec![High]);
    assert_eq!(label_directions(&vec![70, 65, 65]), vec![High, Low, Low]);
}

#[test]
fn average_pitch_rounds_half_up() {
    assert_eq!(average_pitch(&vec![60, 64]), 62);
    assert_eq!(average_pitch(&vec![60, 61]), 61);
    assert_eq!(average_pitch(&vec![60, 60, 61]), 60);
    assert_eq!(average_pitch(&vec![255, 255]), 255);
    assert_eq!(average_pitch(&vec![7]), 7);
}

#[test]
fn note_ons_carry_running_ticks() {
    let track = vec![note(10, 60), ev(5, EventClass::Other), note(0, 62), tempo(1), note(3, 64)];
    assert_eq!(track_note_ons(&track), vec![(10, 60), (15, 62), (18, 64)]);
}

#[test]
fn merge_keeps_tick_order_and_first_stream_on_ties() {
    let a = vec![(0u128, 1u8), (10, 2), (20, 3)];
    let b = vec![(5u128, 9u8), (10, 8), (30, 7)];
    assert_eq!(merge_note_ons(&a, &b), vec![(0, 1), (5, 9), (10, 2), (10, 8), (20, 3), (30, 7)]);
}

#[test]
fn runs_group_equal_ticks() {
    let s = vec![(0u128, 60u8), (0, 64), (5, 62), (9, 1), (9, 2), (9, 3)];
    assert_eq!(group_note_ons(&s), vec![(0, vec![60, 64]), (5, vec![62]), (9, vec![1, 2, 3])]);
    assert_eq!(group_note_ons(&vec![]), vec![]);
}

#[test]
fn simultaneous_notes_merge_into_their_mean() {
    let midi = file(1, 480, vec![vec![signature(4), tempo(500_000)], vec![note(480, 60)], vec![note(480, 64)]]);
    let timing = get_timing(&midi, true).unwrap();
    let notes = get_pattern(&midi, &timing, &[1, 2]).unwrap();
    assert_eq!(notes, vec![PatternNote { time: 500, pitch: 62, relative_pitch: RelativePitch::High }]);
}

#[test]
fn pattern_merges_tracks_by_time() {
    let midi = file(
        1,
        480,
        vec![
            vec![signature(4), tempo(500_000)],
            vec![note(0, 60), note(960, 64)],
            vec![note(480, 55), note(960, 70)],
        ],
    );
    let timing = get_timing(&midi, true).unwrap();
    let notes = get_pattern(&midi, &timing, &[1, 2]).unwrap();
    let expected = vec![
        PatternNote { time: 0, pitch: 60, relative_pitch: RelativePitch::High },
        PatternNote { time: 500, pitch: 55, relative_pitch: RelativePitch::Low },
        PatternNote { time: 1000, pitch: 64, relative_pitch: RelativePitch::High },
        PatternNote { time: 1500, pitch: 70, relative_pitch: RelativePitch::High },
    ];
    assert_eq!(notes, expected);
}

#[test]
fn pattern_of_one_track_keeps_equal_pitch_direction() {
    let midi = file(1, 480, vec![vec![tempo(500_000)], vec![note(0, 60), note(240, 57), note(240, 57), note(240, 59)]]);
    let timing = get_timing(&midi, false).unwrap();
    let notes = get_pattern(&midi, &timing, &[1]).unwrap();
    let dirs: Vec<RelativePitch> = notes.iter().map(|n| n.relative_pitch).collect();
    let times: Vec<u32> = notes.iter().map(|n| n.time).collect();
    assert_eq!(dirs, vec![High, Low, Low, High]);
    assert_eq!(times, vec![0, 250, 500, 750]);
}

#[test]
fn pattern_needs_existing_tracks() {
    let midi = file(1, 480, vec![vec![tempo(500_000)], vec![note(0, 60)]]);
    let timing = get_timing(&midi, false).unwrap();
    assert_eq!(get_pattern(&midi, &timing, &[1, 5]), Err(PatternError::MissingTrack));
    assert_eq!(get_pattern(&midi, &timing, &[]), Ok(vec![]));
}

// ---- extraction from bytes ----

#[test]
fn extracts_timing_and_pattern_from_bytes() {
    let bytes = smf_bytes(1, 480, &[global_track_bytes(), melody_track_bytes()]);
    let (timing, notes) = extract_pattern(&bytes, &[1], true).unwrap();
    assert_eq!(timing, timing_120bpm());
    let expected = vec![
        PatternNote { time: 0, pitch: 60, relative_pitch: RelativePitch::High },
        PatternNote { time: 125, pitch: 64, relative_pitch: RelativePitch::High },
        PatternNote { time: 250, pitch: 62, relative_pitch: RelativePitch::Low },
    ];
    assert_eq!(notes, expected);
}

#[test]
fn extraction_is_deterministic() {
    let bytes = smf_bytes(1, 480, &[global_track_bytes(), melody_track_bytes(), melody_track_bytes()]);
    let first = extract_pattern(&bytes, &[1, 2], true);
    let second = extract_pattern(&bytes.clone(), &[1, 2], true);
    assert!(first.is_ok());
    assert_eq!(first, second);
}

#[test]
fn extraction_reports_missing_tempo() {
    let bytes = smf_bytes(1, 480, &[raw_signature(4), melody_track_bytes()]);
    assert_eq!(extract_pattern(&bytes, &[1], true), Err(PatternError::MissingTempo));
}

#[test]
fn extraction_reports_wrong_format() {
    let bytes = smf_bytes(2, 480, &[global_track_bytes(), melody_track_bytes()]);
    assert_eq!(extract_pattern(&bytes, &[1], true), Err(PatternError::NotParallel));
    let single = smf_bytes(0, 480, &[global_track_bytes()]);
    assert_eq!(extract_pattern(&single, &[0], true), Err(PatternError::NotParallel));
}

#[test]
fn extraction_reports_timecode_and_unreadable_files() {
    let bytes = smf_bytes(1, 0xE728, &[global_track_bytes(), melody_track_bytes()]);
    assert_eq!(extract_pattern(&bytes, &[1], true), Err(PatternError::NotMetrical));
    assert_eq!(extract_pattern(b"not a midi file", &[1], true), Err(PatternError::Unreadable));
    assert_eq!(extract_pattern(&[], &[1], true), Err(PatternError::Unreadable));
}

#[test]
fn extraction_refuses_an_undecodable_division() {
    let bytes = smf_bytes(1, 0x8000, &[global_track_bytes(), melody_track_bytes()]);
    assert_eq!(extract_pattern(&bytes, &[1], true), Err(PatternError::Unreadable));
    let header_only = smf_bytes(1, 0x8000, &[]);
    assert_eq!(extract_pattern(&header_only, &[], false), Err(PatternError::Unreadable));
    let mut wrapped = b"junk".to_vec();
    wrapped.extend(smf_bytes(1, 0x80E7, &[global_track_bytes()]));
    assert_eq!(extract_pattern(&wrapped, &[0], true), Err(PatternError::Unreadable));
    let ordinary = smf_bytes(1, 0x0080, &[global_track_bytes(), melody_track_bytes()]);
    assert!(extract_pattern(&ordinary, &[1], true).is_ok());
}

#[test]
fn extraction_reports_missing_track() {
    let bytes = smf_bytes(1, 480, &[global_track_bytes(), melody_track_bytes()]);
    assert_eq!(extract_pattern(&bytes, &[3], true), Err(PatternError::MissingTrack));
}

// ---- judging ----

#[test]
fn judge_matches_nearest_note() {
    let pattern = pattern_at(&[1000, 2000, 3000], &[High, Low, High]);
    let late = judge(&pattern, &RelativePitchInput::new(NavDirection::Up, 2600));
    assert_eq!(late.note_time, 3000);
    assert_eq!(late.note_index, 2);
    assert_eq!(late.offset_ms, -400);
    assert!(late.relative_pitch_ok);
    let early = judge(&pattern, &RelativePitchInput::new(NavDirection::Up, 1999));
    assert_eq!(early.note_time, 2000);
    assert_eq!(early.offset_ms, -1);
    assert!(!early.relative_pitch_ok);
}

#[test]
fn judge_breaks_ties_toward_the_earlier_note() {
    let pattern = pattern_at(&[1000, 2000, 3000], &[High, Low, High]);
    let tie = judge(&pattern, &RelativePitchInput::new(NavDirection::Down, 1500));
    assert_eq!(tie.note_time, 1000);
    assert_eq!(tie.note_index, 0);
    assert_eq!(tie.offset_ms, 500);
    assert!(!tie.relative_pitch_ok);
}

#[test]
fn judge_handles_inputs_outside_the_pattern() {
    let pattern = pattern_at(&[1000, 2000], &[High, Low]);
    let before = judge(&pattern, &RelativePitchInput::new(NavDirection::Left, 0));
    assert_eq!((before.note_index, before.offset_ms), (0, -1000));
    let after = judge(&pattern, &RelativePitchInput::new(NavDirection::Left, u32::MAX));
    assert_eq!(after.note_index, 1);
    assert_eq!(after.offset_ms, u32::MAX as i64 - 2000);
    assert!(after.relative_pitch_ok);
}

#[test]
fn windowed_judge_searches_only_its_window() {
    let pattern = pattern_at(&[0, 500, 1000, 1500, 2000, 2500], &[High, Low, High, Low, High, Low]);
    let input = RelativePitchInput::new(NavDirection::Right, 400);
    let near_end = judge_window(&pattern, &input, 5, 1).unwrap();
    assert_eq!(near_end.note_index, 4);
    assert_eq!(near_end.offset_ms, -1600);
    let around = judge_window(&pattern, &input, 1, 3).unwrap();
    assert_eq!(around.note_index, 1);
    assert_eq!(around.offset_ms, -100);
    assert_eq!(judge_window(&pattern, &input, 9, 2), None);
    assert_eq!(judge_window(&pattern, &input, 8, 2), None);
    assert_eq!(judge_window(&pattern, &input, 7, 2).unwrap().note_index, 5);
    assert_eq!(judge_window(&vec![], &input, 0, 4), None);
}

#[test]
fn keys_map_to_directions() {
    assert_eq!(relative_pitch_of(NavDirection::Up), RelativePitch::High);
    assert_eq!(relative_pitch_of(NavDirection::Right), RelativePitch::High);
    assert_eq!(relative_pitch_of(NavDirection::Down), RelativePitch::Low);
    assert_eq!(relative_pitch_of(NavDirection::Left), RelativePitch::Low);
    let input = RelativePitchInput::new(NavDirection::Left, 42);
    assert_eq!(input.relative_pitch, RelativePitch::Low);
    assert_eq!(input.time, 42);
}

// ---- animation frames ----

#[test]
fn animation_frames_follow_the_beat() {
    let settings = AnimSettings { initial_offset_beats: 2, play_interval_beats: 4, length_ms: 400, beat_offset_ms: 100 };
    // 500 ms a beat: offset 1100 ms, interval 2000 ms.
    assert_eq!(settings.frame_index(4, 0, 500_000), 0);
    assert_eq!(settings.frame_index(4, 1100, 500_000), 0);
    assert_eq!(settings.frame_index(4, 1200, 500_000), 1);
    assert_eq!(settings.frame_index(4, 1499, 500_000), 3);
    assert_eq!(settings.frame_index(4, 1500, 500_000), 0);
    assert_eq!(settings.frame_index(4, 3150, 500_000), 0);
    assert_eq!(settings.frame_index(4, 3450, 500_000), 3);
    assert_eq!(settings.frame_index(1, 1200, 500_000), 0);
}

#[test]
fn animation_frames_without_a_play_interval() {
    let still = AnimSettings::default();
    assert_eq!(still.frame_index(1, 5000, 500_000), 0);
    let waiting = AnimSettings { initial_offset_beats: 4, play_interval_beats: 0, length_ms: 100, beat_offset_ms: 0 };
    assert_eq!(waiting.frame_index(3, 2000, 500_000), 0);
    assert_eq!(waiting.frame_index(3, 0, 500_000), 0);
}

#[test]
fn animation_settings_default_to_zero() {
    let s = AnimSettings::default();
    assert_eq!((s.initial_offset_beats, s.play_interval_beats, s.length_ms, s.beat_offset_ms), (0, 0, 0, 0));
}

// ---- measures and attacks ----

#[test]
fn measures_follow_the_time_signature() {
    let t = timing_120bpm();
    assert_eq!(t.measure_length_ms(), Some(2000));
    assert_eq!(t.measure_index(0), Some(0));
    assert_eq!(t.measure_index(1999), Some(0));
    assert_eq!(t.measure_index(4500), Some(2));
    let loose = MidiTiming { beats_per_measure: None, ..t };
    assert_eq!(loose.measure_length_ms(), None);
    assert_eq!(loose.measure_index(4500), None);
    let empty = MidiTiming { beats_per_measure: Some(0), ..t };
    assert_eq!(empty.measure_length_ms(), Some(0));
    assert_eq!(empty.measure_index(4500), None);
    let odd = MidiTiming { micros_per_beat: 333_333, ticks_per_beat: 96, beats_per_measure: Some(3) };
    assert_eq!(odd.measure_length_ms(), Some(999));
}

#[test]
fn each_measure_is_handled_once() {
    assert!(is_next_measure(None, 0));
    assert!(!is_next_measure(Some(2), 2));
    assert!(!is_next_measure(Some(3), 2));
    assert!(is_next_measure(Some(2), 3));
}

#[test]
fn attacks_reduce_health_down_to_zero() {
    let mut hero = Combatant { attack_power: 50, hp: 180, max_hp: 180 };
    hero.take_attack(80);
    assert_eq!(hero.hp, 100);
    hero.take_attack(80);
    assert_eq!(hero.hp, 20);
    hero.take_attack(80);
    assert_eq!(hero.hp, 0);
    hero.take_attack(0);
    assert_eq!(hero, Combatant { attack_power: 50, hp: 0, max_hp: 180 });
}
