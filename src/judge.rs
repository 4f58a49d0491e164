use crate::pattern::{PatternNote, RelativePitch};
use vstd::prelude::*;

verus! {

/// A directional key the player can press.
#[derive(Clone, Copy, Debug, PartialEq, Eq, Structural)]
pub enum NavDirection {
    Up,
    Right,
    Down,
    Left,
}

/// Up and Right ask for a higher pitch, Down and Left for a lower one.
pub open spec fn pitch_of_direction(d: NavDirection) -> RelativePitch {
    match d {
        NavDirection::Up | NavDirection::Right => RelativePitch::High,
        NavDirection::Down | NavDirection::Left => RelativePitch::Low,
    }
}

/// The pitch direction a key asks for.
pub fn relative_pitch_of(direction: NavDirection) -> (r: RelativePitch)
    ensures
        r == pitch_of_direction(direction),
{
    match direction {
        NavDirection::Up | NavDirection::Right => RelativePitch::High,
        NavDirection::Down | NavDirection::Left => RelativePitch::Low,
    }
}

/// A key press: the key, the pitch direction it asks for, and the clock
/// reading in milliseconds when it was pressed.
#[derive(Clone, Copy, Debug, PartialEq, Eq, Structural)]
pub struct RelativePitchInput {
    pub direction: NavDirection,
    pub relative_pitch: RelativePitch,
    pub time: u32,
}

impl RelativePitchInput {
    /// The press of `direction` at clock reading `time`.
    pub fn new(direction: NavDirection, time: u32) -> (r: RelativePitchInput)
        ensures
            r.direction == direction,
            r.relative_pitch == pitch_of_direction(direction),
            r.time == time,
    {
        RelativePitchInput { direction, relative_pitch: relative_pitch_of(direction), time }
    }
}

/// The verdict on one press: the index and time of the note it was matched
/// to, the signed offset of the press from that note (positive when late), and
/// whether the press asked for the note's direction.
#[derive(Clone, Copy, Debug, PartialEq, Eq, Structural)]
pub struct JudgmentResult {
    pub note_index: usize,
    pub note_time: u32,
    pub offset_ms: i64,
    pub relative_pitch_ok: bool,
}

/// Distance in milliseconds between two clock readings.
pub open spec fn distance(a: u32, b: u32) -> int {
    if a >= b {
        a - b
    } else {
        b - a
    }
}

/// Note `k` is the nearest to `time` among the notes `lo..hi`, and no earlier
/// note of that range is as near.
pub open spec fn is_nearest(pattern: Seq<PatternNote>, time: u32, k: int, lo: int, hi: int) -> bool {
    &&& lo <= k < hi
    &&& forall|j: int| lo <= j < hi ==> distance(pattern[k].time, time) <= distance(#[trigger] pattern[j].time, time)
    &&& forall|j: int| lo <= j < k ==> distance(pattern[k].time, time) < distance(#[trigger] pattern[j].time, time)
}

/// The verdict when `input` is matched to note `k`.
pub open spec fn judgment_at(pattern: Seq<PatternNote>, input: RelativePitchInput, k: int) -> JudgmentResult {
    JudgmentResult {
        note_index: k as usize,
        note_time: pattern[k].time,
        offset_ms: (input.time - pattern[k].time) as i64,
        relative_pitch_ok: input.relative_pitch == pattern[k].relative_pitch,
    }
}

/// Notes `lo..hi` searched by the windowed judge: up to `radius` notes either
/// side of `center`, within the pattern.
pub open spec fn window(center: int, radius: int, len: int) -> (int, int) {
    let lo = if center - radius > 0 { center - radius } else { 0 };
    let hi = if center + radius + 1 < len { center + radius + 1 } else { len };
    (lo, hi)
}

fn time_distance(a: u32, b: u32) -> (r: u32)
    ensures
        r == distance(a, b),
{
    if a >= b {
        a - b
    } else {
        b - a
    }
}

/// Index of the first note of `lo..hi` nearest to `time`.
fn nearest_in(pattern: &Vec<PatternNote>, time: u32, lo: usize, hi: usize) -> (k: usize)
    requires
        lo < hi <= pattern.len(),
    ensures
        is_nearest(pattern@, time, k as int, lo as int, hi as int),
{
    let mut best: usize = lo;
    let mut best_distance = time_distance(pattern[lo].time, time);
    let mut i: usize = lo + 1;
    while i < hi
        invariant
            lo < i <= hi <= pattern.len(),
            lo <= best < i,
            best_distance == distance(pattern@[best as int].time, time),
            is_nearest(pattern@, time, best as int, lo as int, i as int),
        decreases hi - i,
    {
        let d = time_distance(pattern[i].time, time);
        if d < best_distance {
            best = i;
            best_distance = d;
        }
        i = i + 1;
    }
    best
}

fn judgment(pattern: &Vec<PatternNote>, input: &RelativePitchInput, k: usize) -> (r: JudgmentResult)
    requires
        k < pattern.len(),
    ensures
        r == judgment_at(pattern@, *input, k as int),
{
    let note = pattern[k];
    JudgmentResult {
        note_index: k,
        note_time: note.time,
        offset_ms: input.time as i64 - note.time as i64,
        relative_pitch_ok: input.relative_pitch == note.relative_pitch,
    }
}

/// Matches a press to the pattern note nearest in time, the earlier one on a
/// tie, and reports its offset and whether the press asked for its direction.
pub fn judge(pattern: &Vec<PatternNote>, input: &RelativePitchInput) -> (r: JudgmentResult)
    requires
        pattern.len() > 0,
    ensures
        is_nearest(pattern@, input.time, r.note_index as int, 0, pattern.len() as int),
        r == judgment_at(pattern@, *input, r.note_index as int),
{
    let k = nearest_in(pattern, input.time, 0, pattern.len());
    judgment(pattern, input, k)
}

/// Like `judge`, but searching only the notes within `radius` of the note
/// index `center`; no match when that window holds no note.
pub fn judge_window(pattern: &Vec<PatternNote>, input: &RelativePitchInput, center: usize, radius: usize) -> (r: Option<JudgmentResult>)
    ensures
        ({
            let (lo, hi) = window(center as int, radius as int, pattern.len() as int);
            match r {
                Some(j) => is_nearest(pattern@, input.time, j.note_index as int, lo, hi) && j
                    == judgment_at(pattern@, *input, j.note_index as int),
                None => lo >= hi,
            }
        }),
{
    let lo = if center > radius {
        center - radius
    } else {
        0
    };
    let hi = if center < pattern.len() && radius < pattern.len() - center - 1 {
        center + radius + 1
    } else {
        pattern.len()
    };
    if lo >= hi {
        return None;
    }
    let k = nearest_in(pattern, input.time, lo, hi);
    Some(judgment(pattern, input, k))
}

} // verus!
