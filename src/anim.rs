use vstd::prelude::*;

verus! {

/// When a looping background animation plays, in beats of the music and in
/// milliseconds.
#[derive(Clone, Copy, Debug, PartialEq, Eq, Structural)]
pub struct AnimSettings {
    pub initial_offset_beats: u32,
    pub play_interval_beats: u32,
    pub length_ms: u32,
    pub beat_offset_ms: u32,
}

impl Default for AnimSettings {
    fn default() -> (r: AnimSettings)
        ensures
            r == (AnimSettings {
                initial_offset_beats: 0,
                play_interval_beats: 0,
                length_ms: 0,
                beat_offset_ms: 0,
            }),
    {
        AnimSettings { initial_offset_beats: 0, play_interval_beats: 0, length_ms: 0, beat_offset_ms: 0 }
    }
}

/// Milliseconds in `beats` beats of `micros_per_beat` microseconds, rounded down.
pub open spec fn beats_to_ms(beats: u32, micros_per_beat: u32) -> int {
    beats as int * micros_per_beat as int / 1000
}

/// Frame of an animation of `frame_count` frames shown at clock reading `time`:
/// the first frame until the animation's offset has passed; then, in each play
/// interval, the frames spread evenly over the animation's length, and the
/// first frame for the rest of the interval.
pub open spec fn frame_at(s: AnimSettings, frame_count: int, time: int, micros_per_beat: u32) -> int {
    let offset = beats_to_ms(s.initial_offset_beats, micros_per_beat) + s.beat_offset_ms;
    let interval = beats_to_ms(s.play_interval_beats, micros_per_beat);
    if frame_count == 1 || time <= offset {
        0
    } else {
        let t = (time - offset) % interval;
        if t >= s.length_ms {
            0
        } else {
            t * frame_count / s.length_ms as int
        }
    }
}

impl AnimSettings {
    /// Index of the frame to show at clock reading `time`, for an animation of
    /// `frame_count` frames and music of `micros_per_beat` microseconds a beat.
    /// The play interval must last a millisecond once it is used: with more
    /// than one frame, after the offset.
    pub fn frame_index(&self, frame_count: usize, time: u32, micros_per_beat: u32) -> (r: usize)
        requires
            frame_count >= 1,
            frame_count > 1 && time > beats_to_ms(self.initial_offset_beats, micros_per_beat)
                + self.beat_offset_ms ==> beats_to_ms(self.play_interval_beats, micros_per_beat) > 0,
        ensures
            r == frame_at(*self, frame_count as int, time as int, micros_per_beat),
            r < frame_count,
    {
        if frame_count == 1 {
            return 0;
        }
        let offset_beats: u64 = self.initial_offset_beats as u64;
        let interval_beats: u64 = self.play_interval_beats as u64;
        let micros: u64 = micros_per_beat as u64;
        assert(offset_beats * micros <= 0xFFFF_FFFFu64 * 0xFFFF_FFFFu64) by (nonlinear_arith)
            requires
                offset_beats <= 0xFFFF_FFFFu64,
                micros <= 0xFFFF_FFFFu64,
        ;
        assert(interval_beats * micros <= 0xFFFF_FFFFu64 * 0xFFFF_FFFFu64) by (nonlinear_arith)
            requires
                interval_beats <= 0xFFFF_FFFFu64,
                micros <= 0xFFFF_FFFFu64,
        ;
        let offset: u64 = offset_beats * micros / 1000 + self.beat_offset_ms as u64;
        if time as u64 <= offset {
            return 0;
        }
        let interval: u64 = interval_beats * micros / 1000;
        let t: u64 = (time as u64 - offset) % interval;
        if t >= self.length_ms as u64 {
            return 0;
        }
        assert(t * frame_count <= 0xFFFF_FFFFu128 * 0xFFFF_FFFF_FFFF_FFFFu128) by (nonlinear_arith)
            requires
                t < self.length_ms <= 0xFFFF_FFFFu128,
                frame_count <= 0xFFFF_FFFF_FFFF_FFFFu128,
        ;
        let product: u128 = (t as u128) * (frame_count as u128);
        let f: u128 = product / (self.length_ms as u128);
        assert(f < frame_count) by {
            vstd::arithmetic::div_mod::lemma_fundamental_div_mod(product as int, self.length_ms as int);
            let q = product as int / self.length_ms as int;
            let m = product as int % self.length_ms as int;
            assert(q < frame_count) by (nonlinear_arith)
                requires
                    product == self.length_ms * q + m,
                    0 <= m,
                    product == t * frame_count,
                    t < self.length_ms,
                    frame_count > 0,
            ;
        }
        f as usize
    }
}

} // verus!
