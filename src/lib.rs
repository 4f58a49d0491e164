// Rhythm engine: a sample-counting playback clock, extraction of a timed note
// pattern from a symbolic-music file, and judging of directional key presses
// against that pattern.
pub mod anim;
pub mod battle;
pub mod clock;
pub mod grouping;
pub mod judge;
pub mod pattern;
pub mod smf;
