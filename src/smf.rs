use midly::{EventKind, MetaMessage, MidiMessage, Smf};
use vstd::prelude::*;

verus! {

/// Header format word of a file whose tracks play simultaneously.
pub const FORMAT_PARALLEL: u16 = 1;

/// Top bit of the header's division word: set for timecode timing, clear for
/// metrical timing, where the word is the number of ticks per beat.
pub const TIMING_TIMECODE_BIT: u16 = 0x8000;

/// What the pattern logic reads of one track event.
#[derive(Clone, Copy, Debug, PartialEq, Eq, Structural)]
pub enum EventClass {
    /// A note starts sounding; `key` is its pitch.
    NoteOn { key: u8 },
    /// Tempo meta-event: microseconds per beat.
    Tempo { micros_per_beat: u32 },
    /// Time-signature meta-event: its numerator, the beats per measure.
    TimeSignature { numerator: u8 },
    /// Any other event.
    Other,
}

/// One track event: ticks since the previous event of the track, and its kind.
#[derive(Clone, Copy, Debug, PartialEq, Eq, Structural)]
pub struct MidiEvent {
    pub delta: u32,
    pub kind: EventClass,
}

/// A decoded symbolic-music file: the header's format and division words, and
/// the events of each track in file order.
#[derive(Clone, Debug)]
pub struct MidiFile {
    pub format: u16,
    pub timing: u16,
    pub tracks: Vec<Vec<MidiEvent>>,
}

/// Mathematical view of a `MidiFile`.
pub ghost struct MidiFileView {
    pub format: u16,
    pub timing: u16,
    pub tracks: Seq<Seq<MidiEvent>>,
}

impl View for MidiFile {
    type V = MidiFileView;

    open spec fn view(&self) -> MidiFileView {
        MidiFileView {
            format: self.format,
            timing: self.timing,
            tracks: self.tracks@.map_values(|t: Vec<MidiEvent>| t@),
        }
    }
}

/// The file that the decoder reads from `bytes`, if they hold one.
pub uninterp spec fn smf_decoded(bytes: Seq<u8>) -> Option<MidiFileView>;

/// `bytes` hold the header chunk tag "MThd" at index `i`.
pub open spec fn header_tag_at(bytes: Seq<u8>, i: int) -> bool {
    &&& 0 <= i
    &&& i + 3 < bytes.len()
    &&& bytes[i] == 0x4D
    &&& bytes[i + 1] == 0x54
    &&& bytes[i + 2] == 0x68
    &&& bytes[i + 3] == 0x64
}

/// No header chunk in `bytes` has a division word whose high byte is 0x80:
/// a timecode division with a frame rate of -128, which the decoder cannot
/// negate.
pub open spec fn division_decodable(bytes: Seq<u8>) -> bool {
    forall|i: int| #[trigger] header_tag_at(bytes, i) && i + 12 < bytes.len() ==> bytes[i + 12] != 0x80
}

/// Every note-on of the file has a key below 128.
pub open spec fn keys_in_range(f: MidiFileView) -> bool {
    forall|t: int, e: int|
        0 <= t < f.tracks.len() && 0 <= e < f.tracks[t].len() ==> match #[trigger] f.tracks[t][e].kind {
            EventClass::NoteOn { key } => key < 128,
            _ => true,
        }
}

/// Whether the decoder can read `bytes` without failing on a header's division
/// word; see `division_decodable`.
pub fn header_division_decodable(bytes: &[u8]) -> (r: bool)
    ensures
        r == division_decodable(bytes@),
{
    let n = bytes.len();
    let mut i: usize = 0;
    while i < n && n - i > 12
        invariant
            n == bytes@.len(),
            i <= n,
            forall|j: int| 0 <= j < i ==> #[trigger] header_tag_at(bytes@, j) && j + 12 < bytes@.len() ==> bytes@[j + 12] != 0x80,
        decreases n - i,
    {
        if bytes[i] == 0x4D && bytes[i + 1] == 0x54 && bytes[i + 2] == 0x68 && bytes[i + 3] == 0x64 && bytes[i + 12] == 0x80 {
            assert(header_tag_at(bytes@, i as int));
            return false;
        }
        i = i + 1;
    }
    true
}

/// Relies on midly's `Smf::parse` to decode a Standard MIDI File (the result
/// depends on the bytes alone), and on `Format::encode` and `Timing::encode`,
/// which give back the header's format and division words. Each event keeps
/// its delta and, of its kind, the key of a note-on, the value of a tempo
/// event or the numerator of a time signature; every other kind is `Other`.
/// Keys are midly's 7-bit `u7`, so below 128. `Timing::read` negates the high
/// byte of the division word as an `i8`, which overflows for 0x80: such bytes
/// are left out.
#[verifier::external_body]
pub(crate) fn decode_smf(bytes: &[u8]) -> (r: Option<MidiFile>)
    requires
        division_decodable(bytes@),
    ensures
        match r {
            Some(f) => smf_decoded(bytes@) == Some(f@),
            None => smf_decoded(bytes@) is None,
        },
        r matches Some(f) ==> keys_in_range(f@),
{
    let smf = Smf::parse(bytes).ok()?;
    Some(MidiFile {
        format: u16::from_be_bytes(smf.header.format.encode()),
        timing: u16::from_be_bytes(smf.header.timing.encode()),
        tracks: smf.tracks.iter().map(|t| t.iter().map(|e| MidiEvent { delta: e.delta.as_int(), kind: match e.kind {
            EventKind::Midi { message: MidiMessage::NoteOn { key, .. }, .. } => EventClass::NoteOn { key: key.as_int() },
            EventKind::Meta(MetaMessage::Tempo(t)) => EventClass::Tempo { micros_per_beat: t.as_int() },
            EventKind::Meta(MetaMessage::TimeSignature(n, ..)) => EventClass::TimeSignature { numerator: n },
            _ => EventClass::Other,
        } }).collect()).collect(),
    })
}

} // verus!
