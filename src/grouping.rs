use crate::smf::{EventClass, MidiEvent};
use itertools::Itertools;
use vstd::prelude::*;

verus! {

/// A note-on: the absolute tick at which it sounds, and its pitch.
pub type TimedPitch = (u128, u8);

/// Ticks from the start of a track to its last event: the sum of the deltas.
pub open spec fn track_ticks(events: Seq<MidiEvent>) -> int
    decreases events.len(),
{
    if events.len() == 0 {
        0
    } else {
        track_ticks(events.drop_last()) + events.last().delta
    }
}

/// The note-ons of a track in order, each at the running sum of the deltas up
/// to and including its own; all other events only advance the running time.
pub open spec fn note_ons(events: Seq<MidiEvent>) -> Seq<TimedPitch>
    decreases events.len(),
{
    if events.len() == 0 {
        Seq::empty()
    } else {
        let before = note_ons(events.drop_last());
        match events.last().kind {
            EventClass::NoteOn { key } => before.push((track_ticks(events) as u128, key)),
            _ => before,
        }
    }
}

/// Stable merge by tick: on equal ticks the note-ons of `a` come first.
pub open spec fn merge_by_tick(a: Seq<TimedPitch>, b: Seq<TimedPitch>) -> Seq<TimedPitch>
    decreases a.len() + b.len(),
{
    if a.len() == 0 {
        b
    } else if b.len() == 0 {
        a
    } else if a[0].0 <= b[0].0 {
        seq![a[0]] + merge_by_tick(a.drop_first(), b)
    } else {
        seq![b[0]] + merge_by_tick(a, b.drop_first())
    }
}

/// The note-ons of the target tracks merged into one stream, track by track.
pub open spec fn merged_note_ons(tracks: Seq<Seq<MidiEvent>>, targets: Seq<usize>) -> Seq<TimedPitch>
    decreases targets.len(),
{
    if targets.len() == 0 {
        Seq::empty()
    } else {
        merge_by_tick(
            merged_note_ons(tracks, targets.drop_last()),
            note_ons(tracks[targets.last() as int]),
        )
    }
}

/// Consecutive note-ons with equal ticks, as runs: each run is a tick and the
/// pitches that sound at it, in stream order.
pub open spec fn runs(s: Seq<TimedPitch>) -> Seq<(u128, Seq<u8>)>
    decreases s.len(),
{
    if s.len() == 0 {
        Seq::empty()
    } else {
        let before = runs(s.drop_last());
        let (tick, pitch) = s.last();
        if before.len() > 0 && before.last().0 == tick {
            before.update(before.len() - 1, (tick, before.last().1.push(pitch)))
        } else {
            before.push((tick, seq![pitch]))
        }
    }
}

/// The note-ons of one run, each with the run's tick.
pub open spec fn spread(g: (u128, Seq<u8>)) -> Seq<TimedPitch> {
    g.1.map_values(|p: u8| (g.0, p))
}

/// The note-ons of all runs, in order.
pub open spec fn flatten_runs(gs: Seq<(u128, Seq<u8>)>) -> Seq<TimedPitch>
    decreases gs.len(),
{
    if gs.len() == 0 {
        Seq::empty()
    } else {
        flatten_runs(gs.drop_last()) + spread(gs.last())
    }
}

/// `gs` splits `s` into maximal runs of equal ticks: together they give back
/// `s`, none is empty, and neighbours differ in tick.
pub open spec fn splits_into_runs(s: Seq<TimedPitch>, gs: Seq<(u128, Seq<u8>)>) -> bool {
    &&& flatten_runs(gs) == s
    &&& forall|i: int| 0 <= i < gs.len() ==> #[trigger] gs[i].1.len() > 0
    &&& forall|i: int| 0 < i < gs.len() ==> gs[i - 1].0 != #[trigger] gs[i].0
}

/// Runs with their pitch lists as sequences.
pub open spec fn runs_view(gs: Seq<(u128, Vec<u8>)>) -> Seq<(u128, Seq<u8>)> {
    gs.map_values(|g: (u128, Vec<u8>)| (g.0, g.1@))
}

/// Relies on itertools' `group_by`, which puts consecutive elements with equal
/// keys in one group; the key here is the tick.
#[verifier::external_body]
fn group_by_tick(s: &Vec<TimedPitch>) -> (r: Vec<(u128, Vec<u8>)>)
    ensures
        splits_into_runs(s@, runs_view(r@)),
{
    let grouped = s.iter().group_by(|p| p.0);
    let r = grouped.into_iter().map(|(tick, g)| (tick, g.map(|p| p.1).collect())).collect();
    r
}

proof fn lemma_spread_drop_last(g: (u128, Seq<u8>))
    requires
        g.1.len() > 0,
    ensures
        spread(g).drop_last() == spread((g.0, g.1.drop_last())),
        spread(g).last() == (g.0, g.1.last()),
        spread(g).len() == g.1.len(),
{
    assert(spread(g).drop_last() =~= spread((g.0, g.1.drop_last())));
}

/// A split of `s` into maximal runs of equal ticks is `runs(s)`.
pub proof fn lemma_runs_unique(s: Seq<TimedPitch>, gs: Seq<(u128, Seq<u8>)>)
    requires
        splits_into_runs(s, gs),
    ensures
        gs == runs(s),
    decreases s.len(),
{
    if gs.len() == 0 {
        assert(s == Seq::<TimedPitch>::empty());
    } else {
        let g = gs.last();
        let rest = gs.drop_last();
        assert(g.1.len() > 0) by {
            assert(gs[gs.len() - 1].1.len() > 0);
        }
        lemma_spread_drop_last(g);
        assert(s == flatten_runs(rest) + spread(g));
        assert(s.drop_last() == flatten_runs(rest) + spread(g).drop_last());
        assert(s.last() == (g.0, g.1.last()));
        if g.1.len() == 1 {
            assert(spread(g).drop_last() =~= Seq::<TimedPitch>::empty());
            assert(s.drop_last() =~= flatten_runs(rest));
            assert(splits_into_runs(s.drop_last(), rest)) by {
                assert forall|i: int| 0 <= i < rest.len() implies #[trigger] rest[i].1.len() > 0 by {
                    assert(gs[i].1.len() > 0);
                }
                assert forall|i: int| 0 < i < rest.len() implies rest[i - 1].0 != #[trigger] rest[i].0 by {
                    assert(gs[i - 1].0 != gs[i].0);
                }
            }
            lemma_runs_unique(s.drop_last(), rest);
            if rest.len() > 0 {
                assert(gs[gs.len() - 2].0 != gs[gs.len() - 1].0);
            }
            assert(g.1 =~= seq![g.1.last()]);
            assert(gs =~= rest.push((g.0, seq![g.1.last()])));
        } else {
            let g2 = (g.0, g.1.drop_last());
            let gs2 = rest.push(g2);
            assert(gs2.drop_last() =~= rest);
            assert(flatten_runs(gs2) == flatten_runs(rest) + spread(g2));
            assert(flatten_runs(gs2) =~= s.drop_last());
            assert(splits_into_runs(s.drop_last(), gs2)) by {
                assert forall|i: int| 0 <= i < gs2.len() implies #[trigger] gs2[i].1.len() > 0 by {
                    if i < rest.len() {
                        assert(gs[i].1.len() > 0);
                    }
                }
                assert forall|i: int| 0 < i < gs2.len() implies gs2[i - 1].0 != #[trigger] gs2[i].0 by {
                    assert(gs[i - 1].0 != gs[i].0);
                }
            }
            lemma_runs_unique(s.drop_last(), gs2);
            assert(g.1.drop_last().push(g.1.last()) =~= g.1);
            assert(gs2.update(gs2.len() - 1, (g.0, g2.1.push(g.1.last()))) =~= gs);
        }
    }
}

/// Note-ons in order of non-decreasing tick.
pub open spec fn ticks_sorted(s: Seq<TimedPitch>) -> bool {
    forall|i: int, j: int| 0 <= i <= j < s.len() ==> #[trigger] s[i].0 <= #[trigger] s[j].0
}

/// Runs in order of strictly increasing tick.
pub open spec fn ticks_increasing(gs: Seq<(u128, Seq<u8>)>) -> bool {
    forall|i: int, j: int| 0 <= i < j < gs.len() ==> #[trigger] gs[i].0 < #[trigger] gs[j].0
}

proof fn lemma_track_ticks_bound(events: Seq<MidiEvent>)
    ensures
        0 <= track_ticks(events) <= events.len() * 0xFFFF_FFFF,
    decreases events.len(),
{
    if events.len() > 0 {
        lemma_track_ticks_bound(events.drop_last());
    }
}

/// The note-ons of a track come in order of tick, none later than the track's
/// last event.
pub proof fn lemma_note_ons_sorted(events: Seq<MidiEvent>)
    requires
        events.len() <= usize::MAX,
    ensures
        ticks_sorted(note_ons(events)),
        forall|i: int| 0 <= i < note_ons(events).len() ==> #[trigger] note_ons(events)[i].0 <= track_ticks(events),
    decreases events.len(),
{
    if events.len() > 0 {
        let prefix = events.drop_last();
        lemma_note_ons_sorted(prefix);
        lemma_track_ticks_bound(events);
        assert(events.len() * 0xFFFF_FFFF <= usize::MAX * 0xFFFF_FFFF) by (nonlinear_arith)
            requires
                events.len() <= usize::MAX,
        ;
        assert(track_ticks(prefix) <= track_ticks(events));
    }
}

/// Merging keeps every lower bound that both streams share.
pub proof fn lemma_merge_lower_bound(a: Seq<TimedPitch>, b: Seq<TimedPitch>, x: int)
    requires
        forall|i: int| 0 <= i < a.len() ==> #[trigger] a[i].0 >= x,
        forall|i: int| 0 <= i < b.len() ==> #[trigger] b[i].0 >= x,
    ensures
        forall|k: int| 0 <= k < merge_by_tick(a, b).len() ==> #[trigger] merge_by_tick(a, b)[k].0 >= x,
    decreases a.len() + b.len(),
{
    if a.len() > 0 && b.len() > 0 {
        if a[0].0 <= b[0].0 {
            let rest = a.drop_first();
            lemma_merge_lower_bound(rest, b, x);
            let m = merge_by_tick(rest, b);
            assert forall|k: int| 0 <= k < m.len() + 1 implies #[trigger] (seq![a[0]] + m)[k].0 >= x by {
                if k > 0 {
                    assert(m[k - 1].0 >= x);
                }
            }
        } else {
            let rest = b.drop_first();
            lemma_merge_lower_bound(a, rest, x);
            let m = merge_by_tick(a, rest);
            assert forall|k: int| 0 <= k < m.len() + 1 implies #[trigger] (seq![b[0]] + m)[k].0 >= x by {
                if k > 0 {
                    assert(m[k - 1].0 >= x);
                }
            }
        }
    }
}

/// Merging two streams in tick order gives a stream in tick order.
pub proof fn lemma_merge_sorted(a: Seq<TimedPitch>, b: Seq<TimedPitch>)
    requires
        ticks_sorted(a),
        ticks_sorted(b),
    ensures
        ticks_sorted(merge_by_tick(a, b)),
    decreases a.len() + b.len(),
{
    if a.len() > 0 && b.len() > 0 {
        if a[0].0 <= b[0].0 {
            let rest = a.drop_first();
            lemma_merge_sorted(rest, b);
            assert forall|i: int| 0 <= i < rest.len() implies #[trigger] rest[i].0 >= a[0].0 by {
                assert(a[0].0 <= a[i + 1].0);
            }
            assert forall|i: int| 0 <= i < b.len() implies #[trigger] b[i].0 >= a[0].0 by {
                assert(b[0].0 <= b[i].0);
            }
            lemma_merge_lower_bound(rest, b, a[0].0 as int);
            let m = merge_by_tick(rest, b);
            assert forall|i: int, j: int| 0 <= i <= j < m.len() + 1 implies #[trigger] (seq![a[0]] + m)[i].0
                <= #[trigger] (seq![a[0]] + m)[j].0 by {
                if i > 0 {
                    assert(m[i - 1].0 <= m[j - 1].0);
                } else if j > 0 {
                    assert(m[j - 1].0 >= a[0].0);
                }
            }
        } else {
            let rest = b.drop_first();
            lemma_merge_sorted(a, rest);
            assert forall|i: int| 0 <= i < rest.len() implies #[trigger] rest[i].0 >= b[0].0 by {
                assert(b[0].0 <= b[i + 1].0);
            }
            assert forall|i: int| 0 <= i < a.len() implies #[trigger] a[i].0 >= b[0].0 by {
                assert(a[0].0 <= a[i].0);
            }
            lemma_merge_lower_bound(a, rest, b[0].0 as int);
            let m = merge_by_tick(a, rest);
            assert forall|i: int, j: int| 0 <= i <= j < m.len() + 1 implies #[trigger] (seq![b[0]] + m)[i].0
                <= #[trigger] (seq![b[0]] + m)[j].0 by {
                if i > 0 {
                    assert(m[i - 1].0 <= m[j - 1].0);
                } else if j > 0 {
                    assert(m[j - 1].0 >= b[0].0);
                }
            }
        }
    }
}

/// The runs of a stream in tick order have strictly increasing ticks, the
/// last run at the tick of the stream's last note-on.
pub proof fn lemma_runs_increasing(s: Seq<TimedPitch>)
    requires
        ticks_sorted(s),
    ensures
        ticks_increasing(runs(s)),
        s.len() > 0 ==> runs(s).len() > 0 && runs(s).last().0 == s.last().0,
        s.len() == 0 ==> runs(s).len() == 0,
    decreases s.len(),
{
    if s.len() > 0 {
        let prefix = s.drop_last();
        lemma_runs_increasing(prefix);
        let before = runs(prefix);
        if before.len() > 0 {
            assert(prefix.last().0 <= s.last().0) by {
                assert(s[s.len() - 2].0 <= s[s.len() - 1].0);
            }
        }
    }
}

/// Every note-on of the stream has a pitch below 128.
pub open spec fn pitches_in_range(s: Seq<TimedPitch>) -> bool {
    forall|i: int| 0 <= i < s.len() ==> #[trigger] s[i].1 < 128
}

/// Every pitch of every run is below 128.
pub open spec fn run_pitches_in_range(gs: Seq<(u128, Seq<u8>)>) -> bool {
    forall|i: int, j: int| 0 <= i < gs.len() && 0 <= j < gs[i].1.len() ==> #[trigger] gs[i].1[j] < 128
}

/// The note-ons of a track whose note-on keys are below 128 have pitches
/// below 128.
pub proof fn lemma_note_ons_in_range(events: Seq<MidiEvent>)
    requires
        forall|e: int| 0 <= e < events.len() ==> match #[trigger] events[e].kind {
            EventClass::NoteOn { key } => key < 128,
            _ => true,
        },
    ensures
        pitches_in_range(note_ons(events)),
    decreases events.len(),
{
    if events.len() > 0 {
        let prefix = events.drop_last();
        assert forall|e: int| 0 <= e < prefix.len() implies match #[trigger] prefix[e].kind {
            EventClass::NoteOn { key } => key < 128,
            _ => true,
        } by {
            assert(prefix[e] == events[e]);
        }
        lemma_note_ons_in_range(prefix);
        let last = events[events.len() - 1];
        assert(events.last() == last);
    }
}

/// Merging keeps pitches below 128.
pub proof fn lemma_merge_in_range(a: Seq<TimedPitch>, b: Seq<TimedPitch>)
    requires
        pitches_in_range(a),
        pitches_in_range(b),
    ensures
        pitches_in_range(merge_by_tick(a, b)),
    decreases a.len() + b.len(),
{
    if a.len() > 0 && b.len() > 0 {
        if a[0].0 <= b[0].0 {
            let rest = a.drop_first();
            lemma_merge_in_range(rest, b);
            let m = merge_by_tick(rest, b);
            assert forall|k: int| 0 <= k < m.len() + 1 implies #[trigger] (seq![a[0]] + m)[k].1 < 128 by {
                if k > 0 {
                    assert(m[k - 1].1 < 128);
                }
            }
        } else {
            let rest = b.drop_first();
            lemma_merge_in_range(a, rest);
            let m = merge_by_tick(a, rest);
            assert forall|k: int| 0 <= k < m.len() + 1 implies #[trigger] (seq![b[0]] + m)[k].1 < 128 by {
                if k > 0 {
                    assert(m[k - 1].1 < 128);
                }
            }
        }
    }
}

/// The runs of a stream with pitches below 128 hold only such pitches.
pub proof fn lemma_runs_in_range(s: Seq<TimedPitch>)
    requires
        pitches_in_range(s),
    ensures
        run_pitches_in_range(runs(s)),
    decreases s.len(),
{
    if s.len() > 0 {
        let prefix = s.drop_last();
        assert(pitches_in_range(prefix)) by {
            assert forall|i: int| 0 <= i < prefix.len() implies #[trigger] prefix[i].1 < 128 by {
                assert(prefix[i] == s[i]);
            }
        }
        lemma_runs_in_range(prefix);
        let before = runs(prefix);
        let (tick, pitch) = s.last();
        assert(pitch < 128) by {
            assert(s[s.len() - 1].1 < 128);
        }
        if before.len() > 0 && before.last().0 == tick {
            let g = before.last().1.push(pitch);
            assert forall|j: int| 0 <= j < g.len() implies #[trigger] g[j] < 128 by {
                if j < g.len() - 1 {
                    assert(before[before.len() - 1].1[j] < 128);
                }
            }
        }
    }
}

/// No run is empty.
pub proof fn lemma_runs_nonempty(s: Seq<TimedPitch>, i: int)
    requires
        0 <= i < runs(s).len(),
    ensures
        runs(s)[i].1.len() > 0,
    decreases s.len(),
{
    if s.len() > 0 {
        let before = runs(s.drop_last());
        if i < before.len() {
            lemma_runs_nonempty(s.drop_last(), i);
        }
    }
}

/// The note-ons of one track with their absolute ticks.
pub fn track_note_ons(track: &Vec<MidiEvent>) -> (r: Vec<TimedPitch>)
    ensures
        r@ == note_ons(track@),
        ticks_sorted(r@),
{
    let mut out: Vec<TimedPitch> = Vec::new();
    let mut ticks: u128 = 0;
    let mut i: usize = 0;
    while i < track.len()
        invariant
            i <= track.len(),
            ticks == track_ticks(track@.take(i as int)),
            ticks <= i * 0xFFFF_FFFFu128,
            out@ == note_ons(track@.take(i as int)),
        decreases track.len() - i,
    {
        let ghost prefix = track@.take(i + 1);
        assert(prefix.drop_last() == track@.take(i as int));
        let event = track[i];
        assert(ticks + event.delta <= (i + 1) * 0xFFFF_FFFFu128) by (nonlinear_arith)
            requires
                ticks <= i * 0xFFFF_FFFFu128,
                event.delta <= 0xFFFF_FFFFu128,
        ;
        assert((i + 1) * 0xFFFF_FFFFu128 <= 0x1_0000_0000_0000_0000u128 * 0xFFFF_FFFFu128) by (nonlinear_arith)
            requires
                i < 0x1_0000_0000_0000_0000u128,
        ;
        ticks = ticks + event.delta as u128;
        match event.kind {
            EventClass::NoteOn { key } => {
                out.push((ticks, key));
            },
            _ => {},
        }
        i = i + 1;
    }
    assert(track@.take(track.len() as int) == track@);
    proof {
        lemma_note_ons_sorted(track@);
    }
    out
}

/// Merges two note-on streams by tick, keeping `a`'s note-ons first on ties.
pub fn merge_note_ons(a: &Vec<TimedPitch>, b: &Vec<TimedPitch>) -> (r: Vec<TimedPitch>)
    ensures
        r@ == merge_by_tick(a@, b@),
        ticks_sorted(a@) && ticks_sorted(b@) ==> ticks_sorted(r@),
{
    let mut out: Vec<TimedPitch> = Vec::new();
    let mut i: usize = 0;
    let mut j: usize = 0;
    assert(a@.subrange(0, a.len() as int) =~= a@);
    assert(b@.subrange(0, b.len() as int) =~= b@);
    assert(out@ + merge_by_tick(a@, b@) =~= merge_by_tick(a@, b@));
    while i < a.len() || j < b.len()
        invariant
            i <= a.len(),
            j <= b.len(),
            out@ + merge_by_tick(a@.subrange(i as int, a.len() as int), b@.subrange(j as int, b.len() as int))
                == merge_by_tick(a@, b@),
        decreases a.len() + b.len() - i - j,
    {
        let ghost ra = a@.subrange(i as int, a.len() as int);
        let ghost rb = b@.subrange(j as int, b.len() as int);
        if i < a.len() && (j >= b.len() || a[i].0 <= b[j].0) {
            proof {
                assert(ra.drop_first() =~= a@.subrange(i + 1, a.len() as int));
                if rb.len() == 0 {
                    assert(merge_by_tick(ra, rb) == ra);
                    assert(merge_by_tick(ra.drop_first(), rb) == ra.drop_first());
                    assert(ra =~= seq![ra[0]] + ra.drop_first());
                }
                assert(merge_by_tick(ra, rb) == seq![a@[i as int]] + merge_by_tick(ra.drop_first(), rb));
            }
            out.push(a[i]);
            i = i + 1;
        } else {
            proof {
                assert(rb.drop_first() =~= b@.subrange(j + 1, b.len() as int));
                if ra.len() == 0 {
                    assert(merge_by_tick(ra, rb) == rb);
                    assert(merge_by_tick(ra, rb.drop_first()) == rb.drop_first());
                    assert(rb =~= seq![rb[0]] + rb.drop_first());
                }
                assert(merge_by_tick(ra, rb) == seq![b@[j as int]] + merge_by_tick(ra, rb.drop_first()));
            }
            out.push(b[j]);
            j = j + 1;
        }
    }
    assert(a@.subrange(i as int, a.len() as int) =~= Seq::<TimedPitch>::empty());
    assert(b@.subrange(j as int, b.len() as int) =~= Seq::<TimedPitch>::empty());
    assert(out@ =~= merge_by_tick(a@, b@));
    proof {
        if ticks_sorted(a@) && ticks_sorted(b@) {
            lemma_merge_sorted(a@, b@);
        }
    }
    out
}

/// Splits a note-on stream into runs of equal ticks.
pub fn group_note_ons(s: &Vec<TimedPitch>) -> (r: Vec<(u128, Vec<u8>)>)
    ensures
        runs_view(r@) == runs(s@),
        ticks_sorted(s@) ==> ticks_increasing(runs_view(r@)),
{
    let r = group_by_tick(s);
    proof {
        lemma_runs_unique(s@, runs_view(r@));
        if ticks_sorted(s@) {
            lemma_runs_increasing(s@);
        }
    }
    r
}

} // verus!
