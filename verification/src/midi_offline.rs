//! Offline MIDI: time-stamped events at absolute frame positions, for
//! deterministic offline rendering.

use vstd::prelude::*;

verus! {

/// A MIDI event with an absolute frame position. `E` is the event payload.
#[derive(Debug, Clone)]
pub struct TimedMidiEvent<E> {
    /// Absolute frame index at the engine's sample rate.
    pub frame: u64,
    pub event: E,
}

/// Offline MIDI file reader: a time-sorted list of events.
pub struct OfflineMidiReader<E> {
    /// Time-stamped events with absolute frame positions.
    pub events: Vec<TimedMidiEvent<E>>,
}

/// Why a MIDI file could not be read.
#[derive(Debug, Clone, PartialEq, Eq)]
pub enum MidiError {
    /// The bytes are not a MIDI file.
    Parse(String),
    /// The file holds no tempo information.
    NoTempo,
    /// The MIDI file format is not supported.
    UnsupportedFormat,
}

/// The events whose frame lies in `[frame_start, frame_end)`, in list order.
pub open spec fn events_between<E>(
    events: Seq<TimedMidiEvent<E>>,
    frame_start: u64,
    frame_end: u64,
) -> Seq<TimedMidiEvent<E>>
    decreases events.len(),
{
    if events.len() == 0 {
        seq![]
    } else {
        let earlier = events_between(events.drop_last(), frame_start, frame_end);
        let e = events.last();
        if frame_start <= e.frame && e.frame < frame_end {
            earlier.push(e)
        } else {
            earlier
        }
    }
}

/// The events are sorted by frame.
pub open spec fn sorted_by_frame<E>(events: Seq<TimedMidiEvent<E>>) -> bool {
    forall|i: int, j: int| 0 <= i <= j < events.len() ==> events[i].frame <= events[j].frame
}

impl<E> OfflineMidiReader<E> {
    /// Events in the range `[frame_start, frame_end)`, in list order.
    pub fn events_in_range(&self, frame_start: u64, frame_end: u64) -> (r: Vec<
        &TimedMidiEvent<E>,
    >)
        ensures
            r@.map_values(|e: &TimedMidiEvent<E>| *e) == events_between(
                self.events@,
                frame_start,
                frame_end,
            ),
    {
        let mut r: Vec<&TimedMidiEvent<E>> = Vec::new();
        let mut i: usize = 0;
        while i < self.events.len()
            invariant
                i <= self.events@.len(),
                r@.map_values(|e: &TimedMidiEvent<E>| *e) == events_between(
                    self.events@.take(i as int),
                    frame_start,
                    frame_end,
                ),
            decreases self.events@.len() - i,
        {
            let ghost before = r@;
            let e = &self.events[i];
            if e.frame >= frame_start && e.frame < frame_end {
                r.push(e);
                assert(r@.map_values(|e: &TimedMidiEvent<E>| *e) =~= before.map_values(
                    |e: &TimedMidiEvent<E>| *e,
                ).push(*e));
            }
            assert(self.events@.take(i + 1).drop_last() =~= self.events@.take(i as int));
            i = i + 1;
        }
        assert(self.events@.take(i as int) =~= self.events@);
        r
    }
}

proof fn lemma_none_at_or_after<E>(events: Seq<TimedMidiEvent<E>>, b: u64, c: u64)
    requires
        forall|i: int| 0 <= i < events.len() ==> events[i].frame < b,
    ensures
        events_between(events, b, c) == Seq::<TimedMidiEvent<E>>::empty(),
    decreases events.len(),
{
    if events.len() > 0 {
        let init = events.drop_last();
        assert forall|i: int| 0 <= i < init.len() implies init[i].frame < b by {
            assert(init[i] == events[i]);
        }
        lemma_none_at_or_after(init, b, c);
    }
}

/// For time-sorted events, consecutive ranges split the events of their
/// union: the events of `[a, b)` followed by those of `[b, c)` are exactly
/// the events of `[a, c)`. Rendering block by block thus sees every event
/// once, in order.
pub proof fn law_consecutive_ranges<E>(events: Seq<TimedMidiEvent<E>>, a: u64, b: u64, c: u64)
    requires
        sorted_by_frame(events),
        a <= b <= c,
    ensures
        events_between(events, a, b) + events_between(events, b, c) == events_between(
            events,
            a,
            c,
        ),
    decreases events.len(),
{
    if events.len() == 0 {
        assert(Seq::<TimedMidiEvent<E>>::empty() + Seq::<TimedMidiEvent<E>>::empty()
            =~= Seq::<TimedMidiEvent<E>>::empty());
    } else {
        let init = events.drop_last();
        let e = events.last();
        assert forall|i: int, j: int| 0 <= i <= j < init.len() implies init[i].frame
            <= init[j].frame by {
            assert(init[i] == events[i]);
            assert(init[j] == events[j]);
        }
        law_consecutive_ranges(init, a, b, c);
        if e.frame < b {
            assert forall|i: int| 0 <= i < init.len() implies init[i].frame < b by {
                assert(init[i] == events[i]);
            }
            lemma_none_at_or_after(init, b, c);
            let left = events_between(init, a, b);
            if a <= e.frame {
                assert(left.push(e) + Seq::<TimedMidiEvent<E>>::empty() =~= (left
                    + Seq::<TimedMidiEvent<E>>::empty()).push(e));
            } else {
                assert(left + Seq::<TimedMidiEvent<E>>::empty() =~= left);
            }
        } else {
            let left = events_between(init, a, b);
            let right = events_between(init, b, c);
            if e.frame < c {
                assert(left + right.push(e) =~= (left + right).push(e));
            }
        }
    }
}

} // verus!
