//! The event stream of one delivery: what the decoder's successive answers
//! add up to, and where a failure cuts the stream short.

use crate::event::{Datum, LogEvent, Slot};
use vstd::prelude::*;

verus! {

/// One answer of the decoder, as a mathematical value.
pub enum Decoded {
    /// A chunk was decoded into these records, in this order.
    Frame(Seq<Map<Slot, Datum>>),
    /// A chunk could not be decoded; the flag says whether decoding may go on.
    Error(bool),
}

/// One answer of the decoder to a request for the next chunk of a payload.
#[derive(Debug)]
pub enum DecodeOutcome {
    /// A chunk of `byte_size` bytes was decoded into `events`.
    Frame { events: Vec<LogEvent>, byte_size: usize },
    /// A chunk could not be decoded. Where `can_continue` holds the rest of
    /// the payload may still be decoded; otherwise the payload is given up.
    Error { can_continue: bool },
}

/// The fields of each record of a list.
pub open spec fn fields_of_each(events: Seq<LogEvent>) -> Seq<Map<Slot, Datum>> {
    events.map_values(|event: LogEvent| event@)
}

impl View for DecodeOutcome {
    type V = Decoded;

    open spec fn view(&self) -> Decoded {
        match self {
            DecodeOutcome::Frame { events, byte_size } => Decoded::Frame(fields_of_each(events@)),
            DecodeOutcome::Error { can_continue } => Decoded::Error(*can_continue),
        }
    }
}

impl Decoded {
    /// Whether this answer ends the stream.
    pub open spec fn is_fatal(self) -> bool {
        self == Decoded::Error(false)
    }
}

impl DecodeOutcome {
    /// Whether this answer ends the stream: the decoder must not be asked for
    /// more of the payload.
    pub fn ends_stream(&self) -> (r: bool)
        ensures
            r == self@.is_fatal(),
    {
        match self {
            DecodeOutcome::Frame { .. } => false,
            DecodeOutcome::Error { can_continue } => !*can_continue,
        }
    }
}

/// The answers of a list, as mathematical values.
pub open spec fn answers(outcomes: Seq<DecodeOutcome>) -> Seq<Decoded> {
    outcomes.map_values(|outcome: DecodeOutcome| outcome@)
}

/// The records that a run of answers yields: those of every frame, in order,
/// up to the first failure after which decoding cannot go on. A failure after
/// which it can is passed over.
pub open spec fn decoded_events(answers: Seq<Decoded>) -> Seq<Map<Slot, Datum>>
    decreases answers.len(),
{
    if answers.len() == 0 {
        Seq::empty()
    } else {
        match answers.first() {
            Decoded::Frame(events) => events + decoded_events(answers.drop_first()),
            Decoded::Error(can_continue) => if can_continue {
                decoded_events(answers.drop_first())
            } else {
                Seq::empty()
            },
        }
    }
}

/// Whether no answer of the run ends the stream.
pub open spec fn all_continue(answers: Seq<Decoded>) -> bool {
    forall|i: int| 0 <= i < answers.len() ==> !(#[trigger] answers[i]).is_fatal()
}

/// Answers that follow a run without a fatal failure add their records to
/// those of the run.
pub proof fn lemma_decoded_events_concat(head: Seq<Decoded>, tail: Seq<Decoded>)
    requires
        all_continue(head),
    ensures
        decoded_events(head + tail) == decoded_events(head) + decoded_events(tail),
    decreases head.len(),
{
    if head.len() == 0 {
        assert(head + tail =~= tail);
    } else {
        let whole = head + tail;
        assert(whole.first() == head.first());
        assert(whole.drop_first() =~= head.drop_first() + tail);
        assert(!head[0].is_fatal());
        assert forall|i: int| 0 <= i < head.drop_first().len() implies !(
        #[trigger] head.drop_first()[i]).is_fatal() by {
            assert(head.drop_first()[i] == head[i + 1]);
        }
        lemma_decoded_events_concat(head.drop_first(), tail);
        match head.first() {
            Decoded::Frame(events) => {
                assert(events + (decoded_events(head.drop_first()) + decoded_events(tail)) =~= (
                events + decoded_events(head.drop_first())) + decoded_events(tail));
            },
            Decoded::Error(_) => {},
        }
    }
}

/// A failure after which decoding cannot go on ends the stream: the records
/// are those decoded before it, whatever the decoder would have answered
/// afterwards.
pub proof fn lemma_fatal_error_ends_stream(head: Seq<Decoded>, tail: Seq<Decoded>)
    requires
        all_continue(head),
    ensures
        decoded_events(head + seq![Decoded::Error(false)] + tail) == decoded_events(head),
{
    let cut = seq![Decoded::Error(false)] + tail;
    assert(head + seq![Decoded::Error(false)] + tail =~= head + cut);
    lemma_decoded_events_concat(head, cut);
    assert(cut.first() == Decoded::Error(false));
    assert(decoded_events(cut) =~= Seq::empty());
    assert(decoded_events(head) + Seq::empty() =~= decoded_events(head));
}

/// A failure after which decoding can go on costs only its own chunk: the
/// records are those of the answers before it and after it.
pub proof fn lemma_continuable_error_is_skipped(head: Seq<Decoded>, tail: Seq<Decoded>)
    requires
        all_continue(head),
    ensures
        decoded_events(head + seq![Decoded::Error(true)] + tail) == decoded_events(head + tail),
{
    let rest = seq![Decoded::Error(true)] + tail;
    assert(head + seq![Decoded::Error(true)] + tail =~= head + rest);
    lemma_decoded_events_concat(head, rest);
    lemma_decoded_events_concat(head, tail);
    assert(rest.first() == Decoded::Error(true));
    assert(rest.drop_first() =~= tail);
}

/// Gathers the records of a delivery from the decoder's answers, in decode
/// order, and stops at the first failure after which decoding cannot go on.
pub fn event_stream(outcomes: Vec<DecodeOutcome>) -> (events: Vec<LogEvent>)
    ensures
        fields_of_each(events@) == decoded_events(answers(outcomes@)),
{
    let ghost all = answers(outcomes@);
    let mut gathered: Vec<LogEvent> = Vec::new();
    let mut stopped = false;
    proof {
        assert(all.skip(0) =~= all);
        assert(fields_of_each(gathered@) + decoded_events(all) =~= decoded_events(all));
    }
    for outcome in it: outcomes
        invariant
            it.seq() == outcomes@,
            all == answers(outcomes@),
            !stopped ==> fields_of_each(gathered@) + decoded_events(all.skip(it.index() as int))
                == decoded_events(all),
            stopped ==> fields_of_each(gathered@) == decoded_events(all),
    {
        let ghost at = it.index() as int;
        let ghost before = fields_of_each(gathered@);
        proof {
            assert(all.skip(at).first() == all[at]);
            assert(all.skip(at).drop_first() =~= all.skip(at + 1));
            assert(all[at] == outcome@);
        }
        if !stopped {
            match outcome {
                DecodeOutcome::Frame { events, byte_size } => {
                    let ghost frame = fields_of_each(events@);
                    for event in jt: events
                        invariant
                            jt.seq() == events@,
                            frame == fields_of_each(events@),
                            fields_of_each(gathered@) == before + frame.take(jt.index() as int),
                    {
                        let ghost k = jt.index() as int;
                        proof {
                            assert(frame[k] == event@);
                            assert(frame.take(k + 1) =~= frame.take(k).push(frame[k]));
                            assert(fields_of_each(gathered@.push(event)) =~= fields_of_each(
                                gathered@,
                            ).push(event@));
                        }
                        gathered.push(event);
                    }
                    proof {
                        assert(frame.take(frame.len() as int) =~= frame);
                        assert((before + frame) + decoded_events(all.skip(at + 1)) =~= before + (
                        frame + decoded_events(all.skip(at + 1))));
                    }
                },
                DecodeOutcome::Error { can_continue } => {
                    if !can_continue {
                        stopped = true;
                        proof {
                            assert(before + Seq::empty() =~= before);
                        }
                    }
                },
            }
        }
    }
    proof {
        assert(all.skip(all.len() as int) =~= Seq::empty());
        assert(fields_of_each(gathered@) + Seq::empty() =~= fields_of_each(gathered@));
    }
    gathered
}

} // verus!
