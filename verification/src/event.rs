//! The events of a study's journal.

use vstd::prelude::*;
use crate::error::Error;
use crate::study::{StudySpec, StudySpecView};
use crate::trial::{Observation, ObservationId, ObservationView, TrialId};
use crate::types::Elapsed;

verus! {

/// Events in the life of a study.
#[derive(Debug)]
pub enum StudyEvent {
    /// The study starts; elapsed time counts from here.
    Started,
    /// The study's description.
    Defined { spec: StudySpec },
}

/// Events in the life of a trial.
#[derive(Debug, Clone, Copy, PartialEq, Eq, Structural)]
pub enum TrialEvent {
    Started { trial_id: TrialId },
    Finished { trial_id: TrialId },
}

/// Events in the life of an observation.
#[derive(Debug)]
pub enum ObservationEvent {
    Started { obs_id: ObservationId, trial_id: TrialId, elapsed: Elapsed },
    /// The observation has ended; the event carries all of it.
    Finished { obs: Observation, elapsed: Elapsed },
}

/// An entry of the journal.
#[derive(Debug)]
pub enum Event {
    Study(StudyEvent),
    Trial(TrialEvent),
    Observation(ObservationEvent),
}

/// The model of an entry of the journal.
pub enum EventView {
    StudyStarted,
    StudyDefined { spec: StudySpecView },
    TrialStarted { trial_id: TrialId },
    TrialFinished { trial_id: TrialId },
    ObservationStarted { obs_id: ObservationId, trial_id: TrialId, elapsed: Elapsed },
    ObservationFinished { obs: ObservationView, elapsed: Elapsed },
}

impl View for Event {
    type V = EventView;

    open spec fn view(&self) -> EventView {
        match self {
            Event::Study(StudyEvent::Started) => EventView::StudyStarted,
            Event::Study(StudyEvent::Defined { spec }) => EventView::StudyDefined { spec: spec@ },
            Event::Trial(TrialEvent::Started { trial_id }) => EventView::TrialStarted {
                trial_id: *trial_id,
            },
            Event::Trial(TrialEvent::Finished { trial_id }) => EventView::TrialFinished {
                trial_id: *trial_id,
            },
            Event::Observation(ObservationEvent::Started { obs_id, trial_id, elapsed }) =>
                EventView::ObservationStarted {
                obs_id: *obs_id,
                trial_id: *trial_id,
                elapsed: *elapsed,
            },
            Event::Observation(ObservationEvent::Finished { obs, elapsed }) =>
                EventView::ObservationFinished { obs: obs@, elapsed: *elapsed },
        }
    }
}

/// The models of a list of events.
pub open spec fn event_views(events: Seq<Event>) -> Seq<EventView> {
    events.map_values(|e: Event| e@)
}

impl EventView {
    /// The elapsed time that an event of an observation carries.
    pub open spec fn elapsed(self) -> Option<Elapsed> {
        match self {
            EventView::ObservationStarted { elapsed, .. } => Some(elapsed),
            EventView::ObservationFinished { elapsed, .. } => Some(elapsed),
            _ => None,
        }
    }

    /// The observation that an event is about.
    pub open spec fn observation_id(self) -> Option<ObservationId> {
        match self {
            EventView::ObservationStarted { obs_id, .. } => Some(obs_id),
            EventView::ObservationFinished { obs, .. } => Some(obs.id),
            _ => None,
        }
    }
}

impl Event {
    /// The elapsed time that an event of an observation carries.
    pub fn elapsed(&self) -> (r: Option<Elapsed>)
        ensures
            r == self@.elapsed(),
    {
        match self {
            Event::Observation(ObservationEvent::Started { elapsed, .. }) => Some(*elapsed),
            Event::Observation(ObservationEvent::Finished { elapsed, .. }) => Some(*elapsed),
            _ => None,
        }
    }

    pub fn study_started() -> (r: Event)
        ensures
            r@ == EventView::StudyStarted,
    {
        Event::Study(StudyEvent::Started)
    }

    pub fn study_defined(spec: StudySpec) -> (r: Event)
        ensures
            r@ == (EventView::StudyDefined { spec: spec@ }),
    {
        Event::Study(StudyEvent::Defined { spec })
    }

    pub fn trial_started(trial_id: TrialId) -> (r: Event)
        ensures
            r@ == (EventView::TrialStarted { trial_id }),
    {
        Event::Trial(TrialEvent::Started { trial_id })
    }

    pub fn trial_finished(trial_id: TrialId) -> (r: Event)
        ensures
            r@ == (EventView::TrialFinished { trial_id }),
    {
        Event::Trial(TrialEvent::Finished { trial_id })
    }

    pub fn observation_started(obs_id: ObservationId, trial_id: TrialId, elapsed: Elapsed) -> (r:
        Event)
        ensures
            r@ == (EventView::ObservationStarted { obs_id, trial_id, elapsed }),
    {
        Event::Observation(ObservationEvent::Started { obs_id, trial_id, elapsed })
    }

    pub fn observation_finished(obs: Observation, elapsed: Elapsed) -> (r: Event)
        ensures
            r@ == (EventView::ObservationFinished { obs: obs@, elapsed }),
    {
        Event::Observation(ObservationEvent::Finished { obs, elapsed })
    }
}

/// The byte that ends a line of the journal.
pub const LINE_END: u8 = 10;

/// Whether a record can stand on a line of its own: it holds no line end.
pub open spec fn is_line(record: Seq<u8>) -> bool {
    forall|i: int| 0 <= i < record.len() ==> #[trigger] record[i] != LINE_END
}

/// The bytes of a journal that holds the given records, one on each line.
pub open spec fn framed(records: Seq<Seq<u8>>) -> Seq<u8>
    decreases records.len(),
{
    if records.len() == 0 {
        Seq::empty()
    } else {
        framed(records.drop_last()) + records.last().push(LINE_END)
    }
}

/// How many bytes come before the first line end, or before the end of
/// the data where there is no line end.
pub open spec fn line_len(data: Seq<u8>) -> int
    decreases data.len(),
{
    if data.len() == 0 || data[0] == LINE_END {
        0
    } else {
        1 + line_len(data.drop_first())
    }
}

/// The first line of the data, without its line end.
pub open spec fn first_line(data: Seq<u8>) -> Seq<u8> {
    data.take(line_len(data))
}

/// What follows the first line and its line end.
pub open spec fn after_first_line(data: Seq<u8>) -> Seq<u8> {
    if line_len(data) < data.len() {
        data.skip(line_len(data) + 1)
    } else {
        Seq::empty()
    }
}

/// The lines of the data, in order. A last line that no line end closes
/// counts as a line.
pub open spec fn lines(data: Seq<u8>) -> Seq<Seq<u8>>
    decreases data.len(),
{
    if data.len() == 0 {
        Seq::empty()
    } else {
        proof {
            lemma_line_len(data);
        }
        seq![first_line(data)] + lines(after_first_line(data))
    }
}

/// The length of a line lies within the data, no byte of the line is a
/// line end, and the byte behind the line, if there is one, is.
pub proof fn lemma_line_len(data: Seq<u8>)
    ensures
        0 <= line_len(data) <= data.len(),
        is_line(first_line(data)),
        line_len(data) < data.len() ==> data[line_len(data)] == LINE_END,
        after_first_line(data).len() < data.len() || data.len() == 0,
    decreases data.len(),
{
    if data.len() == 0 || data[0] == LINE_END {
    } else {
        let rest = data.drop_first();
        lemma_line_len(rest);
        assert forall|i: int| 0 <= i < first_line(data).len() implies #[trigger] first_line(data)[i]
            != LINE_END by {
            if i > 0 {
                assert(first_line(data)[i] == first_line(rest)[i - 1]);
            }
        }
    }
}

/// A record that holds no line end, followed by a line end and anything
/// else, is the first line of the whole, and what follows is the rest.
pub proof fn lemma_first_line(record: Seq<u8>, rest: Seq<u8>)
    requires
        is_line(record),
    ensures
        line_len(record.push(LINE_END) + rest) == record.len(),
        first_line(record.push(LINE_END) + rest) == record,
        after_first_line(record.push(LINE_END) + rest) == rest,
    decreases record.len(),
{
    let data = record.push(LINE_END) + rest;
    if record.len() == 0 {
        assert(data[0] == LINE_END);
        assert(data.take(0) =~= record);
        assert(data.skip(1) =~= rest);
    } else {
        assert(data[0] == record[0]);
        let shorter = record.drop_first();
        assert forall|i: int| 0 <= i < shorter.len() implies #[trigger] shorter[i] != LINE_END by {
            assert(shorter[i] == record[i + 1]);
        }
        lemma_first_line(shorter, rest);
        assert(data.drop_first() =~= shorter.push(LINE_END) + rest);
        assert(data.take(record.len() as int) =~= record);
        assert(data.skip(record.len() as int + 1) =~= rest);
    }
}

/// Writing records and a further one is writing the further one behind
/// the others; put in front instead, it is the first line of the whole.
proof fn lemma_framed_front(first: Seq<u8>, others: Seq<Seq<u8>>)
    ensures
        framed(seq![first] + others) == first.push(LINE_END) + framed(others),
    decreases others.len(),
{
    let all = seq![first] + others;
    if others.len() == 0 {
        assert(all.drop_last() =~= Seq::<Seq<u8>>::empty());
        assert(framed(all.drop_last()) =~= Seq::<u8>::empty());
        assert(all.last() == first);
        assert(framed(all) =~= first.push(LINE_END));
        assert(first.push(LINE_END) + framed(others) =~= first.push(LINE_END));
    } else {
        lemma_framed_front(first, others.drop_last());
        assert(all.drop_last() =~= seq![first] + others.drop_last());
        assert(all.last() == others.last());
        assert(framed(all) =~= first.push(LINE_END) + framed(others));
    }
}

/// A journal that is written and then read gives back the records that
/// were written, in order: the lines of the framed records are the
/// records, provided that no record holds a line end.
pub proof fn lemma_lines_of_framed(records: Seq<Seq<u8>>)
    requires
        forall|i: int| 0 <= i < records.len() ==> is_line(#[trigger] records[i]),
    ensures
        lines(framed(records)) == records,
    decreases records.len(),
{
    if records.len() == 0 {
        assert(lines(framed(records)) =~= records);
    } else {
        let first = records[0];
        let others = records.drop_first();
        assert(records =~= seq![first] + others);
        lemma_framed_front(first, others);
        lemma_first_line(first, framed(others));
        assert forall|i: int| 0 <= i < others.len() implies is_line(#[trigger] others[i]) by {
            assert(others[i] == records[i + 1]);
        }
        lemma_lines_of_framed(others);
        let data = framed(records);
        assert(data.len() > 0);
        assert(lines(data) =~= seq![first] + others);
    }
}

/// A writer of the journal into memory: every record goes on a line of
/// its own.
#[derive(Debug)]
pub struct EventWriter {
    buffer: Vec<u8>,
}

impl View for EventWriter {
    type V = Seq<u8>;

    closed spec fn view(&self) -> Seq<u8> {
        self.buffer@
    }
}

impl EventWriter {
    /// A writer that has written nothing.
    pub fn new() -> (r: Self)
        ensures
            r@ == Seq::<u8>::empty(),
    {
        Self { buffer: Vec::new() }
    }

    /// Writes a record and ends its line. A record that holds a line end
    /// is refused and nothing is written.
    pub fn write(&mut self, record: &[u8]) -> (r: Result<(), Error>)
        ensures
            is_line(record@) ==> r is Ok && final(self)@ == old(self)@ + record@.push(LINE_END),
            !is_line(record@) ==> r is Err && r->Err_0 == Error::MalformedLine && final(self)@
                == old(self)@,
    {
        let n = record.len();
        let mut i: usize = 0;
        while i < n
            invariant
                n == record@.len(),
                i <= n,
                forall|j: int| 0 <= j < i ==> #[trigger] record@[j] != LINE_END,
            decreases n - i,
        {
            if record[i] == LINE_END {
                return Err(Error::MalformedLine);
            }
            i = i + 1;
        }
        let mut k: usize = 0;
        while k < n
            invariant
                n == record@.len(),
                k <= n,
                self@ == old(self)@ + record@.take(k as int),
            decreases n - k,
        {
            self.buffer.push(record[k]);
            proof {
                assert(self@ =~= old(self)@ + record@.take(k + 1));
            }
            k = k + 1;
        }
        self.buffer.push(LINE_END);
        proof {
            assert(record@.take(n as int) =~= record@);
            assert(self@ =~= old(self)@ + record@.push(LINE_END));
        }
        Ok(())
    }

    /// Hands over what has been written, for it to be flushed, and starts
    /// anew.
    pub fn take(&mut self) -> (r: Vec<u8>)
        ensures
            r@ == old(self)@,
            final(self)@ == Seq::<u8>::empty(),
    {
        let mut out: Vec<u8> = Vec::new();
        std::mem::swap(&mut self.buffer, &mut out);
        out
    }
}

/// A reader of the journal from memory, line by line.
#[derive(Debug)]
pub struct EventReader {
    data: Vec<u8>,
    position: usize,
}

impl View for EventReader {
    type V = Seq<u8>;

    /// What is left to read.
    closed spec fn view(&self) -> Seq<u8> {
        self.data@.skip(self.position as int)
    }
}

impl EventReader {
    #[verifier::type_invariant]
    spec fn inv(self) -> bool {
        self.position <= self.data@.len()
    }

    /// A reader at the start of `data`.
    pub fn new(data: Vec<u8>) -> (r: Self)
        ensures
            r@ == data@,
    {
        let r = Self { data, position: 0 };
        assert(r@ =~= data@);
        r
    }

    /// Reads the next line, without its line end. At the end of the data
    /// there is none.
    pub fn read(&mut self) -> (r: Option<Vec<u8>>)
        ensures
            old(self)@.len() == 0 ==> r is None && final(self)@ == old(self)@,
            old(self)@.len() > 0 ==> r is Some && r.unwrap()@ == first_line(old(self)@)
                && final(self)@ == after_first_line(old(self)@),
    {
        proof {
            use_type_invariant(&*self);
        }
        let n = self.data.len();
        let start = self.position;
        if start == n {
            return None;
        }
        let ghost left = self@;
        let mut line: Vec<u8> = Vec::new();
        let mut i: usize = start;
        proof {
            assert(left.skip(0) =~= left);
            assert(line@ =~= left.take(0));
        }
        while i < n && self.data[i] != LINE_END
            invariant
                n == self.data@.len(),
                start <= i <= n,
                self.position == start,
                left == self.data@.skip(start as int),
                line@ == left.take(i - start),
                line_len(left) == (i - start) + line_len(left.skip(i - start)),
            decreases n - i,
        {
            proof {
                let rest = left.skip(i - start);
                assert(rest[0] == self.data@[i as int]);
                assert(rest.drop_first() =~= left.skip(i - start + 1));
            }
            line.push(self.data[i]);
            proof {
                assert(line@ =~= left.take(i + 1 - start));
            }
            i = i + 1;
        }
        proof {
            let rest = left.skip(i - start);
            if i < n {
                assert(rest[0] == self.data@[i as int]);
            } else {
                assert(rest.len() == 0);
            }
            assert(line_len(left) == i - start);
        }
        let next = if i < n {
            i + 1
        } else {
            i
        };
        self.position = next;
        proof {
            assert(self@ =~= after_first_line(left));
        }
        Some(line)
    }
}

} // verus!
