//! Reading a journal for its results: for every study, the best
//! observation of every metric.

use vstd::prelude::*;
use crate::event::{event_views, Event, EventView, ObservationEvent, StudyEvent};
use crate::metric::MetricInstance;
use crate::ordmap::{
    keys_sorted, lemma_map_entries, lookup, map_entries, put, Entries, OrderedMap,
};
use crate::trial::{CompactObservation, CompactObservationView, Observation, ObservationView};

verus! {

/// The options of the report of best observations. There are none yet.
#[derive(Debug, Clone, Copy)]
pub struct BestOpt {}

/// What to show of a journal.
#[derive(Debug, Clone, Copy)]
pub enum ShowOpt {
    /// For every study, the best observation of every metric.
    Best(BestOpt),
}

/// The best observations of one study: for every metric name, the
/// observation that holds the best value reported under that name.
#[derive(Debug)]
pub struct BestReport {
    pub study_name: String,
    pub study_id: u128,
    pub best: OrderedMap<CompactObservation>,
}

/// The model of a report.
pub struct BestReportView {
    pub study_name: String,
    pub study_id: u128,
    pub best: Entries<CompactObservationView>,
}

/// The models of stored observations.
pub open spec fn compact_views(s: Entries<CompactObservation>) -> Entries<CompactObservationView> {
    map_entries(s, |c: CompactObservation| c@)
}

/// Storing and looking up commute with taking the models of observations.
pub proof fn lemma_compact_views(
    s: Entries<CompactObservation>,
    name: Seq<char>,
    value: CompactObservation,
)
    ensures
        compact_views(put(s, name, value)) == put(compact_views(s), name, value@),
        lookup(compact_views(s), name) == match lookup(s, name) {
            Some(v) => Some(v@),
            None => None,
        },
{
    lemma_map_entries(s, |c: CompactObservation| c@, name, value);
}

impl View for BestReport {
    type V = BestReportView;

    open spec fn view(&self) -> BestReportView {
        BestReportView {
            study_name: self.study_name,
            study_id: self.study_id,
            best: compact_views(self.best@),
        }
    }
}

/// Whether an observation that reports `metric` under `name` takes the
/// place of what `best` holds under that name: it does where nothing is
/// held, and where its value beats the value held.
pub open spec fn replaces(
    best: Entries<CompactObservationView>,
    name: Seq<char>,
    metric: MetricInstance,
) -> bool {
    match lookup(best, name) {
        None => true,
        Some(held) => match lookup(held.metrics, name) {
            Some(value) => metric.better_than(value),
            None => true,
        },
    }
}

/// The best observations after the first `n` metrics of `obs` have been
/// held against them, one after the other in the order of their names.
pub open spec fn champions(best: Entries<CompactObservationView>, obs: ObservationView, n: int)
    -> Entries<CompactObservationView>
    decreases n,
{
    if n <= 0 {
        best
    } else {
        let so_far = champions(best, obs, n - 1);
        let (name, metric) = obs.metrics[n - 1];
        if replaces(so_far, name, metric) {
            put(so_far, name, obs.compact())
        } else {
            so_far
        }
    }
}

/// What the best observations hold under `name` after `metric` was
/// reported under that name by an observation whose values are `compact`,
/// or after nothing was reported under it where `metric` is none.
pub open spec fn champion(
    best: Entries<CompactObservationView>,
    name: Seq<char>,
    metric: Option<MetricInstance>,
    compact: CompactObservationView,
) -> Option<CompactObservationView> {
    match metric {
        Some(m) => if replaces(best, name, m) {
            Some(compact)
        } else {
            lookup(best, name)
        },
        None => lookup(best, name),
    }
}

/// The best observations after the first `n` metrics of an observation,
/// name by name.
proof fn lemma_champions_prefix(
    best: Entries<CompactObservationView>,
    obs: ObservationView,
    n: int,
    name: Seq<char>,
)
    requires
        keys_sorted(best),
        keys_sorted(obs.metrics),
        0 <= n <= obs.metrics.len(),
    ensures
        keys_sorted(champions(best, obs, n)),
        keys_sorted(obs.metrics.take(n)),
        lookup(champions(best, obs, n), name) == champion(
            best,
            name,
            lookup(obs.metrics.take(n), name),
            obs.compact(),
        ),
    decreases n,
{
    let shorter = obs.metrics.take(n - 1);
    let prefix = obs.metrics.take(n);
    assert forall|i: int, j: int| 0 <= i < j < prefix.len() implies crate::text::lex_lt(
        #[trigger] prefix[i].0,
        #[trigger] prefix[j].0,
    ) by {
        assert(crate::text::lex_lt(obs.metrics[i].0, obs.metrics[j].0));
    }
    if n <= 0 {
        assert(prefix.len() == 0);
    } else {
        let (last, metric) = obs.metrics[n - 1];
        lemma_champions_prefix(best, obs, n - 1, name);
        lemma_champions_prefix(best, obs, n - 1, last);
        let so_far = champions(best, obs, n - 1);
        // the prefix grows by its last entry, whose name is new
        assert forall|j: int| 0 <= j < shorter.len() implies crate::text::lex_lt(
            #[trigger] shorter[j].0,
            last,
        ) by {
            assert(crate::text::lex_lt(obs.metrics[j].0, obs.metrics[n - 1].0));
        }
        crate::ordmap::lemma_put_last(shorter, last, metric);
        assert(prefix =~= shorter.push((last, metric)));
        crate::ordmap::lemma_lookup_none(shorter, last);
        assert(lookup(shorter, last) is None) by {
            assert forall|i: int| 0 <= i < shorter.len() implies (#[trigger] shorter[i]).0 != last by {
                crate::text::lemma_lex_asymmetric(shorter[i].0, last);
            }
        }
        assert(replaces(so_far, last, metric) == replaces(best, last, metric));
        crate::ordmap::lemma_put_sorted(so_far, last, obs.compact());
        if name == last {
            crate::ordmap::lemma_lookup_put_same(shorter, last, metric);
            if replaces(so_far, last, metric) {
                crate::ordmap::lemma_lookup_put_same(so_far, last, obs.compact());
            }
        } else {
            crate::ordmap::lemma_lookup_put_other(shorter, last, metric, name);
            if replaces(so_far, last, metric) {
                crate::ordmap::lemma_lookup_put_other(so_far, last, obs.compact(), name);
            }
        }
    }
}

/// Holding an observation against the best ones treats every name on its
/// own: under a name that the observation reports, the observation takes
/// the place of what was held where nothing was held or where its value
/// beats the value held; under every other name, what was held stays.
pub proof fn lemma_champions_by_name(
    best: Entries<CompactObservationView>,
    obs: ObservationView,
    name: Seq<char>,
)
    requires
        keys_sorted(best),
        keys_sorted(obs.metrics),
    ensures
        keys_sorted(champions(best, obs, obs.metrics.len() as int)),
        lookup(champions(best, obs, obs.metrics.len() as int), name) == champion(
            best,
            name,
            lookup(obs.metrics, name),
            obs.compact(),
        ),
{
    lemma_champions_prefix(best, obs, obs.metrics.len() as int, name);
    assert(obs.metrics.take(obs.metrics.len() as int) =~= obs.metrics);
}

/// The model of a reader of results: the study being read, the best
/// observations found in it, and whether events are being skipped until
/// the next description of a study.
pub struct BestState {
    pub study: Option<(String, u128)>,
    pub best: Entries<CompactObservationView>,
    pub skip: bool,
}

impl BestState {
    /// The state that a reader starts in.
    pub open spec fn initial() -> BestState {
        BestState { study: None, best: Seq::empty(), skip: true }
    }

    /// The report of the study being read, if one is being read.
    pub open spec fn report(self) -> Option<BestReportView> {
        match self.study {
            Some((name, id)) => Some(
                BestReportView { study_name: name, study_id: id, best: self.best },
            ),
            None => None,
        }
    }

    /// The state after event `e`. The description of a study opens a new
    /// study with nothing found yet. The start of a study makes the reader
    /// skip up to the next description. A finished observation that is not
    /// skipped is held against the best ones, metric by metric. Every other
    /// event changes nothing.
    pub open spec fn after(self, e: EventView) -> BestState {
        match e {
            EventView::StudyDefined { spec } => BestState {
                study: Some((spec.name, spec.id)),
                best: Seq::empty(),
                skip: false,
            },
            EventView::StudyStarted => BestState { skip: true, ..self },
            EventView::ObservationFinished { obs, .. } => if self.skip {
                self
            } else {
                BestState { best: champions(self.best, obs, obs.metrics.len() as int), ..self }
            },
            _ => self,
        }
    }

    /// The report that event `e` closes: that of the study being read, when
    /// `e` describes the next study.
    pub open spec fn closed_by(self, e: EventView) -> Option<BestReportView> {
        if e is StudyDefined {
            self.report()
        } else {
            None
        }
    }
}

/// The state of a reader after a list of events.
pub open spec fn state_after(events: Seq<EventView>) -> BestState
    decreases events.len(),
{
    if events.len() == 0 {
        BestState::initial()
    } else {
        state_after(events.drop_last()).after(events.last())
    }
}

/// A list of nothing or of one element.
pub open spec fn optional<A>(a: Option<A>) -> Seq<A> {
    match a {
        Some(x) => seq![x],
        None => Seq::empty(),
    }
}

/// The reports that a list of events closes, in order.
pub open spec fn closed_reports(events: Seq<EventView>) -> Seq<BestReportView>
    decreases events.len(),
{
    if events.len() == 0 {
        Seq::empty()
    } else {
        closed_reports(events.drop_last()) + optional(
            state_after(events.drop_last()).closed_by(events.last()),
        )
    }
}

/// The reports of a journal: one for every study it describes, in order;
/// the last is that of the study being read when the journal ends.
pub open spec fn reports(events: Seq<EventView>) -> Seq<BestReportView> {
    closed_reports(events) + optional(state_after(events).report())
}

/// The models of a list of reports.
pub open spec fn report_views(reports: Seq<BestReport>) -> Seq<BestReportView> {
    reports.map_values(|r: BestReport| r@)
}

/// A reader of results.
#[derive(Debug)]
pub struct BestTracker {
    study: Option<(String, u128)>,
    best: OrderedMap<CompactObservation>,
    skip: bool,
}

impl View for BestTracker {
    type V = BestState;

    closed spec fn view(&self) -> BestState {
        BestState { study: self.study, best: compact_views(self.best@), skip: self.skip }
    }
}

impl BestTracker {
    /// A reader that has read nothing.
    pub fn new() -> (r: Self)
        ensures
            r@ == BestState::initial(),
    {
        let r = Self { study: None, best: OrderedMap::new(), skip: true };
        assert(r@.best =~= Seq::empty());
        r
    }

    /// Holds the metrics of `obs` against the best observations found.
    fn compete(&mut self, obs: &Observation)
        ensures
            final(self)@ == (BestState {
                best: champions(old(self)@.best, obs@, obs@.metrics.len() as int),
                ..old(self)@
            }),
    {
        let n = obs.metrics.len();
        let mut k: usize = 0;
        while k < n
            invariant
                n == obs@.metrics.len(),
                k <= n,
                self@ == (BestState { best: champions(old(self)@.best, obs@, k as int), ..old(self)@ }),
            decreases n - k,
        {
            let name = obs.metrics.key(k);
            let metric = obs.metrics.value(k);
            let ghost so_far = self@.best;
            proof {
                lemma_compact_views(self.best@, name@, arbitrary());
            }
            let replace = match self.best.get(name.as_str()) {
                None => true,
                Some(held) => match held.metrics.get(name.as_str()) {
                    Some(value) => metric.is_better_than(*value),
                    None => true,
                },
            };
            assert(replace == replaces(so_far, name@, *metric));
            if replace {
                let compact = obs.to_compact();
                proof {
                    lemma_compact_views(self.best@, name@, compact);
                }
                self.best.insert(name.clone(), compact);
            }
            k = k + 1;
        }
    }

    /// Reads one event. Where the event closes a study, the report of
    /// that study is the result.
    pub fn handle(&mut self, event: &Event) -> (r: Option<BestReport>)
        ensures
            final(self)@ == old(self)@.after(event@),
            match r {
                Some(report) => Some(report@),
                None => None,
            } == old(self)@.closed_by(event@),
    {
        match event {
            Event::Study(StudyEvent::Defined { spec }) => {
                let mut best: OrderedMap<CompactObservation> = OrderedMap::new();
                assert(compact_views(best@) =~= Seq::empty());
                std::mem::swap(&mut self.best, &mut best);
                let mut study = Some((spec.name.clone(), spec.id));
                std::mem::swap(&mut self.study, &mut study);
                self.skip = false;
                match study {
                    Some((name, id)) => Some(
                        BestReport { study_name: name, study_id: id, best },
                    ),
                    None => None,
                }
            },
            Event::Study(StudyEvent::Started) => {
                self.skip = true;
                None
            },
            Event::Observation(ObservationEvent::Finished { obs, .. }) => {
                if !self.skip {
                    self.compete(obs);
                }
                None
            },
            _ => None,
        }
    }

    /// Ends the reading: the report of the study being read, if one is, is
    /// the result.
    pub fn finish(self) -> (r: Option<BestReport>)
        ensures
            match r {
                Some(report) => Some(report@),
                None => None,
            } == self@.report(),
    {
        match self.study {
            Some((name, id)) => Some(BestReport { study_name: name, study_id: id, best: self.best }),
            None => None,
        }
    }
}

impl ShowOpt {
    /// The reports that a journal gives rise to.
    pub fn show(&self, events: &Vec<Event>) -> (r: Vec<BestReport>)
        ensures
            report_views(r@) == reports(event_views(events@)),
    {
        match self {
            ShowOpt::Best(opt) => self.show_best(opt, events),
        }
    }

    /// For every study of the journal, the best observation of every
    /// metric.
    pub fn show_best(&self, _opt: &BestOpt, events: &Vec<Event>) -> (r: Vec<BestReport>)
        ensures
            report_views(r@) == reports(event_views(events@)),
    {
        let ghost all = event_views(events@);
        let mut tracker = BestTracker::new();
        let mut out: Vec<BestReport> = Vec::new();
        let n = events.len();
        let mut i: usize = 0;
        proof {
            assert(report_views(out@) =~= Seq::<BestReportView>::empty());
        }
        while i < n
            invariant
                n == events@.len(),
                all == event_views(events@),
                i <= n,
                tracker@ == state_after(all.take(i as int)),
                report_views(out@) == closed_reports(all.take(i as int)),
            decreases n - i,
        {
            proof {
                let next = all.take(i + 1);
                assert(next.drop_last() =~= all.take(i as int));
                assert(next.last() == events@[i as int]@);
            }
            let ghost before = report_views(out@);
            match tracker.handle(&events[i]) {
                Some(report) => {
                    let ghost shown = report@;
                    out.push(report);
                    assert(report_views(out@) =~= before + seq![shown]);
                },
                None => {
                    assert(report_views(out@) =~= before + Seq::<BestReportView>::empty());
                },
            }
            i = i + 1;
        }
        proof {
            assert(all.take(n as int) =~= all);
        }
        let ghost before = report_views(out@);
        match tracker.finish() {
            Some(report) => {
                let ghost shown = report@;
                out.push(report);
                assert(report_views(out@) =~= before + seq![shown]);
            },
            None => {
                assert(report_views(out@) =~= before + Seq::<BestReportView>::empty());
            },
        }
        out
    }
}

/// Two observations hold the same values: they differ in their
/// identifiers at most.
pub open spec fn same_values(a: CompactObservationView, b: CompactObservationView) -> bool {
    a.params == b.params && a.metrics == b.metrics
}

/// Two lists of best observations hold the same values under the same
/// names.
pub open spec fn alike(a: Entries<CompactObservationView>, b: Entries<CompactObservationView>) -> bool {
    &&& a.len() == b.len()
    &&& forall|i: int| 0 <= i < a.len() ==> (#[trigger] a[i]).0 == b[i].0 && same_values(a[i].1, b[i].1)
}

/// Lists that hold the same names rank every name alike.
proof fn lemma_rank_alike(
    a: Entries<CompactObservationView>,
    b: Entries<CompactObservationView>,
    name: Seq<char>,
)
    requires
        alike(a, b),
    ensures
        crate::ordmap::rank(a, name) == crate::ordmap::rank(b, name),
    decreases a.len(),
{
    if a.len() > 0 {
        assert(a[0].0 == b[0].0);
        let x = a.drop_first();
        let y = b.drop_first();
        assert forall|i: int| 0 <= i < x.len() implies (#[trigger] x[i]).0 == y[i].0 && same_values(
            x[i].1,
            y[i].1,
        ) by {
            assert(a[i + 1].0 == b[i + 1].0);
        }
        lemma_rank_alike(x, y, name);
    }
}

/// Which observation is best does not depend on identifiers: held against
/// lists with the same values, observations with the same values give
/// lists with the same values. So a journal that was taken over under new
/// identifiers names, metric by metric, the same observations as best as
/// the journal it was taken from.
pub proof fn lemma_champions_alike(
    a: Entries<CompactObservationView>,
    b: Entries<CompactObservationView>,
    obs: ObservationView,
    other: ObservationView,
    n: int,
)
    requires
        alike(a, b),
        obs.params == other.params,
        obs.metrics == other.metrics,
        n <= obs.metrics.len(),
    ensures
        alike(champions(a, obs, n), champions(b, other, n)),
    decreases n,
{
    if n > 0 {
        lemma_champions_alike(a, b, obs, other, n - 1);
        let x = champions(a, obs, n - 1);
        let y = champions(b, other, n - 1);
        let (name, metric) = obs.metrics[n - 1];
        lemma_rank_alike(x, y, name);
        crate::ordmap::lemma_rank(x, name);
        let r = crate::ordmap::rank(x, name);
        if r < x.len() {
            assert(x[r].0 == y[r].0 && same_values(x[r].1, y[r].1));
        }
        assert(replaces(x, name, metric) == replaces(y, name, metric));
        if replaces(x, name, metric) {
            let p = put(x, name, obs.compact());
            let q = put(y, name, other.compact());
            assert(same_values(obs.compact(), other.compact()));
            assert forall|i: int| 0 <= i < p.len() implies (#[trigger] p[i]).0 == q[i].0
                && same_values(p[i].1, q[i].1) by {
                if r < x.len() && x[r].0 == name {
                    if i != r {
                        assert(x[i].0 == y[i].0 && same_values(x[i].1, y[i].1));
                    }
                } else if i < r {
                    assert(x[i].0 == y[i].0 && same_values(x[i].1, y[i].1));
                } else if i > r {
                    assert(x[i - 1].0 == y[i - 1].0 && same_values(x[i - 1].1, y[i - 1].1));
                }
            }
        }
    }
}

/// Two events look the same to a reader of results: both describe a
/// study of the same name and identifier, both start a study, both finish
/// an observation with the same values, or both are none of these.
pub open spec fn events_alike(a: EventView, b: EventView) -> bool {
    match a {
        EventView::StudyDefined { spec } => b matches EventView::StudyDefined { spec: other }
            && spec.name == other.name && spec.id == other.id,
        EventView::StudyStarted => b is StudyStarted,
        EventView::ObservationFinished { obs, .. } => b matches EventView::ObservationFinished {
            obs: other,
            ..
        } && obs.params == other.params && obs.metrics == other.metrics,
        _ => !(b is StudyDefined || b is StudyStarted || b is ObservationFinished),
    }
}

/// Two journals look the same to a reader of results, event by event.
pub open spec fn journals_alike(a: Seq<EventView>, b: Seq<EventView>) -> bool {
    &&& a.len() == b.len()
    &&& forall|i: int| 0 <= i < a.len() ==> events_alike(#[trigger] a[i], b[i])
}

/// Two states of a reader hold the same study and the same values.
pub open spec fn states_alike(a: BestState, b: BestState) -> bool {
    a.study == b.study && a.skip == b.skip && alike(a.best, b.best)
}

/// Two lists of reports name the same studies and hold the same values.
pub open spec fn reports_alike(a: Seq<BestReportView>, b: Seq<BestReportView>) -> bool {
    &&& a.len() == b.len()
    &&& forall|i: int|
        0 <= i < a.len() ==> (#[trigger] a[i]).study_name == b[i].study_name && a[i].study_id
            == b[i].study_id && alike(a[i].best, b[i].best)
}

/// Journals that look the same leave a reader in states that hold the same
/// values, and close reports that hold the same values.
proof fn lemma_states_alike(a: Seq<EventView>, b: Seq<EventView>)
    requires
        journals_alike(a, b),
    ensures
        states_alike(state_after(a), state_after(b)),
        reports_alike(closed_reports(a), closed_reports(b)),
    decreases a.len(),
{
    if a.len() > 0 {
        let x = a.drop_last();
        let y = b.drop_last();
        assert forall|i: int| 0 <= i < x.len() implies events_alike(#[trigger] x[i], y[i]) by {
            assert(events_alike(a[i], b[i]));
        }
        lemma_states_alike(x, y);
        assert(events_alike(a[a.len() - 1], b[a.len() - 1]));
        let s = state_after(x);
        let t = state_after(y);
        match a.last() {
            EventView::ObservationFinished { obs, .. } => {
                let other = b.last()->ObservationFinished_obs;
                if !s.skip {
                    lemma_champions_alike(s.best, t.best, obs, other, obs.metrics.len() as int);
                }
            },
            _ => {},
        }
        let p = closed_reports(x);
        let q = closed_reports(y);
        let u = optional(s.closed_by(a.last()));
        let v = optional(t.closed_by(b.last()));
        assert(u.len() == v.len());
        assert forall|i: int| 0 <= i < (p + u).len() implies (#[trigger] (p + u)[i]).study_name == (q
            + v)[i].study_name && (p + u)[i].study_id == (q + v)[i].study_id && alike(
            (p + u)[i].best,
            (q + v)[i].best,
        ) by {
            if i < p.len() {
                assert((p + u)[i] == p[i]);
                assert((q + v)[i] == q[i]);
            } else {
                assert((p + u)[i] == u[0]);
                assert((q + v)[i] == v[0]);
            }
        }
    }
}

/// The best observations of a journal do not depend on identifiers:
/// journals that look the same to a reader of results give reports that
/// name the same studies and hold, under every metric, observations with
/// the same values.
pub proof fn lemma_reports_alike(a: Seq<EventView>, b: Seq<EventView>)
    requires
        journals_alike(a, b),
    ensures
        reports_alike(reports(a), reports(b)),
{
    lemma_states_alike(a, b);
    let p = closed_reports(a);
    let q = closed_reports(b);
    let u = optional(state_after(a).report());
    let v = optional(state_after(b).report());
    assert(u.len() == v.len());
    assert forall|i: int| 0 <= i < (p + u).len() implies (#[trigger] (p + u)[i]).study_name == (q
        + v)[i].study_name && (p + u)[i].study_id == (q + v)[i].study_id && alike(
        (p + u)[i].best,
        (q + v)[i].best,
    ) by {
        if i < p.len() {
            assert((p + u)[i] == p[i]);
            assert((q + v)[i] == q[i]);
        } else {
            assert((p + u)[i] == u[0]);
            assert((q + v)[i] == v[0]);
        }
    }
}

} // verus!
