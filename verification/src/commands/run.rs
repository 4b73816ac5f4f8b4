//! Running a study.

use vstd::prelude::*;
use crate::attr::Attr;
use crate::ordmap::{put, Entries, OrderedMap};
use crate::runner::StudyRunnerOpt;
use crate::study::{CommandSpec, StudySpec, StudySpecView};
use crate::tuners::TunerSpec;
use crate::types::clone_strings;

verus! {

/// The options of a run.
#[derive(Debug)]
pub struct RunOpt {
    /// The name of the study; none means that a fresh name is made up.
    pub study_name: Option<String>,
    pub study_attrs: Vec<Attr>,
    /// How many workers may run at the same time.
    pub workers: usize,
    /// After how many finished observations the study ends.
    pub repeat: Option<usize>,
    /// The journals of earlier studies to resume from.
    pub load: Vec<String>,
    pub tuner: Option<TunerSpec>,
    pub command: String,
    pub args: Vec<String>,
}

/// The attributes as a map; of two attributes with the same key the later
/// one stays.
pub open spec fn collected(attrs: Seq<Attr>) -> Entries<String>
    decreases attrs.len(),
{
    if attrs.len() == 0 {
        Seq::empty()
    } else {
        put(collected(attrs.drop_last()), attrs.last().key@, attrs.last().value)
    }
}

impl RunOpt {
    /// The description of the study that the options ask for, where
    /// `fresh_name` is a name made up for a study without one and `id` is
    /// the identifier made up for the study.
    pub open spec fn study(&self, fresh_name: String, id: u128) -> StudySpecView {
        StudySpecView {
            name: match self.study_name {
                Some(name) => name,
                None => fresh_name,
            },
            id,
            attrs: collected(self.study_attrs@),
            tuner: match self.tuner {
                Some(tuner) => tuner,
                None => TunerSpec { retry: 0, inner: None },
            },
            command_path: self.command,
            command_args: self.args@,
        }
    }

    /// What the study is run with: its description, the number of workers
    /// and the number of observations to finish.
    pub fn run(&self, fresh_name: String, id: u128) -> (r: StudyRunnerOpt)
        ensures
            r.study@ == self.study(fresh_name, id),
            r.workers == self.workers,
            r.repeat == self.repeat,
    {
        let mut attrs: OrderedMap<String> = OrderedMap::new();
        let n = self.study_attrs.len();
        let mut i: usize = 0;
        while i < n
            invariant
                n == self.study_attrs@.len(),
                i <= n,
                attrs@ == collected(self.study_attrs@.take(i as int)),
            decreases n - i,
        {
            proof {
                let next = self.study_attrs@.take(i + 1);
                assert(next.drop_last() =~= self.study_attrs@.take(i as int));
                assert(next.last() == self.study_attrs@[i as int]);
            }
            attrs.insert(self.study_attrs[i].key.clone(), self.study_attrs[i].value.clone());
            i = i + 1;
        }
        proof {
            assert(self.study_attrs@.take(n as int) =~= self.study_attrs@);
        }
        let name = match &self.study_name {
            Some(name) => name.clone(),
            None => fresh_name,
        };
        let tuner = match self.tuner {
            Some(tuner) => tuner,
            None => TunerSpec::new(),
        };
        StudyRunnerOpt {
            study: StudySpec {
                name,
                id,
                attrs,
                tuner,
                command: CommandSpec {
                    path: self.command.clone(),
                    args: clone_strings(self.args.as_slice()),
                },
            },
            workers: self.workers,
            repeat: self.repeat,
        }
    }
}

} // verus!
