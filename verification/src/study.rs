//! The description of a study.

use vstd::prelude::*;
use crate::ordmap::{keys_sorted, Entries, OrderedMap};
use crate::tuners::TunerSpec;
use crate::types::clone_strings;

verus! {

/// The command that is run once per observation.
#[derive(Debug)]
pub struct CommandSpec {
    pub path: String,
    pub args: Vec<String>,
}

/// The description of a study; it does not change once the study runs.
#[derive(Debug)]
pub struct StudySpec {
    pub name: String,
    /// The study's universally unique identifier, as a number.
    pub id: u128,
    pub attrs: OrderedMap<String>,
    pub tuner: TunerSpec,
    pub command: CommandSpec,
}

/// The model of a study's description.
pub struct StudySpecView {
    pub name: String,
    pub id: u128,
    pub attrs: Entries<String>,
    pub tuner: TunerSpec,
    pub command_path: String,
    pub command_args: Seq<String>,
}

impl View for StudySpec {
    type V = StudySpecView;

    open spec fn view(&self) -> StudySpecView {
        StudySpecView {
            name: self.name,
            id: self.id,
            attrs: self.attrs@,
            tuner: self.tuner,
            command_path: self.command.path,
            command_args: self.command.args@,
        }
    }
}

impl StudySpec {
    /// A copy of the description.
    pub fn duplicate(&self) -> (r: Self)
        ensures
            r@ == self@,
    {
        let mut attrs: OrderedMap<String> = OrderedMap::new();
        let n = self.attrs.len();
        let mut i: usize = 0;
        while i < n
            invariant
                n == self.attrs@.len(),
                i <= n,
                keys_sorted(self.attrs@),
                attrs@ == self.attrs@.take(i as int),
            decreases n - i,
        {
            let name = self.attrs.key(i).clone();
            let value = self.attrs.value(i).clone();
            attrs.append(name, value);
            proof {
                assert(attrs@ =~= self.attrs@.take(i + 1));
            }
            i = i + 1;
        }
        proof {
            assert(self.attrs@.take(n as int) =~= self.attrs@);
        }
        Self {
            name: self.name.clone(),
            id: self.id,
            attrs,
            tuner: self.tuner,
            command: CommandSpec {
                path: self.command.path.clone(),
                args: clone_strings(self.command.args.as_slice()),
            },
        }
    }
}

} // verus!
