//! The temporary directories of a study, of its trials and of its
//! observations.
//!
//! The manager keeps, for every directory, its path and a handle of the
//! caller's choosing. Creating a directory on disk is the caller's work;
//! the manager decides whether one is needed and remembers what was made.
//! Giving up a handle is what removes the directory.

use vstd::prelude::*;
use std::collections::HashMap;
use crate::trial::{ObservationId, TrialId};

verus! {

/// What a temporary directory belongs to.
#[derive(Debug, Clone, Copy, PartialEq, Eq, Structural)]
pub enum TempKey {
    Study,
    Trial(TrialId),
    Observation(ObservationId),
}

/// A temporary directory: its path, and the handle that keeps it alive.
#[derive(Debug)]
pub struct TempEntry<H> {
    pub path: String,
    pub handle: H,
}

/// The model of the manager: the path of every directory it keeps.
pub struct TempDirsView {
    pub study: Option<String>,
    pub trials: Map<u64, String>,
    pub observations: Map<u64, String>,
}

impl TempDirsView {
    /// The path of the directory kept under `key`.
    pub open spec fn path(self, key: TempKey) -> Option<String> {
        match key {
            TempKey::Study => self.study,
            TempKey::Trial(id) => if self.trials.contains_key(id.0) {
                Some(self.trials[id.0])
            } else {
                None
            },
            TempKey::Observation(id) => if self.observations.contains_key(id.0) {
                Some(self.observations[id.0])
            } else {
                None
            },
        }
    }

    /// The manager after a directory made at `path` was offered for `key`:
    /// it is kept unless there is one for that key already.
    pub open spec fn create(self, key: TempKey, path: String) -> TempDirsView {
        if self.path(key) is Some {
            self
        } else {
            match key {
                TempKey::Study => TempDirsView { study: Some(path), ..self },
                TempKey::Trial(id) => TempDirsView { trials: self.trials.insert(id.0, path), ..self },
                TempKey::Observation(id) => TempDirsView {
                    observations: self.observations.insert(id.0, path),
                    ..self
                },
            }
        }
    }

    /// The manager after the directory of `key` was given up.
    pub open spec fn remove(self, key: TempKey) -> TempDirsView {
        match key {
            TempKey::Study => TempDirsView { study: None, ..self },
            TempKey::Trial(id) => TempDirsView { trials: self.trials.remove(id.0), ..self },
            TempKey::Observation(id) => TempDirsView {
                observations: self.observations.remove(id.0),
                ..self
            },
        }
    }
}

/// The handles of the directories that a manager keeps. A directory lives
/// as long as its handle is kept.
pub struct Handles<H> {
    pub study: Option<H>,
    pub trials: Map<u64, H>,
    pub observations: Map<u64, H>,
}

impl<H> Handles<H> {
    /// No handle at all.
    pub open spec fn empty() -> Handles<H> {
        Handles { study: None, trials: Map::empty(), observations: Map::empty() }
    }

    /// The handle kept under `key`.
    pub open spec fn get(self, key: TempKey) -> Option<H> {
        match key {
            TempKey::Study => self.study,
            TempKey::Trial(id) => if self.trials.contains_key(id.0) {
                Some(self.trials[id.0])
            } else {
                None
            },
            TempKey::Observation(id) => if self.observations.contains_key(id.0) {
                Some(self.observations[id.0])
            } else {
                None
            },
        }
    }

    /// The handles after `handle` was offered for `key`: it is kept unless
    /// there is one for that key already, which then stays.
    pub open spec fn create(self, key: TempKey, handle: H) -> Handles<H> {
        if self.get(key) is Some {
            self
        } else {
            match key {
                TempKey::Study => Handles { study: Some(handle), ..self },
                TempKey::Trial(id) => Handles { trials: self.trials.insert(id.0, handle), ..self },
                TempKey::Observation(id) => Handles {
                    observations: self.observations.insert(id.0, handle),
                    ..self
                },
            }
        }
    }

    /// The handles after the one of `key` was given up.
    pub open spec fn remove(self, key: TempKey) -> Handles<H> {
        match key {
            TempKey::Study => Handles { study: None, ..self },
            TempKey::Trial(id) => Handles { trials: self.trials.remove(id.0), ..self },
            TempKey::Observation(id) => Handles {
                observations: self.observations.remove(id.0),
                ..self
            },
        }
    }
}

/// A handle that is offered is kept exactly where none is kept already; a
/// handle that is kept stays, whatever is offered. After a handle has been
/// given up, the next one offered for the same key is the one kept. The
/// handles of other keys are touched by neither.
pub proof fn lemma_handles<H>(handles: Handles<H>, key: TempKey, other: TempKey, offered: H)
    ensures
        handles.get(key) is None ==> handles.create(key, offered).get(key) == Some(offered),
        handles.get(key) is Some ==> handles.create(key, offered).get(key) == handles.get(key),
        handles.remove(key).get(key) is None,
        handles.remove(key).create(key, offered).get(key) == Some(offered),
        other != key ==> handles.create(key, offered).get(other) == handles.get(other),
        other != key ==> handles.remove(key).get(other) == handles.get(other),
{
}

/// Once a directory has been given up, the next one offered for the same
/// key is the one that is kept: a request after a removal gets a new
/// directory, whatever was there before.
pub proof fn lemma_create_after_remove(dirs: TempDirsView, key: TempKey, path: String)
    ensures
        dirs.remove(key).path(key) is None,
        dirs.remove(key).create(key, path).path(key) == Some(path),
{
}

/// While a directory is kept, offering another one for the same key changes
/// nothing: every request within the scope gets the same path.
pub proof fn lemma_create_idempotent(dirs: TempDirsView, key: TempKey, first: String, second: String)
    ensures
        dirs.create(key, first).create(key, second) == dirs.create(key, first),
        dirs.create(key, first).path(key) is Some,
        dirs.path(key) is None ==> dirs.create(key, first).path(key) == Some(first),
{
}

/// Directories under different keys do not touch each other.
pub proof fn lemma_keys_independent(dirs: TempDirsView, key: TempKey, other: TempKey, path: String)
    requires
        key != other,
    ensures
        dirs.create(key, path).path(other) == dirs.path(other),
        dirs.remove(key).path(other) == dirs.path(other),
{
}

/// The manager of temporary directories.
#[derive(Debug)]
pub struct TempDirs<H> {
    study: Option<TempEntry<H>>,
    trials: HashMap<u64, TempEntry<H>>,
    observations: HashMap<u64, TempEntry<H>>,
}

impl<H> View for TempDirs<H> {
    type V = TempDirsView;

    closed spec fn view(&self) -> TempDirsView {
        TempDirsView {
            study: match self.study {
                Some(e) => Some(e.path),
                None => None,
            },
            trials: self.trials@.map_values(|e: TempEntry<H>| e.path),
            observations: self.observations@.map_values(|e: TempEntry<H>| e.path),
        }
    }
}

impl<H> TempDirs<H> {
    /// The handles of the directories kept.
    pub closed spec fn handles(&self) -> Handles<H> {
        Handles {
            study: match self.study {
                Some(e) => Some(e.handle),
                None => None,
            },
            trials: self.trials@.map_values(|e: TempEntry<H>| e.handle),
            observations: self.observations@.map_values(|e: TempEntry<H>| e.handle),
        }
    }

    /// A directory is kept under a key exactly where a handle is.
    pub proof fn lemma_handles_with_paths(&self, key: TempKey)
        ensures
            self.handles().get(key) is Some <==> self@.path(key) is Some,
    {
    }

    /// A manager that keeps nothing.
    pub fn new() -> (r: Self)
        ensures
            r@ == (TempDirsView { study: None, trials: Map::empty(), observations: Map::empty() }),
            r.handles() == Handles::<H>::empty(),
    {
        let r = Self { study: None, trials: HashMap::new(), observations: HashMap::new() };
        assert(r@.trials =~= Map::empty());
        assert(r@.observations =~= Map::empty());
        assert(r.handles().trials =~= Map::empty());
        assert(r.handles().observations =~= Map::empty());
        r
    }

    /// The path of the directory kept under `key`, if there is one.
    pub fn path(&self, key: TempKey) -> (r: Option<String>)
        ensures
            r == self@.path(key),
    {
        match key {
            TempKey::Study => match &self.study {
                Some(e) => Some(e.path.clone()),
                None => None,
            },
            TempKey::Trial(id) => match self.trials.get(&id.0) {
                Some(e) => Some(e.path.clone()),
                None => None,
            },
            TempKey::Observation(id) => match self.observations.get(&id.0) {
                Some(e) => Some(e.path.clone()),
                None => None,
            },
        }
    }

    /// Offers a directory for `key`. Where one is kept already, that one
    /// stays with its handle and the offered one is given up; where none
    /// is kept, the offered one is kept with the offered handle. The path
    /// returned is always that of the directory kept.
    pub fn create(&mut self, key: TempKey, path: String, handle: H) -> (r: String)
        ensures
            final(self)@ == old(self)@.create(key, path),
            final(self).handles() == old(self).handles().create(key, handle),
            Some(r) == final(self)@.path(key),
    {
        proof {
            self.lemma_handles_with_paths(key);
        }
        match self.path(key) {
            Some(kept) => kept,
            None => {
                let r = path.clone();
                let entry = TempEntry { path, handle };
                match key {
                    TempKey::Study => {
                        self.study = Some(entry);
                    },
                    TempKey::Trial(id) => {
                        self.trials.insert(id.0, entry);
                        assert(self@.trials =~= old(self)@.trials.insert(id.0, r));
                        assert(self.handles().trials =~= old(self).handles().trials.insert(
                            id.0,
                            handle,
                        ));
                    },
                    TempKey::Observation(id) => {
                        self.observations.insert(id.0, entry);
                        assert(self@.observations =~= old(self)@.observations.insert(id.0, r));
                        assert(self.handles().observations =~= old(
                            self,
                        ).handles().observations.insert(id.0, handle));
                    },
                }
                r
            },
        }
    }

    /// Offers a directory for the study.
    pub fn create_study_tempdir(&mut self, path: String, handle: H) -> (r: String)
        ensures
            final(self)@ == old(self)@.create(TempKey::Study, path),
            final(self).handles() == old(self).handles().create(TempKey::Study, handle),
            Some(r) == final(self)@.path(TempKey::Study),
    {
        self.create(TempKey::Study, path, handle)
    }

    /// Offers a directory for a trial.
    pub fn create_trial_tempdir(&mut self, id: TrialId, path: String, handle: H) -> (r: String)
        ensures
            final(self)@ == old(self)@.create(TempKey::Trial(id), path),
            final(self).handles() == old(self).handles().create(TempKey::Trial(id), handle),
            Some(r) == final(self)@.path(TempKey::Trial(id)),
    {
        self.create(TempKey::Trial(id), path, handle)
    }

    /// Offers a directory for an observation.
    pub fn create_obs_tempdir(&mut self, id: ObservationId, path: String, handle: H) -> (r: String)
        ensures
            final(self)@ == old(self)@.create(TempKey::Observation(id), path),
            final(self).handles() == old(self).handles().create(TempKey::Observation(id), handle),
            Some(r) == final(self)@.path(TempKey::Observation(id)),
    {
        self.create(TempKey::Observation(id), path, handle)
    }

    /// Gives up the directory of a trial, if there is one.
    pub fn remove_trial_tempdir(&mut self, id: TrialId)
        ensures
            final(self)@ == old(self)@.remove(TempKey::Trial(id)),
            final(self).handles() == old(self).handles().remove(TempKey::Trial(id)),
    {
        self.trials.remove(&id.0);
        assert(self@.trials =~= old(self)@.trials.remove(id.0));
        assert(self.handles().trials =~= old(self).handles().trials.remove(id.0));
    }

    /// Gives up the directory of an observation, if there is one.
    pub fn remove_obs_tempdir(&mut self, id: ObservationId)
        ensures
            final(self)@ == old(self)@.remove(TempKey::Observation(id)),
            final(self).handles() == old(self).handles().remove(TempKey::Observation(id)),
    {
        self.observations.remove(&id.0);
        assert(self@.observations =~= old(self)@.observations.remove(id.0));
        assert(self.handles().observations =~= old(self).handles().observations.remove(id.0));
    }
}

} // verus!
