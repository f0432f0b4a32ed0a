//! The repair loop: validate the package, discard what is corrupt, fetch
//! what is missing, and try again, five times at most.
//!
//! The loop is a state machine. The caller does the work that touches the
//! disk and the network and tells the engine what came of it; the engine
//! says what to do next.

use vstd::prelude::*;
use crate::validation::{invalid_file_views, FileError, InvalidFile, ValidityErrors};

verus! {

/// How many attempts the engine makes before it gives up.
pub const MAX_ATTEMPTS: u32 = 5;

/// Where a repair stands.
#[derive(Debug, Clone, Copy, PartialEq, Eq, Structural)]
pub enum RepairState {
    /// The package is not known to be valid, and attempts are left.
    Attempting,
    /// The package validated.
    Verified,
    /// The package could not be looked up, or the attempts are used up.
    Failed,
}

/// What the caller is to do next.
#[derive(Debug)]
pub enum RepairAction {
    /// Delete the files at these paths and fetch every blob of the package
    /// that is then missing. A file that cannot be deleted, or a fetch that
    /// fails, does not end the repair. Where `again` is set, validate the
    /// package after that and report the outcome; where it is not, this was
    /// the last attempt.
    Repair { remove: Vec<String>, again: bool },
    /// Nothing: the repair is over.
    Stop,
}

/// The engine as mathematical values.
pub struct RepairView {
    pub state: RepairState,
    /// How many attempts have been made.
    pub attempts: nat,
}

/// What a validation came to, as far as the engine cares.
pub enum Outcome {
    /// Every file is valid.
    Valid,
    /// The package could not be looked up or its descriptor not read.
    Unresolved,
    /// These files are not valid.
    Invalid(Seq<InvalidFile>),
}

/// What the engine reads in the result of a validation.
pub open spec fn outcome_of(result: Result<(), ValidityErrors>) -> Outcome {
    match result {
        Ok(_) => Outcome::Valid,
        Err(ValidityErrors::InvalidFiles { files }) => Outcome::Invalid(
            invalid_file_views(files@),
        ),
        Err(_) => Outcome::Unresolved,
    }
}

/// The engine before the first attempt.
pub open spec fn initial() -> RepairView {
    RepairView { state: RepairState::Attempting, attempts: 0 }
}

/// The engine after the validation that opens an attempt. A valid package
/// ends the repair in `Verified`. A package that cannot be looked up ends it
/// in `Failed`: no fetch of blobs would help. Invalid files leave the engine
/// attempting, unless this was the fifth attempt, which ends the repair in
/// `Failed`. An engine that has ended stays as it is.
pub open spec fn after_validation(engine: RepairView, outcome: Outcome) -> RepairView {
    if engine.state != RepairState::Attempting {
        engine
    } else {
        RepairView {
            state: match outcome {
                Outcome::Valid => RepairState::Verified,
                Outcome::Unresolved => RepairState::Failed,
                Outcome::Invalid(_) => if engine.attempts + 1 < MAX_ATTEMPTS {
                    RepairState::Attempting
                } else {
                    RepairState::Failed
                },
            },
            attempts: engine.attempts + 1,
        }
    }
}

/// The engine after each of `outcomes` in turn.
pub open spec fn after_validations(engine: RepairView, outcomes: Seq<Outcome>) -> RepairView
    decreases outcomes.len(),
{
    if outcomes.len() == 0 {
        engine
    } else {
        after_validation(after_validations(engine, outcomes.drop_last()), outcomes.last())
    }
}

/// Whether a file with this error is to be deleted before the fetch. A
/// missing file is not: there is nothing to delete.
pub open spec fn is_discarded(error: FileError) -> bool {
    error == FileError::Corrupt || error == FileError::WrongHash
}

/// The paths of the files to delete, in the order of the list.
pub open spec fn paths_to_remove(files: Seq<InvalidFile>) -> Seq<Seq<char>>
    decreases files.len(),
{
    if files.len() == 0 {
        Seq::empty()
    } else {
        let before = paths_to_remove(files.drop_last());
        if is_discarded(files.last().error) {
            before.push(files.last().path)
        } else {
            before
        }
    }
}

/// The views of a list of paths, in order.
pub open spec fn path_views(paths: Seq<String>) -> Seq<Seq<char>> {
    paths.map_values(|p: String| p@)
}

/// The bounded repair loop.
#[derive(Debug)]
pub struct RepairEngine {
    state: RepairState,
    attempts: u32,
}

impl View for RepairEngine {
    type V = RepairView;

    closed spec fn view(&self) -> RepairView {
        RepairView { state: self.state, attempts: self.attempts as nat }
    }
}

impl RepairEngine {
    /// No engine counts past the last attempt, and one that is attempting
    /// has an attempt left. Every engine made by [`new`] is well-formed, and
    /// every method keeps it so.
    ///
    /// [`new`]: RepairEngine::new
    pub closed spec fn wf(&self) -> bool {
        &&& self.attempts <= MAX_ATTEMPTS
        &&& self.state == RepairState::Attempting ==> self.attempts < MAX_ATTEMPTS
    }

    /// An engine before its first attempt. The caller begins by validating
    /// the package.
    pub fn new() -> (engine: RepairEngine)
        ensures
            engine.wf(),
            engine@ == initial(),
    {
        RepairEngine { state: RepairState::Attempting, attempts: 0 }
    }

    /// Where the repair stands.
    pub fn state(&self) -> (state: RepairState)
        ensures
            state == self@.state,
    {
        self.state
    }

    /// How many attempts have been made.
    pub fn attempts(&self) -> (attempts: u32)
        ensures
            attempts == self@.attempts,
    {
        self.attempts
    }

    /// Takes in the outcome of a validation and says what to do next.
    ///
    /// The answer is `Repair` exactly where the engine was attempting and
    /// files are invalid. It then names the paths of the corrupt files and
    /// of those with a wrong hash, in the order of the list, and `again`
    /// says whether the engine is still attempting.
    pub fn validated(&mut self, result: &Result<(), ValidityErrors>) -> (action: RepairAction)
        requires
            old(self).wf(),
        ensures
            final(self).wf(),
            final(self)@ == after_validation(old(self)@, outcome_of(*result)),
            match action {
                RepairAction::Repair { remove, again } => {
                    &&& old(self)@.state == RepairState::Attempting
                    &&& outcome_of(*result) matches Outcome::Invalid(files)
                    &&& path_views(remove@) == paths_to_remove(files)
                    &&& again == (final(self)@.state == RepairState::Attempting)
                },
                RepairAction::Stop => old(self)@.state != RepairState::Attempting || !(outcome_of(
                    *result,
                ) is Invalid),
            },
    {
        if self.state != RepairState::Attempting {
            return RepairAction::Stop;
        }
        self.attempts = self.attempts + 1;
        match result {
            Ok(_) => {
                self.state = RepairState::Verified;
                RepairAction::Stop
            },
            Err(ValidityErrors::InvalidFiles { files }) => {
                let again = self.attempts < MAX_ATTEMPTS;
                if !again {
                    self.state = RepairState::Failed;
                }
                RepairAction::Repair { remove: discarded_paths(files), again }
            },
            Err(_) => {
                self.state = RepairState::Failed;
                RepairAction::Stop
            },
        }
    }
}

/// The paths of the files to delete before a fetch: those that are corrupt
/// or have a wrong hash, in the order of the list.
pub fn discarded_paths(files: &Vec<(String, FileError)>) -> (remove: Vec<String>)
    ensures
        path_views(remove@) == paths_to_remove(invalid_file_views(files@)),
{
    let mut remove: Vec<String> = Vec::new();
    let ghost all = invalid_file_views(files@);
    let mut i: usize = 0;
    assert(path_views(remove@) =~= Seq::<Seq<char>>::empty());
    assert(all.take(0) =~= Seq::<InvalidFile>::empty());
    while i < files.len()
        invariant
            i <= files@.len(),
            all == invalid_file_views(files@),
            path_views(remove@) == paths_to_remove(all.take(i as int)),
        decreases files@.len() - i,
    {
        proof {
            let now = all.take(i + 1);
            assert(now.drop_last() =~= all.take(i as int));
            assert(now.last() == all[i as int]);
        }
        let entry = &files[i];
        match entry.1 {
            FileError::Corrupt | FileError::WrongHash => {
                let ghost before = path_views(remove@);
                let path = entry.0.clone();
                remove.push(path);
                assert(path_views(remove@) =~= before.push(path@));
            },
            FileError::Missing => {},
        }
        i += 1;
    }
    assert(all.take(i as int) =~= all);
    remove
}

} // verus!
