//! Carrying the plans out, one step at a time. The library says what is to be
//! done next; the caller does it on disk and reports how it went.

use crate::sorting::errors::{Failure, SortError};
use crate::sorting::paths::{join, joined};
use crate::sorting::sorting_files::{PlanSet, SortingFiles};
use vstd::prelude::*;
use vstd::string::*;

verus! {

/// What is going on with the file that is being worked on.
#[derive(Clone, Copy, Debug, PartialEq, Eq, Structural)]
pub enum Phase {
    /// It is asked whether the file's folder exists.
    Probe,
    /// The file's folder is being created.
    Create,
    /// The file is being moved.
    Move,
    /// The file's folder could not be created: nothing more is done.
    CreateFailed,
    /// The file could not be moved: nothing more is done.
    MoveFailed,
}

/// What the caller is to do next.
#[derive(Debug, PartialEq, Eq)]
pub enum Action {
    /// Report whether there is a directory at this path.
    Probe(String),
    /// Create the directory at this path, and report whether that worked.
    Create(String),
    /// Move the file at `from` to `to`, and report whether that worked.
    Move { from: String, to: String },
    /// Stop: every file has been moved.
    Finish,
    /// Stop: this went wrong. What was moved before stays moved.
    Fail(SortError),
}

/// An `Action` as text.
pub ghost enum Step {
    Probe(Seq<char>),
    Create(Seq<char>),
    Move { from: Seq<char>, to: Seq<char> },
    Finish,
    Fail(Failure),
}

impl View for Action {
    type V = Step;

    open spec fn view(&self) -> Step {
        match self {
            Action::Probe(dir) => Step::Probe(dir@),
            Action::Create(dir) => Step::Create(dir@),
            Action::Move { from, to } => Step::Move { from: from@, to: to@ },
            Action::Finish => Step::Finish,
            Action::Fail(error) => Step::Fail(error@),
        }
    }
}

/// How far the work on some plans has come: the files before `index` have
/// been moved, and the one at `index` is in `phase`.
pub ghost struct Run {
    pub set: PlanSet,
    pub index: nat,
    pub phase: Phase,
}

/// The folder that the `i`-th file goes into.
pub open spec fn bucket_dir(set: PlanSet, i: int) -> Seq<char> {
    joined(set.output, set.plans[i].extension)
}

/// The path that the `i`-th file is moved to.
pub open spec fn target(set: PlanSet, i: int) -> Seq<char> {
    joined(bucket_dir(set, i), set.plans[i].name)
}

impl Run {
    /// The work before anything was done.
    pub open spec fn started(set: PlanSet) -> Run {
        Run { set, index: 0, phase: Phase::Probe }
    }

    /// Whether every file has been moved.
    pub open spec fn finished(self) -> bool {
        self.index >= self.set.plans.len()
    }

    /// What is to be done next.
    pub open spec fn action(self) -> Step {
        let i = self.index as int;
        if self.finished() {
            Step::Finish
        } else {
            match self.phase {
                Phase::Probe => Step::Probe(bucket_dir(self.set, i)),
                Phase::Create => Step::Create(bucket_dir(self.set, i)),
                Phase::Move => Step::Move {
                    from: self.set.plans[i].source,
                    to: target(self.set, i),
                },
                Phase::CreateFailed => Step::Fail(
                    Failure::DirectoryCreate(bucket_dir(self.set, i)),
                ),
                Phase::MoveFailed => Step::Fail(Failure::Move(self.set.plans[i].source)),
            }
        }
    }

    /// The work after the caller has reported on the last action: `ok` says
    /// that the directory is there, or that creating or moving worked.
    pub open spec fn next(self, ok: bool) -> Run {
        if self.finished() {
            self
        } else {
            match self.phase {
                Phase::Probe => Run { phase: if ok { Phase::Move } else { Phase::Create }, ..self },
                Phase::Create => Run {
                    phase: if ok { Phase::Move } else { Phase::CreateFailed },
                    ..self
                },
                Phase::Move => if ok {
                    Run { index: self.index + 1, phase: Phase::Probe, ..self }
                } else {
                    Run { phase: Phase::MoveFailed, ..self }
                },
                Phase::CreateFailed => self,
                Phase::MoveFailed => self,
            }
        }
    }

    /// The work after the caller has reported `outcomes`, one after another.
    pub open spec fn after(set: PlanSet, outcomes: Seq<bool>) -> Run
        decreases outcomes.len(),
    {
        if outcomes.len() == 0 {
            Run::started(set)
        } else {
            Run::after(set, outcomes.drop_last()).next(outcomes.last())
        }
    }
}

/// The work never goes past the last file, and never leaves the plans.
pub proof fn lemma_after_in_range(set: PlanSet, outcomes: Seq<bool>)
    ensures
        Run::after(set, outcomes).index <= set.plans.len(),
        Run::after(set, outcomes).set == set,
    decreases outcomes.len(),
{
    if outcomes.len() > 0 {
        lemma_after_in_range(set, outcomes.drop_last());
    }
}

/// Once the work has come past the `i`-th file, that file's move was asked
/// for, from its path to its place in its folder, and reported as done.
pub proof fn lemma_passed_files_were_moved(set: PlanSet, outcomes: Seq<bool>, i: int)
    requires
        0 <= i < Run::after(set, outcomes).index,
    ensures
        exists|t: int|
            0 <= t < outcomes.len() && outcomes[t] && #[trigger] Run::after(
                set,
                outcomes.take(t),
            ).action() == (Step::Move { from: set.plans[i].source, to: target(set, i) }),
    decreases outcomes.len(),
{
    if outcomes.len() > 0 {
        let before = outcomes.drop_last();
        let was = Run::after(set, before);
        lemma_after_in_range(set, before);
        if i < was.index {
            lemma_passed_files_were_moved(set, before, i);
            let t = choose|t: int|
                0 <= t < before.len() && before[t] && #[trigger] Run::after(
                    set,
                    before.take(t),
                ).action() == (Step::Move { from: set.plans[i].source, to: target(set, i) });
            assert(before.take(t) =~= outcomes.take(t));
            assert(outcomes[t] == before[t]);
            assert(Run::after(set, outcomes.take(t)).action() == (Step::Move {
                from: set.plans[i].source,
                to: target(set, i),
            }));
        } else {
            let t = outcomes.len() - 1;
            assert(outcomes.take(t) =~= before);
            assert(outcomes[t] == outcomes.last());
            assert(was.set == set);
            assert(was.index == i && was.phase == Phase::Move && outcomes[t]);
            assert(Run::after(set, outcomes.take(t)).action() == (Step::Move {
                from: set.plans[i].source,
                to: target(set, i),
            }));
        }
    }
}

/// Where the work ends with every file moved, each file's move was asked for,
/// from its path to its place in its folder, and reported as done.
pub proof fn lemma_finished_moved_all(set: PlanSet, outcomes: Seq<bool>, i: int)
    requires
        Run::after(set, outcomes).finished(),
        0 <= i < set.plans.len(),
    ensures
        exists|t: int|
            0 <= t < outcomes.len() && outcomes[t] && #[trigger] Run::after(
                set,
                outcomes.take(t),
            ).action() == (Step::Move { from: set.plans[i].source, to: target(set, i) }),
{
    lemma_after_in_range(set, outcomes);
    lemma_passed_files_were_moved(set, outcomes, i);
}

/// A file is moved only after its folder was found, or was created.
pub proof fn lemma_move_follows_folder(set: PlanSet, outcomes: Seq<bool>)
    requires
        !Run::after(set, outcomes).finished(),
        Run::after(set, outcomes).phase == Phase::Move,
    ensures
        exists|t: int|
            0 <= t < outcomes.len() && outcomes[t] && ({
                let was = #[trigger] Run::after(set, outcomes.take(t));
                let dir = bucket_dir(set, Run::after(set, outcomes).index as int);
                was.action() == Step::Probe(dir) || was.action() == Step::Create(dir)
            }),
{
    let now = Run::after(set, outcomes);
    if outcomes.len() > 0 {
        let before = outcomes.drop_last();
        let was = Run::after(set, before);
        let t = outcomes.len() - 1;
        let dir = bucket_dir(set, now.index as int);
        lemma_after_in_range(set, before);
        assert(outcomes.take(t) =~= before);
        assert(outcomes[t] == outcomes.last());
        assert(was.action() == Step::Probe(dir) || was.action() == Step::Create(dir));
    }
}

/// A move that fails ends the work with the error that names the file, and
/// nothing that is reported afterwards changes that.
pub proof fn lemma_failed_move_stops(run: Run, later: bool)
    requires
        !run.finished(),
        run.phase == Phase::Move,
    ensures
        run.next(false).action() == Step::Fail(
            Failure::Move(run.set.plans[run.index as int].source),
        ),
        run.next(false).next(later) == run.next(false),
{
}

/// The plans of a directory while they are carried out.
#[derive(Debug)]
pub struct Sorting {
    files: SortingFiles,
    index: usize,
    phase: Phase,
}

impl View for Sorting {
    type V = Run;

    closed spec fn view(&self) -> Run {
        Run { set: self.files@, index: self.index as nat, phase: self.phase }
    }
}

impl Sorting {
    /// Takes the plans over, with nothing done yet.
    pub fn start(files: SortingFiles) -> (sorting: Sorting)
        ensures
            sorting@ == Run::started(files@),
    {
        Sorting { files, index: 0, phase: Phase::Probe }
    }

    /// What the caller is to do next.
    pub fn action(&self) -> (action: Action)
        ensures
            action@ == self@.action(),
    {
        let file = match self.files.file(self.index) {
            None => { return Action::Finish; },
            Some(file) => file,
        };
        let dir = join(self.files.output_path(), file.extension());
        match self.phase {
            Phase::Probe => Action::Probe(dir),
            Phase::Create => Action::Create(dir),
            Phase::Move => Action::Move {
                from: file.file_path().clone(),
                to: join(&dir, file.name()),
            },
            Phase::CreateFailed => Action::Fail(SortError::DirectoryCreate(dir)),
            Phase::MoveFailed => Action::Fail(SortError::Move(file.file_path().clone())),
        }
    }

    /// Takes the caller's report on the last action: `ok` says that the
    /// directory is there, or that creating or moving worked.
    pub fn advance(self, ok: bool) -> (sorting: Sorting)
        ensures
            sorting@ == self@.next(ok),
    {
        if self.index >= self.files.len() {
            return self;
        }
        match self.phase {
            Phase::Probe => Sorting {
                files: self.files,
                index: self.index,
                phase: if ok { Phase::Move } else { Phase::Create },
            },
            Phase::Create => Sorting {
                files: self.files,
                index: self.index,
                phase: if ok { Phase::Move } else { Phase::CreateFailed },
            },
            Phase::Move => if ok {
                Sorting { files: self.files, index: self.index + 1, phase: Phase::Probe }
            } else {
                Sorting { files: self.files, index: self.index, phase: Phase::MoveFailed }
            },
            Phase::CreateFailed => self,
            Phase::MoveFailed => self,
        }
    }
}

impl SortingFiles {
    /// Begins to carry the plans out. The plans are given away: they are
    /// carried out once.
    pub fn sort(self) -> (sorting: Sorting)
        ensures
            sorting@ == Run::started(self@),
    {
        Sorting::start(self)
    }
}

} // verus!
