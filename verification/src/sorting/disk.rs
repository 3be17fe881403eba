//! What carrying the plans out does to the files on a disk, where the caller
//! reports truthfully. The disk is the set of the paths at which there is a
//! file.

use crate::sorting::errors::Failure;
use crate::sorting::moving::{lemma_after_in_range, target, Run, Step};
use crate::sorting::sorting_files::PlanSet;
use vstd::prelude::*;

verus! {

/// The files on the disk after one action and its outcome: a move that worked
/// took the file from the one path to the other, and nothing else changes
/// which files there are.
pub open spec fn files_after_step(files: Set<Seq<char>>, step: Step, ok: bool) -> Set<Seq<char>> {
    match step {
        Step::Move { from, to } => if ok {
            files.remove(from).insert(to)
        } else {
            files
        },
        _ => files,
    }
}

/// The files on the disk after the actions that `outcomes` answer.
pub open spec fn files_after(set: PlanSet, files: Set<Seq<char>>, outcomes: Seq<bool>) -> Set<
    Seq<char>,
>
    decreases outcomes.len(),
{
    if outcomes.len() == 0 {
        files
    } else {
        files_after_step(
            files_after(set, files, outcomes.drop_last()),
            Run::after(set, outcomes.drop_last()).action(),
            outcomes.last(),
        )
    }
}

/// Whether a report can be true of the disk: no move works of a file that is
/// not there.
pub open spec fn is_truthful(files: Set<Seq<char>>, step: Step, ok: bool) -> bool {
    step matches Step::Move { from, to } ==> ok ==> files.contains(from)
}

/// Whether every one of the reports can be true, the disk being `files` at
/// first.
pub open spec fn all_truthful(set: PlanSet, files: Set<Seq<char>>, outcomes: Seq<bool>) -> bool {
    forall|t: int|
        0 <= t < outcomes.len() ==> is_truthful(
            files_after(set, files, #[trigger] outcomes.take(t)),
            Run::after(set, outcomes.take(t)).action(),
            outcomes[t],
        )
}

/// Whether no file is moved to a path that a file is moved from.
pub open spec fn is_apart(set: PlanSet) -> bool {
    forall|i: int, j: int|
        0 <= i < set.plans.len() && 0 <= j < set.plans.len() ==> (#[trigger] set.plans[i]).source
            != #[trigger] target(set, j)
}

/// Once the work has come past a file, the file is at the path planned for
/// it and no longer at the path it came from, whatever was moved after it.
pub proof fn lemma_passed_files_are_in_place(
    set: PlanSet,
    files: Set<Seq<char>>,
    outcomes: Seq<bool>,
    i: int,
)
    requires
        is_apart(set),
        0 <= i < Run::after(set, outcomes).index,
    ensures
        files_after(set, files, outcomes).contains(target(set, i)),
        !files_after(set, files, outcomes).contains(set.plans[i].source),
    decreases outcomes.len(),
{
    if outcomes.len() > 0 {
        let before = outcomes.drop_last();
        let was = Run::after(set, before);
        lemma_after_in_range(set, before);
        lemma_after_in_range(set, outcomes);
        let k = was.index as int;
        if i < k {
            lemma_passed_files_are_in_place(set, files, before, i);
        }
        if k < set.plans.len() {
            assert(set.plans[k].source != target(set, i));
            assert(set.plans[i].source != target(set, k));
            assert(set.plans[i].source != target(set, i));
        }
    }
}

/// Where the work ends with every file moved, every file is at the path
/// planned for it, in the folder of its extension, and none is at the path it
/// came from.
pub proof fn lemma_finished_files_are_in_place(
    set: PlanSet,
    files: Set<Seq<char>>,
    outcomes: Seq<bool>,
    i: int,
)
    requires
        is_apart(set),
        Run::after(set, outcomes).finished(),
        0 <= i < set.plans.len(),
    ensures
        files_after(set, files, outcomes).contains(target(set, i)),
        !files_after(set, files, outcomes).contains(set.plans[i].source),
{
    lemma_after_in_range(set, outcomes);
    lemma_passed_files_are_in_place(set, files, outcomes, i);
}

/// The work does not get past a file that is not there: no file is moved, and
/// as soon as the move is asked for, it fails with the error that names the
/// file.
pub proof fn lemma_missing_file_stops(set: PlanSet, files: Set<Seq<char>>, outcomes: Seq<bool>)
    requires
        set.plans.len() > 0,
        !files.contains(set.plans[0].source),
        all_truthful(set, files, outcomes),
    ensures
        Run::after(set, outcomes).index == 0,
        !Run::after(set, outcomes).finished(),
        files_after(set, files, outcomes) == files,
        outcomes.len() > 0 && Run::after(set, outcomes.drop_last()).action() is Move
            ==> Run::after(set, outcomes).action() == Step::Fail(
            Failure::Move(set.plans[0].source),
        ),
    decreases outcomes.len(),
{
    if outcomes.len() > 0 {
        let before = outcomes.drop_last();
        let t = outcomes.len() - 1;
        assert forall|u: int| 0 <= u < before.len() implies is_truthful(
            files_after(set, files, #[trigger] before.take(u)),
            Run::after(set, before.take(u)).action(),
            before[u],
        ) by {
            assert(before.take(u) =~= outcomes.take(u));
        }
        lemma_missing_file_stops(set, files, before);
        lemma_after_in_range(set, before);
        assert(outcomes.take(t) =~= before);
        assert(is_truthful(
            files_after(set, files, outcomes.take(t)),
            Run::after(set, outcomes.take(t)).action(),
            outcomes[t],
        ));
    }
}

/// Plans that were carried out to the end cannot be carried out again: the
/// files are no longer where they came from, so the second time no file is
/// moved and the work never ends well.
pub proof fn lemma_second_time_fails(
    set: PlanSet,
    files: Set<Seq<char>>,
    first: Seq<bool>,
    second: Seq<bool>,
)
    requires
        is_apart(set),
        set.plans.len() > 0,
        Run::after(set, first).finished(),
        all_truthful(set, files_after(set, files, first), second),
    ensures
        !Run::after(set, second).finished(),
        files_after(set, files_after(set, files, first), second) == files_after(
            set,
            files,
            first,
        ),
        second.len() > 0 && Run::after(set, second.drop_last()).action() is Move ==> Run::after(
            set,
            second,
        ).action() == Step::Fail(Failure::Move(set.plans[0].source)),
{
    lemma_finished_files_are_in_place(set, files, first, 0);
    lemma_missing_file_stops(set, files_after(set, files, first), second);
}

} // verus!
