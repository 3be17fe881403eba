//! What was found on disk before planning, and the plans that follow from it.

use crate::sorting::destination::Destination;
use crate::sorting::errors::Failure;
use crate::sorting::paths::names_hidden;
use crate::sorting::sorting_files::{plan_of, Plan};
use vstd::prelude::*;

verus! {

/// An entry of the source directory as it was found: its path, and whether it
/// is a regular file.
#[derive(Debug)]
pub struct SourceEntry {
    pub path: String,
    pub is_file: bool,
}

/// What was found on disk before planning.
#[derive(Debug)]
pub struct Survey {
    /// Whether the input directory exists.
    pub input_exists: bool,
    /// Whether the output directory exists.
    pub output_exists: bool,
    /// The entries of the input directory, or `None` where it could not be
    /// listed.
    pub entries: Option<Vec<SourceEntry>>,
    /// The folders of the output directory.
    pub destination: Destination,
}

/// Whether an entry is planned: it is a regular file, and it is not hidden
/// unless hidden files are asked for.
pub open spec fn is_selected(entry: SourceEntry, show_hidden: bool) -> bool {
    entry.is_file && (show_hidden || !names_hidden(entry.path@))
}

/// The plans for the selected ones of `entries`, in their order, each made
/// against the destination as it was found. The first entry that cannot be
/// planned fails them all.
pub open spec fn plans_of(
    entries: Seq<SourceEntry>,
    output: Destination,
    show_hidden: bool,
    force: bool,
) -> Result<Seq<Plan>, Failure>
    decreases entries.len(),
{
    if entries.len() == 0 {
        Ok(Seq::empty())
    } else {
        match plans_of(entries.drop_last(), output, show_hidden, force) {
            Err(failure) => Err(failure),
            Ok(plans) => if is_selected(entries.last(), show_hidden) {
                match plan_of(entries.last().path@, output, force) {
                    Err(failure) => Err(failure),
                    Ok(plan) => Ok(plans.push(plan)),
                }
            } else {
                Ok(plans)
            },
        }
    }
}

/// Whether an entry is not hidden.
pub open spec fn is_visible(entry: SourceEntry) -> bool {
    !names_hidden(entry.path@)
}

/// Whether an entry is a regular file.
pub open spec fn is_regular(entry: SourceEntry) -> bool {
    entry.is_file
}

/// Where the plans are made, every selected entry was planned; where they
/// fail, they fail as the first selected entry that cannot be planned does.
pub proof fn lemma_plans_cover_selected(
    entries: Seq<SourceEntry>,
    output: Destination,
    show_hidden: bool,
    force: bool,
)
    ensures
        match plans_of(entries, output, show_hidden, force) {
            Ok(plans) => forall|j: int|
                0 <= j < entries.len() && is_selected(#[trigger] entries[j], show_hidden)
                    ==> plan_of(entries[j].path@, output, force) is Ok,
            Err(failure) => exists|j: int|
                {
                    &&& 0 <= j < entries.len()
                    &&& is_selected(#[trigger] entries[j], show_hidden)
                    &&& plan_of(entries[j].path@, output, force) == Err::<Plan, Failure>(failure)
                    &&& forall|h: int|
                        0 <= h < j && is_selected(#[trigger] entries[h], show_hidden) ==> plan_of(
                            entries[h].path@,
                            output,
                            force,
                        ) is Ok
                },
        },
    decreases entries.len(),
{
    if entries.len() > 0 {
        let front = entries.drop_last();
        lemma_plans_cover_selected(front, output, show_hidden, force);
        match plans_of(front, output, show_hidden, force) {
            Err(failure) => {
                let j = choose|j: int|
                    {
                        &&& 0 <= j < front.len()
                        &&& is_selected(#[trigger] front[j], show_hidden)
                        &&& plan_of(front[j].path@, output, force) == Err::<Plan, Failure>(failure)
                        &&& forall|h: int|
                            0 <= h < j && is_selected(#[trigger] front[h], show_hidden)
                                ==> plan_of(front[h].path@, output, force) is Ok
                    };
                assert(entries[j] == front[j]);
                assert forall|h: int|
                    0 <= h < j && is_selected(#[trigger] entries[h], show_hidden) implies plan_of(
                    entries[h].path@,
                    output,
                    force,
                ) is Ok by {
                    assert(entries[h] == front[h]);
                }
            },
            Ok(plans) => {
                assert forall|h: int|
                    0 <= h < front.len() && is_selected(
                        #[trigger] entries[h],
                        show_hidden,
                    ) implies plan_of(entries[h].path@, output, force) is Ok by {
                    assert(entries[h] == front[h]);
                }
                if plans_of(entries, output, show_hidden, force) is Err {
                    let j = entries.len() - 1;
                    assert(is_selected(entries[j], show_hidden));
                }
            },
        }
    }
}

/// Every plan is the plan of a selected entry: of a regular file, and of a
/// hidden one only where hidden files are asked for.
pub proof fn lemma_plans_come_from_selected(
    entries: Seq<SourceEntry>,
    output: Destination,
    show_hidden: bool,
    force: bool,
    k: int,
)
    requires
        plans_of(entries, output, show_hidden, force) is Ok,
        0 <= k < plans_of(entries, output, show_hidden, force)->Ok_0.len(),
    ensures
        exists|j: int|
            {
                &&& 0 <= j < entries.len()
                &&& (#[trigger] entries[j]).is_file
                &&& show_hidden || !names_hidden(entries[j].path@)
                &&& plan_of(entries[j].path@, output, force) == Ok::<Plan, Failure>(
                    plans_of(entries, output, show_hidden, force)->Ok_0[k],
                )
            },
    decreases entries.len(),
{
    let plans = plans_of(entries, output, show_hidden, force)->Ok_0;
    let front = entries.drop_last();
    let before = plans_of(front, output, show_hidden, force)->Ok_0;
    if k < before.len() {
        lemma_plans_come_from_selected(front, output, show_hidden, force, k);
        let j = choose|j: int|
            {
                &&& 0 <= j < front.len()
                &&& (#[trigger] front[j]).is_file
                &&& show_hidden || !names_hidden(front[j].path@)
                &&& plan_of(front[j].path@, output, force) == Ok::<Plan, Failure>(before[k])
            };
        assert(entries[j] == front[j]);
    } else {
        let j = entries.len() - 1;
        assert(entries[j].is_file);
    }
}

/// Without hidden files the plans are those of the visible entries: the
/// hidden ones are left out, and nothing else tells a hidden file from a
/// visible one.
pub proof fn lemma_hidden_left_out(entries: Seq<SourceEntry>, output: Destination, force: bool)
    ensures
        plans_of(entries, output, false, force) == plans_of(
            entries.filter(|e: SourceEntry| is_visible(e)),
            output,
            true,
            force,
        ),
    decreases entries.len(),
{
    reveal(Seq::filter);
    let visible = |e: SourceEntry| is_visible(e);
    if entries.len() > 0 {
        let front = entries.drop_last();
        lemma_hidden_left_out(front, output, force);
        if visible(entries.last()) {
            let kept = front.filter(visible).push(entries.last());
            assert(entries.filter(visible) == kept);
            assert(kept.drop_last() =~= front.filter(visible));
            assert(kept.last() == entries.last());
        }
    }
}

/// The plans are those of the regular files among the entries: directories
/// and other entries are never planned.
pub proof fn lemma_only_regular_files(
    entries: Seq<SourceEntry>,
    output: Destination,
    show_hidden: bool,
    force: bool,
)
    ensures
        plans_of(entries, output, show_hidden, force) == plans_of(
            entries.filter(|e: SourceEntry| is_regular(e)),
            output,
            show_hidden,
            force,
        ),
    decreases entries.len(),
{
    reveal(Seq::filter);
    let regular = |e: SourceEntry| is_regular(e);
    if entries.len() > 0 {
        let front = entries.drop_last();
        lemma_only_regular_files(front, output, show_hidden, force);
        if regular(entries.last()) {
            let kept = front.filter(regular).push(entries.last());
            assert(entries.filter(regular) == kept);
            assert(kept.drop_last() =~= front.filter(regular));
            assert(kept.last() == entries.last());
        }
    }
}

/// Every selected entry has its plan among the plans.
pub proof fn lemma_selected_are_planned(
    entries: Seq<SourceEntry>,
    output: Destination,
    show_hidden: bool,
    force: bool,
    j: int,
)
    requires
        plans_of(entries, output, show_hidden, force) is Ok,
        0 <= j < entries.len(),
        is_selected(entries[j], show_hidden),
    ensures
        exists|k: int|
            0 <= k < plans_of(entries, output, show_hidden, force)->Ok_0.len() && plan_of(
                entries[j].path@,
                output,
                force,
            ) == Ok::<Plan, Failure>(
                #[trigger] plans_of(entries, output, show_hidden, force)->Ok_0[k],
            ),
    decreases entries.len(),
{
    let plans = plans_of(entries, output, show_hidden, force)->Ok_0;
    let front = entries.drop_last();
    let before = plans_of(front, output, show_hidden, force)->Ok_0;
    if j < entries.len() - 1 {
        assert(front[j] == entries[j]);
        lemma_selected_are_planned(front, output, show_hidden, force, j);
        let k = choose|k: int|
            0 <= k < before.len() && plan_of(entries[j].path@, output, force) == Ok::<
                Plan,
                Failure,
            >(#[trigger] before[k]);
        assert(plans[k] == before[k]);
    } else {
        let k = before.len() as int;
        assert(plan_of(entries[j].path@, output, force) == Ok::<Plan, Failure>(plans[k]));
    }
}

/// Once an entry has failed the plans, the entries after it change nothing.
pub proof fn lemma_failure_stays(
    entries: Seq<SourceEntry>,
    n: int,
    output: Destination,
    show_hidden: bool,
    force: bool,
)
    requires
        0 <= n <= entries.len(),
        plans_of(entries.take(n), output, show_hidden, force) is Err,
    ensures
        plans_of(entries, output, show_hidden, force) == plans_of(
            entries.take(n),
            output,
            show_hidden,
            force,
        ),
    decreases entries.len() - n,
{
    if n < entries.len() {
        assert(entries.take(n + 1).drop_last() =~= entries.take(n));
        lemma_failure_stays(entries, n + 1, output, show_hidden, force);
    } else {
        assert(entries.take(n) =~= entries);
    }
}

} // verus!
