//! The settings of a sorting, and the making of the plans from what was found
//! on disk.

use crate::builders::survey::{
    is_selected, lemma_failure_stays, lemma_plans_cover_selected, lemma_selected_are_planned,
    plans_of, SourceEntry, Survey,
};
use crate::sorting::destination::Destination;
use crate::sorting::errors::{Failure, SortError};
use crate::sorting::moving::{lemma_finished_moved_all, target, Run, Step};
use crate::sorting::names::{candidate, counter_of};
use crate::sorting::paths::{bucket_of, file_name_of, hidden_file, joined};
use crate::sorting::sorting_files::{
    lemma_plan_is_free, plan_of, plans_in, Plan, PlanSet, SortingFile, SortingFiles,
};
use vstd::prelude::*;
use vstd::string::*;

verus! {

/// The settings of a sorting: where the files are, where they go, whether
/// hidden files go too, and whether a file may be renamed to get out of the
/// way of another.
#[derive(Debug)]
pub struct SortingFielsBuilder {
    input: String,
    output: String,
    check_output: bool,
    force: bool,
    show_hidden: bool,
}

/// A `SortingFielsBuilder` as text. While `check_output` holds, no output
/// directory has been set, and `output` is the input directory.
pub ghost struct Settings {
    pub input: Seq<char>,
    pub output: Seq<char>,
    pub check_output: bool,
    pub force: bool,
    pub show_hidden: bool,
}

/// What `build` gives for these settings and findings: both directories have
/// to exist, the input directory has to be listed, and every selected entry
/// has to be planned.
pub open spec fn built(settings: Settings, found: Survey) -> Result<PlanSet, Failure> {
    if !found.input_exists {
        Err(Failure::DirectoryNotFound(settings.input))
    } else if !found.output_exists {
        Err(Failure::DirectoryNotFound(settings.output))
    } else {
        match found.entries {
            None => Err(Failure::DirectoryRead(settings.input)),
            Some(entries) => match plans_of(
                entries@,
                found.destination,
                settings.show_hidden,
                settings.force,
            ) {
                Err(failure) => Err(failure),
                Ok(plans) => Ok(PlanSet { output: settings.output, plans }),
            },
        }
    }
}

impl View for SortingFielsBuilder {
    type V = Settings;

    closed spec fn view(&self) -> Settings {
        Settings {
            input: self.input@,
            output: if self.check_output {
                self.input@
            } else {
                self.output@
            },
            check_output: self.check_output,
            force: self.force,
            show_hidden: self.show_hidden,
        }
    }
}

impl SortingFielsBuilder {
    /// Settings for sorting the directory `current_dir` into itself, without
    /// hidden files and without renaming.
    pub fn new(current_dir: String) -> (builder: SortingFielsBuilder)
        ensures
            builder@ == (Settings {
                input: current_dir@,
                output: current_dir@,
                check_output: true,
                force: false,
                show_hidden: false,
            }),
    {
        SortingFielsBuilder {
            input: current_dir,
            output: String::new(),
            check_output: true,
            force: false,
            show_hidden: false,
        }
    }

    /// Sets the directory whose files are sorted, where one is given. While
    /// no output directory has been set, the output directory follows.
    pub fn set_input(&mut self, value: Option<String>) -> (builder: &mut Self)
        ensures
            builder@ == ({
                let input = match value {
                    Some(path) => path@,
                    None => old(self)@.input,
                };
                Settings {
                    input,
                    output: if old(self)@.check_output {
                        input
                    } else {
                        old(self)@.output
                    },
                    ..old(self)@
                }
            }),
            *final(self) == *final(builder),
    {
        if let Some(path) = value {
            self.input = path;
        }
        self
    }

    /// Sets the directory that the files are sorted into, where one is given:
    /// from then on it no longer follows the input directory.
    pub fn set_output(&mut self, value: Option<String>) -> (builder: &mut Self)
        ensures
            builder@ == (match value {
                Some(path) => Settings { output: path@, check_output: false, ..old(self)@ },
                None => old(self)@,
            }),
            *final(self) == *final(builder),
    {
        if let Some(path) = value {
            self.output = path;
            self.check_output = false;
        }
        self
    }

    /// Sets whether hidden files are sorted too.
    pub fn set_show_hidden(&mut self, value: bool) -> (builder: &mut Self)
        ensures
            builder@ == (Settings { show_hidden: value, ..old(self)@ }),
            *final(self) == *final(builder),
    {
        self.show_hidden = value;
        self
    }

    /// Sets whether a file whose name is taken is renamed.
    pub fn set_force(&mut self, value: bool) -> (builder: &mut Self)
        ensures
            builder@ == (Settings { force: value, ..old(self)@ }),
            *final(self) == *final(builder),
    {
        self.force = value;
        self
    }

    /// The directory whose files are sorted.
    pub fn input(&self) -> (path: &String)
        ensures
            path@ == self@.input,
    {
        &self.input
    }

    /// The directory that the files are sorted into.
    pub fn output(&self) -> (path: &String)
        ensures
            path@ == self@.output,
    {
        if self.check_output {
            &self.input
        } else {
            &self.output
        }
    }

    /// Whether hidden files are sorted too.
    pub fn show_hidden(&self) -> (value: bool)
        ensures
            value == self@.show_hidden,
    {
        self.show_hidden
    }

    /// Whether a file whose name is taken is renamed.
    pub fn force(&self) -> (value: bool)
        ensures
            value == self@.force,
    {
        self.force
    }

    /// Plans the selected ones of `entries` against the destination as it
    /// was found.
    pub fn get_files(&self, entries: &Vec<SourceEntry>, output: &Destination) -> (planned: Result<
        Vec<SortingFile>,
        SortError,
    >)
        ensures
            match planned {
                Ok(files) => plans_of(entries@, *output, self@.show_hidden, self@.force) == Ok::<
                    Seq<Plan>,
                    Failure,
                >(plans_in(files@)),
                Err(error) => plans_of(entries@, *output, self@.show_hidden, self@.force) == Err::<
                    Seq<Plan>,
                    Failure,
                >(error@),
            },
    {
        let mut result: Vec<SortingFile> = Vec::new();
        let mut i: usize = 0;
        assert(entries@.take(0) =~= Seq::<SourceEntry>::empty());
        assert(plans_in(result@) =~= Seq::<Plan>::empty());
        while i < entries.len()
            invariant
                i <= entries.len(),
                plans_of(entries@.take(i as int), *output, self@.show_hidden, self@.force) == Ok::<
                    Seq<Plan>,
                    Failure,
                >(plans_in(result@)),
            decreases entries.len() - i,
        {
            let entry = &entries[i];
            proof {
                assert(entries@.take(i + 1).drop_last() =~= entries@.take(i as int));
                assert(entries@.take(i + 1).last() == entries@[i as int]);
            }
            if entry.is_file && (self.show_hidden || !hidden_file(&entry.path)) {
                match SortingFile::new(&entry.path, output, self.force) {
                    Err(error) => {
                        proof {
                            lemma_failure_stays(
                                entries@,
                                i + 1,
                                *output,
                                self@.show_hidden,
                                self@.force,
                            );
                        }
                        return Err(error);
                    },
                    Ok(file) => {
                        let ghost before = plans_in(result@);
                        result.push(file);
                        assert(plans_in(result@) =~= before.push(file@));
                    },
                }
            }
            i = i + 1;
        }
        assert(entries@.take(i as int) =~= entries@);
        Ok(result)
    }

    /// Makes the plans from what was found on disk. Nothing is planned
    /// unless both directories exist and the input directory was listed; one
    /// file that cannot be planned leaves no plans at all.
    pub fn build(&self, found: &Survey) -> (plans: Result<SortingFiles, SortError>)
        ensures
            match plans {
                Ok(files) => built(self@, *found) == Ok::<PlanSet, Failure>(files@),
                Err(error) => built(self@, *found) == Err::<PlanSet, Failure>(error@),
            },
    {
        if !found.input_exists {
            return Err(SortError::DirectoryNotFound(self.input.clone()));
        }
        if !found.output_exists {
            return Err(SortError::DirectoryNotFound(self.output().clone()));
        }
        let entries = match &found.entries {
            None => { return Err(SortError::DirectoryRead(self.input.clone())); },
            Some(entries) => entries,
        };
        match self.get_files(entries, &found.destination) {
            Err(error) => Err(error),
            Ok(files) => Ok(SortingFiles::new(self.output(), files)),
        }
    }
}

/// Without renaming, one selected file whose name is taken in its folder
/// fails the plans, so that `build` gives no plans and nothing is moved. The
/// failure is a collision unless an entry before it names no file.
pub proof fn lemma_collision_fails(
    settings: Settings,
    found: Survey,
    i: int,
)
    requires
        !settings.force,
        found.entries is Some,
        0 <= i < found.entries->0@.len(),
        is_selected(found.entries->0@[i], settings.show_hidden),
        file_name_of(found.entries->0@[i].path@) is Some,
        found.destination.taken_in(bucket_of(file_name_of(found.entries->0@[i].path@)->0)).contains(
            file_name_of(found.entries->0@[i].path@)->0,
        ),
    ensures
        built(settings, found) is Err,
        plans_of(found.entries->0@, found.destination, settings.show_hidden, false) is Err,
        (forall|j: int|
            0 <= j < i && is_selected(#[trigger] found.entries->0@[j], settings.show_hidden)
                ==> file_name_of(found.entries->0@[j].path@) is Some) ==> plans_of(
            found.entries->0@,
            found.destination,
            settings.show_hidden,
            false,
        )->Err_0 is Collision,
{
    let entries = found.entries->0@;
    lemma_plans_cover_selected(entries, found.destination, settings.show_hidden, false);
    assert(plan_of(entries[i].path@, found.destination, false) is Err);
    if forall|j: int|
        0 <= j < i && is_selected(#[trigger] entries[j], settings.show_hidden) ==> file_name_of(
            entries[j].path@,
        ) is Some {
        let failure = plans_of(entries, found.destination, settings.show_hidden, false)->Err_0;
        let j = choose|j: int|
            {
                &&& 0 <= j < entries.len()
                &&& is_selected(#[trigger] entries[j], settings.show_hidden)
                &&& plan_of(entries[j].path@, found.destination, false) == Err::<Plan, Failure>(
                    failure,
                )
                &&& forall|h: int|
                    0 <= h < j && is_selected(#[trigger] entries[h], settings.show_hidden)
                        ==> plan_of(entries[h].path@, found.destination, false) is Ok
            };
        if j > i {
            assert(plan_of(entries[i].path@, found.destination, false) is Ok);
        }
        assert(file_name_of(entries[j].path@) is Some);
    }
}

/// Where the plans were built and carried out to the end, every selected
/// entry was moved: from its path into the folder of its extension under the
/// output directory, under its own name or the substitute that was free
/// there, and the move was reported as done.
pub proof fn lemma_sorted_files_were_moved(
    settings: Settings,
    found: Survey,
    outcomes: Seq<bool>,
    j: int,
)
    requires
        built(settings, found) is Ok,
        Run::after(built(settings, found)->Ok_0, outcomes).finished(),
        0 <= j < found.entries->0@.len(),
        is_selected(found.entries->0@[j], settings.show_hidden),
    ensures
        file_name_of(found.entries->0@[j].path@) is Some,
        exists|t: int|
            0 <= t < outcomes.len() && outcomes[t] && #[trigger] Run::after(
                built(settings, found)->Ok_0,
                outcomes.take(t),
            ).action() == ({
                let path = found.entries->0@[j].path@;
                let name = file_name_of(path)->0;
                let folder = bucket_of(name);
                let taken = found.destination.taken_in(folder);
                Step::Move {
                    from: path,
                    to: joined(
                        joined(settings.output, folder),
                        candidate(name, counter_of(name, taken)),
                    ),
                }
            }),
        !settings.force ==> counter_of(
            file_name_of(found.entries->0@[j].path@)->0,
            found.destination.taken_in(bucket_of(file_name_of(found.entries->0@[j].path@)->0)),
        ) == 0,
{
    let set = built(settings, found)->Ok_0;
    let entries = found.entries->0@;
    let path = entries[j].path@;
    lemma_selected_are_planned(
        entries,
        found.destination,
        settings.show_hidden,
        settings.force,
        j,
    );
    let k = choose|k: int|
        0 <= k < set.plans.len() && plan_of(path, found.destination, settings.force) == Ok::<
            Plan,
            Failure,
        >(#[trigger] set.plans[k]);
    lemma_plan_is_free(path, found.destination, settings.force);
    lemma_finished_moved_all(set, outcomes, k);
    assert(set.plans[k].source == path);
    assert(target(set, k) == joined(
        joined(settings.output, bucket_of(file_name_of(path)->0)),
        set.plans[k].name,
    ));
}

} // verus!
