//! The plan for one file, and the plans for all files of a directory.

use crate::sorting::destination::{lemma_position, Destination};
use crate::sorting::errors::{Failure, SortError};
use crate::sorting::names::{
    candidate, counter_of, lemma_names_of, lemma_resolved_is_free, names_of, resolve,
    resolved_name,
};
use crate::sorting::paths::{
    bucket, bucket_of, file_name, file_name_of, lemma_no_dot_is_indefinite, INDEFINITE_FILE_NAME,
};
use vstd::prelude::*;
use vstd::string::*;

verus! {

/// Where one file goes: the path it is at, the name it will have, and the
/// folder, called by its extension, that it will be in.
#[derive(Debug)]
pub struct SortingFile {
    file_path: String,
    name: String,
    extension: String,
}

/// A `SortingFile` as text.
pub ghost struct Plan {
    pub source: Seq<char>,
    pub name: Seq<char>,
    pub extension: Seq<char>,
}

/// The name under which the file at `path` enters a folder that holds
/// `taken`.
pub open spec fn current_name_of(path: Seq<char>, taken: Set<Seq<char>>, force: bool) -> Result<
    Seq<char>,
    Failure,
> {
    match file_name_of(path) {
        None => Err(Failure::InvalidPath(path)),
        Some(name) => match resolved_name(name, taken, force) {
            None => Err(Failure::Collision(path)),
            Some(chosen) => Ok(chosen),
        },
    }
}

/// The plan for the file at `path`, with the destination as it is: the folder
/// is the one that its extension stands for, the name the one under which it
/// can enter that folder.
pub open spec fn plan_of(path: Seq<char>, output: Destination, force: bool) -> Result<
    Plan,
    Failure,
> {
    match file_name_of(path) {
        None => Err(Failure::InvalidPath(path)),
        Some(name) => match current_name_of(path, output.taken_in(bucket_of(name)), force) {
            Err(failure) => Err(failure),
            Ok(chosen) => Ok(Plan { source: path, name: chosen, extension: bucket_of(name) }),
        },
    }
}

/// A file whose name holds no `.` is planned into the folder `indefinite`.
pub proof fn lemma_plan_without_extension(path: Seq<char>, output: Destination, force: bool)
    requires
        file_name_of(path) is Some,
        !file_name_of(path)->0.contains('.'),
        plan_of(path, output, force) is Ok,
    ensures
        plan_of(path, output, force)->Ok_0.extension == INDEFINITE_FILE_NAME@,
{
    lemma_no_dot_is_indefinite(file_name_of(path)->0);
}

/// A plan keeps the file's path, names a free place, and renames the file, if
/// at all, to a substitute for its own name.
pub proof fn lemma_plan_is_free(path: Seq<char>, output: Destination, force: bool)
    requires
        plan_of(path, output, force) is Ok,
    ensures
        ({
            let plan = plan_of(path, output, force)->Ok_0;
            let name = file_name_of(path)->0;
            &&& file_name_of(path) is Some
            &&& plan.source == path
            &&& plan.extension == bucket_of(name)
            &&& !output.taken_in(plan.extension).contains(plan.name)
            &&& !force ==> plan.name == name
            &&& plan.name == candidate(name, counter_of(name, output.taken_in(plan.extension)))
        }),
{
    let name = file_name_of(path)->0;
    let taken = output.taken_in(bucket_of(name));
    lemma_names_of(output.files_in(bucket_of(name)));
    lemma_resolved_is_free(name, taken);
}

/// A file whose folder is not in the destination yet keeps its name: where
/// there is no folder, nothing collides.
pub proof fn lemma_missing_folder_is_free(path: Seq<char>, output: Destination, force: bool)
    requires
        file_name_of(path) is Some,
        forall|j: int|
            0 <= j < output.folders@.len() ==> output.folders@[j].name@ != bucket_of(
                file_name_of(path)->0,
            ),
    ensures
        plan_of(path, output, force) == Ok::<Plan, Failure>(
            Plan {
                source: path,
                name: file_name_of(path)->0,
                extension: bucket_of(file_name_of(path)->0),
            },
        ),
{
    let folder = bucket_of(file_name_of(path)->0);
    lemma_position(output.folders@, folder, 0);
    assert(output.files_in(folder) =~= Seq::<String>::empty());
    assert(output.taken_in(folder) =~= Set::<Seq<char>>::empty());
}

impl View for SortingFile {
    type V = Plan;

    closed spec fn view(&self) -> Plan {
        Plan { source: self.file_path@, name: self.name@, extension: self.extension@ }
    }
}

impl SortingFile {
    /// The name under which the file at `file_path` enters a folder that
    /// holds `files`: its own where that is free, else, with `force`, the
    /// first free one of `dubbed_1-<name>`, `dubbed_2-<name>` and so on.
    /// Without `force` a taken name is a collision.
    pub fn current_file_name(file_path: &String, files: &Vec<String>, force: bool) -> (chosen:
        Result<String, SortError>)
        ensures
            match chosen {
                Ok(name) => current_name_of(file_path@, names_of(files@), force) == Ok::<
                    Seq<char>,
                    Failure,
                >(name@),
                Err(error) => current_name_of(file_path@, names_of(files@), force) == Err::<
                    Seq<char>,
                    Failure,
                >(error@),
            },
    {
        match file_name(file_path) {
            None => Err(SortError::InvalidPath(file_path.clone())),
            Some(name) => match resolve(&name, files, force) {
                None => Err(SortError::Collision(file_path.clone())),
                Some(chosen) => Ok(chosen),
            },
        }
    }

    /// Plans the move of the file at `file_path` into the destination that
    /// `output` describes.
    pub fn new(file_path: &String, output: &Destination, force: bool) -> (planned: Result<
        SortingFile,
        SortError,
    >)
        ensures
            match planned {
                Ok(file) => plan_of(file_path@, *output, force) == Ok::<Plan, Failure>(file@),
                Err(error) => plan_of(file_path@, *output, force) == Err::<Plan, Failure>(error@),
            },
    {
        let name = match file_name(file_path) {
            None => { return Err(SortError::InvalidPath(file_path.clone())); },
            Some(name) => name,
        };
        let extension = bucket(&name);
        let chosen = match output.find(&extension) {
            Some(at) => Self::current_file_name(file_path, &output.folders[at].files, force),
            None => {
                let nothing: Vec<String> = Vec::new();
                Self::current_file_name(file_path, &nothing, force)
            },
        };
        match chosen {
            Err(error) => Err(error),
            Ok(chosen) => Ok(SortingFile { file_path: file_path.clone(), name: chosen, extension }),
        }
    }

    /// The path that the file is at.
    pub fn file_path(&self) -> (path: &String)
        ensures
            path@ == self@.source,
    {
        &self.file_path
    }

    /// The name that the file will have.
    pub fn name(&self) -> (name: &String)
        ensures
            name@ == self@.name,
    {
        &self.name
    }

    /// The folder that the file will be in.
    pub fn extension(&self) -> (extension: &String)
        ensures
            extension@ == self@.extension,
    {
        &self.extension
    }
}

/// The destination directory and the plans for the files that go into it, in
/// the order in which the files were found.
#[derive(Debug)]
pub struct SortingFiles {
    output_path: String,
    grouped_files: Vec<SortingFile>,
}

/// A `SortingFiles` as text.
pub ghost struct PlanSet {
    pub output: Seq<char>,
    pub plans: Seq<Plan>,
}

/// The plans of some files, as text.
pub open spec fn plans_in(files: Seq<SortingFile>) -> Seq<Plan> {
    files.map_values(|f: SortingFile| f@)
}

impl View for SortingFiles {
    type V = PlanSet;

    closed spec fn view(&self) -> PlanSet {
        PlanSet { output: self.output_path@, plans: plans_in(self.grouped_files@) }
    }
}

impl SortingFiles {
    /// The plans `files` for the destination directory at `output`.
    pub fn new(output: &String, files: Vec<SortingFile>) -> (all: SortingFiles)
        ensures
            all@ == (PlanSet { output: output@, plans: plans_in(files@) }),
    {
        SortingFiles { output_path: output.clone(), grouped_files: files }
    }

    /// The path of the destination directory.
    pub fn output_path(&self) -> (path: &String)
        ensures
            path@ == self@.output,
    {
        &self.output_path
    }

    /// How many files are planned.
    pub fn len(&self) -> (n: usize)
        ensures
            n == self@.plans.len(),
    {
        self.grouped_files.len()
    }

    /// The plan for the `i`-th file.
    pub fn file(&self, i: usize) -> (file: Option<&SortingFile>)
        ensures
            match file {
                Some(f) => i < self@.plans.len() && f@ == self@.plans[i as int],
                None => i >= self@.plans.len(),
            },
    {
        if i < self.grouped_files.len() {
            Some(&self.grouped_files[i])
        } else {
            None
        }
    }
}

} // verus!
