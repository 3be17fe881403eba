//! What the destination directory held when it was looked at: the folders in
//! it, and the names in each.

use crate::sorting::names::names_of;
use vstd::prelude::*;
use vstd::string::*;

verus! {

/// A folder of the destination directory: its name, and the names of what
/// it holds.
#[derive(Debug)]
pub struct Folder {
    pub name: String,
    pub files: Vec<String>,
}

/// The folders of the destination directory. Where two carry one name, the
/// first counts.
#[derive(Debug)]
pub struct Destination {
    pub folders: Vec<Folder>,
}

/// Where the first folder called `bucket` stands, from `from` on.
pub open spec fn position(folders: Seq<Folder>, bucket: Seq<char>, from: int) -> Option<int>
    decreases folders.len() - from,
{
    if from < 0 || from >= folders.len() {
        None
    } else if folders[from].name@ == bucket {
        Some(from)
    } else {
        position(folders, bucket, from + 1)
    }
}

/// `position` finds a folder of that name exactly where there is one, and
/// then the first.
pub proof fn lemma_position(folders: Seq<Folder>, bucket: Seq<char>, from: int)
    requires
        0 <= from,
    ensures
        match position(folders, bucket, from) {
            Some(at) => from <= at < folders.len() && folders[at].name@ == bucket && forall|j: int|
                from <= j < at ==> folders[j].name@ != bucket,
            None => forall|j: int| from <= j < folders.len() ==> folders[j].name@ != bucket,
        },
    decreases folders.len() - from,
{
    if from < folders.len() && folders[from].name@ != bucket {
        lemma_position(folders, bucket, from + 1);
    }
}

impl Destination {
    /// The files of the folder called `bucket`; none where there is no such
    /// folder.
    pub open spec fn files_in(&self, bucket: Seq<char>) -> Seq<String> {
        match position(self.folders@, bucket, 0) {
            Some(at) => self.folders@[at].files@,
            None => Seq::empty(),
        }
    }

    /// The names that are taken in the folder called `bucket`.
    pub open spec fn taken_in(&self, bucket: Seq<char>) -> Set<Seq<char>> {
        names_of(self.files_in(bucket))
    }

    /// A destination without folders.
    pub fn new() -> (empty: Destination)
        ensures
            empty.folders@.len() == 0,
            forall|bucket: Seq<char>| #[trigger] empty.files_in(bucket) == Seq::<String>::empty(),
    {
        Destination { folders: Vec::new() }
    }

    /// Finds the first folder called `bucket`.
    pub fn find(&self, bucket: &String) -> (at: Option<usize>)
        ensures
            match at {
                Some(i) => {
                    &&& i < self.folders@.len()
                    &&& self.folders@[i as int].name@ == bucket@
                    &&& forall|j: int| 0 <= j < i ==> self.folders@[j].name@ != bucket@
                    &&& position(self.folders@, bucket@, 0) == Some(i as int)
                    &&& self.files_in(bucket@) == self.folders@[i as int].files@
                },
                None => {
                    &&& forall|j: int|
                        0 <= j < self.folders@.len() ==> self.folders@[j].name@ != bucket@
                    &&& position(self.folders@, bucket@, 0) is None
                    &&& self.files_in(bucket@) == Seq::<String>::empty()
                },
            },
    {
        let mut i: usize = 0;
        while i < self.folders.len()
            invariant
                i <= self.folders.len(),
                forall|j: int| 0 <= j < i ==> self.folders@[j].name@ != bucket@,
                position(self.folders@, bucket@, 0) == position(self.folders@, bucket@, i as int),
            decreases self.folders.len() - i,
        {
            if self.folders[i].name == *bucket {
                return Some(i);
            }
            i = i + 1;
        }
        None
    }
}

} // verus!
