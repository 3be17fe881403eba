use file_sorter::builders::standart_builder::SortingFielsBuilder;
use file_sorter::builders::survey::{SourceEntry, Survey};
use file_sorter::sorting::destination::{Destination, Folder};
use file_sorter::sorting::errors::SortError;
use file_sorter::sorting::moving::{Action, Sorting};
use file_sorter::sorting::sorting_files::{SortingFile, SortingFiles};
use std::collections::BTreeSet;

fn s(text: &str) -> String {
    String::from(text)
}

/// A disk that holds paths only.
struct Disk {
    files: BTreeSet<String>,
    dirs: BTreeSet<String>,
    read_only: bool,
}

impl Disk {
    fn new(dirs: &[&str], files: &[&str]) -> Disk {
        Disk {
            files: files.iter().map(|f| s(f)).collect(),
            dirs: dirs.iter().map(|d| s(d)).collect(),
            read_only: false,
        }
    }

    fn parent(path: &str) -> String {
        match path.rfind('/') {
            Some(at) => s(&path[..at]),
            None => s(""),
        }
    }

    fn create(&mut self, dir: &String) -> bool {
        if self.read_only || self.dirs.contains(dir) || self.files.contains(dir) {
            return false;
        }
        if !self.dirs.contains(&Disk::parent(dir)) {
            return false;
        }
        self.dirs.insert(dir.clone());
        true
    }

    fn rename(&mut self, from: &String, to: &String) -> bool {
        if !self.files.contains(from) || !self.dirs.contains(&Disk::parent(to)) {
            return false;
        }
        self.files.remove(from);
        self.files.insert(to.clone());
        true
    }

    fn survey(&self, input: &str, output: &str) -> Survey {
        let inside = |dir: &str, path: &String| Disk::parent(path) == dir;
        let mut entries = Vec::new();
        for path in self.files.iter().filter(|p| inside(input, p)) {
            entries.push(SourceEntry { path: path.clone(), is_file: true });
        }
        for path in self.dirs.iter().filter(|p| inside(input, p)) {
            entries.push(SourceEntry { path: path.clone(), is_file: false });
        }
        let mut folders = Vec::new();
        for dir in self.dirs.iter().filter(|p| inside(output, p)) {
            let files = self
                .files
                .iter()
                .filter(|p| inside(dir, p))
                .map(|p| s(&p[dir.len() + 1..]))
                .collect();
            folders.push(Folder { name: s(&dir[output.len() + 1..]), files });
        }
        Survey {
            input_exists: self.dirs.contains(input),
            output_exists: self.dirs.contains(output),
            entries: Some(entries),
            destination: Destination { folders },
        }
    }

    fn run(&mut self, files: SortingFiles) -> Result<(), SortError> {
        let mut sorting = files.sort();
        loop {
            let ok = match sorting.action() {
                Action::Probe(dir) => self.dirs.contains(&dir),
                Action::Create(dir) => self.create(&dir),
                Action::Move { from, to } => self.rename(&from, &to),
                Action::Finish => return Ok(()),
                Action::Fail(error) => return Err(error),
            };
            sorting = sorting.advance(ok);
        }
    }

    fn sort(&mut self, input: &str, output: &str, show_hidden: bool, force: bool) -> Result<(), SortError> {
        let mut builder = SortingFielsBuilder::new(s("/cwd"));
        builder
            .set_input(Some(s(input)))
            .set_output(Some(s(output)))
            .set_show_hidden(show_hidden)
            .set_force(force);
        let files = builder.build(&self.survey(input, output))?;
        self.run(files)
    }
}

fn plans(output: &str, paths: &[&str]) -> SortingFiles {
    let nothing = Destination::new();
    let files = paths.iter().map(|p| SortingFile::new(&s(p), &nothing, false).unwrap()).collect();
    SortingFiles::new(&s(output), files)
}

#[test]
fn sorting_without_plans_finishes_at_once() {
    let sorting = plans("/out", &[]).sort();
    assert_eq!(sorting.action(), Action::Finish);
    let sorting = sorting.advance(true);
    assert_eq!(sorting.action(), Action::Finish);
    let sorting = sorting.advance(false);
    assert_eq!(sorting.action(), Action::Finish);
}

#[test]
fn sorting_start_is_what_sort_gives() {
    let sorting = Sorting::start(plans("/out", &["/in/a.txt"]));
    assert_eq!(sorting.action(), Action::Probe(s("/out/txt")));
}

#[test]
fn sorting_creates_a_missing_folder_then_moves() {
    let sorting = plans("/out", &["/in/a.txt"]).sort();
    assert_eq!(sorting.action(), Action::Probe(s("/out/txt")));
    let sorting = sorting.advance(false);
    assert_eq!(sorting.action(), Action::Create(s("/out/txt")));
    let sorting = sorting.advance(true);
    assert_eq!(sorting.action(), Action::Move { from: s("/in/a.txt"), to: s("/out/txt/a.txt") });
    let sorting = sorting.advance(true);
    assert_eq!(sorting.action(), Action::Finish);
}

#[test]
fn sorting_moves_at_once_into_a_folder_that_is_there() {
    let sorting = plans("/out", &["/in/README"]).sort();
    assert_eq!(sorting.action(), Action::Probe(s("/out/indefinite")));
    let sorting = sorting.advance(true);
    assert_eq!(
        sorting.action(),
        Action::Move { from: s("/in/README"), to: s("/out/indefinite/README") }
    );
    let sorting = sorting.advance(true);
    assert_eq!(sorting.action(), Action::Finish);
}

#[test]
fn sorting_takes_the_files_in_order() {
    let sorting = plans("/out", &["/in/b.rs", "/in/a.txt"]).sort();
    assert_eq!(sorting.action(), Action::Probe(s("/out/rs")));
    let sorting = sorting.advance(true);
    assert_eq!(sorting.action(), Action::Move { from: s("/in/b.rs"), to: s("/out/rs/b.rs") });
    let sorting = sorting.advance(true);
    assert_eq!(sorting.action(), Action::Probe(s("/out/txt")));
    let sorting = sorting.advance(true);
    assert_eq!(sorting.action(), Action::Move { from: s("/in/a.txt"), to: s("/out/txt/a.txt") });
    let sorting = sorting.advance(true);
    assert_eq!(sorting.action(), Action::Finish);
}

#[test]
fn sorting_moves_under_the_planned_name() {
    let output = Destination { folders: vec![Folder { name: s("txt"), files: vec![s("a.txt")] }] };
    let file = SortingFile::new(&s("/in/a.txt"), &output, true).unwrap();
    let sorting = SortingFiles::new(&s("/out"), vec![file]).sort().advance(true);
    assert_eq!(
        sorting.action(),
        Action::Move { from: s("/in/a.txt"), to: s("/out/txt/dubbed_1-a.txt") }
    );
}

#[test]
fn sorting_stops_where_a_folder_cannot_be_created() {
    let sorting = plans("/out", &["/in/a.txt", "/in/b.rs"]).sort();
    let sorting = sorting.advance(false).advance(false);
    assert_eq!(sorting.action(), Action::Fail(SortError::DirectoryCreate(s("/out/txt"))));
    let sorting = sorting.advance(true);
    assert_eq!(sorting.action(), Action::Fail(SortError::DirectoryCreate(s("/out/txt"))));
}

#[test]
fn sorting_stops_where_a_file_cannot_be_moved() {
    let sorting = plans("/out", &["/in/a.txt", "/in/b.rs"]).sort();
    let sorting = sorting.advance(true).advance(true).advance(true).advance(false);
    assert_eq!(sorting.action(), Action::Fail(SortError::Move(s("/in/b.rs"))));
    let sorting = sorting.advance(true).advance(true);
    assert_eq!(sorting.action(), Action::Fail(SortError::Move(s("/in/b.rs"))));
}

#[test]
fn every_file_ends_up_in_the_folder_of_its_extension() {
    let mut disk = Disk::new(&["/in", "/out"], &["/in/a.txt", "/in/b.txt", "/in/c.rs", "/in/README"]);
    assert_eq!(disk.sort("/in", "/out", false, false), Ok(()));
    let expected: BTreeSet<String> =
        ["/out/txt/a.txt", "/out/txt/b.txt", "/out/rs/c.rs", "/out/indefinite/README"]
            .iter()
            .map(|p| s(p))
            .collect();
    assert_eq!(disk.files, expected);
    assert!(disk.dirs.contains("/out/txt"));
    assert!(disk.dirs.contains("/out/rs"));
    assert!(disk.dirs.contains("/out/indefinite"));
}

#[test]
fn hidden_files_stay_where_they_are() {
    let mut disk =
        Disk::new(&["/in", "/out"], &["/in/a.txt", "/in/b.txt", "/in/.hidden.txt", "/in/README"]);
    assert_eq!(disk.sort("/in", "/out", false, false), Ok(()));
    assert!(disk.files.contains("/out/txt/a.txt"));
    assert!(disk.files.contains("/out/txt/b.txt"));
    assert!(disk.files.contains("/out/indefinite/README"));
    assert!(disk.files.contains("/in/.hidden.txt"));
    assert!(!disk.files.contains("/in/a.txt"));
    assert!(!disk.files.contains("/in/b.txt"));
    assert!(!disk.files.contains("/in/README"));
    assert_eq!(disk.files.len(), 4);
}

#[test]
fn hidden_files_go_too_where_asked() {
    let mut disk = Disk::new(&["/in", "/out"], &["/in/a.txt", "/in/.hidden.txt", "/in/.env"]);
    assert_eq!(disk.sort("/in", "/out", true, false), Ok(()));
    let expected: BTreeSet<String> =
        ["/out/txt/a.txt", "/out/txt/.hidden.txt", "/out/indefinite/.env"].iter().map(|p| s(p)).collect();
    assert_eq!(disk.files, expected);
}

#[test]
fn subdirectories_are_never_moved() {
    let mut disk = Disk::new(&["/in", "/in/sub.txt", "/out"], &["/in/a.txt", "/in/sub.txt/deep.txt"]);
    assert_eq!(disk.sort("/in", "/out", true, true), Ok(()));
    assert!(disk.dirs.contains("/in/sub.txt"));
    assert!(disk.files.contains("/in/sub.txt/deep.txt"));
    assert!(disk.files.contains("/out/txt/a.txt"));
    assert_eq!(disk.files.len(), 2);
}

#[test]
fn a_collision_moves_nothing() {
    let before = ["/in/a.txt", "/in/b.txt", "/out/txt/b.txt"];
    let mut disk = Disk::new(&["/in", "/out", "/out/txt"], &before);
    assert_eq!(disk.sort("/in", "/out", false, false), Err(SortError::Collision(s("/in/b.txt"))));
    let expected: BTreeSet<String> = before.iter().map(|p| s(p)).collect();
    assert_eq!(disk.files, expected);
}

#[test]
fn files_of_one_name_pile_up_under_distinct_names() {
    let mut disk = Disk::new(&["/in", "/out"], &[]);
    for _ in 0..4 {
        disk.files.insert(s("/in/a.txt"));
        assert_eq!(disk.sort("/in", "/out", false, true), Ok(()));
    }
    let expected: BTreeSet<String> = [
        "/out/txt/a.txt",
        "/out/txt/dubbed_1-a.txt",
        "/out/txt/dubbed_2-a.txt",
        "/out/txt/dubbed_3-a.txt",
    ]
    .iter()
    .map(|p| s(p))
    .collect();
    assert_eq!(disk.files, expected);
}

#[test]
fn sorting_a_directory_into_itself() {
    let mut disk = Disk::new(&["/in"], &["/in/a.txt", "/in/README"]);
    assert_eq!(disk.sort("/in", "/in", false, false), Ok(()));
    let expected: BTreeSet<String> =
        ["/in/txt/a.txt", "/in/indefinite/README"].iter().map(|p| s(p)).collect();
    assert_eq!(disk.files, expected);
}

#[test]
fn plans_carried_out_twice_fail_the_second_time() {
    let mut disk = Disk::new(&["/in", "/out"], &["/in/a.txt", "/in/b.rs"]);
    assert_eq!(disk.run(plans("/out", &["/in/a.txt", "/in/b.rs"])), Ok(()));
    let after: BTreeSet<String> = disk.files.clone();
    assert_eq!(
        disk.run(plans("/out", &["/in/a.txt", "/in/b.rs"])),
        Err(SortError::Move(s("/in/a.txt")))
    );
    assert_eq!(disk.files, after);
}

#[test]
fn what_was_moved_before_a_failure_stays_moved() {
    let mut disk = Disk::new(&["/in", "/out"], &["/in/a.txt", "/in/c.md"]);
    let result = disk.run(plans("/out", &["/in/a.txt", "/in/b.rs", "/in/c.md"]));
    assert_eq!(result, Err(SortError::Move(s("/in/b.rs"))));
    assert!(disk.files.contains("/out/txt/a.txt"));
    assert!(!disk.files.contains("/in/a.txt"));
    assert!(disk.files.contains("/in/c.md"));
    assert!(disk.dirs.contains("/out/rs"));
    assert!(!disk.dirs.contains("/out/md"));
}

#[test]
fn a_folder_that_cannot_be_created_fails_the_sorting() {
    let mut disk = Disk::new(&["/in", "/out"], &["/in/a.txt"]);
    disk.read_only = true;
    let result = disk.run(plans("/out", &["/in/a.txt"]));
    assert_eq!(result, Err(SortError::DirectoryCreate(s("/out/txt"))));
    assert!(disk.files.contains("/in/a.txt"));
}

#[test]
fn a_missing_destination_fails_before_anything_is_moved() {
    let mut disk = Disk::new(&["/in"], &["/in/a.txt"]);
    assert_eq!(
        disk.sort("/in", "/out", false, false),
        Err(SortError::DirectoryNotFound(s("/out")))
    );
    assert!(disk.files.contains("/in/a.txt"));
    assert_eq!(disk.dirs.len(), 1);
}
