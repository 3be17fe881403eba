use file_sorter::sorting::destination::{Destination, Folder};
use file_sorter::sorting::errors::SortError;
use file_sorter::sorting::sorting_files::{SortingFile, SortingFiles};

fn s(text: &str) -> String {
    String::from(text)
}

fn folder(name: &str, files: &[&str]) -> Folder {
    Folder { name: s(name), files: files.iter().map(|f| s(f)).collect() }
}

fn destination(folders: Vec<Folder>) -> Destination {
    Destination { folders }
}

#[test]
fn destination_find_gives_the_first_folder_of_a_name() {
    let output = destination(vec![folder("txt", &[]), folder("rs", &[]), folder("txt", &["a"])]);
    assert_eq!(output.find(&s("txt")), Some(0));
    assert_eq!(output.find(&s("rs")), Some(1));
    assert_eq!(output.find(&s("md")), None);
    assert_eq!(Destination::new().find(&s("txt")), None);
}

#[test]
fn current_file_name_keeps_a_free_name() {
    let files = vec![s("b.txt")];
    assert_eq!(SortingFile::current_file_name(&s("src/a.txt"), &files, false), Ok(s("a.txt")));
    assert_eq!(SortingFile::current_file_name(&s("src/a.txt"), &files, true), Ok(s("a.txt")));
}

#[test]
fn current_file_name_without_force_is_a_collision() {
    let files = vec![s("a.txt")];
    assert_eq!(
        SortingFile::current_file_name(&s("src/a.txt"), &files, false),
        Err(SortError::Collision(s("src/a.txt")))
    );
}

#[test]
fn current_file_name_with_force_dubs() {
    let files = vec![s("a.txt"), s("dubbed_1-a.txt")];
    assert_eq!(
        SortingFile::current_file_name(&s("src/a.txt"), &files, true),
        Ok(s("dubbed_2-a.txt"))
    );
}

#[test]
fn current_file_name_of_a_path_without_file_name() {
    assert_eq!(
        SortingFile::current_file_name(&s("src/.."), &Vec::new(), true),
        Err(SortError::InvalidPath(s("src/..")))
    );
    assert_eq!(
        SortingFile::current_file_name(&s(""), &Vec::new(), false),
        Err(SortError::InvalidPath(s("")))
    );
}

#[test]
fn new_plans_a_file_into_the_folder_of_its_extension() {
    let file = SortingFile::new(&s("src/a.txt"), &Destination::new(), false).unwrap();
    assert_eq!(file.file_path(), &s("src/a.txt"));
    assert_eq!(file.name(), &s("a.txt"));
    assert_eq!(file.extension(), &s("txt"));
}

#[test]
fn new_plans_a_file_without_extension_into_indefinite() {
    let file = SortingFile::new(&s("src/README"), &Destination::new(), false).unwrap();
    assert_eq!(file.file_path(), &s("src/README"));
    assert_eq!(file.name(), &s("README"));
    assert_eq!(file.extension(), &s("indefinite"));
}

#[test]
fn new_plans_a_hidden_file_without_extension_into_indefinite() {
    let file = SortingFile::new(&s("src/.profile"), &Destination::new(), false).unwrap();
    assert_eq!(file.name(), &s(".profile"));
    assert_eq!(file.extension(), &s("indefinite"));
}

#[test]
fn new_tolerates_a_destination_without_the_folder() {
    let output = destination(vec![folder("rs", &["a.txt"])]);
    let file = SortingFile::new(&s("src/a.txt"), &output, false).unwrap();
    assert_eq!(file.name(), &s("a.txt"));
    assert_eq!(file.extension(), &s("txt"));
}

#[test]
fn new_looks_only_into_the_folder_of_the_extension() {
    let output = destination(vec![folder("txt", &["b.txt"]), folder("md", &["a.txt"])]);
    let file = SortingFile::new(&s("src/a.txt"), &output, false).unwrap();
    assert_eq!(file.name(), &s("a.txt"));
}

#[test]
fn new_without_force_fails_on_a_taken_name() {
    let output = destination(vec![folder("txt", &["a.txt"])]);
    let planned = SortingFile::new(&s("src/a.txt"), &output, false);
    assert_eq!(planned.err(), Some(SortError::Collision(s("src/a.txt"))));
}

#[test]
fn new_with_force_renames() {
    let output = destination(vec![folder("txt", &["a.txt", "dubbed_1-a.txt"])]);
    let file = SortingFile::new(&s("src/a.txt"), &output, true).unwrap();
    assert_eq!(file.file_path(), &s("src/a.txt"));
    assert_eq!(file.name(), &s("dubbed_2-a.txt"));
    assert_eq!(file.extension(), &s("txt"));
}

#[test]
fn new_goes_by_the_first_of_two_folders_of_one_name() {
    let output = destination(vec![folder("txt", &[]), folder("txt", &["a.txt"])]);
    let file = SortingFile::new(&s("src/a.txt"), &output, false).unwrap();
    assert_eq!(file.name(), &s("a.txt"));
}

#[test]
fn new_fails_on_a_path_without_file_name() {
    let planned = SortingFile::new(&s("src/.."), &Destination::new(), true);
    assert_eq!(planned.err(), Some(SortError::InvalidPath(s("src/.."))));
    let planned = SortingFile::new(&s("/"), &Destination::new(), false);
    assert_eq!(planned.err(), Some(SortError::InvalidPath(s("/"))));
}

#[test]
fn new_indefinite_files_collide_in_indefinite() {
    let output = destination(vec![folder("indefinite", &["README"])]);
    let planned = SortingFile::new(&s("src/README"), &output, false);
    assert_eq!(planned.err(), Some(SortError::Collision(s("src/README"))));
    let file = SortingFile::new(&s("src/README"), &output, true).unwrap();
    assert_eq!(file.name(), &s("dubbed_1-README"));
    assert_eq!(file.extension(), &s("indefinite"));
}

#[test]
fn sorting_files_new_keeps_output_and_order() {
    let a = SortingFile::new(&s("src/a.txt"), &Destination::new(), false).unwrap();
    let b = SortingFile::new(&s("src/b.rs"), &Destination::new(), false).unwrap();
    let all = SortingFiles::new(&s("out"), vec![a, b]);
    assert_eq!(all.output_path(), &s("out"));
    assert_eq!(all.len(), 2);
    assert_eq!(all.file(0).unwrap().file_path(), &s("src/a.txt"));
    assert_eq!(all.file(1).unwrap().file_path(), &s("src/b.rs"));
    assert!(all.file(2).is_none());
}

#[test]
fn sorting_files_new_without_files() {
    let all = SortingFiles::new(&s("out"), Vec::new());
    assert_eq!(all.len(), 0);
    assert!(all.file(0).is_none());
}

#[test]
fn error_messages() {
    assert_eq!(SortError::DirectoryNotFound(s("/x")).message(), s("Dir /x not exists"));
    assert_eq!(SortError::DirectoryRead(s("/x")).message(), s("Error reading directory: /x"));
    assert_eq!(
        SortError::DirectoryCreate(s("/x/txt")).message(),
        s("Error creating directory: /x/txt")
    );
    assert_eq!(
        SortError::Collision(s("/x/a.txt")).message(),
        s("The file already exists in the target directory: /x/a.txt")
    );
    assert_eq!(SortError::Move(s("/x/a.txt")).message(), s("Error moving file: /x/a.txt"));
    assert_eq!(
        SortError::InvalidPath(s("/x/..")).message(),
        s("Invalid source file path: /x/..")
    );
}

#[test]
fn error_paths() {
    assert_eq!(SortError::DirectoryNotFound(s("/a")).path(), &s("/a"));
    assert_eq!(SortError::DirectoryRead(s("/b")).path(), &s("/b"));
    assert_eq!(SortError::DirectoryCreate(s("/c")).path(), &s("/c"));
    assert_eq!(SortError::Collision(s("/d")).path(), &s("/d"));
    assert_eq!(SortError::Move(s("/e")).path(), &s("/e"));
    assert_eq!(SortError::InvalidPath(s("/f")).path(), &s("/f"));
}
