use cpufreqd::fs::{Fs, FsError, OpenOptions};
use cpufreqd::memfs::{TestDirEnt, TestFile, TestFs};
use cpufreqd::path::FsPath;

fn p(parts: &[&str]) -> FsPath {
    FsPath::new(parts.iter().map(|s| s.to_string()).collect())
}

fn seeded(paths: &[&[&str]]) -> TestFs {
    TestFs::new(paths.iter().map(|q| p(q)).collect())
}

#[test]
fn seed_membership() {
    let fs = seeded(&[&["a", "b", "c"], &["a", "d"]]);
    assert_eq!(fs._exists(&p(&["a", "b", "c"])), Ok(true));
    assert_eq!(fs._exists(&p(&["a", "d"])), Ok(true));
    // a derived directory is not a stored file
    assert_eq!(fs._exists(&p(&["a"])), Ok(false));
    assert_eq!(fs._exists(&p(&["a", "b"])), Ok(false));
    assert_eq!(fs._exists(&p(&["x"])), Ok(false));
    assert_eq!(fs.file_exists(&p(&["a", "d"])), Ok(true));
    assert_eq!(fs.file_exists(&p(&["a", "e"])), Ok(false));
}

#[test]
fn seed_repeated_path_stored_once() {
    let fs = seeded(&[&["a", "b"], &["a", "b"]]);
    assert_eq!(fs._exists(&p(&["a", "b"])), Ok(true));
    let ents = fs.dir(&p(&["a"])).unwrap();
    assert_eq!(ents.len(), 1);
    assert_eq!(ents[0], TestDirEnt::File(p(&["a", "b"])));
}

#[test]
fn dir_collapses_and_deduplicates() {
    let fs = seeded(&[
        &["a", "b", "c"],
        &["a", "b", "e", "f"],
        &["a", "d"],
    ]);
    let ents = fs.dir(&p(&["a"])).unwrap();
    assert_eq!(ents.len(), 2);
    assert!(ents.contains(&TestDirEnt::Dir(p(&["a", "b"]))));
    assert!(ents.contains(&TestDirEnt::File(p(&["a", "d"]))));
}

#[test]
fn dir_on_stored_file_fails_not_a_directory() {
    let fs = seeded(&[&["a", "b", "c"], &["a", "d"]]);
    assert_eq!(fs.dir(&p(&["a", "b", "c"])).unwrap_err(), FsError::NotADirectory);
    assert_eq!(fs.dir(&p(&["a", "d"])).unwrap_err(), FsError::NotADirectory);
    assert_eq!(fs._dir(&p(&["a", "d"])).unwrap_err(), FsError::NotADirectory);
}

#[test]
fn dir_on_absent_prefix_lists_nothing() {
    let fs = seeded(&[&["a", "b"]]);
    let ents = fs.dir(&p(&["z"])).unwrap();
    assert!(ents.is_empty());
}

#[test]
fn write_create_then_read_round_trip() {
    let mut fs = seeded(&[&["a", "b"]]);
    let opts = OpenOptions::default().create(true).write(true);
    let handle = fs.open(opts, &p(&["a", "new"])).unwrap();
    assert_eq!(fs.write_to(&handle, b"hello"), Ok(()));
    let reader = fs.open(OpenOptions::default().read(true), &p(&["a", "new"])).unwrap();
    assert_eq!(fs.read_to_string(&reader).unwrap(), "hello");
}

#[test]
fn write_without_create_on_missing_path_fails_not_found() {
    let mut fs = seeded(&[&["a", "b"]]);
    let handle = TestFile {
        path: p(&["a", "missing"]),
        options: OpenOptions::default().write(true),
    };
    assert_eq!(fs.write_to(&handle, b"text"), Err(FsError::NotFound));
    assert_eq!(fs._exists(&p(&["a", "missing"])), Ok(false));
}

#[test]
fn read_without_read_flag_fails_permission_denied() {
    let fs = seeded(&[&["a", "b"]]);
    // the path exists
    let stored = TestFile { path: p(&["a", "b"]), options: OpenOptions::default() };
    assert_eq!(fs.read_to_string(&stored), Err(FsError::PermissionDenied));
    // and the path does not: still PermissionDenied, never NotFound
    let missing = TestFile { path: p(&["nowhere"]), options: OpenOptions::default() };
    assert_eq!(fs.read_to_string(&missing), Err(FsError::PermissionDenied));
}

#[test]
fn read_missing_path_with_read_flag_fails_not_found() {
    let fs = seeded(&[&["a", "b"]]);
    let handle = TestFile { path: p(&["nowhere"]), options: OpenOptions::default().read(true) };
    assert_eq!(fs.read_to_string(&handle), Err(FsError::NotFound));
}

#[test]
fn overwrite_last_write_wins() {
    let mut fs = seeded(&[&["a", "b"]]);
    let handle = fs.open(OpenOptions::default().write(true), &p(&["a", "b"])).unwrap();
    assert_eq!(fs.write_to(&handle, b"one"), Ok(()));
    assert_eq!(fs.write_to(&handle, b"two"), Ok(()));
    let reader = fs.open(OpenOptions::default().read(true), &p(&["a", "b"])).unwrap();
    assert_eq!(fs.read_to_string(&reader).unwrap(), "two");
}

#[test]
fn write_without_write_flag_fails_permission_denied() {
    let mut fs = seeded(&[&["a", "b"]]);
    let handle = fs.open(OpenOptions::default().read(true), &p(&["a", "b"])).unwrap();
    assert_eq!(fs.write_to(&handle, b"text"), Err(FsError::PermissionDenied));
}

#[test]
fn write_invalid_bytes_fails_content_decode() {
    let mut fs = seeded(&[&["a", "b"]]);
    let handle = fs.open(OpenOptions::default().write(true), &p(&["a", "b"])).unwrap();
    assert_eq!(fs.write_to(&handle, &[0xff, 0xfe, 0x00, 0x9f]), Err(FsError::ContentDecodeError));
    // the stored content is untouched
    let reader = fs.open(OpenOptions::default().read(true), &p(&["a", "b"])).unwrap();
    assert_eq!(fs.read_to_string(&reader).unwrap(), "no content");
}

#[test]
fn seeded_content_is_placeholder() {
    let fs = seeded(&[&["a", "b"]]);
    let reader = fs.open(OpenOptions::default().read(true), &p(&["a", "b"])).unwrap();
    assert_eq!(fs.read_to_string(&reader).unwrap(), "no content");
}

#[test]
fn entry_classification() {
    let fs = seeded(&[&["a", "b", "c"], &["a", "d"]]);
    let dir_ent = TestDirEnt::Dir(p(&["a", "b"]));
    let file_ent = TestDirEnt::File(p(&["a", "d"]));
    assert!(TestFs::is_dir(&dir_ent));
    assert!(!TestFs::is_file(&dir_ent));
    assert!(TestFs::is_file(&file_ent));
    assert!(!TestFs::is_dir(&file_ent));
    // a stored key is never classified a directory, nor is a derived prefix
    assert_eq!(fs._is_dir(&p(&["a", "d"])), Ok(false));
    assert_eq!(fs._is_dir(&p(&["a", "b"])), Ok(false));
    assert_eq!(fs._is_dir(&p(&["zzz"])), Ok(false));
}

#[test]
fn open_options_builder_sets_each_flag() {
    let o = OpenOptions::default();
    assert!(!o.read && !o.write && !o.append && !o.create);
    let o = o.read(true);
    assert!(o.read && !o.write && !o.append && !o.create);
    let o = o.write(true).append(true).create(true);
    assert!(o.read && o.write && o.append && o.create);
    let o = o.read(false);
    assert!(!o.read && o.write && o.append && o.create);
}
