use datahog::storage::dir_trait::{DirError, DirectoryEntry, EmulatedDir, Reader, Writer};

fn test_dir() -> EmulatedDir {
    EmulatedDir::new_from_string(&vec![
        ("file1", "content1"),
        ("dir1/file2", "content2"),
        ("dir1/dir2/file3", "content3"),
    ])
}

#[test]
fn test_new_from_string() {
    let ed = test_dir();

    assert_eq!(ed.files.len(), 1);
    assert_eq!(ed.dirs.len(), 1);
    assert_eq!(
        ed.read_directory(&[]).unwrap(),
        vec![
            DirectoryEntry::Directory("dir1".to_string()),
            DirectoryEntry::File("file1".to_string())
        ]
    );
    assert_eq!(
        ed.read_directory(&["dir1"]).unwrap(),
        vec![
            DirectoryEntry::Directory("dir2".to_string()),
            DirectoryEntry::File("file2".to_string())
        ]
    );
    assert_eq!(&ed.read_file(&["file1"]).unwrap(), "content1");
    assert_eq!(&ed.read_file(&["dir1", "file2"]).unwrap(), "content2");
    assert_eq!(
        &ed.read_file(&["dir1", "dir2", "file3"]).unwrap(),
        "content3"
    );
}

#[test]
fn test_clean() {
    let mut ed = test_dir();
    ed.clean();
    assert_eq!(ed.files.len(), 0);
    assert_eq!(ed.dirs.len(), 0);
}

#[test]
fn test_create_directory() {
    let mut ed = test_dir();
    ed.create_directory(&["new_dir"]).unwrap();
    assert_eq!(ed.files.len(), 1);
    assert_eq!(ed.dirs.len(), 2);
    assert_eq!(
        ed.read_directory(&[]).unwrap(),
        vec![
            DirectoryEntry::Directory("dir1".to_string()),
            DirectoryEntry::Directory("new_dir".to_string()),
            DirectoryEntry::File("file1".to_string()),
        ]
    );
}

#[test]
fn test_write_file() {
    let mut ed = test_dir();
    ed.write_file(&["new_file"], "new_content").unwrap();
    ed.write_file(&["dir1", "new_file2"], "new_content").unwrap();
    assert_eq!(ed.files.len(), 2);
    assert_eq!(ed.dirs.len(), 1);
    assert_eq!(
        ed.read_directory(&[]).unwrap(),
        vec![
            DirectoryEntry::Directory("dir1".to_string()),
            DirectoryEntry::File("file1".to_string()),
            DirectoryEntry::File("new_file".to_string())
        ]
    );
    assert_eq!(
        ed.read_directory(&["dir1"]).unwrap(),
        vec![
            DirectoryEntry::Directory("dir2".to_string()),
            DirectoryEntry::File("file2".to_string()),
            DirectoryEntry::File("new_file2".to_string())
        ]
    );
    assert_eq!(&ed.read_file(&["new_file"]).unwrap(), "new_content");
}

#[test]
fn errors_of_the_emulated_tree() {
    let mut ed = test_dir();
    assert_eq!(ed.read_directory(&["nope"]), Err(DirError::DirectoryNotFound));
    assert_eq!(ed.read_file(&["nope", "file1"]), Err(DirError::DirectoryNotFound));
    assert_eq!(ed.read_file(&["dir1", "nope"]), Err(DirError::FileNotFound));
    assert_eq!(ed.create_directory(&[]), Err(DirError::InvalidPath));
    assert_eq!(ed.create_directory(&["dir1"]), Err(DirError::DirectoryExists));
    assert_eq!(ed.write_file(&["file1"], "x"), Err(DirError::FileExists));
    assert_eq!(ed.write_file(&[], "x"), Err(DirError::InvalidPath));
    assert_eq!(&ed.read_file(&["file1"]).unwrap(), "content1");
    ed.create_directory(&["a", "b", "c"]).unwrap();
    assert_eq!(
        ed.read_directory(&["a", "b"]).unwrap(),
        vec![DirectoryEntry::Directory("c".to_string())]
    );
}

#[test]
fn trait_access_matches_the_tree() {
    let mut ed = test_dir();
    assert_eq!(Reader::read_file(&ed, &[]), Err(DirError::InvalidPath));
    assert_eq!(Reader::read_file(&ed, &["dir1", "file2"]).unwrap(), "content2");
    Writer::write_file(&mut ed, &["b", "c"], "z").unwrap();
    assert_eq!(Reader::read_directory(&ed, &["b"]).unwrap(), vec![DirectoryEntry::File("c".to_string())]);
    Writer::clean(&mut ed).unwrap();
    assert!(Reader::read_directory(&ed, &[]).unwrap().is_empty());
}

#[test]
fn names_are_listed_in_byte_order() {
    let ed = EmulatedDir::new_from_string(&[("b", "1"), ("B", "2"), ("ab", "3"), ("a", "4"), ("é", "5")]);
    let names: Vec<String> = ed
        .read_directory(&[])
        .unwrap()
        .into_iter()
        .map(|e| match e {
            DirectoryEntry::File(n) => n,
            DirectoryEntry::Directory(n) => n,
        })
        .collect();
    assert_eq!(names, vec!["B", "a", "ab", "b", "é"]);
}

#[test]
fn split_path_keeps_empty_pieces() {
    assert_eq!(EmulatedDir::path_to_dir_file("a/b/c"), (vec!["a".to_string(), "b".to_string()], "c".to_string()));
    assert_eq!(EmulatedDir::path_to_dir_file("f"), (vec![], "f".to_string()));
    assert_eq!(EmulatedDir::path_to_dir_file("d/"), (vec!["d".to_string()], "".to_string()));
}
