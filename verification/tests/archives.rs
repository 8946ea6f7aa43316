use dashboard_sockets::archive::{join, Archive, ArchiveError, Visited, SAFE_SIZE};
use std::io::{Cursor, Read};

fn add_directory(archive: Archive, relative: &str) -> Archive {
    match archive.visit(Some("music"), Some(relative), false) {
        Ok(Visited::Next(archive)) => archive,
        _ => panic!("a directory asks for no contents"),
    }
}

fn add_file(archive: Archive, relative: &str, contents: Option<&[u8]>) -> Archive {
    match archive.visit(Some("music"), Some(relative), true) {
        Ok(Visited::Contents(file)) => {
            let (archive, written) = file.contents(contents);
            assert_eq!(written, Ok(()));
            archive
        }
        _ => panic!("a file asks for its contents"),
    }
}

/// What a reader of zip archives finds: names, whether it is a directory, contents.
fn listed(document: Vec<u8>) -> Vec<(String, bool, Vec<u8>)> {
    let mut archive = zip::ZipArchive::new(Cursor::new(document)).unwrap();
    let mut found = Vec::new();
    for i in 0..archive.len() {
        let mut entry = archive.by_index(i).unwrap();
        let mut contents = Vec::new();
        entry.read_to_end(&mut contents).unwrap();
        found.push((entry.name().to_string(), entry.is_dir(), contents));
    }
    found
}

#[test]
fn paths_are_joined() {
    assert_eq!(join("music", ""), "music/");
    assert_eq!(join("music", "a.ogg"), "music/a.ogg");
    assert_eq!(join("music/", "a"), "music/a");
    assert_eq!(join("", "a"), "a");
    assert_eq!(join("music", "/etc"), "/etc");
}

#[test]
fn archive_lists_what_was_visited() {
    let noise: Vec<u8> = (0..200_000u32).map(|i| (i * i >> 7) as u8).collect();
    let archive = add_directory(Archive::new(), "");
    let archive = add_file(archive, "b.ogg", Some(&noise));
    let archive = add_directory(archive, "old");
    let archive = add_file(archive, "old/unreadable", None);
    let archive = add_file(archive, "old/\u{e9}t\u{e9}", Some(b""));
    let document = archive.finish().unwrap();
    assert_eq!(
        listed(document),
        vec![
            ("music/".to_string(), true, vec![]),
            ("music/b.ogg".to_string(), false, noise),
            ("music/old/".to_string(), true, vec![]),
            ("music/old/unreadable".to_string(), false, vec![]),
            ("music/old/\u{e9}t\u{e9}".to_string(), false, vec![]),
        ]
    );
}

#[test]
fn equal_archives_are_equal_documents() {
    let build = || add_file(add_directory(Archive::new(), ""), "a", Some(b"text")).finish().unwrap();
    assert_eq!(build(), build());
    assert_ne!(build(), add_directory(Archive::new(), "").finish().unwrap());
}

#[test]
fn archive_without_entries_is_finished() {
    assert_eq!(listed(Archive::new().finish().unwrap()), vec![]);
}

#[test]
fn directory_without_a_name_is_refused() {
    let refused = Archive::new().visit(None, Some("a"), true);
    assert!(matches!(refused, Err(ArchiveError::NoFileName)));
    let refused = Archive::new().visit(None, None, false);
    assert!(matches!(refused, Err(ArchiveError::NoFileName)));
}

#[test]
fn stranger_to_the_directory_is_refused() {
    let refused = Archive::new().visit(Some("music"), None, true);
    assert!(matches!(refused, Err(ArchiveError::NotAChild)));
}

#[test]
fn nothing_without_a_name_is_added() {
    match Archive::new().visit(Some(""), Some(""), false) {
        Ok(Visited::Next(archive)) => assert_eq!(listed(archive.finish().unwrap()), vec![]),
        _ => panic!("nothing is to be read"),
    }
}

#[test]
fn unreadable_file_fails_nothing() {
    let archive = add_directory(Archive::new(), "");
    let archive = add_file(archive, "a", None);
    let archive = add_file(archive, "b", Some(b"text"));
    let document = archive.finish().unwrap();
    assert_eq!(
        listed(document),
        vec![
            ("music/".to_string(), true, vec![]),
            ("music/a".to_string(), false, vec![]),
            ("music/b".to_string(), false, b"text".to_vec()),
        ]
    );
}

#[test]
fn large_file_that_deflates_well_is_archived() {
    let zeros = vec![0; SAFE_SIZE as usize + 1];
    let archive = add_file(Archive::new(), "zeros", Some(&zeros));
    let archive = add_directory(archive, "old");
    let document = archive.finish().unwrap();
    let mut archive = zip::ZipArchive::new(Cursor::new(document)).unwrap();
    assert_eq!(archive.len(), 2);
    assert_eq!(archive.by_index(0).unwrap().size(), SAFE_SIZE + 1);
}
