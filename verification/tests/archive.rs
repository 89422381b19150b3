use qbuild::build::archive::{
    append_path_to_tar, append_whiteout, archive_symlink, archive_whiteout, is_archive,
    join_archives, layer_entries, LayerEntry, PathPart,
};
use qbuild::build::diff::{DiffEntries, FileKind};
use qbuild::build::layer::pack_layer;
use std::io::Read;
use std::path::Path;
use tar::EntryType;

fn link(relative: &str, target: &str) -> Vec<u8> {
    match append_path_to_tar(relative, FileKind::Symlink, target, 0o777).unwrap() {
        PathPart::Written(bytes) => bytes,
        _ => unreachable!(),
    }
}

#[test]
fn appends_broken_absolute_symlink_to_tar() {
    let tar_data = link("usr/bin/example", "/usr/local/bin/example");

    let mut archive = tar::Archive::new(tar_data.as_slice());
    let mut entries = archive.entries().unwrap();
    let entry = entries.next().unwrap().unwrap();
    assert_eq!(entry.header().entry_type(), EntryType::Symlink);
    assert_eq!(
        entry.link_name().unwrap().unwrap(),
        Path::new("/usr/local/bin/example")
    );
    assert_eq!(entry.path().unwrap(), Path::new("usr/bin/example"));
    assert_eq!(entry.header().mode().unwrap(), 0o777);
}

#[test]
fn whiteouts_are_empty_files() {
    let part = append_whiteout("etc/gone").unwrap();
    let mut archive = tar::Archive::new(part.as_slice());
    let mut entries = archive.entries().unwrap();
    let mut entry = entries.next().unwrap().unwrap();
    assert_eq!(entry.path().unwrap(), Path::new("etc/.wh.gone"));
    assert_eq!(entry.header().entry_type(), EntryType::Regular);
    assert_eq!(entry.header().mode().unwrap(), 0);
    let mut content = Vec::new();
    entry.read_to_end(&mut content).unwrap();
    assert!(content.is_empty());
    assert!(entries.next().is_none());
    assert_eq!(
        append_whiteout("..").unwrap_err(),
        "Failed to create whiteout for '..'"
    );
}

#[test]
fn unusable_paths_are_told() {
    let message =
        append_path_to_tar("/absolute/../x", FileKind::Symlink, "t", 0).unwrap_err();
    assert!(message.starts_with("Failed to archive symlink '/absolute/../x': "));
    assert_eq!(
        archive_symlink("a", Err("why".to_string())).unwrap_err(),
        "Failed to archive symlink 'a': why"
    );
    assert_eq!(
        archive_whiteout("a", Err("why".to_string())).unwrap_err(),
        "Failed to append whiteout for 'a': why"
    );
    assert_eq!(archive_symlink("a", Ok(vec![1])).unwrap(), vec![1]);
}

#[test]
fn other_paths_are_read_from_the_tree() {
    assert!(matches!(
        append_path_to_tar("a", FileKind::Directory, "", 0).unwrap(),
        PathPart::Directory
    ));
    assert!(matches!(
        append_path_to_tar("a", FileKind::File, "", 0).unwrap(),
        PathPart::File
    ));
    assert!(matches!(
        append_path_to_tar("a", FileKind::Other, "", 0).unwrap(),
        PathPart::File
    ));
}

#[test]
fn parts_are_joined_in_order() {
    let first = link("a", "x");
    let second = link("b", &"long/".repeat(60));
    let third = append_whiteout("c").unwrap();
    let archive = join_archives(&vec![first.clone(), second.clone(), third.clone()]);
    assert!(is_archive(&archive));
    let mut reader = tar::Archive::new(archive.as_slice());
    let names: Vec<String> = reader
        .entries()
        .unwrap()
        .map(|entry| entry.unwrap().path().unwrap().to_string_lossy().to_string())
        .collect();
    assert_eq!(names, vec!["a", "b", ".wh.c"]);
    let mut builder = tar::Builder::new(Vec::new());
    for (name, target) in [("a", "x".to_string()), ("b", "long/".repeat(60))] {
        let mut header = tar::Header::new_gnu();
        header.set_entry_type(EntryType::Symlink);
        header.set_mode(0o777);
        header.set_size(0);
        header.set_cksum();
        builder.append_link(&mut header, name, target).unwrap();
    }
    assert_eq!(
        join_archives(&vec![first.clone(), second.clone()]),
        builder.into_inner().unwrap()
    );
    let left = join_archives(&vec![first.clone(), second]);
    assert_eq!(join_archives(&vec![left, third]), archive);
    assert_eq!(join_archives(&vec![first.clone()]), first);
    assert_eq!(join_archives(&Vec::new()), vec![0u8; 1024]);
    assert!(!is_archive(&vec![0; 1023]));
    assert!(!is_archive(&vec![1; 1024]));
}

#[test]
fn changes_come_before_removals() {
    let diff = DiffEntries {
        added_or_modified: vec!["b".to_string(), "c".to_string()],
        removed: vec!["a".to_string()],
    };
    let entries = layer_entries(&diff);
    assert_eq!(entries.len(), 3);
    assert!(matches!(&entries[0], LayerEntry::Path(path) if path == "b"));
    assert!(matches!(&entries[1], LayerEntry::Path(path) if path == "c"));
    assert!(matches!(&entries[2], LayerEntry::Whiteout(path) if path == "a"));
}

#[test]
fn layers_unpack_to_their_archive() {
    let archive = link("a", "b");
    let packed = pack_layer(&archive).unwrap();
    let mut content = Vec::new();
    flate2::read::GzDecoder::new(packed.blob.as_slice())
        .read_to_end(&mut content)
        .unwrap();
    assert_eq!(content, archive);
}
