use std::io::{Cursor, Write};

use mmmpm::archive::{into_package_tree, is_valid, segments_of, unpack, StagedEntry, StagedPackage};
use mmmpm::host::{Archive, HostOperationError};
use mmmpm::storage::Path;
use zip::write::SimpleFileOptions;

fn entry(segs: &[&str], is_dir: bool) -> StagedEntry {
    StagedEntry { path: Path::new(segs.to_vec()), is_dir, data: if is_dir { vec![] } else { vec![1] } }
}

fn paths(p: &StagedPackage) -> Vec<Vec<String>> {
    p.entries.iter().map(|e| e.path.0.clone()).collect()
}

#[test]
fn segments_drop_empty_parts() {
    assert_eq!(segments_of("a/b/c").0, vec!["a", "b", "c"]);
    assert_eq!(segments_of("top/").0, vec!["top"]);
    assert_eq!(segments_of("/x//y/").0, vec!["x", "y"]);
    assert!(segments_of("").0.is_empty());
    assert!(segments_of("///").0.is_empty());
    assert_eq!(segments_of("mmm.toml").0, vec!["mmm.toml"]);
}

#[test]
fn package_tree_drops_single_top_directory() {
    let staged = StagedPackage {
        entries: vec![
            entry(&["repo-1"], true),
            entry(&["repo-1", "mmm.toml"], false),
            entry(&["repo-1", "src"], true),
            entry(&["repo-1", "src", "main.mmm"], false),
        ],
    };
    let tree = into_package_tree(staged);
    assert_eq!(
        paths(&tree),
        vec![vec!["mmm.toml"], vec!["src"], vec!["src", "main.mmm"]]
    );
    assert!(is_valid(&tree));
}

#[test]
fn package_tree_keeps_flat_packages() {
    let staged = StagedPackage { entries: vec![entry(&["mmm.toml"], false), entry(&["src", "a"], false)] };
    let tree = into_package_tree(staged);
    assert_eq!(paths(&tree), vec![vec!["mmm.toml"], vec!["src", "a"]]);
    assert!(is_valid(&tree));
    let two_tops = StagedPackage { entries: vec![entry(&["a", "x"], false), entry(&["b", "mmm.toml"], false)] };
    assert_eq!(paths(&into_package_tree(two_tops)), vec![vec!["a", "x"], vec!["b", "mmm.toml"]]);
}

#[test]
fn validity_needs_top_level_package_file() {
    assert!(!is_valid(&StagedPackage { entries: vec![] }));
    assert!(!is_valid(&StagedPackage { entries: vec![entry(&["sub", "mmm.toml"], false)] }));
    assert!(!is_valid(&StagedPackage { entries: vec![entry(&["mmm.toml"], true)] }));
    assert!(is_valid(&StagedPackage { entries: vec![entry(&["x"], false), entry(&["mmm.toml"], false)] }));
}

#[test]
fn unpack_reads_members() {
    let mut w = zip::ZipWriter::new(Cursor::new(Vec::new()));
    let opts = SimpleFileOptions::default().compression_method(zip::CompressionMethod::Stored);
    w.add_directory("d/", opts).unwrap();
    w.start_file("d/f.txt", opts).unwrap();
    w.write_all(b"hello").unwrap();
    let bytes = w.finish().unwrap().into_inner();
    let staged = unpack(Archive::Zip(bytes)).unwrap();
    assert_eq!(paths(&staged), vec![vec!["d"], vec!["d", "f.txt"]]);
    assert!(staged.entries[0].is_dir);
    assert!(!staged.entries[1].is_dir);
    assert_eq!(staged.entries[1].data, b"hello".to_vec());
}

#[test]
fn unpack_refuses_garbage() {
    assert!(matches!(unpack(Archive::Zip(vec![0, 1, 2, 3])), Err(HostOperationError::InvalidPackage)));
    assert!(matches!(unpack(Archive::Zip(vec![])), Err(HostOperationError::InvalidPackage)));
}
