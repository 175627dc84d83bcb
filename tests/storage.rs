use mmmpm::designator::PackageDesignator;
use mmmpm::memory::MemoryStorage;
use mmmpm::storage::{check_path, Object, ObjectKind, Path, StorageError, StorageOperation};

fn names(storage: &MemoryStorage, path: &Path) -> Vec<(String, ObjectKind)> {
    let mut list = storage.read_dir(path).unwrap();
    let mut out = Vec::new();
    while let Some(e) = list.next() {
        out.push((e.name, e.kind));
    }
    out
}

#[test]
fn path_new_keeps_segments() {
    let p = Path::new(vec!["git", "github.com", "widget"]);
    assert_eq!(p.0, vec!["git", "github.com", "widget"]);
    assert_eq!(p.join("mmm.toml").0, vec!["git", "github.com", "widget", "mmm.toml"]);
    let q = Path::new(vec!["a"]).concat(&Path::new(vec!["b", "c"]));
    assert_eq!(q.0, vec!["a", "b", "c"]);
    assert!(q.same_as(&Path::new(vec!["a", "b", "c"])));
    assert!(!q.same_as(&Path::new(vec!["a", "b"])));
}

#[test]
fn write_then_read() {
    let mut s = MemoryStorage::new();
    let p = Path::new(vec!["f"]);
    assert_eq!(s.object_exists(&p).unwrap(), false);
    s.write_object(&p, &Object::binary(vec![1, 2, 3])).unwrap();
    assert_eq!(s.object_exists(&p).unwrap(), true);
    let o = s.read_object(&p).unwrap();
    assert_eq!(o.kind(), ObjectKind::Binary);
    assert_eq!(o.bin(), Some(&vec![1, 2, 3]));
    assert_eq!(o.text(), None);
}

#[test]
fn second_write_at_same_path_fails() {
    let mut s = MemoryStorage::new();
    let p = Path::new(vec!["dir", "file"]);
    s.write_object(&p, &Object::from_text("first".to_string())).unwrap();
    let second = s.write_object(&p, &Object::from_text("second".to_string()));
    assert_eq!(second, Err(StorageError::ObjectAlreadyExists));
    assert_eq!(s.read_object(&p).unwrap().text(), Some(&"first".to_string()));
}

#[test]
fn read_missing_object() {
    let s = MemoryStorage::new();
    assert!(matches!(
        s.read_object(&Path::new(vec!["nothing"])),
        Err(StorageError::ObjectNotFound)
    ));
}

#[test]
fn create_dir_is_idempotent() {
    let mut s = MemoryStorage::new();
    let p = Path::new(vec!["d"]);
    s.create_dir(&p).unwrap();
    s.create_dir(&p).unwrap();
    assert_eq!(names(&s, &Path::new(vec![])), vec![("d".to_string(), ObjectKind::Directory)]);
}

#[test]
fn create_dir_over_file_fails() {
    let mut s = MemoryStorage::new();
    let p = Path::new(vec!["f"]);
    s.write_object(&p, &Object::binary(vec![])).unwrap();
    assert_eq!(s.create_dir(&p), Err(StorageError::NotADirectory));
    assert_eq!(s.read_object(&p).unwrap().kind(), ObjectKind::Binary);
}

#[test]
fn read_dir_lists_children_only() {
    let mut s = MemoryStorage::new();
    s.create_dir(&Path::new(vec!["a"])).unwrap();
    s.create_dir(&Path::new(vec!["a", "b"])).unwrap();
    s.write_object(&Path::new(vec!["a", "f"]), &Object::binary(vec![7])).unwrap();
    s.write_object(&Path::new(vec!["a", "b", "g"]), &Object::binary(vec![8])).unwrap();
    let mut listed = names(&s, &Path::new(vec!["a"]));
    listed.sort_by(|x, y| x.0.cmp(&y.0));
    assert_eq!(
        listed,
        vec![("b".to_string(), ObjectKind::Directory), ("f".to_string(), ObjectKind::Binary)]
    );
    assert!(matches!(s.read_dir(&Path::new(vec!["a", "f"])), Err(StorageError::ObjectNotFound)));
    assert!(matches!(s.read_dir(&Path::new(vec!["zz"])), Err(StorageError::ObjectNotFound)));
}

#[test]
fn listing_is_read_once() {
    let mut s = MemoryStorage::new();
    s.create_dir(&Path::new(vec!["a"])).unwrap();
    let mut list = s.read_dir(&Path::new(vec![])).unwrap();
    assert!(list.next().is_some());
    assert!(list.next().is_none());
    assert!(list.next().is_none());
}

#[test]
fn traversal_is_refused_everywhere() {
    let mut s = MemoryStorage::new();
    let bad = Path::new(vec!["git", "..", "escape"]);
    assert_eq!(check_path(&bad), Err(StorageError::StorageAccessError));
    assert_eq!(s.object_exists(&bad), Err(StorageError::StorageAccessError));
    assert!(matches!(s.read_object(&bad), Err(StorageError::StorageAccessError)));
    assert_eq!(s.write_object(&bad, &Object::binary(vec![1])), Err(StorageError::StorageAccessError));
    assert_eq!(s.create_dir(&bad), Err(StorageError::StorageAccessError));
    assert!(matches!(s.read_dir(&bad), Err(StorageError::StorageAccessError)));
    assert!(names(&s, &Path::new(vec![])).is_empty());
}

#[test]
fn unsafe_segments_are_refused() {
    for segs in [vec![""], vec!["."], vec![".."], vec!["a/b"], vec!["ok", "x/.."]] {
        assert_eq!(check_path(&Path::new(segs)), Err(StorageError::StorageAccessError));
    }
    assert_eq!(check_path(&Path::new(vec!["git", "github.com", ".hidden", "a..b"])), Ok(()));
}

#[test]
fn package_exists_reads_the_package_file() {
    let mut s = MemoryStorage::new();
    let d = PackageDesignator::Named("koto".to_string());
    assert!(!d.package_exists(&s));
    s.create_dir(&Path::new(vec!["mmm"])).unwrap();
    s.create_dir(&Path::new(vec!["mmm", "koto"])).unwrap();
    assert!(!d.package_exists(&s));
    s.write_object(&Path::new(vec!["mmm", "koto", "mmm.toml"]), &Object::from_text(String::new())).unwrap();
    assert!(d.package_exists(&s));
    assert!(!PackageDesignator::Undetermined("koto".to_string()).package_exists(&s));
    assert!(PackageDesignator::LocalPath("mmm/koto".to_string()).package_exists(&s));
    assert!(!PackageDesignator::LocalPath("/mmm/koto".to_string()).package_exists(&s));
}

#[test]
fn read_dir_lists_each_child_once() {
    let mut s = MemoryStorage::new();
    s.create_dir(&Path::new(vec!["a"])).unwrap();
    s.create_dir(&Path::new(vec!["a"])).unwrap();
    s.create_dir(&Path::new(vec!["b"])).unwrap();
    let mut listed = names(&s, &Path::new(vec![]));
    listed.sort_by(|x, y| x.0.cmp(&y.0));
    assert_eq!(
        listed,
        vec![("a".to_string(), ObjectKind::Directory), ("b".to_string(), ObjectKind::Directory)]
    );
}
