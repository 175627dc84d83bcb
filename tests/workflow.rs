use std::io::{Cursor, Write};

use mmmpm::designator::PackageDesignator;
use mmmpm::host::{
    host_for, response_error, Archive, GithubRepository, HostOperationError, HttpOutcome,
    NotImplementedHost, PackageHost,
};
use mmmpm::install::{after_exists, install_package, install_target, InstallError};
use mmmpm::memory::MemoryStorage;
use mmmpm::package::Package;
use mmmpm::run::{interpreter_outcome, plan_from_file, prepare_run, RunError};
use mmmpm::storage::{Object, Path, StorageError, StorageOperation};
use zip::write::SimpleFileOptions;

struct FakeHost {
    present: Result<bool, HostOperationError>,
    archive: Vec<u8>,
}

impl PackageHost for FakeHost {
    fn has_package(&self) -> Result<bool, HostOperationError> {
        self.present.clone()
    }

    fn retrieve(&self) -> Result<Archive, HostOperationError> {
        Ok(Archive::Zip(self.archive.clone()))
    }
}

fn zip_of(dirs: &[&str], files: &[(&str, &str)]) -> Vec<u8> {
    let mut w = zip::ZipWriter::new(Cursor::new(Vec::new()));
    let opts = SimpleFileOptions::default().compression_method(zip::CompressionMethod::Stored);
    for d in dirs {
        w.add_directory(*d, opts).unwrap();
    }
    for (name, body) in files {
        w.start_file(*name, opts).unwrap();
        w.write_all(body.as_bytes()).unwrap();
    }
    w.finish().unwrap().into_inner()
}

const PACKAGE_TOML: &str = "[metadata]\nname = \"widget\"\nversion = \"0.1.0\"\n\n[package]\nentrypoint = \"src/main.mmm\"\n";

fn widget() -> PackageDesignator {
    install_target("github.com:octo/widget".to_string()).unwrap()
}

fn is_empty(s: &MemoryStorage) -> bool {
    s.read_dir(&Path::new(vec![])).unwrap().next().is_none()
}

#[test]
fn install_then_run_reads_entrypoint_back() {
    let mut s = MemoryStorage::new();
    let archive = zip_of(
        &["octo-widget-1234/", "octo-widget-1234/src/"],
        &[("octo-widget-1234/mmm.toml", PACKAGE_TOML), ("octo-widget-1234/src/main.mmm", "fn dsp() {}")],
    );
    let host = FakeHost { present: Ok(true), archive };
    install_package(&mut s, &widget(), &host).unwrap();
    let stored = s.read_object(&Path::new(vec!["git", "github.com", "widget", "mmm.toml"])).unwrap();
    assert_eq!(stored.bin(), Some(&PACKAGE_TOML.as_bytes().to_vec()));
    assert!(s.object_exists(&Path::new(vec!["git", "github.com", "widget", "src", "main.mmm"])).unwrap());
    let plan = prepare_run(&s, "github.com:octo/widget".to_string()).unwrap();
    assert_eq!(plan.entry_path, "git/github.com/widget/src/main.mmm");
    let plan = prepare_run(&s, "widget".to_string()).unwrap();
    assert_eq!(plan.entry_path, "git/github.com/widget/src/main.mmm");
    assert!(matches!(plan.designator, PackageDesignator::Remote { ref host, .. } if host == "github.com"));
}

#[test]
fn install_of_unwrapped_archive() {
    let mut s = MemoryStorage::new();
    let archive = zip_of(&[], &[("mmm.toml", PACKAGE_TOML), ("src/main.mmm", "x")]);
    install_package(&mut s, &widget(), &FakeHost { present: Ok(true), archive }).unwrap();
    assert!(s.object_exists(&Path::new(vec!["git", "github.com", "widget", "mmm.toml"])).unwrap());
}

#[test]
fn install_when_host_lacks_package() {
    let mut s = MemoryStorage::new();
    let host = FakeHost { present: Ok(false), archive: vec![] };
    assert_eq!(install_package(&mut s, &widget(), &host), Err(InstallError::PackageNotFound));
    assert!(is_empty(&s));
}

#[test]
fn install_without_package_file_is_malformed() {
    let mut s = MemoryStorage::new();
    let archive = zip_of(&["top/"], &[("top/README", "hello"), ("top/src/main.mmm", "x")]);
    let host = FakeHost { present: Ok(true), archive };
    assert_eq!(install_package(&mut s, &widget(), &host), Err(InstallError::MalformedPackage));
    assert!(!s.object_exists(&Path::new(vec!["git", "github.com", "widget"])).unwrap());
    assert!(is_empty(&s));
}

#[test]
fn install_of_unreadable_archive() {
    let mut s = MemoryStorage::new();
    let host = FakeHost { present: Ok(true), archive: b"not a zip".to_vec() };
    assert_eq!(install_package(&mut s, &widget(), &host), Err(InstallError::InvalidPackage));
    assert!(is_empty(&s));
}

#[test]
fn install_host_errors() {
    let mut s = MemoryStorage::new();
    let host = FakeHost {
        present: Err(HostOperationError::CannotConnectToHost("https://github.com/octo/widget".to_string())),
        archive: vec![],
    };
    assert_eq!(
        install_package(&mut s, &widget(), &host),
        Err(InstallError::CannotConnectToHost("https://github.com/octo/widget".to_string()))
    );
    let host = FakeHost { present: Err(HostOperationError::UnknownError), archive: vec![] };
    assert_eq!(install_package(&mut s, &widget(), &host), Err(InstallError::HostFailure));
    assert!(is_empty(&s));
}

#[test]
fn install_twice_is_refused() {
    let mut s = MemoryStorage::new();
    let archive = zip_of(&[], &[("mmm.toml", PACKAGE_TOML)]);
    let host = FakeHost { present: Ok(true), archive };
    install_package(&mut s, &widget(), &host).unwrap();
    assert_eq!(
        install_package(&mut s, &widget(), &host),
        Err(InstallError::IOError(StorageError::ObjectAlreadyExists))
    );
}

#[test]
fn install_of_archive_escaping_root_is_refused() {
    let mut s = MemoryStorage::new();
    let archive = zip_of(&[], &[("mmm.toml", PACKAGE_TOML), ("../evil", "x")]);
    let host = FakeHost { present: Ok(true), archive };
    assert_eq!(
        install_package(&mut s, &widget(), &host),
        Err(InstallError::IOError(StorageError::StorageAccessError))
    );
    assert!(s.read_object(&Path::new(vec!["git", "evil"])).is_err());
    assert!(is_empty(&s));
}

#[test]
fn install_rejects_other_designators() {
    let mut s = MemoryStorage::new();
    let host = FakeHost { present: Ok(true), archive: vec![] };
    for d in [
        PackageDesignator::Named("koto".to_string()),
        PackageDesignator::LocalPath("/p".to_string()),
        PackageDesignator::Undetermined("koto".to_string()),
        PackageDesignator::Remote { host: "gitlab.com".to_string(), path: "a/b".to_string() },
    ] {
        assert_eq!(install_package(&mut s, &d, &host), Err(InstallError::PackageTypeIsNotImplemented));
    }
    assert_eq!(
        install_package(&mut s, &widget(), &NotImplementedHost()),
        Err(InstallError::PackageNotFound)
    );
    assert!(is_empty(&s));
}

#[test]
fn install_target_parses() {
    assert_eq!(install_target("github.com:octo".to_string()).err(), Some(InstallError::InvalidOptions));
    assert!(matches!(install_target("koto".to_string()), Ok(PackageDesignator::Undetermined(_))));
}

#[test]
fn run_without_installed_package() {
    let mut s = MemoryStorage::new();
    s.create_dir(&Path::new(vec!["mmm"])).unwrap();
    s.create_dir(&Path::new(vec!["mmm", "other"])).unwrap();
    assert_eq!(prepare_run(&s, "koto".to_string()).err(), Some(RunError::CannotDeterminePackageType));
    assert_eq!(prepare_run(&s, "a:b".to_string()).err(), Some(RunError::InvalidOptions));
}

#[test]
fn run_named_package() {
    let mut s = MemoryStorage::new();
    s.create_dir(&Path::new(vec!["mmm"])).unwrap();
    s.create_dir(&Path::new(vec!["mmm", "koto"])).unwrap();
    assert_eq!(prepare_run(&s, "koto".to_string()).err(), Some(RunError::CannotFoundPackageFile));
    s.write_object(
        &Path::new(vec!["mmm", "koto", "mmm.toml"]),
        &Object::from_text("[package]\nentrypoint = \"main.mmm\"\n".to_string()),
    )
    .unwrap();
    let plan = prepare_run(&s, "koto".to_string()).unwrap();
    assert_eq!(plan.entry_path, "mmm/koto/main.mmm");
}

#[test]
fn run_malformed_package_file() {
    let mut s = MemoryStorage::new();
    s.create_dir(&Path::new(vec!["mmm"])).unwrap();
    s.create_dir(&Path::new(vec!["mmm", "koto"])).unwrap();
    s.write_object(&Path::new(vec!["mmm", "koto", "mmm.toml"]), &Object::from_text("entrypoint = 3".to_string()))
        .unwrap();
    assert_eq!(prepare_run(&s, "koto".to_string()).err(), Some(RunError::MalformedPackage));
}

#[test]
fn package_file_parsing() {
    let p = Package::from_text(PACKAGE_TOML).unwrap();
    assert_eq!(p.package.entrypoint, "src/main.mmm");
    let m = p.metadata;
    assert_eq!(m.name, Some("widget".to_string()));
    assert_eq!(m.version, Some("0.1.0".to_string()));
    assert_eq!(m.description, None);
    assert_eq!(m.authors, None);
    let full = Package::from_text(
        "[metadata]\nauthors = [\"a\", \"b\"]\nlicenses = [\"MIT\", 3]\n[package]\nentrypoint = \"m.mmm\"\n",
    )
    .unwrap();
    assert_eq!(full.metadata.authors, Some(vec!["a".to_string(), "b".to_string()]));
    assert_eq!(full.metadata.licenses, None);
    assert_eq!(full.metadata.name, None);
    assert!(Package::from_text("not = [toml").is_err());
    assert!(Package::from_text("[package]\nname = \"x\"\n").is_err());
}

#[test]
fn interpreter_outcomes() {
    assert_eq!(interpreter_outcome(true, String::new()), Ok(()));
    assert_eq!(
        interpreter_outcome(false, "boom\n".to_string()),
        Err(RunError::InterpreterFailed("boom\n".to_string()))
    );
}

#[test]
fn github_repository_urls() {
    let r = GithubRepository::new("octo".to_string(), "widget".to_string(), None);
    assert_eq!(r.page_url(), "https://github.com/octo/widget");
    assert_eq!(r.archive_url(), "https://api.github.com/repos/octo/widget/zipball/master");
    let r = GithubRepository::new("octo".to_string(), "widget".to_string(), Some("v1".to_string()));
    assert_eq!(r.archive_url(), "https://api.github.com/repos/octo/widget/zipball/v1");
}

#[test]
fn host_for_designators() {
    let r = host_for(&widget()).unwrap();
    assert_eq!(r.page_url(), "https://github.com/octo/widget");
    assert!(host_for(&PackageDesignator::Named("w".to_string())).is_none());
    assert!(host_for(&PackageDesignator::Remote { host: "gitlab.com".to_string(), path: "a/b".to_string() })
        .is_none());
}

#[test]
fn response_errors() {
    let url = "https://github.com/octo/widget".to_string();
    assert_eq!(response_error(&url, HttpOutcome::Status(200)), None);
    assert_eq!(response_error(&url, HttpOutcome::Status(302)), None);
    assert_eq!(response_error(&url, HttpOutcome::Status(404)), Some(HostOperationError::PackageNotFound));
    assert_eq!(response_error(&url, HttpOutcome::Status(500)), Some(HostOperationError::UnknownError));
    assert_eq!(
        response_error(&url, HttpOutcome::ConnectFailed),
        Some(HostOperationError::CannotConnectToHost(url.clone()))
    );
    assert_eq!(response_error(&url, HttpOutcome::OtherFailure), Some(HostOperationError::UnknownError));
}

#[test]
fn run_takes_hosts_in_token_order() {
    let mut s = MemoryStorage::new();
    s.create_dir(&Path::new(vec!["git"])).unwrap();
    for host in ["zeta.org", "alpha.org", "mid.org"] {
        s.create_dir(&Path::new(vec!["git", host])).unwrap();
        s.create_dir(&Path::new(vec!["git", host, "koto"])).unwrap();
        s.write_object(
            &Path::new(vec!["git", host, "koto", "mmm.toml"]),
            &Object::from_text("[package]\nentrypoint = \"main.mmm\"\n".to_string()),
        )
        .unwrap();
    }
    let plan = prepare_run(&s, "koto".to_string()).unwrap();
    assert!(matches!(plan.designator, PackageDesignator::Remote { ref host, .. } if host == "alpha.org"));
    assert_eq!(plan.entry_path, "git/alpha.org/koto/main.mmm");
    let (_, hosts) = mmmpm::run::package_listing(&s).unwrap();
    let tokens: Vec<&str> = hosts.iter().map(|h| h.host.as_str()).collect();
    assert_eq!(tokens, vec!["alpha.org", "mid.org", "zeta.org"]);
}

#[test]
fn run_with_malformed_text_bytes() {
    let mut s = MemoryStorage::new();
    s.create_dir(&Path::new(vec!["mmm"])).unwrap();
    s.create_dir(&Path::new(vec!["mmm", "koto"])).unwrap();
    s.write_object(&Path::new(vec!["mmm", "koto", "mmm.toml"]), &Object::binary(vec![0xff, 0xfe])).unwrap();
    assert_eq!(prepare_run(&s, "koto".to_string()).err(), Some(RunError::MalformedPackage));
}

#[test]
fn after_exists_answers() {
    assert_eq!(after_exists(Ok(true)), None);
    assert_eq!(after_exists(Ok(false)), Some(InstallError::PackageNotFound));
    assert_eq!(
        after_exists(Err(HostOperationError::CannotConnectToHost("u".to_string()))),
        Some(InstallError::CannotConnectToHost("u".to_string()))
    );
}

#[test]
fn plan_from_file_outcomes() {
    let d = PackageDesignator::Named("koto".to_string());
    assert_eq!(
        plan_from_file(d.copy(), Err(StorageError::ObjectNotFound)).err(),
        Some(RunError::CannotFoundPackageFile)
    );
    assert_eq!(
        plan_from_file(d.copy(), Ok(Object::directory())).err(),
        Some(RunError::MalformedPackage)
    );
    let ok = plan_from_file(d.copy(), Ok(Object::from_text("[package]\nentrypoint = \"a.mmm\"\n".to_string())))
        .unwrap();
    assert_eq!(ok.entry_path, "mmm/koto/a.mmm");
    assert_eq!(
        plan_from_file(PackageDesignator::Undetermined("x".to_string()), Ok(Object::directory())).err(),
        Some(RunError::CannotFoundPackageFile)
    );
}
