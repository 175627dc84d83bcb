use mmmpm::designator::{DesignatorError, HostDirectory, PackageDesignator};

fn remote(host: &str, path: &str) -> PackageDesignator {
    PackageDesignator::Remote { host: host.to_string(), path: path.to_string() }
}

fn listing(named: &[&str], hosts: &[(&str, &[&str])]) -> (Vec<String>, Vec<HostDirectory>) {
    let named = named.iter().map(|s| s.to_string()).collect();
    let hosts = hosts
        .iter()
        .map(|(h, ps)| HostDirectory {
            host: h.to_string(),
            packages: ps.iter().map(|s| s.to_string()).collect(),
        })
        .collect();
    (named, hosts)
}

#[test]
fn parse_github_designator() {
    let d = PackageDesignator::from_str("github.com:octo/widget".to_string()).unwrap();
    match &d {
        PackageDesignator::Remote { host, path } => {
            assert_eq!(host, "github.com");
            assert_eq!(path, "octo/widget");
        }
        other => panic!("unexpected designator {:?}", other),
    }
    assert_eq!(d.path().unwrap(), "git/github.com/widget");
    assert_eq!(d.name(), "widget");
}

#[test]
fn parse_keeps_second_host_separator_in_path() {
    let d = PackageDesignator::from_str("example.org:a:b/c".to_string()).unwrap();
    match d {
        PackageDesignator::Remote { host, path } => {
            assert_eq!(host, "example.org");
            assert_eq!(path, "a:b/c");
        }
        other => panic!("unexpected designator {:?}", other),
    }
}

#[test]
fn parse_without_host_separator_is_undetermined() {
    for raw in ["widget", "", "some/thing", "a b"] {
        match PackageDesignator::from_str(raw.to_string()).unwrap() {
            PackageDesignator::Undetermined(r) => assert_eq!(r, raw),
            other => panic!("unexpected designator {:?}", other),
        }
    }
}

#[test]
fn parse_malformed_designators() {
    for raw in [
        ":octo/widget",
        "github.com:",
        "github.com:octo",
        "github.com:/widget",
        "github.com:octo/",
        "github.com:octo/widget/extra",
        "github.com:octo//widget",
    ] {
        assert!(
            matches!(
                PackageDesignator::from_str(raw.to_string()),
                Err(DesignatorError::MalformedDesignator)
            ),
            "{} should be malformed",
            raw
        );
    }
}

#[test]
fn names_of_each_variant() {
    assert_eq!(PackageDesignator::Named("koto".to_string()).name(), "koto");
    assert_eq!(remote("github.com", "t-sin/koto").name(), "koto");
    assert_eq!(remote("github.com", "t-sin/koto/").name(), "koto");
    assert_eq!(remote("github.com", "koto").name(), "koto");
    assert_eq!(PackageDesignator::LocalPath("/home/u/pkgs/synth/".to_string()).name(), "synth");
    assert_eq!(PackageDesignator::LocalPath("synth".to_string()).name(), "synth");
    assert_eq!(PackageDesignator::Undetermined("raw".to_string()).name(), "raw");
}

#[test]
fn storage_paths() {
    assert_eq!(PackageDesignator::Named("koto".to_string()).path().unwrap(), "mmm/koto");
    assert_eq!(remote("gitlab.com", "a/b").path().unwrap(), "git/gitlab.com/b");
    assert_eq!(PackageDesignator::LocalPath("/tmp/p".to_string()).path().unwrap(), "/tmp/p");
    assert!(matches!(
        PackageDesignator::Undetermined("x".to_string()).path(),
        Err(DesignatorError::CannotDetermineType)
    ));
    assert_eq!(
        remote("github.com", "octo/widget").package_file_path().unwrap(),
        "git/github.com/widget/mmm.toml"
    );
    assert!(PackageDesignator::Undetermined("x".to_string()).package_file_path().is_err());
}

#[test]
fn storage_paths_differ_for_different_hosts_or_names() {
    let a = remote("github.com", "octo/widget").path().unwrap();
    let b = remote("gitlab.com", "octo/widget").path().unwrap();
    let c = remote("github.com", "octo/gadget").path().unwrap();
    let d = remote("github.com/octo", "x/widget").path().unwrap();
    assert_ne!(a, b);
    assert_ne!(a, c);
    assert_ne!(a, d);
    assert_eq!(a, remote("github.com", "octo/widget").path().unwrap());
}

#[test]
fn remote_urls() {
    assert_eq!(
        remote("github.com", "octo/widget").remote_url(),
        Some("https://github.com/octo/widget".to_string())
    );
    assert_eq!(PackageDesignator::Named("koto".to_string()).remote_url(), None);
    assert_eq!(PackageDesignator::LocalPath("/p".to_string()).remote_url(), None);
    assert_eq!(PackageDesignator::Undetermined("p".to_string()).remote_url(), None);
}

#[test]
fn determine_prefers_named_packages() {
    let (named, hosts) = listing(&["koto"], &[("github.com", &["koto"])]);
    let d = PackageDesignator::Undetermined("koto".to_string()).determine(&named, &hosts).unwrap();
    assert!(matches!(d, PackageDesignator::Named(ref n) if n == "koto"));
}

#[test]
fn determine_finds_remote_packages() {
    let (named, hosts) = listing(&["other"], &[("gitlab.com", &["x"]), ("github.com", &["koto"])]);
    let d = PackageDesignator::Undetermined("koto".to_string()).determine(&named, &hosts).unwrap();
    match d {
        PackageDesignator::Remote { host, path } => {
            assert_eq!(host, "github.com");
            assert_eq!(path, "koto");
        }
        other => panic!("unexpected designator {:?}", other),
    }
}

#[test]
fn determine_match_is_one_of_the_candidates() {
    let (named, hosts) = listing(&[], &[("a.org", &["koto"]), ("b.org", &["koto"])]);
    let d = PackageDesignator::Undetermined("koto".to_string()).determine(&named, &hosts).unwrap();
    match d {
        PackageDesignator::Remote { host, path } => {
            assert!(host == "a.org" || host == "b.org");
            assert_eq!(path, "koto");
        }
        other => panic!("unexpected designator {:?}", other),
    }
}

#[test]
fn determine_fails_without_match() {
    let (named, hosts) = listing(&["a"], &[("github.com", &["b"])]);
    assert!(matches!(
        PackageDesignator::Undetermined("c".to_string()).determine(&named, &hosts),
        Err(DesignatorError::CannotDetermineType)
    ));
}

#[test]
fn determine_is_idempotent() {
    let (named, hosts) = listing(&["a"], &[("github.com", &["b"])]);
    for d in [
        PackageDesignator::Undetermined("a".to_string()),
        PackageDesignator::Undetermined("b".to_string()),
        PackageDesignator::Named("z".to_string()),
        remote("github.com", "octo/widget"),
        PackageDesignator::LocalPath("/p".to_string()),
    ] {
        let once = d.determine(&named, &hosts).unwrap();
        let twice = once.determine(&named, &hosts).unwrap();
        assert_eq!(format!("{:?}", once), format!("{:?}", twice));
    }
    let fixed = remote("github.com", "octo/widget");
    assert_eq!(
        format!("{:?}", fixed.determine(&named, &hosts).unwrap()),
        format!("{:?}", fixed)
    );
}

#[test]
fn storage_location_segments() {
    let loc = remote("github.com", "octo/widget").storage_location().unwrap();
    assert_eq!(loc.0, vec!["git", "github.com", "widget"]);
    let loc = PackageDesignator::Named("koto".to_string()).storage_location().unwrap();
    assert_eq!(loc.0, vec!["mmm", "koto"]);
    assert!(PackageDesignator::LocalPath("/p".to_string()).storage_location().is_none());
    assert!(PackageDesignator::Undetermined("p".to_string()).storage_location().is_none());
}
