use vstd::prelude::*;

use crate::archive::{
    all_targets_safe, archive_bytes, into_package_tree, is_valid, is_valid_package, last_index_at,
    lemma_package_file_round_trip, package_file_key, package_tree, place_package, placed,
    staged_of, targets_safe, unpack, zip_members_of, StagedView,
};
use crate::designator::{
    determine_spec, location_spec, parse_spec, DesignatorView, HostDirectory, PackageDesignator,
    PACKAGE_FILE,
};
use crate::run::{file_entrypoint, package_file_at, stored_entrypoint};
use crate::host::{has_adapter, host_for, Archive, HostOperationError, PackageHost};
use crate::storage::{
    binary_view, create_dirs, extends, with_dirs, Path, StorageError, StorageOperation, StoreModel,
};

verus! {

/// Failures of the install workflow.
#[derive(Debug, Clone, PartialEq, Eq)]
pub enum InstallError {
    /// The designator given is malformed.
    InvalidOptions,
    /// The designator is not of a kind that can be fetched from a host with an adapter.
    PackageTypeIsNotImplemented,
    /// The host does not hold the package.
    PackageNotFound,
    /// The host could not be reached; holds the URL tried.
    CannotConnectToHost(String),
    /// The host sent something that is not a readable archive.
    InvalidPackage,
    /// The host failed in another way.
    HostFailure,
    /// The package lacks its package file at its top level.
    MalformedPackage,
    /// The storage refused to hold the package.
    IOError(StorageError),
}

pub open spec fn from_host_spec(e: HostOperationError) -> InstallError {
    match e {
        HostOperationError::CannotConnectToHost(u) => InstallError::CannotConnectToHost(u),
        HostOperationError::PackageNotFound => InstallError::PackageNotFound,
        HostOperationError::InvalidPackage => InstallError::InvalidPackage,
        HostOperationError::UnknownError => InstallError::HostFailure,
    }
}

/// The install error that a host error stands for.
pub fn from_host(e: HostOperationError) -> (r: InstallError)
    ensures
        r == from_host_spec(e),
{
    match e {
        HostOperationError::CannotConnectToHost(u) => InstallError::CannotConnectToHost(u),
        HostOperationError::PackageNotFound => InstallError::PackageNotFound,
        HostOperationError::InvalidPackage => InstallError::InvalidPackage,
        HostOperationError::UnknownError => InstallError::HostFailure,
    }
}

/// Parses the designator of a package to install.
pub fn install_target(package: String) -> (r: Result<PackageDesignator, InstallError>)
    ensures
        match parse_spec(package@) {
            Ok(d) => r matches Ok(p) && p@ == d,
            Err(_) => r == Err::<PackageDesignator, InstallError>(InstallError::InvalidOptions),
        },
{
    match PackageDesignator::from_str(package) {
        Ok(d) => Ok(d),
        Err(_) => Err(InstallError::InvalidOptions),
    }
}

/// What a successful install leaves in the store: the directories down to
/// the package's location, and a valid package placed there.
pub open spec fn installed(m: StoreModel, loc: Seq<Seq<char>>, es: Seq<StagedView>) -> StoreModel {
    placed(with_dirs(m, loc), loc, es)
}

/// What the install does with the host's answer on whether the package
/// exists: it goes on only on a yes.
pub fn after_exists(found: Result<bool, HostOperationError>) -> (r: Option<InstallError>)
    ensures
        found == Ok::<bool, HostOperationError>(true) ==> r is None,
        found == Ok::<bool, HostOperationError>(false) ==> r == Some(InstallError::PackageNotFound),
        found matches Err(e) ==> r == Some(from_host_spec(e)),
{
    match found {
        Ok(true) => None,
        Ok(false) => Some(InstallError::PackageNotFound),
        Err(e) => Some(from_host(e)),
    }
}

/// The package tree that an archive holds, if the archive can be read.
pub open spec fn archive_tree(archive: Archive) -> Option<Seq<StagedView>> {
    match zip_members_of(archive_bytes(archive)) {
        Some(ms) => Some(package_tree(staged_of(ms))),
        None => None,
    }
}

/// `after` is `before` with the valid package that `archive` holds
/// installed at `loc`.
pub open spec fn archive_installed(
    before: StoreModel,
    after: StoreModel,
    loc: Seq<Seq<char>>,
    archive: Archive,
) -> bool {
    archive_tree(archive) matches Some(t) && is_valid_package(t) && after == installed(before, loc, t)
}

/// Stores the package held in a retrieved archive at `loc`. An unreadable
/// archive is an invalid package and one without its package file at the
/// top is malformed; a package already at `loc`, or one with a member that
/// would land outside the storage root, is refused. In all these cases the
/// store is left as it was.
pub fn install_archive<S: StorageOperation>(storage: &mut S, loc: &Path, archive: Archive) -> (r:
    Result<(), InstallError>)
    ensures
        archive_tree(archive) is None ==> r == Err::<(), InstallError>(InstallError::InvalidPackage)
            && final(storage).objects() == old(storage).objects(),
        (archive_tree(archive) matches Some(t) && !is_valid_package(t)) ==> r == Err::<(), InstallError>(
            InstallError::MalformedPackage,
        ) && final(storage).objects() == old(storage).objects(),
        (archive_tree(archive) matches Some(t) && is_valid_package(t) && !targets_safe(loc@, t)) ==> (r
            is Err && final(storage).objects() == old(storage).objects()),
        old(storage).objects().contains_key(loc@) ==> r is Err && final(storage).objects() == old(
            storage,
        ).objects(),
        r matches Err(e) && !(e is IOError) ==> final(storage).objects() == old(storage).objects(),
        r matches Err(e) ==> e == InstallError::InvalidPackage || e == InstallError::MalformedPackage
            || e is IOError,
        r is Ok ==> archive_installed(old(storage).objects(), final(storage).objects(), loc@, archive),
        extends(old(storage).objects(), final(storage).objects()),
{
    let staged = match unpack(archive) {
        Ok(s) => into_package_tree(s),
        Err(e) => {
            return Err(from_host(e));
        },
    };
    if !is_valid(&staged) {
        return Err(InstallError::MalformedPackage);
    }
    if !all_targets_safe(loc, &staged) {
        return Err(InstallError::IOError(StorageError::StorageAccessError));
    }
    match storage.object_exists(loc) {
        Ok(false) => {},
        Ok(true) => {
            return Err(InstallError::IOError(StorageError::ObjectAlreadyExists));
        },
        Err(e) => {
            return Err(InstallError::IOError(e));
        },
    }
    let ghost start = storage.objects();
    match create_dirs(storage, loc) {
        Ok(()) => {},
        Err(e) => {
            return Err(InstallError::IOError(e));
        },
    }
    match place_package(storage, loc, &staged) {
        Ok(()) => {},
        Err(e) => {
            return Err(InstallError::IOError(e));
        },
    }
    Ok(())
}

/// Fetches the package from its host, checks it, and stores it at its
/// location: the host's answers are handed to `after_exists` and
/// `install_archive`. Every failure before the package is stored leaves the
/// store unchanged; a package already present is not overwritten. A storage
/// failure while the package is being written may leave part of it in the
/// store, since a storage offers no removal.
pub fn install_github_repo<S: StorageOperation, H: PackageHost>(
    storage: &mut S,
    dsn: &PackageDesignator,
    host: &H,
) -> (r: Result<(), InstallError>)
    ensures
        location_spec(dsn@) is None <==> r == Err::<(), InstallError>(
            InstallError::PackageTypeIsNotImplemented,
        ),
        r matches Err(e) && !(e is IOError) ==> final(storage).objects() == old(
            storage,
        ).objects(),
        location_spec(dsn@) matches Some(loc) && old(storage).objects().contains_key(loc) ==> r is Err
            && final(storage).objects() == old(storage).objects(),
        extends(old(storage).objects(), final(storage).objects()),
        r is Ok ==> location_spec(dsn@) is Some && exists|a: Archive|
            #[trigger] archive_installed(old(storage).objects(), final(storage).objects(), location_spec(dsn@)->Some_0, a),
{
    let loc = match dsn.storage_location() {
        Some(l) => l,
        None => {
            return Err(InstallError::PackageTypeIsNotImplemented);
        },
    };
    let found = host.has_package();
    let ghost answer = found;
    match after_exists(found) {
        Some(e) => {
            proof {
                if answer is Err {
                    assert(e == from_host_spec(answer->Err_0));
                    match answer->Err_0 {
                        HostOperationError::CannotConnectToHost(_) => {},
                        HostOperationError::PackageNotFound => {},
                        HostOperationError::InvalidPackage => {},
                        HostOperationError::UnknownError => {},
                    }
                } else if answer->Ok_0 {
                    assert(answer == Ok::<bool, HostOperationError>(true));
                } else {
                    assert(answer == Ok::<bool, HostOperationError>(false));
                }
                assert(e != InstallError::PackageTypeIsNotImplemented);
            }
            return Err(e);
        },
        None => {},
    }
    let archive: Archive = match host.retrieve() {
        Ok(a) => a,
        Err(e) => {
            return Err(from_host(e));
        },
    };
    let ghost a = archive;
    let r = install_archive(storage, &loc, archive);
    proof {
        if r is Ok {
            assert(archive_installed(old(storage).objects(), storage.objects(), loc@, a));
        }
    }
    r
}

/// Installs a package: only a remote package of a host with an adapter can
/// be installed, and any other designator is refused before any host or
/// storage is touched.
pub fn install_package<S: StorageOperation, H: PackageHost>(
    storage: &mut S,
    dsn: &PackageDesignator,
    host: &H,
) -> (r: Result<(), InstallError>)
    ensures
        !has_adapter(dsn@) <==> r == Err::<(), InstallError>(
            InstallError::PackageTypeIsNotImplemented,
        ),
        !has_adapter(dsn@) ==> final(storage).objects() == old(storage).objects(),
        r matches Err(e) && !(e is IOError) ==> final(storage).objects() == old(
            storage,
        ).objects(),
        location_spec(dsn@) matches Some(loc) && old(storage).objects().contains_key(loc) ==> r is Err
            && final(storage).objects() == old(storage).objects(),
        extends(old(storage).objects(), final(storage).objects()),
        r is Ok ==> location_spec(dsn@) is Some && exists|a: Archive|
            #[trigger] archive_installed(old(storage).objects(), final(storage).objects(), location_spec(dsn@)->Some_0, a),
{
    match host_for(dsn) {
        Some(_) => install_github_repo(storage, dsn, host),
        None => Err(InstallError::PackageTypeIsNotImplemented),
    }
}

/// Round trip: a remote designator string resolves, when run, to the same
/// designator and so to the same location that it is installed at; after a
/// successful install the package file there holds the bytes of the staged
/// package's file, so the entry point that a run reads back is the one that
/// the staged package file names.
pub proof fn lemma_install_then_run(
    raw: Seq<char>,
    named: Seq<Seq<char>>,
    hosts: Seq<HostDirectory>,
    m: StoreModel,
    es: Seq<StagedView>,
)
    requires
        parse_spec(raw) is Ok,
        parse_spec(raw)->Ok_0 is Remote,
        is_valid_package(es),
    ensures
        ({
            let d = parse_spec(raw)->Ok_0;
            let loc = location_spec(d)->Some_0;
            let file = binary_view(es[last_index_at(es, package_file_key())].data);
            &&& determine_spec(d, named, hosts) == Ok::<DesignatorView, crate::designator::DesignatorError>(d)
            &&& location_spec(d) is Some
            &&& installed(m, loc, es).contains_key(loc.push(PACKAGE_FILE@))
            &&& installed(m, loc, es)[loc.push(PACKAGE_FILE@)] == file
            &&& stored_entrypoint(installed(m, loc, es), d) == file_entrypoint(file)
        }),
{
    let d = parse_spec(raw)->Ok_0;
    let loc = location_spec(d)->Some_0;
    lemma_package_file_round_trip(with_dirs(m, loc), loc, es);
    assert(package_file_at(d) == loc.push(PACKAGE_FILE@));
}

} // verus!
