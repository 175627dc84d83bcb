use vstd::prelude::*;

use crate::designator::{
    first_host_from, lemma_strings_view_push, location_spec, parse_spec, path_spec, sep, strings_view,
    DesignatorError, DesignatorView, HostDirectory, PackageDesignator, GIT_DIR, PACKAGE_DIR,
    PACKAGE_FILE,
};
use crate::package::{entrypoint_of, opt_view, toml_parses, utf8_text, Package, PackageConfig};
use crate::storage::{
    is_directory, read_error, Object, ObjectKind, ObjectView, Path, StorageError, StorageOperation,
    StoreModel,
};
use vstd::utf8::{decode_utf8, valid_utf8};

verus! {

/// Failures of the run workflow.
#[derive(Debug, Clone, PartialEq, Eq)]
pub enum RunError {
    /// The designator given is malformed.
    InvalidOptions,
    /// No installed package matches the designator.
    CannotDeterminePackageType,
    /// The package has no readable package file.
    CannotFoundPackageFile,
    /// The package file cannot be read as one.
    MalformedPackage,
    /// The interpreter failed; holds what it wrote to its error stream.
    InterpreterFailed(String),
    /// The interpreter could not be started.
    IOError(String),
    /// The storage failed while the installed packages were listed.
    Storage(StorageError),
}

/// A directory object is stored at `k`.
pub open spec fn is_dir_at(m: StoreModel, k: Seq<Seq<char>>) -> bool {
    m.contains_key(k) && m[k].kind == ObjectKind::Directory
}

/// Names of the directories listed directly under `dir`. A `dir` that is
/// not a directory has none; any other failure of the storage is returned.
fn directory_names<S: StorageOperation>(storage: &S, dir: &Path) -> (r: Result<Vec<String>, StorageError>)
    ensures
        r matches Ok(names) ==> {
            &&& forall|i: int|
                0 <= i < names@.len() ==> is_dir_at(storage.objects(), dir@.push(#[trigger] names@[i]@))
            &&& is_directory(storage.objects(), dir@) ==> forall|n: Seq<char>|
                #[trigger] is_dir_at(storage.objects(), dir@.push(n)) ==> strings_view(names@).contains(n)
        },
        r matches Err(e) ==> e != StorageError::ObjectNotFound,
{
    let mut out: Vec<String> = Vec::new();
    let mut list = match storage.read_dir(dir) {
        Ok(l) => l,
        Err(StorageError::ObjectNotFound) => {
            return Ok(out);
        },
        Err(e) => {
            return Err(e);
        },
    };
    let ghost entries = list.entries();
    loop
        invariant
            list.entries() == entries,
            list.position() <= entries.len(),
            crate::storage::lists_children(storage.objects(), dir@, entries),
            forall|i: int|
                0 <= i < out@.len() ==> is_dir_at(storage.objects(), dir@.push(#[trigger] out@[i]@)),
            forall|e: int|
                0 <= e < list.position() && #[trigger] entries[e].kind == ObjectKind::Directory
                    ==> strings_view(out@).contains(entries[e].name@),
        ensures
            list.position() == entries.len(),
            forall|i: int|
                0 <= i < out@.len() ==> is_dir_at(storage.objects(), dir@.push(#[trigger] out@[i]@)),
            forall|e: int|
                0 <= e < entries.len() && #[trigger] entries[e].kind == ObjectKind::Directory
                    ==> strings_view(out@).contains(entries[e].name@),
        decreases entries.len() - list.position(),
    {
        let ghost pos = list.position();
        let ghost before = out@;
        match list.next() {
            Some(e) => {
                assert(pos < entries.len());
                assert(e.name@ == entries[pos as int].name@);
                assert(storage.objects().contains_key(dir@.push(entries[pos as int].name@)));
                if e.kind == ObjectKind::Directory {
                    let ghost name = e.name;
                    out.push(e.name);
                    proof {
                        lemma_strings_view_push(before, name);
                        assert(strings_view(out@)[before.len() as int] == name@);
                    }
                    assert forall|i: int|
                        0 <= i < out@.len() implies is_dir_at(
                        storage.objects(),
                        dir@.push(#[trigger] out@[i]@),
                    ) by {
                        if i < before.len() {
                            assert(out@[i] == before[i]);
                        }
                    }
                }
                assert forall|k: int|
                    0 <= k < list.position() && #[trigger] entries[k].kind == ObjectKind::Directory
                        implies strings_view(out@).contains(entries[k].name@) by {
                    if k < pos {
                        let w = choose|w: int| 0 <= w < strings_view(before).len() && strings_view(before)[w] == entries[k].name@;
                        assert(strings_view(out@)[w] == strings_view(before)[w]) by {
                            assert(out@[w] == before[w]);
                        }
                    } else {
                        assert(strings_view(out@)[before.len() as int] == entries[k].name@);
                    }
                }
            },
            None => {
                break;
            },
        }
    }
    assert forall|n: Seq<char>| #[trigger] is_dir_at(storage.objects(), dir@.push(n)) implies strings_view(
        out@,
    ).contains(n) by {
        let e = choose|e: int| 0 <= e < entries.len() && #[trigger] entries[e].name@ == n;
        assert(storage.objects()[dir@.push(entries[e].name@)].kind == entries[e].kind);
        assert(entries[e].kind == ObjectKind::Directory);
    }
    Ok(out)
}

/// `a` comes strictly before `b` in the order of their characters' code points.
pub open spec fn lex_lt(a: Seq<char>, b: Seq<char>) -> bool
    decreases a.len(),
{
    if a.len() == 0 {
        b.len() > 0
    } else if b.len() == 0 {
        false
    } else if a[0] != b[0] {
        (a[0] as u32) < (b[0] as u32)
    } else {
        lex_lt(a.drop_first(), b.drop_first())
    }
}

proof fn lemma_lex_lt_transitive(a: Seq<char>, b: Seq<char>, c: Seq<char>)
    requires
        lex_lt(a, b),
        lex_lt(b, c),
    ensures
        lex_lt(a, c),
    decreases a.len(),
{
    if a.len() > 0 && b.len() > 0 && c.len() > 0 && a[0] == b[0] && b[0] == c[0] {
        lemma_lex_lt_transitive(a.drop_first(), b.drop_first(), c.drop_first());
    }
}

proof fn lemma_lex_lt_irreflexive(a: Seq<char>)
    ensures
        !lex_lt(a, a),
    decreases a.len(),
{
    if a.len() > 0 {
        lemma_lex_lt_irreflexive(a.drop_first());
    }
}

/// Whether `a` comes strictly before `b`.
fn str_lt(a: &str, b: &str) -> (r: bool)
    ensures
        r == lex_lt(a@, b@),
{
    let n = a.unicode_len();
    let m = b.unicode_len();
    let mut i: usize = 0;
    assert(a@.subrange(0, n as int) =~= a@);
    assert(b@.subrange(0, m as int) =~= b@);
    while i < n && i < m
        invariant
            n == a@.len(),
            m == b@.len(),
            i <= n,
            i <= m,
            lex_lt(a@, b@) == lex_lt(a@.subrange(i as int, n as int), b@.subrange(i as int, m as int)),
        decreases n - i,
    {
        let x = a.get_char(i);
        let y = b.get_char(i);
        if x != y {
            return (x as u32) < (y as u32);
        }
        assert(a@.subrange(i as int, n as int).drop_first() =~= a@.subrange(i + 1, n as int));
        assert(b@.subrange(i as int, m as int).drop_first() =~= b@.subrange(i + 1, m as int));
        i = i + 1;
    }
    i == n && i < m
}

/// Host directories in the order of their host tokens.
pub open spec fn sorted_by_host(hosts: Seq<HostDirectory>) -> bool {
    forall|i: int, j: int|
        0 <= i < j < hosts.len() ==> !lex_lt(#[trigger] hosts[j].host@, #[trigger] hosts[i].host@)
}

/// `hosts` lists host `h` with every package directory that `h` holds in `m`.
pub open spec fn lists_host(m: StoreModel, hosts: Seq<HostDirectory>, h: Seq<char>) -> bool {
    exists|j: int|
        0 <= j < hosts.len() && (#[trigger] hosts[j]).host@ == h && forall|p: Seq<char>|
            #[trigger] is_dir_at(m, remote_key(h, p)) ==> strings_view(hosts[j].packages@).contains(p)
}

/// The package directories of the named area, and of each host directory
/// of the remote area, the host directories in the order of their host
/// tokens, so that the first match that `determine` takes does not depend on
/// the order in which the storage lists them. Each one listed is a directory
/// of the store, and every one is listed; an area that is not a directory
/// has none, and any other failure of the storage is returned.
pub fn package_listing<S: StorageOperation>(storage: &S) -> (r: Result<
    (Vec<String>, Vec<HostDirectory>),
    StorageError,
>)
    ensures
        r matches Ok((named, hosts)) ==> {
            &&& forall|i: int|
                0 <= i < named@.len() ==> is_dir_at(
                    storage.objects(),
                    seq![PACKAGE_DIR@, #[trigger] named@[i]@],
                )
            &&& is_directory(storage.objects(), seq![PACKAGE_DIR@]) ==> forall|n: Seq<char>|
                #[trigger] is_dir_at(storage.objects(), named_key(n)) ==> strings_view(
                    named@,
                ).contains(n)
            &&& forall|j: int, p: Seq<char>|
                0 <= j < hosts@.len() && #[trigger] strings_view(hosts@[j].packages@).contains(p)
                    ==> is_dir_at(storage.objects(), remote_key(hosts@[j].host@, p))
            &&& is_directory(storage.objects(), seq![GIT_DIR@]) ==> forall|h: Seq<char>|
                #[trigger] is_dir_at(storage.objects(), host_key(h)) ==> lists_host(
                    storage.objects(),
                    hosts@,
                    h,
                )
            &&& sorted_by_host(hosts@)
        },
{
    let named_root = Path::new(vec![PACKAGE_DIR]);
    assert(named_root@ =~= seq![PACKAGE_DIR@]);
    let named = directory_names(storage, &named_root)?;
    assert forall|i: int| 0 <= i < named@.len() implies is_dir_at(
        storage.objects(),
        seq![PACKAGE_DIR@, #[trigger] named@[i]@],
    ) by {
        assert(named_root@.push(named@[i]@) =~= seq![PACKAGE_DIR@, named@[i]@]);
    }
    assert forall|n: Seq<char>|
        is_directory(storage.objects(), seq![PACKAGE_DIR@]) && #[trigger] is_dir_at(
            storage.objects(),
            named_key(n),
        ) implies strings_view(named@).contains(n) by {
        assert(named_root@.push(n) =~= named_key(n));
    }
    let git_root = Path::new(vec![GIT_DIR]);
    assert(git_root@ =~= seq![GIT_DIR@]);
    let host_names = directory_names(storage, &git_root)?;
    let mut hosts: Vec<HostDirectory> = Vec::new();
    let mut i: usize = 0;
    while i < host_names.len()
        invariant
            i <= host_names@.len(),
            git_root@ == seq![GIT_DIR@],
            sorted_by_host(hosts@),
            forall|j: int, p: Seq<char>|
                0 <= j < hosts@.len() && #[trigger] strings_view(hosts@[j].packages@).contains(p)
                    ==> is_dir_at(storage.objects(), remote_key(hosts@[j].host@, p)),
            forall|k: int|
                0 <= k < i ==> lists_host(storage.objects(), hosts@, #[trigger] host_names@[k]@),
            forall|k: int|
                0 <= k < host_names@.len() ==> is_dir_at(
                    storage.objects(),
                    git_root@.push(#[trigger] host_names@[k]@),
                ),
        decreases host_names.len() - i,
    {
        let host_dir = git_root.join(host_names[i].as_str());
        assert(host_dir@ =~= seq![GIT_DIR@, host_names@[i as int]@]);
        let packages = directory_names(storage, &host_dir)?;
        let entry = HostDirectory { host: host_names[i].clone(), packages };
        assert forall|p: Seq<char>| strings_view(entry.packages@).contains(p) implies is_dir_at(
            storage.objects(),
            remote_key(entry.host@, p),
        ) by {
            let k = choose|k: int| 0 <= k < strings_view(entry.packages@).len() && strings_view(entry.packages@)[k] == p;
            assert(strings_view(entry.packages@)[k] == entry.packages@[k]@);
            assert(host_dir@.push(entry.packages@[k]@) =~= remote_key(entry.host@, p));
        }
        assert forall|p: Seq<char>| #[trigger] is_dir_at(storage.objects(), remote_key(entry.host@, p)) implies strings_view(entry.packages@).contains(p) by {
            assert(host_dir@.push(p) =~= remote_key(entry.host@, p));
        }
        let mut k: usize = 0;
        while k < hosts.len() && !str_lt(entry.host.as_str(), hosts[k].host.as_str())
            invariant
                k <= hosts@.len(),
                forall|j: int| 0 <= j < k ==> !lex_lt(entry.host@, #[trigger] hosts@[j].host@),
            decreases hosts.len() - k,
        {
            k = k + 1;
        }
        let ghost before = hosts@;
        let ghost x = entry;
        assert(k < before.len() ==> lex_lt(x.host@, before[k as int].host@));
        hosts.insert(k, entry);
        assert forall|j: int, p: Seq<char>|
            0 <= j < hosts@.len() && #[trigger] strings_view(hosts@[j].packages@).contains(p)
                implies is_dir_at(storage.objects(), remote_key(hosts@[j].host@, p)) by {
            if j < k {
                assert(hosts@[j] == before[j]);
            } else if j > k {
                assert(hosts@[j] == before[j - 1]);
            }
        }
        assert forall|a: int, b: int| 0 <= a < b < hosts@.len() implies !lex_lt(
            #[trigger] hosts@[b].host@,
            #[trigger] hosts@[a].host@,
        ) by {
            if b < k {
                assert(hosts@[a] == before[a] && hosts@[b] == before[b]);
            } else if b == k {
                assert(hosts@[a] == before[a]);
            } else if a > k {
                assert(hosts@[a] == before[a - 1] && hosts@[b] == before[b - 1]);
            } else if a == k {
                assert(hosts@[b] == before[b - 1]);
                if lex_lt(before[b - 1].host@, x.host@) {
                    lemma_lex_lt_transitive(before[b - 1].host@, x.host@, before[k as int].host@);
                    lemma_lex_lt_irreflexive(before[k as int].host@);
                }
            } else {
                assert(hosts@[a] == before[a] && hosts@[b] == before[b - 1]);
            }
        }
        assert forall|q: int| 0 <= q < i + 1 implies lists_host(
            storage.objects(),
            hosts@,
            #[trigger] host_names@[q]@,
        ) by {
            if q < i {
                let h = host_names@[q]@;
                let j = choose|j: int|
                    0 <= j < before.len() && (#[trigger] before[j]).host@ == h && forall|p: Seq<char>|
                        #[trigger] is_dir_at(storage.objects(), remote_key(h, p)) ==> strings_view(
                            before[j].packages@,
                        ).contains(p);
                let j2 = if j < k { j } else { j + 1 };
                assert(hosts@[j2] == before[j]);
                assert(hosts@[j2].host@ == h);
                assert(forall|p: Seq<char>|
                    #[trigger] is_dir_at(storage.objects(), remote_key(h, p)) ==> strings_view(
                        hosts@[j2].packages@,
                    ).contains(p));
            } else {
                assert(hosts@[k as int] == x);
                assert(x.host@ == host_names@[q]@);
                assert(forall|p: Seq<char>|
                    #[trigger] is_dir_at(storage.objects(), remote_key(x.host@, p)) ==> strings_view(
                        hosts@[k as int].packages@,
                    ).contains(p));
            }
        }
        i = i + 1;
    }
    assert forall|h: Seq<char>|
        is_directory(storage.objects(), seq![GIT_DIR@]) && #[trigger] is_dir_at(
            storage.objects(),
            host_key(h),
        ) implies lists_host(storage.objects(), hosts@, h) by {
        assert(git_root@.push(h) =~= host_key(h));
        let w = choose|w: int| 0 <= w < strings_view(host_names@).len() && strings_view(host_names@)[w] == h;
        assert(strings_view(host_names@)[w] == host_names@[w]@);
    }
    Ok((named, hosts))
}

/// Where the named package `n` lives.
pub open spec fn named_key(n: Seq<char>) -> Seq<Seq<char>> {
    seq![PACKAGE_DIR@, n]
}

/// Where the directory of host `h` lives.
pub open spec fn host_key(h: Seq<char>) -> Seq<Seq<char>> {
    seq![GIT_DIR@, h]
}

/// Where the remote package `raw` of host `h` lives.
pub open spec fn remote_key(h: Seq<char>, raw: Seq<char>) -> Seq<Seq<char>> {
    seq![GIT_DIR@, h, raw]
}

/// A package of name `raw` is installed somewhere: in the named area or
/// under some host directory of the remote area.
pub open spec fn installed_anywhere(m: StoreModel, raw: Seq<char>) -> bool {
    is_dir_at(m, named_key(raw)) || exists|h: Seq<char>|
        #[trigger] is_dir_at(m, remote_key(h, raw))
}

proof fn lemma_first_host_found(hosts: Seq<HostDirectory>, raw: Seq<char>, i: int)
    requires
        first_host_from(hosts, raw, i) >= 0,
    ensures
        0 <= first_host_from(hosts, raw, i) < hosts.len(),
        strings_view(hosts[first_host_from(hosts, raw, i)].packages@).contains(raw),
    decreases hosts.len() - i,
{
    if !strings_view(hosts[i].packages@).contains(raw) {
        lemma_first_host_found(hosts, raw, i + 1);
    }
}

/// The entry file's path, relative to the storage root.
pub open spec fn entry_path_spec(d: DesignatorView, entrypoint: Seq<char>) -> Seq<char> {
    path_spec(d)->Ok_0 + sep() + entrypoint
}

/// The path of the entry file of a package, relative to the storage root;
/// an undetermined designator has none.
pub fn entry_path(dsn: &PackageDesignator, config: &PackageConfig) -> (r: Result<String, DesignatorError>)
    ensures
        match path_spec(dsn@) {
            Ok(_) => r matches Ok(s) && s@ == entry_path_spec(dsn@, config.entrypoint@),
            Err(e) => r == Err::<String, DesignatorError>(e),
        },
{
    proof {
        reveal_strlit("/");
        assert("/"@ =~= sep());
    }
    let mut r = match dsn.path() {
        Ok(p) => p,
        Err(e) => {
            return Err(e);
        },
    };
    r.append("/");
    r.append(config.entrypoint.as_str());
    Ok(r)
}

/// A package ready to run.
#[derive(Debug)]
pub struct RunPlan {
    /// The designator, resolved.
    pub designator: PackageDesignator,
    /// The entry file to hand to the interpreter, relative to the storage root.
    pub entry_path: String,
}

proof fn lemma_first_host_exists(hosts: Seq<HostDirectory>, raw: Seq<char>, i: int, j: int)
    requires
        0 <= i <= j < hosts.len(),
        strings_view(hosts[j].packages@).contains(raw),
    ensures
        first_host_from(hosts, raw, i) >= 0,
    decreases j - i,
{
    if !strings_view(hosts[i].packages@).contains(raw) {
        lemma_first_host_exists(hosts, raw, i + 1, j);
    }
}

/// The text of a stored package file: a text object's text, or a binary
/// object's bytes read as UTF-8.
pub open spec fn text_of(o: ObjectView) -> Option<Seq<char>> {
    match o.kind {
        ObjectKind::Text => o.text,
        ObjectKind::Binary => match o.bin {
            Some(b) => if valid_utf8(b) {
                Some(decode_utf8(b))
            } else {
                None
            },
            None => None,
        },
        ObjectKind::Directory => None,
    }
}

/// The text of an object, as `text_of` gives it.
fn object_text(o: &Object) -> (r: Option<String>)
    ensures
        opt_view(r) == text_of(o@),
{
    match o.kind() {
        ObjectKind::Text => match o.text() {
            Some(t) => Some(t.clone()),
            None => None,
        },
        ObjectKind::Binary => match o.bin() {
            Some(b) => utf8_text(b),
            None => None,
        },
        ObjectKind::Directory => None,
    }
}

/// Where the package file of a designator is stored.
pub open spec fn package_file_at(d: DesignatorView) -> Seq<Seq<char>> {
    location_spec(d)->Some_0.push(PACKAGE_FILE@)
}

/// The entry point that a package file object names, if it is text and a
/// TOML document naming one.
pub open spec fn file_entrypoint(o: ObjectView) -> Option<Seq<char>> {
    match text_of(o) {
        Some(t) => if toml_parses(t) {
            entrypoint_of(t)
        } else {
            None
        },
        None => None,
    }
}

/// The entry point named by the package file stored for `d`, if that file
/// is there and names one.
pub open spec fn stored_entrypoint(m: StoreModel, d: DesignatorView) -> Option<Seq<char>> {
    if location_spec(d) is Some && m.contains_key(package_file_at(d)) {
        file_entrypoint(m[package_file_at(d)])
    } else {
        None
    }
}

/// The package file of `d` is stored but names no entry point.
pub open spec fn stored_file_malformed(m: StoreModel, d: DesignatorView) -> bool {
    &&& location_spec(d) is Some
    &&& m.contains_key(package_file_at(d))
    &&& stored_entrypoint(m, d) is None
}

/// What reading the package file of the resolved designator `d` may give:
/// an absent or unreadable file is not found; one that is not text, not
/// TOML, or names no entry point is malformed; a plan runs the entry point
/// that the stored file names.
pub open spec fn plan_outcome(m: StoreModel, d: DesignatorView, r: Result<RunPlan, RunError>) -> bool {
    &&& location_spec(d) is None ==> r == Err::<RunPlan, RunError>(RunError::CannotFoundPackageFile)
    &&& location_spec(d) is Some && read_error(m, package_file_at(d)) is Some ==> r == Err::<
        RunPlan,
        RunError,
    >(RunError::CannotFoundPackageFile)
    &&& r is Ok ==> r->Ok_0.designator@ == d && stored_entrypoint(m, d) is Some
        && r->Ok_0.entry_path@ == entry_path_spec(d, stored_entrypoint(m, d)->Some_0)
    &&& r == Err::<RunPlan, RunError>(RunError::MalformedPackage) ==> stored_file_malformed(m, d)
    &&& stored_entrypoint(m, d) is Some ==> r is Ok || r == Err::<RunPlan, RunError>(
        RunError::CannotFoundPackageFile,
    )
    &&& r is Err ==> r->Err_0 == RunError::CannotFoundPackageFile || r->Err_0
        == RunError::MalformedPackage
}

/// Reads the package file of a resolved designator and locates its entry
/// file.
pub fn run_plan<S: StorageOperation>(storage: &S, resolved: PackageDesignator) -> (r: Result<
    RunPlan,
    RunError,
>)
    ensures
        plan_outcome(storage.objects(), resolved@, r),
{
    let loc = match resolved.storage_location() {
        Some(l) => l,
        None => {
            return Err(RunError::CannotFoundPackageFile);
        },
    };
    let file = loc.join(PACKAGE_FILE);
    let read = storage.read_object(&file);
    plan_from_file(resolved, read)
}

/// Locates the entry file of a resolved designator from what reading its
/// package file gave: a failed read is not found; a file that names no
/// entry point is malformed.
pub fn plan_from_file(resolved: PackageDesignator, read: Result<Object, StorageError>) -> (r: Result<
    RunPlan,
    RunError,
>)
    ensures
        location_spec(resolved@) is None || read is Err ==> r == Err::<RunPlan, RunError>(
            RunError::CannotFoundPackageFile,
        ),
        location_spec(resolved@) is Some && read is Ok ==> match file_entrypoint(read->Ok_0@) {
            Some(e) => r is Ok && r->Ok_0.designator@ == resolved@ && r->Ok_0.entry_path@
                == entry_path_spec(resolved@, e),
            None => r == Err::<RunPlan, RunError>(RunError::MalformedPackage),
        },
{
    if resolved.storage_location().is_none() {
        return Err(RunError::CannotFoundPackageFile);
    }
    let obj = match read {
        Ok(o) => o,
        Err(_) => {
            return Err(RunError::CannotFoundPackageFile);
        },
    };
    let text = match object_text(&obj) {
        Some(t) => t,
        None => {
            return Err(RunError::MalformedPackage);
        },
    };
    let pkg = match Package::from_text(text.as_str()) {
        Ok(p) => p,
        Err(_) => {
            return Err(RunError::MalformedPackage);
        },
    };
    let entry = match entry_path(&resolved, &pkg.package) {
        Ok(e) => e,
        Err(_) => {
            return Err(RunError::CannotFoundPackageFile);
        },
    };
    Ok(RunPlan { designator: resolved, entry_path: entry })
}

/// Locates an installed package and its entry file: the designator is
/// parsed, resolved against the packages installed in the store, and its
/// package file read; nothing is run.
pub fn prepare_run<S: StorageOperation>(storage: &S, package: String) -> (r: Result<RunPlan, RunError>)
    ensures
        parse_spec(package@) is Err <==> r == Err::<RunPlan, RunError>(RunError::InvalidOptions),
        parse_spec(package@) is Ok && !(parse_spec(package@)->Ok_0 is Undetermined) ==> plan_outcome(
            storage.objects(),
            parse_spec(package@)->Ok_0,
            r,
        ),
        parse_spec(package@) matches Ok(DesignatorView::Undetermined(raw)) && !installed_anywhere(
            storage.objects(),
            raw,
        ) ==> r == Err::<RunPlan, RunError>(RunError::CannotDeterminePackageType) || (r is Err
            && r->Err_0 is Storage),
        parse_spec(package@) matches Ok(DesignatorView::Undetermined(raw)) && is_directory(
            storage.objects(),
            seq![PACKAGE_DIR@],
        ) && is_dir_at(storage.objects(), named_key(raw)) ==> r != Err::<RunPlan, RunError>(
            RunError::CannotDeterminePackageType,
        ),
        parse_spec(package@) matches Ok(DesignatorView::Undetermined(raw)) && is_directory(
            storage.objects(),
            seq![GIT_DIR@],
        ) && (exists|h: Seq<char>|
            is_dir_at(storage.objects(), host_key(h)) && #[trigger] is_dir_at(
                storage.objects(),
                remote_key(h, raw),
            )) ==> r != Err::<RunPlan, RunError>(RunError::CannotDeterminePackageType),
        r matches Ok(plan) ==> plan_outcome(storage.objects(), plan.designator@, r),
        r == Err::<RunPlan, RunError>(RunError::MalformedPackage) ==> exists|d: DesignatorView|
            stored_file_malformed(storage.objects(), d),
{
    let dsn = match PackageDesignator::from_str(package) {
        Ok(d) => d,
        Err(_) => {
            return Err(RunError::InvalidOptions);
        },
    };
    if !dsn.is_undetermined() {
        return run_plan(storage, dsn);
    }
    let (named, hosts) = match package_listing(storage) {
        Ok(l) => l,
        Err(e) => {
            return Err(RunError::Storage(e));
        },
    };
    let resolved = match dsn.determine(&named, &hosts) {
        Ok(d) => d,
        Err(_) => {
            proof {
                if let DesignatorView::Undetermined(raw) = dsn@ {
                    if is_directory(storage.objects(), seq![PACKAGE_DIR@]) && is_dir_at(
                        storage.objects(),
                        named_key(raw),
                    ) {
                        assert(strings_view(named@).contains(raw));
                    }
                    if is_directory(storage.objects(), seq![GIT_DIR@]) && (exists|h: Seq<char>|
                        is_dir_at(storage.objects(), host_key(h)) && #[trigger] is_dir_at(
                            storage.objects(),
                            remote_key(h, raw),
                        )) {
                        let h = choose|h: Seq<char>|
                            is_dir_at(storage.objects(), host_key(h)) && #[trigger] is_dir_at(
                                storage.objects(),
                                remote_key(h, raw),
                            );
                        assert(lists_host(storage.objects(), hosts@, h));
                        let j = choose|j: int|
                            0 <= j < hosts@.len() && (#[trigger] hosts@[j]).host@ == h && forall|p: Seq<char>|
                                #[trigger] is_dir_at(storage.objects(), remote_key(h, p))
                                    ==> strings_view(hosts@[j].packages@).contains(p);
                        lemma_first_host_exists(hosts@, raw, 0, j);
                    }
                }
            }
            return Err(RunError::CannotDeterminePackageType);
        },
    };
    proof {
        if let DesignatorView::Undetermined(raw) = dsn@ {
            if first_host_from(hosts@, raw, 0) >= 0 {
                lemma_first_host_found(hosts@, raw, 0);
            }
        }
    }
    run_plan(storage, resolved)
}

/// The result of a run from how the interpreter ended: a failure carries
/// its error stream unchanged.
pub fn interpreter_outcome(success: bool, stderr: String) -> (r: Result<(), RunError>)
    ensures
        success ==> r is Ok,
        !success ==> (r matches Err(RunError::InterpreterFailed(s)) && s@ == stderr@),
{
    if success {
        Ok(())
    } else {
        Err(RunError::InterpreterFailed(stderr))
    }
}

} // verus!
