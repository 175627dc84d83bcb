use std::io::Cursor;

use vstd::prelude::*;
use zip::ZipArchive;

use crate::designator::{find_char, index_of, lemma_index_of, lemma_strings_view_push, strings_view, PACKAGE_FILE, PATH_SEPARATOR};
use crate::host::{Archive, HostOperationError};
use crate::storage::{
    binary_view, check_path, create_dirs, extends, is_safe_path, lemma_with_dirs_keeps, with_dirs, Object, Path, StorageError,
    StorageOperation, StoreModel,
};

verus! {

/// The number of members of the zip archive held in the bytes, if it can be
/// read: a function of the bytes alone.
pub uninterp spec fn zip_count(bytes: Seq<u8>) -> Option<nat>;

/// Member `i` of the zip archive held in the bytes, as its name, whether it
/// is a directory, and its decompressed bytes, if it can be read: a function
/// of the bytes and the index alone.
pub uninterp spec fn zip_entry(bytes: Seq<u8>, i: nat) -> Option<(Seq<char>, bool, Seq<u8>)>;

/// Relies on zip::ZipArchive::new and ZipArchive::len: the number of members
/// of the zip archive held in `bytes`, if its central directory can be read.
#[verifier::external_body]
fn zip_member_count(bytes: &Vec<u8>) -> (r: Option<usize>)
    ensures
        match r {
            Some(n) => zip_count(bytes@) == Some(n as nat),
            None => zip_count(bytes@) is None,
        },
{
    ZipArchive::new(Cursor::new(bytes.as_slice())).ok().map(|a| a.len())
}

/// Relies on zip::ZipArchive::by_index: member `i` of the zip archive held in
/// `bytes`, handed out as its name, whether it is a directory, and its
/// decompressed bytes.
#[verifier::external_body]
fn zip_member_at(bytes: &Vec<u8>, i: usize) -> (r: Option<(String, bool, Vec<u8>)>)
    ensures
        match r {
            Some(m) => zip_entry(bytes@, i as nat) == Some((m.0@, m.1, m.2@)),
            None => zip_entry(bytes@, i as nat) is None,
        },
{
    let mut archive = ZipArchive::new(Cursor::new(bytes.as_slice())).ok()?;
    let mut member = archive.by_index(i).ok()?;
    let name = member.name().ok()?.into_owned();
    let is_dir = member.is_dir();
    let mut data: Vec<u8> = Vec::new();
    std::io::Read::read_to_end(&mut member, &mut data).ok()?;
    Some((name, is_dir, data))
}

/// The members of the zip archive held in the bytes, if every one of them
/// can be read.
pub open spec fn zip_members_of(bytes: Seq<u8>) -> Option<Seq<(Seq<char>, bool, Seq<u8>)>> {
    match zip_count(bytes) {
        None => None,
        Some(n) => if forall|i: nat| i < n ==> #[trigger] zip_entry(bytes, i) is Some {
            Some(Seq::new(n, |i: int| zip_entry(bytes, i as nat)->Some_0))
        } else {
            None
        },
    }
}

/// The non-empty segments of a `/`-separated name.
pub open spec fn segments_spec(s: Seq<char>) -> Seq<Seq<char>>
    decreases s.len(),
{
    let k = index_of(s, PATH_SEPARATOR);
    if k < 0 || k >= s.len() {
        if s.len() == 0 {
            Seq::empty()
        } else {
            seq![s]
        }
    } else {
        let tail = segments_spec(s.subrange(k + 1, s.len() as int));
        if k == 0 {
            tail
        } else {
            seq![s.subrange(0, k)] + tail
        }
    }
}

/// The path made of the non-empty segments of a `/`-separated name.
pub fn segments_of(name: &str) -> (r: Path)
    ensures
        r@ == segments_spec(name@),
{
    let mut acc: Vec<String> = Vec::new();
    let mut rest: String = String::from_str(name);
    while rest.as_str().unicode_len() > 0
        invariant
            segments_spec(name@) == strings_view(acc@) + segments_spec(rest@),
        decreases rest@.len(),
    {
        let n = rest.as_str().unicode_len();
        let k = find_char(rest.as_str(), PATH_SEPARATOR);
        proof {
            lemma_index_of(rest@, PATH_SEPARATOR);
        }
        if k == n {
            let ghost before = acc@;
            let seg = rest.clone();
            acc.push(seg);
            proof {
                lemma_strings_view_push(before, seg);
                assert(strings_view(acc@) + segments_spec(Seq::<char>::empty()) =~= strings_view(before)
                    + segments_spec(rest@));
            }
            rest = String::new();
        } else {
            let ghost old_rest = rest@;
            let tail = String::from_str(rest.as_str().substring_char(k + 1, n));
            if k > 0 {
                let ghost before = acc@;
                let seg = String::from_str(rest.as_str().substring_char(0, k));
                acc.push(seg);
                proof {
                    lemma_strings_view_push(before, seg);
                    assert(strings_view(acc@) + segments_spec(tail@) =~= strings_view(before)
                        + segments_spec(old_rest));
                }
            }
            rest = tail;
        }
    }
    assert(strings_view(acc@) + segments_spec(rest@) =~= strings_view(acc@));
    Path(acc)
}


/// One member of a fetched package, before it is stored.
#[derive(Debug)]
pub struct StagedEntry {
    pub path: Path,
    pub is_dir: bool,
    pub data: Vec<u8>,
}

pub struct StagedView {
    pub path: Seq<Seq<char>>,
    pub is_dir: bool,
    pub data: Seq<u8>,
}

impl View for StagedEntry {
    type V = StagedView;

    open spec fn view(&self) -> StagedView {
        StagedView { path: self.path@, is_dir: self.is_dir, data: self.data@ }
    }
}

/// A fetched package, unpacked in memory and not yet stored.
#[derive(Debug)]
pub struct StagedPackage {
    pub entries: Vec<StagedEntry>,
}

pub open spec fn staged_view(entries: Seq<StagedEntry>) -> Seq<StagedView> {
    entries.map_values(|e: StagedEntry| e@)
}

impl View for StagedPackage {
    type V = Seq<StagedView>;

    open spec fn view(&self) -> Seq<StagedView> {
        staged_view(self.entries@)
    }
}

proof fn lemma_staged_view_push(v: Seq<StagedEntry>, e: StagedEntry)
    ensures
        staged_view(v.push(e)) == staged_view(v).push(e@),
{
    assert forall|j: int| 0 <= j < v.len() + 1 implies staged_view(v.push(e))[j] == staged_view(
        v,
    ).push(e@)[j] by {
        if j < v.len() {
            assert(v.push(e)[j] == v[j]);
        }
    }
    assert(staged_view(v.push(e)) =~= staged_view(v).push(e@));
}

/// The bytes of an archive.
pub open spec fn archive_bytes(archive: Archive) -> Seq<u8> {
    match archive {
        Archive::Zip(b) => b@,
    }
}

/// The staged entry of an archive member: its name split into segments.
pub open spec fn staged_member(m: (Seq<char>, bool, Seq<u8>)) -> StagedView {
    StagedView { path: segments_spec(m.0), is_dir: m.1, data: m.2 }
}

/// The staged entries of archive members, in order.
pub open spec fn staged_of(members: Seq<(Seq<char>, bool, Seq<u8>)>) -> Seq<StagedView> {
    members.map_values(|m: (Seq<char>, bool, Seq<u8>)| staged_member(m))
}

/// Unpacks a zip archive into staged entries, one per member, in order. An
/// archive that cannot be read is an invalid package.
pub fn unpack(archive: Archive) -> (r: Result<StagedPackage, HostOperationError>)
    ensures
        match zip_members_of(archive_bytes(archive)) {
            None => r == Err::<StagedPackage, HostOperationError>(HostOperationError::InvalidPackage),
            Some(ms) => r is Ok && r->Ok_0@ == staged_of(ms),
        },
{
    let Archive::Zip(bytes) = archive;
    let n = match zip_member_count(&bytes) {
        Some(n) => n,
        None => {
            return Err(HostOperationError::InvalidPackage);
        },
    };
    let mut entries: Vec<StagedEntry> = Vec::new();
    let mut i: usize = 0;
    while i < n
        invariant
            i <= n,
            zip_count(bytes@) == Some(n as nat),
            archive_bytes(archive) == bytes@,
            forall|j: nat| j < i ==> #[trigger] zip_entry(bytes@, j) is Some,
            staged_view(entries@) =~= staged_of(
                Seq::new(i as nat, |j: int| zip_entry(bytes@, j as nat)->Some_0),
            ),
        decreases n - i,
    {
        match zip_member_at(&bytes, i) {
            Some((name, is_dir, data)) => {
                let entry = StagedEntry { path: segments_of(name.as_str()), is_dir, data };
                let ghost before = entries@;
                entries.push(entry);
                proof {
                    lemma_staged_view_push(before, entry);
                    assert(staged_view(entries@) =~= staged_of(
                        Seq::new((i + 1) as nat, |j: int| zip_entry(bytes@, j as nat)->Some_0),
                    ));
                }
            },
            None => {
                assert(zip_entry(bytes@, i as nat) is None);
                assert(!(forall|j: nat| j < n ==> #[trigger] zip_entry(bytes@, j) is Some));
                assert(archive_bytes(archive) == bytes@);
                assert(zip_members_of(bytes@) is None);
                return Err(HostOperationError::InvalidPackage);
            },
        }
        i = i + 1;
    }
    Ok(StagedPackage { entries })
}

/// Every entry lies under one top directory, as hosts wrap the contents of
/// a repository in its archive.
pub open spec fn has_single_top(es: Seq<StagedView>) -> bool {
    &&& es.len() > 0
    &&& forall|i: int|
        0 <= i < es.len() ==> {
            &&& (#[trigger] es[i]).path.len() >= 1
            &&& es[i].path[0] == es[0].path[0]
            &&& es[i].path.len() == 1 ==> es[i].is_dir
        }
}

/// The entries below the top directory, moved up one level.
pub open spec fn below_top(es: Seq<StagedView>) -> Seq<StagedView>
    decreases es.len(),
{
    if es.len() == 0 {
        Seq::empty()
    } else {
        let r = below_top(es.drop_last());
        let e = es.last();
        if e.path.len() >= 2 {
            r.push(StagedView { path: e.path.drop_first(), is_dir: e.is_dir, data: e.data })
        } else {
            r
        }
    }
}

/// The package's own tree: what lies under the single top directory, if
/// there is one, else all entries.
pub open spec fn package_tree(es: Seq<StagedView>) -> Seq<StagedView> {
    if has_single_top(es) {
        below_top(es)
    } else {
        es
    }
}

fn copy_path_tail(p: &Path) -> (r: Path)
    requires
        p@.len() >= 1,
    ensures
        r@ == p@.drop_first(),
{
    let mut segments: Vec<String> = Vec::new();
    let mut i: usize = 1;
    while i < p.0.len()
        invariant
            1 <= i <= p@.len(),
            strings_view(segments@) =~= p@.subrange(1, i as int),
        decreases p.0.len() - i,
    {
        let ghost before = segments@;
        segments.push(p.0[i].clone());
        proof {
            lemma_strings_view_push(before, p.0@[i as int]);
            assert(p@.subrange(1, i + 1) =~= p@.subrange(1, i as int).push(p@[i as int]));
        }
        i = i + 1;
    }
    assert(p@.subrange(1, i as int) =~= p@.drop_first());
    Path(segments)
}

/// Moves the package's own tree to the top, dropping the top directory that
/// wraps it, if any.
pub fn into_package_tree(staged: StagedPackage) -> (r: StagedPackage)
    ensures
        r@ == package_tree(staged@),
{
    let es = staged.entries;
    if es.len() == 0 {
        return StagedPackage { entries: es };
    }
    let mut single = true;
    let mut i: usize = 0;
    while i < es.len()
        invariant
            i <= es@.len(),
            es@.len() > 0,
            single ==> forall|j: int|
                0 <= j < i ==> {
                    &&& (#[trigger] staged_view(es@)[j]).path.len() >= 1
                    &&& staged_view(es@)[j].path[0] == staged_view(es@)[0].path[0]
                    &&& staged_view(es@)[j].path.len() == 1 ==> staged_view(es@)[j].is_dir
                },
            !single ==> !has_single_top(staged_view(es@)),
        decreases es.len() - i,
    {
        let ghost v = staged_view(es@);
        assert(v[i as int] == es@[i as int]@);
        assert(v[0] == es@[0]@);
        if es[i].path.0.len() == 0 || es[0].path.0.len() == 0 {
            single = false;
        } else if es[i].path.0[0] != es[0].path.0[0] {
            single = false;
        } else if es[i].path.0.len() == 1 && !es[i].is_dir {
            single = false;
        }
        i = i + 1;
    }
    if !single {
        return StagedPackage { entries: es };
    }
    assert(has_single_top(staged_view(es@)));
    let mut out: Vec<StagedEntry> = Vec::new();
    let mut k: usize = 0;
    while k < es.len()
        invariant
            k <= es@.len(),
            staged_view(out@) == below_top(staged_view(es@.subrange(0, k as int))),
        decreases es.len() - k,
    {
        let ghost pre = staged_view(es@.subrange(0, k as int + 1));
        assert(pre.drop_last() =~= staged_view(es@.subrange(0, k as int)));
        assert(pre.last() == es@[k as int]@);
        if es[k].path.0.len() >= 2 {
            let e = &es[k];
            let entry = StagedEntry {
                path: copy_path_tail(&e.path),
                is_dir: e.is_dir,
                data: crate::storage::copy_bytes(&e.data),
            };
            let ghost before = out@;
            out.push(entry);
            proof {
                lemma_staged_view_push(before, entry);
            }
        }
        k = k + 1;
    }
    assert(es@.subrange(0, es@.len() as int) =~= es@);
    StagedPackage { entries: out }
}

/// The path of the package file inside a package.
pub open spec fn package_file_key() -> Seq<Seq<char>> {
    seq![PACKAGE_FILE@]
}

/// Index of the last entry at `key`, or -1.
pub open spec fn last_index_at(es: Seq<StagedView>, key: Seq<Seq<char>>) -> int
    decreases es.len(),
{
    if es.len() == 0 {
        -1
    } else if es.last().path == key {
        es.len() - 1
    } else {
        last_index_at(es.drop_last(), key)
    }
}

/// A package holds its package file at its top level, and as a file.
pub open spec fn is_valid_package(es: Seq<StagedView>) -> bool {
    let i = last_index_at(es, package_file_key());
    i >= 0 && !es[i].is_dir
}

proof fn lemma_last_index_range(es: Seq<StagedView>, key: Seq<Seq<char>>)
    ensures
        -1 <= last_index_at(es, key) < es.len(),
        last_index_at(es, key) >= 0 ==> es[last_index_at(es, key)].path == key,
        forall|j: int| last_index_at(es, key) < j < es.len() ==> es[j].path != key,
    decreases es.len(),
{
    if es.len() > 0 && es.last().path != key {
        lemma_last_index_range(es.drop_last(), key);
        assert forall|j: int| last_index_at(es, key) < j < es.len() implies es[j].path != key by {
            if j < es.len() - 1 {
                assert(es[j] == es.drop_last()[j]);
            }
        }
        if last_index_at(es, key) >= 0 {
            assert(es[last_index_at(es, key)] == es.drop_last()[last_index_at(es, key)]);
        }
    }
}

/// Whether the staged package holds its package file at its top level.
pub fn is_valid(staged: &StagedPackage) -> (r: bool)
    ensures
        r == is_valid_package(staged@),
{
    let key = Path::new(vec![PACKAGE_FILE]);
    assert(key@ =~= package_file_key());
    let mut i: usize = staged.entries.len();
    assert(staged_view(staged.entries@).subrange(0, i as int) =~= staged@);
    while i > 0
        invariant
            i <= staged.entries@.len(),
            key@ == package_file_key(),
            last_index_at(staged@, package_file_key()) == last_index_at(
                staged@.subrange(0, i as int),
                package_file_key(),
            ),
        decreases i,
    {
        let ghost pre = staged@.subrange(0, i as int);
        assert(pre.drop_last() =~= staged@.subrange(0, i - 1));
        assert(pre.last() == staged.entries@[i - 1]@);
        if staged.entries[i - 1].path.same_as(&key) {
            return !staged.entries[i - 1].is_dir;
        }
        i = i - 1;
    }
    false
}

/// The path without its last segment; the root is its own parent.
pub open spec fn parent_path(p: Seq<Seq<char>>) -> Seq<Seq<char>> {
    if p.len() > 0 {
        p.drop_last()
    } else {
        p
    }
}

/// The store after placing the entries under `root`, in order: a directory
/// is created, with its parents, where none is; a file is written after its
/// parent directories are created.
pub open spec fn placed(m: StoreModel, root: Seq<Seq<char>>, es: Seq<StagedView>) -> StoreModel
    decreases es.len(),
{
    if es.len() == 0 {
        m
    } else {
        let m1 = placed(m, root, es.drop_last());
        let e = es.last();
        if e.is_dir {
            with_dirs(m1, root + e.path)
        } else {
            with_dirs(m1, parent_path(root + e.path)).insert(root + e.path, binary_view(e.data))
        }
    }
}

/// The path without its last segment.
fn parent_of(p: &Path) -> (r: Path)
    ensures
        r@ == parent_path(p@),
{
    let n = p.0.len();
    let keep: usize = if n > 0 { n - 1 } else { 0 };
    let mut segments: Vec<String> = Vec::new();
    let mut i: usize = 0;
    while i < keep
        invariant
            keep <= p@.len(),
            keep == if p@.len() > 0 { p@.len() - 1 } else { 0 },
            i <= keep,
            strings_view(segments@) =~= p@.subrange(0, i as int),
        decreases keep - i,
    {
        let ghost before = segments@;
        segments.push(p.0[i].clone());
        proof {
            lemma_strings_view_push(before, p.0@[i as int]);
            assert(p@.subrange(0, i + 1) =~= p@.subrange(0, i as int).push(p@[i as int]));
        }
        i = i + 1;
    }
    assert(p@.len() > 0 ==> p@.subrange(0, keep as int) =~= p@.drop_last());
    assert(p@.len() == 0 ==> p@.subrange(0, keep as int) =~= p@);
    Path(segments)
}

/// Every entry lands inside the storage root when placed under `root`.
pub open spec fn targets_safe(root: Seq<Seq<char>>, es: Seq<StagedView>) -> bool {
    forall|i: int| 0 <= i < es.len() ==> is_safe_path(root + (#[trigger] es[i]).path)
}

/// Whether every entry lands inside the storage root when placed under `root`.
pub fn all_targets_safe(root: &Path, staged: &StagedPackage) -> (r: bool)
    ensures
        r == targets_safe(root@, staged@),
{
    let mut i: usize = 0;
    while i < staged.entries.len()
        invariant
            i <= staged.entries@.len(),
            forall|j: int| 0 <= j < i ==> is_safe_path(root@ + (#[trigger] staged@[j]).path),
        decreases staged.entries.len() - i,
    {
        assert(staged@[i as int] == staged.entries@[i as int]@);
        let target = root.concat(&staged.entries[i].path);
        if check_path(&target).is_err() {
            return false;
        }
        i = i + 1;
    }
    true
}

/// Stores the staged entries under `root`, in order. Entries that would
/// land outside the storage root are refused before anything is written.
pub fn place_package<S: StorageOperation>(storage: &mut S, root: &Path, staged: &StagedPackage) -> (r:
    Result<(), StorageError>)
    ensures
        !targets_safe(root@, staged@) ==> r == Err::<(), StorageError>(StorageError::StorageAccessError)
            && final(storage).objects() == old(storage).objects(),
        r is Ok ==> final(storage).objects() == placed(old(storage).objects(), root@, staged@),
        extends(old(storage).objects(), final(storage).objects()),
{
    if !all_targets_safe(root, staged) {
        return Err(StorageError::StorageAccessError);
    }
    let mut i: usize = 0;
    while i < staged.entries.len()
        invariant
            i <= staged.entries@.len(),
            targets_safe(root@, staged@),
            extends(old(storage).objects(), storage.objects()),
            storage.objects() == placed(
                old(storage).objects(),
                root@,
                staged@.subrange(0, i as int),
            ),
        decreases staged.entries.len() - i,
    {
        let ghost pre = staged@.subrange(0, i as int + 1);
        assert(pre.drop_last() =~= staged@.subrange(0, i as int));
        assert(pre.last() == staged.entries@[i as int]@);
        let e = &staged.entries[i];
        let target = root.concat(&e.path);
        if e.is_dir {
            match create_dirs(storage, &target) {
                Ok(()) => {},
                Err(err) => {
                    return Err(err);
                },
            }
        } else {
            let parent = parent_of(&target);
            match create_dirs(storage, &parent) {
                Ok(()) => {},
                Err(err) => {
                    return Err(err);
                },
            }
            let obj = Object::binary(crate::storage::copy_bytes(&e.data));
            match storage.write_object(&target, &obj) {
                Ok(()) => {},
                Err(err) => {
                    return Err(err);
                },
            }
        }
        i = i + 1;
    }
    assert(staged@.subrange(0, i as int) =~= staged@);
    Ok(())
}

proof fn lemma_prefix_cancel(root: Seq<Seq<char>>, a: Seq<Seq<char>>, b: Seq<Seq<char>>)
    requires
        root + a == root + b,
    ensures
        a == b,
{
    assert(a =~= (root + a).subrange(root.len() as int, (root + a).len() as int));
    assert(b =~= (root + b).subrange(root.len() as int, (root + b).len() as int));
}

/// Placing a package keeps, at `key` under the root, the file of the last
/// entry at `key`.
pub proof fn lemma_placed_file(m: StoreModel, root: Seq<Seq<char>>, es: Seq<StagedView>, key: Seq<Seq<char>>)
    requires
        last_index_at(es, key) >= 0,
        !es[last_index_at(es, key)].is_dir,
    ensures
        placed(m, root, es).contains_key(root + key),
        placed(m, root, es)[root + key] == binary_view(es[last_index_at(es, key)].data),
    decreases es.len(),
{
    lemma_last_index_range(es, key);
    let e = es.last();
    if e.path != key {
        assert(last_index_at(es, key) < es.len() - 1);
        assert(es.drop_last()[last_index_at(es, key)] == es[last_index_at(es, key)]);
        lemma_placed_file(m, root, es.drop_last(), key);
        let m1 = placed(m, root, es.drop_last());
        if e.is_dir {
            lemma_with_dirs_keeps(m1, root + e.path, root + key);
        } else {
            lemma_with_dirs_keeps(m1, parent_path(root + e.path), root + key);
        }
        if root + e.path == root + key {
            lemma_prefix_cancel(root, e.path, key);
        }
    }
}

/// Round trip through the storage: once a valid package is placed under a
/// root, the package file at that root holds the bytes of the package file
/// of the package's tree.
pub proof fn lemma_package_file_round_trip(m: StoreModel, root: Seq<Seq<char>>, es: Seq<StagedView>)
    requires
        is_valid_package(es),
    ensures
        placed(m, root, es).contains_key(root.push(PACKAGE_FILE@)),
        placed(m, root, es)[root.push(PACKAGE_FILE@)] == binary_view(
            es[last_index_at(es, package_file_key())].data,
        ),
{
    lemma_placed_file(m, root, es, package_file_key());
    assert(root + package_file_key() =~= root.push(PACKAGE_FILE@));
}

} // verus!
