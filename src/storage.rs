use vstd::prelude::*;

use crate::designator::{contains_char, lemma_strings_view_push, strings_view, PATH_SEPARATOR};

verus! {

/// A path in a storage: a sequence of segments relative to the storage root.
#[derive(Debug)]
pub struct Path(pub Vec<String>);

impl View for Path {
    type V = Seq<Seq<char>>;

    open spec fn view(&self) -> Seq<Seq<char>> {
        strings_view(self.0@)
    }
}

/// A copy of `v`, string by string.
fn copy_strings(v: &Vec<String>) -> (r: Vec<String>)
    ensures
        strings_view(r@) == strings_view(v@),
{
    let mut r: Vec<String> = Vec::new();
    let mut i: usize = 0;
    while i < v.len()
        invariant
            i <= v@.len(),
            strings_view(r@) =~= strings_view(v@.subrange(0, i as int)),
        decreases v.len() - i,
    {
        let ghost before = r@;
        r.push(v[i].clone());
        proof {
            lemma_strings_view_push(before, v@[i as int]);
            lemma_strings_view_push(v@.subrange(0, i as int), v@[i as int]);
            assert(v@.subrange(0, i + 1) =~= v@.subrange(0, i as int).push(v@[i as int]));
        }
        i = i + 1;
    }
    assert(v@.subrange(0, i as int) =~= v@);
    r
}

impl Path {
    /// The path made of the given segments, in order.
    pub fn new(path: Vec<&str>) -> (r: Path)
        ensures
            r@ == path@.map_values(|s: &str| s@),
    {
        let mut segments: Vec<String> = Vec::new();
        let mut i: usize = 0;
        while i < path.len()
            invariant
                i <= path@.len(),
                strings_view(segments@) =~= path@.subrange(0, i as int).map_values(|s: &str| s@),
            decreases path.len() - i,
        {
            let ghost before = segments@;
            let seg = String::from_str(path[i]);
            segments.push(seg);
            proof {
                lemma_strings_view_push(before, seg);
                assert(path@.subrange(0, i + 1).map_values(|s: &str| s@) =~= path@.subrange(
                    0,
                    i as int,
                ).map_values(|s: &str| s@).push(path@[i as int]@));
            }
            i = i + 1;
        }
        assert(path@.subrange(0, i as int) =~= path@);
        Path(segments)
    }

    /// A copy of this path.
    pub fn copy(&self) -> (r: Path)
        ensures
            r@ == self@,
    {
        Path(copy_strings(&self.0))
    }

    /// This path with one more segment at its end.
    pub fn join(&self, segment: &str) -> (r: Path)
        ensures
            r@ == self@.push(segment@),
    {
        let mut segments = copy_strings(&self.0);
        let ghost before = segments@;
        let seg = String::from_str(segment);
        segments.push(seg);
        proof {
            lemma_strings_view_push(before, seg);
        }
        Path(segments)
    }

    /// This path followed by the segments of `other`.
    pub fn concat(&self, other: &Path) -> (r: Path)
        ensures
            r@ == self@ + other@,
    {
        let mut segments = copy_strings(&self.0);
        let mut i: usize = 0;
        while i < other.0.len()
            invariant
                i <= other.0@.len(),
                strings_view(segments@) =~= self@ + other@.subrange(0, i as int),
            decreases other.0.len() - i,
        {
            let ghost before = segments@;
            segments.push(other.0[i].clone());
            proof {
                lemma_strings_view_push(before, other.0@[i as int]);
                assert(other@[i as int] == other.0@[i as int]@);
                assert(self@ + other@.subrange(0, i + 1) =~= (self@ + other@.subrange(
                    0,
                    i as int,
                )).push(other@[i as int]));
            }
            i = i + 1;
        }
        assert(other@.subrange(0, i as int) =~= other@);
        Path(segments)
    }

    /// Whether two paths have the same segments.
    pub fn same_as(&self, other: &Path) -> (r: bool)
        ensures
            r == (self@ == other@),
    {
        if self.0.len() != other.0.len() {
            return false;
        }
        let mut i: usize = 0;
        while i < self.0.len()
            invariant
                i <= self@.len(),
                self@.len() == other@.len(),
                forall|j: int| 0 <= j < i ==> self@[j] == other@[j],
            decreases self.0.len() - i,
        {
            if self.0[i] != other.0[i] {
                assert(self@[i as int] != other@[i as int]);
                return false;
            }
            i = i + 1;
        }
        assert(self@ =~= other@);
        true
    }
}

#[derive(Debug, Clone, PartialEq, Eq)]
pub enum StorageError {
    /// The path is not allowed: it would leave the storage root.
    StorageAccessError,
    /// The storage could not be reached.
    FailedToConnect(String),
    /// Nothing is stored at the path.
    ObjectNotFound,
    /// Something is already stored at the path.
    ObjectAlreadyExists,
    /// What is stored at the path is not a directory.
    NotADirectory,
}

#[derive(Debug, Clone, Copy, PartialEq, Eq, Structural)]
pub enum ObjectKind {
    Binary,
    Text,
    Directory,
}

/// An object of a storage: binary data, text, or a directory. Its payload
/// matches its kind; a directory's children are read with `read_dir`.
#[derive(Debug)]
pub struct Object {
    kind: ObjectKind,
    bin: Option<Vec<u8>>,
    text: Option<String>,
}

/// The payload matches the kind: bytes for binary data, text for text,
/// neither for a directory.
pub open spec fn well_formed(o: ObjectView) -> bool {
    match o.kind {
        ObjectKind::Binary => o.bin is Some && o.text is None,
        ObjectKind::Text => o.text is Some && o.bin is None,
        ObjectKind::Directory => o.bin is None && o.text is None,
    }
}

pub struct ObjectView {
    pub kind: ObjectKind,
    pub bin: Option<Seq<u8>>,
    pub text: Option<Seq<char>>,
}

impl View for Object {
    type V = ObjectView;

    closed spec fn view(&self) -> ObjectView {
        ObjectView {
            kind: self.kind,
            bin: match self.bin {
                Some(b) => Some(b@),
                None => None,
            },
            text: match self.text {
                Some(t) => Some(t@),
                None => None,
            },
        }
    }
}

pub open spec fn binary_view(data: Seq<u8>) -> ObjectView {
    ObjectView { kind: ObjectKind::Binary, bin: Some(data), text: None }
}

pub open spec fn directory_view() -> ObjectView {
    ObjectView { kind: ObjectKind::Directory, bin: None, text: None }
}

pub(crate) fn copy_bytes(v: &Vec<u8>) -> (r: Vec<u8>)
    ensures
        r@ == v@,
{
    let mut r: Vec<u8> = Vec::new();
    let mut i: usize = 0;
    while i < v.len()
        invariant
            i <= v@.len(),
            r@ =~= v@.subrange(0, i as int),
        decreases v.len() - i,
    {
        r.push(v[i]);
        i = i + 1;
    }
    assert(v@.subrange(0, i as int) =~= v@);
    r
}

impl Object {
    #[verifier::type_invariant]
    spec fn inv(&self) -> bool {
        well_formed(self@)
    }

    /// The object's kind; the payload always matches it.
    pub fn kind(&self) -> (r: ObjectKind)
        ensures
            r == self@.kind,
            well_formed(self@),
    {
        proof {
            use_type_invariant(self);
        }
        self.kind
    }

    /// The bytes of a binary object.
    pub fn bin(&self) -> (r: Option<&Vec<u8>>)
        ensures
            match r {
                Some(b) => self@.bin == Some(b@),
                None => self@.bin is None,
            },
    {
        match &self.bin {
            Some(b) => Some(b),
            None => None,
        }
    }

    /// The text of a text object.
    pub fn text(&self) -> (r: Option<&String>)
        ensures
            match r {
                Some(t) => self@.text == Some(t@),
                None => self@.text is None,
            },
    {
        match &self.text {
            Some(t) => Some(t),
            None => None,
        }
    }

    /// A binary object holding `data`.
    pub fn binary(data: Vec<u8>) -> (r: Object)
        ensures
            r@ == binary_view(data@),
    {
        Object { kind: ObjectKind::Binary, bin: Some(data), text: None }
    }

    /// A text object holding `text`.
    pub fn from_text(text: String) -> (r: Object)
        ensures
            r@ == (ObjectView { kind: ObjectKind::Text, bin: None, text: Some(text@) }),
    {
        Object { kind: ObjectKind::Text, bin: None, text: Some(text) }
    }

    /// A directory object.
    pub fn directory() -> (r: Object)
        ensures
            r@ == directory_view(),
    {
        Object { kind: ObjectKind::Directory, bin: None, text: None }
    }

    /// A copy of this object.
    pub fn copy(&self) -> (r: Object)
        ensures
            r@ == self@,
    {
        proof {
            use_type_invariant(self);
        }
        let bin = match &self.bin {
            Some(b) => Some(copy_bytes(b)),
            None => None,
        };
        let text = match &self.text {
            Some(t) => Some(t.clone()),
            None => None,
        };
        Object { kind: self.kind, bin, text }
    }
}

/// One entry of a directory listing.
#[derive(Debug)]
pub struct DirEntry {
    pub name: String,
    pub kind: ObjectKind,
}

/// A directory listing, read once from its first entry to its last.
#[derive(Debug)]
pub struct ObjectList {
    entries: Vec<DirEntry>,
    count: usize,
}

impl ObjectList {
    #[verifier::type_invariant]
    spec fn inv(&self) -> bool {
        self.count <= self.entries@.len()
    }

    pub closed spec fn entries(&self) -> Seq<DirEntry> {
        self.entries@
    }

    /// How many entries have been handed out.
    pub closed spec fn position(&self) -> nat {
        self.count as nat
    }

    /// A listing of `entries`, positioned before the first.
    pub fn new(entries: Vec<DirEntry>) -> (r: ObjectList)
        ensures
            r.entries() == entries@,
            r.position() == 0,
    {
        ObjectList { entries, count: 0 }
    }

    /// The next entry, or `None` once all have been handed out.
    pub fn next(&mut self) -> (r: Option<DirEntry>)
        ensures
            final(self).entries() == old(self).entries(),
            final(self).position() <= final(self).entries().len(),
            old(self).position() < old(self).entries().len() ==> {
                &&& final(self).position() == old(self).position() + 1
                &&& r matches Some(e) && e.name@ == old(self).entries()[old(self).position() as int].name@
                    && e.kind == old(self).entries()[old(self).position() as int].kind
            },
            old(self).position() == old(self).entries().len() ==> {
                &&& final(self).position() == old(self).position()
                &&& r is None
            },
    {
        proof {
            use_type_invariant(&*self);
        }
        if self.count < self.entries.len() {
            let e = &self.entries[self.count];
            let r = DirEntry { name: e.name.clone(), kind: e.kind };
            self.count = self.count + 1;
            Some(r)
        } else {
            None
        }
    }
}

/// A segment that stays inside its directory: not empty, not `.` or `..`,
/// and without a path separator.
pub open spec fn is_safe_segment(s: Seq<char>) -> bool {
    &&& s.len() > 0
    &&& s != seq!['.']
    &&& s != seq!['.', '.']
    &&& !contains_char(s, PATH_SEPARATOR)
}

/// A path that cannot leave the storage root.
pub open spec fn is_safe_path(p: Seq<Seq<char>>) -> bool {
    forall|i: int| 0 <= i < p.len() ==> is_safe_segment(#[trigger] p[i])
}

pub type StoreModel = Map<Seq<Seq<char>>, ObjectView>;

/// The root, or a directory object.
pub open spec fn is_directory(m: StoreModel, p: Seq<Seq<char>>) -> bool {
    p.len() == 0 || (m.contains_key(p) && m[p].kind == ObjectKind::Directory)
}

/// The error owed by any operation on `p`, whatever is stored.
pub open spec fn access_error(p: Seq<Seq<char>>) -> Option<StorageError> {
    if !is_safe_path(p) {
        Some(StorageError::StorageAccessError)
    } else {
        None
    }
}

/// The error owed by reading the object at `p`.
pub open spec fn read_error(m: StoreModel, p: Seq<Seq<char>>) -> Option<StorageError> {
    if !is_safe_path(p) {
        Some(StorageError::StorageAccessError)
    } else if !m.contains_key(p) {
        Some(StorageError::ObjectNotFound)
    } else {
        None
    }
}

/// The error owed by writing an object at `p`: writing never overwrites.
pub open spec fn write_error(m: StoreModel, p: Seq<Seq<char>>) -> Option<StorageError> {
    if !is_safe_path(p) {
        Some(StorageError::StorageAccessError)
    } else if m.contains_key(p) {
        Some(StorageError::ObjectAlreadyExists)
    } else {
        None
    }
}

/// The error owed by creating a directory at `p`.
pub open spec fn create_dir_error(m: StoreModel, p: Seq<Seq<char>>) -> Option<StorageError> {
    if !is_safe_path(p) {
        Some(StorageError::StorageAccessError)
    } else if m.contains_key(p) && m[p].kind != ObjectKind::Directory {
        Some(StorageError::NotADirectory)
    } else {
        None
    }
}

/// The store after a successful `create_dir`: an existing directory is kept.
pub open spec fn after_create_dir(m: StoreModel, p: Seq<Seq<char>>) -> StoreModel {
    if m.contains_key(p) {
        m
    } else {
        m.insert(p, directory_view())
    }
}

/// The error owed by listing the directory at `p`.
pub open spec fn read_dir_error(m: StoreModel, p: Seq<Seq<char>>) -> Option<StorageError> {
    if !is_safe_path(p) {
        Some(StorageError::StorageAccessError)
    } else if !is_directory(m, p) {
        Some(StorageError::ObjectNotFound)
    } else {
        None
    }
}

/// `entries` lists the children of the directory `p` of `m`, with their kinds.
pub open spec fn lists_children(m: StoreModel, p: Seq<Seq<char>>, entries: Seq<DirEntry>) -> bool {
    &&& forall|i: int|
        0 <= i < entries.len() ==> {
            &&& m.contains_key(p.push(#[trigger] entries[i].name@))
            &&& m[p.push(entries[i].name@)].kind == entries[i].kind
        }
    &&& forall|n: Seq<char>|
        #[trigger] m.contains_key(p.push(n)) ==> exists|i: int|
            0 <= i < entries.len() && #[trigger] entries[i].name@ == n
    &&& forall|i: int, j: int|
        0 <= i < j < entries.len() ==> #[trigger] entries[i].name@ != #[trigger] entries[j].name@
}

pub open spec fn err_of<T>(r: Result<T, StorageError>) -> Option<StorageError> {
    match r {
        Ok(_) => None,
        Err(e) => Some(e),
    }
}

/// A store of objects keyed by paths, such as a directory tree on disk.
///
/// Every operation refuses a path that could leave the storage root, and an
/// operation that fails leaves the store as it was. What verified code proves
/// through this trait holds of implementations that are verified against it,
/// as `MemoryStorage` is; an implementation written outside verified code,
/// such as one on the local filesystem, is not checked against the contract.
pub trait StorageOperation {
    /// The objects held, by path. Every implementation in verified code
    /// defines it; the body here only lets code outside verification, which
    /// has no model to give, implement the trait.
    open spec fn objects(&self) -> StoreModel {
        StoreModel::empty()
    }

    /// Starts a session with the storage; it may do nothing.
    fn connect(&self) -> Result<(), StorageError>;

    /// Whether an object is stored at `path`.
    fn object_exists(&self, path: &Path) -> (r: Result<bool, StorageError>)
        ensures
            access_error(path@) matches Some(e) ==> r == Err::<bool, StorageError>(e),
            r matches Ok(b) ==> b == self.objects().contains_key(path@),
    ;

    /// The object stored at `path`.
    fn read_object(&self, path: &Path) -> (r: Result<Object, StorageError>)
        ensures
            read_error(self.objects(), path@) matches Some(e) ==> err_of(r) == Some(e),
            r matches Ok(o) ==> self.objects().contains_key(path@) && o@ == self.objects()[path@],
    ;

    /// Stores `obj` at `path`, which must be free.
    fn write_object(&mut self, path: &Path, obj: &Object) -> (r: Result<(), StorageError>)
        ensures
            write_error(old(self).objects(), path@) matches Some(e) ==> err_of(r) == Some(e),
            r is Ok ==> final(self).objects() == old(self).objects().insert(path@, obj@),
            r is Err ==> final(self).objects() == old(self).objects(),
    ;

    /// Creates a directory at `path`; an existing directory is left as it is.
    fn create_dir(&mut self, path: &Path) -> (r: Result<(), StorageError>)
        ensures
            create_dir_error(old(self).objects(), path@) matches Some(e) ==> err_of(r) == Some(e),
            is_safe_path(path@) && is_directory(old(self).objects(), path@) && path@.len() > 0
                ==> r is Ok,
            r is Ok ==> final(self).objects() == after_create_dir(old(self).objects(), path@),
            r is Err ==> final(self).objects() == old(self).objects(),
    ;

    /// Lists the directory at `path`.
    fn read_dir(&self, path: &Path) -> (r: Result<ObjectList, StorageError>)
        ensures
            read_dir_error(self.objects(), path@) matches Some(e) ==> err_of(r) == Some(e),
            err_of(r) == Some(StorageError::ObjectNotFound) ==> !is_directory(self.objects(), path@),
            r matches Ok(list) ==> list.position() == 0 && lists_children(
                self.objects(),
                path@,
                list.entries(),
            ),
    ;
}

/// The store after creating each directory from the first segment of `loc`
/// down to `loc` itself.
pub open spec fn with_dirs(m: StoreModel, loc: Seq<Seq<char>>) -> StoreModel
    decreases loc.len(),
{
    if loc.len() == 0 {
        m
    } else {
        after_create_dir(with_dirs(m, loc.drop_last()), loc)
    }
}

/// `after` holds every object of `before`, unchanged.
pub open spec fn extends(before: StoreModel, after: StoreModel) -> bool {
    forall|k: Seq<Seq<char>>|
        #[trigger] before.contains_key(k) ==> after.contains_key(k) && after[k] == before[k]
}

/// Creates each directory from the first segment of `loc` down to `loc`.
/// Whether it succeeds or not, nothing already stored is changed.
pub fn create_dirs<S: StorageOperation>(storage: &mut S, loc: &Path) -> (r: Result<(), StorageError>)
    ensures
        r is Ok ==> final(storage).objects() == with_dirs(old(storage).objects(), loc@),
        extends(old(storage).objects(), final(storage).objects()),
{
    let mut prefix = Path(Vec::new());
    assert(prefix@ =~= loc@.subrange(0, 0));
    let mut i: usize = 0;
    while i < loc.0.len()
        invariant
            i <= loc@.len(),
            prefix@ == loc@.subrange(0, i as int),
            storage.objects() == with_dirs(old(storage).objects(), loc@.subrange(0, i as int)),
            extends(old(storage).objects(), storage.objects()),
        decreases loc.0.len() - i,
    {
        prefix = prefix.join(loc.0[i].as_str());
        assert(prefix@ =~= loc@.subrange(0, i + 1));
        assert(prefix@.drop_last() =~= loc@.subrange(0, i as int));
        match storage.create_dir(&prefix) {
            Ok(()) => {},
            Err(e) => {
                return Err(e);
            },
        }
        i = i + 1;
    }
    assert(loc@.subrange(0, i as int) =~= loc@);
    Ok(())
}

/// Creating directories keeps every object already stored.
pub proof fn lemma_with_dirs_keeps(m: StoreModel, loc: Seq<Seq<char>>, k: Seq<Seq<char>>)
    requires
        m.contains_key(k),
    ensures
        with_dirs(m, loc).contains_key(k),
        with_dirs(m, loc)[k] == m[k],
    decreases loc.len(),
{
    if loc.len() > 0 {
        lemma_with_dirs_keeps(m, loc.drop_last(), k);
    }
}

/// Checks that `path` stays inside the storage root.
pub fn check_path(path: &Path) -> (r: Result<(), StorageError>)
    ensures
        err_of(r) == access_error(path@),
{
    let mut i: usize = 0;
    while i < path.0.len()
        invariant
            i <= path@.len(),
            forall|j: int| 0 <= j < i ==> is_safe_segment(#[trigger] path@[j]),
        decreases path.0.len() - i,
    {
        if !is_safe_segment_exec(path.0[i].as_str()) {
            assert(!is_safe_segment(path@[i as int]));
            return Err(StorageError::StorageAccessError);
        }
        i = i + 1;
    }
    Ok(())
}

fn is_safe_segment_exec(s: &str) -> (r: bool)
    ensures
        r == is_safe_segment(s@),
{
    let n = s.unicode_len();
    if n == 0 {
        return false;
    }
    if n == 1 && s.get_char(0) == '.' {
        assert(s@ =~= seq!['.']);
        return false;
    }
    if n == 2 && s.get_char(0) == '.' && s.get_char(1) == '.' {
        assert(s@ =~= seq!['.', '.']);
        return false;
    }
    let mut i: usize = 0;
    while i < n
        invariant
            n == s@.len(),
            i <= n,
            forall|j: int| 0 <= j < i ==> s@[j] != PATH_SEPARATOR,
        decreases n - i,
    {
        if s.get_char(i) == PATH_SEPARATOR {
            return false;
        }
        i = i + 1;
    }
    assert(s@.len() != 1 || s@[0] != '.');
    assert(s@ != seq!['.']) by {
        if s@ == seq!['.'] {
            assert(s@[0] == '.');
        }
    }
    assert(s@ != seq!['.', '.']) by {
        if s@ == seq!['.', '.'] {
            assert(s@[0] == '.' && s@[1] == '.');
        }
    }
    true
}

/// A path with a `..` segment is refused by every operation of a storage,
/// which then fails with the access error and changes nothing.
pub proof fn lemma_traversal_refused(m: StoreModel, p: Seq<Seq<char>>, i: int)
    requires
        0 <= i < p.len(),
        p[i] == seq!['.', '.'],
    ensures
        access_error(p) == Some(StorageError::StorageAccessError),
        read_error(m, p) == Some(StorageError::StorageAccessError),
        write_error(m, p) == Some(StorageError::StorageAccessError),
        create_dir_error(m, p) == Some(StorageError::StorageAccessError),
        read_dir_error(m, p) == Some(StorageError::StorageAccessError),
{
    assert(!is_safe_segment(p[i]));
}

/// Once an object has been written at a path, a second write there is
/// refused as already existing, and the first object stays as written.
pub proof fn lemma_second_write_refused(m: StoreModel, p: Seq<Seq<char>>, first: ObjectView)
    requires
        write_error(m, p) is None,
    ensures
        write_error(m.insert(p, first), p) == Some(StorageError::ObjectAlreadyExists),
        m.insert(p, first)[p] == first,
{
}

} // verus!
