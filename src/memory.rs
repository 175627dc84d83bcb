use vstd::prelude::*;

use crate::storage::{
    check_path, directory_view, DirEntry, Object, ObjectKind, ObjectList,
    ObjectView, Path, StorageError, StorageOperation, StoreModel,
};

verus! {

/// A storage held in memory: a log of (path, object) records, where the
/// latest record for a path is the one that counts.
pub struct MemoryStorage {
    records: Vec<(Path, Object)>,
}

/// The object that the latest record for `k` holds.
pub open spec fn lookup(records: Seq<(Path, Object)>, k: Seq<Seq<char>>) -> Option<ObjectView>
    decreases records.len(),
{
    if records.len() == 0 {
        None
    } else if records.last().0@ == k {
        Some(records.last().1@)
    } else {
        lookup(records.drop_last(), k)
    }
}

proof fn lemma_lookup_found(records: Seq<(Path, Object)>, k: Seq<Seq<char>>)
    requires
        lookup(records, k) is Some,
    ensures
        exists|i: int| 0 <= i < records.len() && (#[trigger] records[i]).0@ == k,
    decreases records.len(),
{
    if records.last().0@ != k {
        lemma_lookup_found(records.drop_last(), k);
        let i = choose|i: int| 0 <= i < records.drop_last().len() && (#[trigger] records.drop_last()[i]).0@ == k;
        assert(records[i] == records.drop_last()[i]);
    }
}

proof fn lemma_lookup_present(records: Seq<(Path, Object)>, i: int)
    requires
        0 <= i < records.len(),
    ensures
        lookup(records, records[i].0@) is Some,
    decreases records.len(),
{
    if records.last().0@ != records[i].0@ {
        assert(records.drop_last()[i] == records[i]);
        lemma_lookup_present(records.drop_last(), i);
    }
}

/// Record `i` is the latest record for its path.
pub open spec fn is_latest(records: Seq<(Path, Object)>, i: int) -> bool {
    &&& 0 <= i < records.len()
    &&& forall|j: int| i < j < records.len() ==> (#[trigger] records[j]).0@ != records[i].0@
}

/// Some latest record before `bound` has path `k`.
pub open spec fn listed_from(records: Seq<(Path, Object)>, k: Seq<Seq<char>>, bound: int) -> bool {
    exists|j: int| 0 <= j < bound && is_latest(records, j) && (#[trigger] records[j]).0@ == k
}

proof fn lemma_latest_found(records: Seq<(Path, Object)>, k: Seq<Seq<char>>)
    requires
        lookup(records, k) is Some,
    ensures
        exists|i: int| is_latest(records, i) && (#[trigger] records[i]).0@ == k,
    decreases records.len(),
{
    if records.last().0@ == k {
        assert(is_latest(records, records.len() - 1));
    } else {
        lemma_latest_found(records.drop_last(), k);
        let i = choose|i: int| is_latest(records.drop_last(), i) && (#[trigger] records.drop_last()[i]).0@ == k;
        assert(records[i] == records.drop_last()[i]);
        assert forall|j: int| i < j < records.len() implies (#[trigger] records[j]).0@ != records[i].0@ by {
            if j < records.len() - 1 {
                assert(records[j] == records.drop_last()[j]);
            }
        }
    }
}

impl MemoryStorage {
    /// An empty storage.
    pub fn new() -> (r: MemoryStorage)
        ensures
            r.objects() == StoreModel::empty(),
    {
        let r = MemoryStorage { records: Vec::new() };
        assert(r.objects() =~= StoreModel::empty());
        r
    }

    /// The index of the latest record for `path`, if any.
    fn find(&self, path: &Path) -> (r: Option<usize>)
        ensures
            match r {
                Some(i) => i < self.records@.len() && self.records@[i as int].0@ == path@
                    && lookup(self.records@, path@) == Some(self.records@[i as int].1@)
                    && is_latest(self.records@, i as int),
                None => lookup(self.records@, path@) is None,
            },
    {
        let mut i: usize = self.records.len();
        assert(self.records@.subrange(0, i as int) =~= self.records@);
        while i > 0
            invariant
                i <= self.records@.len(),
                lookup(self.records@, path@) == lookup(self.records@.subrange(0, i as int), path@),
                forall|j: int| i <= j < self.records@.len() ==> (#[trigger] self.records@[j]).0@ != path@,
            decreases i,
        {
            let ghost prefix = self.records@.subrange(0, i as int);
            assert(prefix.drop_last() =~= self.records@.subrange(0, i - 1));
            if self.records[i - 1].0.same_as(path) {
                return Some(i - 1);
            }
            i = i - 1;
        }
        None
    }
}

/// Whether `key` is `dir` followed by one more segment.
fn is_child_of(key: &Path, dir: &Path) -> (r: bool)
    ensures
        r == (key@.len() == dir@.len() + 1 && key@.subrange(0, dir@.len() as int) == dir@),
{
    if key.0.len() == 0 || key.0.len() - 1 != dir.0.len() {
        return false;
    }
    let mut i: usize = 0;
    while i < dir.0.len()
        invariant
            i <= dir@.len(),
            key@.len() == dir@.len() + 1,
            forall|j: int| 0 <= j < i ==> key@[j] == dir@[j],
        decreases dir.0.len() - i,
    {
        if key.0[i] != dir.0[i] {
            assert(key@.subrange(0, dir@.len() as int)[i as int] != dir@[i as int]);
            return false;
        }
        i = i + 1;
    }
    assert(key@.subrange(0, dir@.len() as int) =~= dir@);
    true
}

impl StorageOperation for MemoryStorage {
    closed spec fn objects(&self) -> StoreModel {
        StoreModel::new(
            |k: Seq<Seq<char>>| lookup(self.records@, k) is Some,
            |k: Seq<Seq<char>>| lookup(self.records@, k)->Some_0,
        )
    }

    fn connect(&self) -> (r: Result<(), StorageError>) {
        Ok(())
    }

    fn object_exists(&self, path: &Path) -> (r: Result<bool, StorageError>) {
        check_path(path)?;
        Ok(self.find(path).is_some())
    }

    fn read_object(&self, path: &Path) -> (r: Result<Object, StorageError>) {
        check_path(path)?;
        match self.find(path) {
            Some(i) => Ok(self.records[i].1.copy()),
            None => Err(StorageError::ObjectNotFound),
        }
    }

    fn write_object(&mut self, path: &Path, obj: &Object) -> (r: Result<(), StorageError>) {
        check_path(path)?;
        if self.find(path).is_some() {
            return Err(StorageError::ObjectAlreadyExists);
        }
        let ghost before = self.records@;
        self.records.push((path.copy(), obj.copy()));
        assert(self.records@.drop_last() =~= before);
        assert(self.objects() =~= old(self).objects().insert(path@, obj@));
        Ok(())
    }

    fn create_dir(&mut self, path: &Path) -> (r: Result<(), StorageError>) {
        check_path(path)?;
        match self.find(path) {
            Some(i) => {
                if self.records[i].1.kind() == ObjectKind::Directory {
                    Ok(())
                } else {
                    Err(StorageError::NotADirectory)
                }
            },
            None => {
                let ghost before = self.records@;
                self.records.push((path.copy(), Object::directory()));
                assert(self.records@.drop_last() =~= before);
                assert(self.objects() =~= old(self).objects().insert(path@, directory_view()));
                Ok(())
            },
        }
    }

    fn read_dir(&self, path: &Path) -> (r: Result<ObjectList, StorageError>) {
        check_path(path)?;
        if path.0.len() > 0 {
            match self.find(path) {
                Some(i) => {
                    if self.records[i].1.kind() != ObjectKind::Directory {
                        return Err(StorageError::ObjectNotFound);
                    }
                },
                None => {
                    return Err(StorageError::ObjectNotFound);
                },
            }
        }
        let ghost m = self.objects();
        let mut entries: Vec<DirEntry> = Vec::new();
        let mut i: usize = 0;
        while i < self.records.len()
            invariant
                i <= self.records@.len(),
                m == self.objects(),
                forall|j: int|
                    0 <= j < entries@.len() ==> {
                        &&& m.contains_key(path@.push(#[trigger] entries@[j].name@))
                        &&& m[path@.push(entries@[j].name@)].kind == entries@[j].kind
                    },
                forall|e: int|
                    0 <= e < entries@.len() ==> listed_from(
                        self.records@,
                        path@.push(#[trigger] entries@[e].name@),
                        i as int,
                    ),
                forall|a: int, b: int|
                    0 <= a < b < entries@.len() ==> #[trigger] entries@[a].name@
                        != #[trigger] entries@[b].name@,
                forall|j: int|
                    0 <= j < i && is_latest(self.records@, j) && (#[trigger] self.records@[j]).0@.len()
                        == path@.len() + 1 && self.records@[j].0@.subrange(0, path@.len() as int)
                        == path@ ==> exists|e: int|
                        0 <= e < entries@.len() && path@.push(#[trigger] entries@[e].name@)
                            == self.records@[j].0@,
            decreases self.records.len() - i,
        {
            let key = &self.records[i].0;
            let ghost listed = entries@;
            let ghost mut added = false;
            proof {
                lemma_lookup_present(self.records@, i as int);
            }
            if is_child_of(key, path) {
                match self.find(key) {
                    Some(k) => {
                        proof {
                            if is_latest(self.records@, i as int) && k != i {
                                if k < i {
                                    assert(self.records@[i as int].0@ == self.records@[k as int].0@);
                                } else {
                                    assert(self.records@[k as int].0@ == self.records@[i as int].0@);
                                }
                            }
                        }
                        if k == i {
                            let last = key.0.len() - 1;
                            let name = key.0[last].clone();
                            assert(path@.push(name@) =~= key@);
                            let entry = DirEntry { name, kind: self.records[k].1.kind() };
                            entries.push(entry);
                            proof {
                                added = true;
                            }
                            assert(entries@[entries@.len() - 1] == entry);
                            assert forall|a: int, b: int|
                                0 <= a < b < entries@.len() implies #[trigger] entries@[a].name@
                                != #[trigger] entries@[b].name@ by {
                                if b == entries@.len() - 1 {
                                    assert(entries@[a] == listed[a]);
                                    if entries@[a].name@ == entries@[b].name@ {
                                        assert(listed_from(self.records@, path@.push(listed[a].name@), i as int));
                                        let j = choose|j: int|
                                            0 <= j < i && is_latest(self.records@, j)
                                                && (#[trigger] self.records@[j]).0@ == path@.push(
                                                listed[a].name@,
                                            );
                                        assert(self.records@[j].0@ == self.records@[i as int].0@);
                                    }
                                } else {
                                    assert(entries@[a] == listed[a] && entries@[b] == listed[b]);
                                }
                            }
                        }
                    },
                    None => {},
                }
            }
            assert(!added ==> entries@ == listed);
            assert(added ==> entries@.len() == listed.len() + 1 && is_latest(self.records@, i as int)
                && path@.push(entries@[listed.len() as int].name@) == self.records@[i as int].0@);
            assert(is_latest(self.records@, i as int) && self.records@[i as int].0@.len() == path@.len()
                + 1 && self.records@[i as int].0@.subrange(0, path@.len() as int) == path@ ==> added);
            assert forall|e: int| 0 <= e < entries@.len() implies listed_from(
                self.records@,
                path@.push(#[trigger] entries@[e].name@),
                i + 1,
            ) by {
                if e < listed.len() {
                    assert(entries@[e] == listed[e]);
                    assert(listed_from(self.records@, path@.push(listed[e].name@), i as int));
                    let j = choose|j: int|
                        0 <= j < i && is_latest(self.records@, j) && (#[trigger] self.records@[j]).0@
                            == path@.push(listed[e].name@);
                    assert(self.records@[j].0@ == path@.push(entries@[e].name@));
                } else {
                    assert(e == listed.len());
                    assert(is_latest(self.records@, i as int) && self.records@[i as int].0@
                        == path@.push(entries@[e].name@));
                }
            }
            assert forall|j: int|
                0 <= j < i + 1 && is_latest(self.records@, j) && (#[trigger] self.records@[j]).0@.len()
                    == path@.len() + 1 && self.records@[j].0@.subrange(0, path@.len() as int)
                    == path@ implies exists|e: int|
                0 <= e < entries@.len() && path@.push(#[trigger] entries@[e].name@)
                    == self.records@[j].0@ by {
                if j < i {
                    let e = choose|e: int| 0 <= e < listed.len() && path@.push(#[trigger] listed[e].name@)
                        == self.records@[j].0@;
                    assert(entries@[e] == listed[e]);
                } else {
                    assert(path@.push(entries@[listed.len() as int].name@) == self.records@[j].0@);
                }
            }
            i = i + 1;
        }
        assert forall|n: Seq<char>| #[trigger] m.contains_key(path@.push(n)) implies exists|e: int|
            0 <= e < entries@.len() && #[trigger] entries@[e].name@ == n by {
            lemma_latest_found(self.records@, path@.push(n));
            let j = choose|j: int| is_latest(self.records@, j) && (#[trigger] self.records@[j]).0@ == path@.push(n);
            assert(self.records@[j].0@.subrange(0, path@.len() as int) =~= path@);
            let e = choose|e: int| 0 <= e < entries@.len() && path@.push(#[trigger] entries@[e].name@) == self.records@[j].0@;
            assert(entries@[e].name@ == path@.push(entries@[e].name@).last());
        }
        Ok(ObjectList::new(entries))
    }
}

} // verus!
