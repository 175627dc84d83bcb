use vstd::prelude::*;

use crate::archive::{segments_of, segments_spec};
use crate::storage::{read_error, Path, StorageOperation};

verus! {

/// Directory, under the storage root, that holds named packages.
pub const PACKAGE_DIR: &'static str = "mmm";

/// Directory, under the storage root, that holds packages fetched from remote hosts.
pub const GIT_DIR: &'static str = "git";

/// Name of the package description file at the top of every package.
pub const PACKAGE_FILE: &'static str = "mmm.toml";

/// Separator between the host token and the host-specific path.
pub const HOST_SEPARATOR: char = ':';

/// Separator between path segments.
pub const PATH_SEPARATOR: char = '/';

/// A reference to a package, as typed by a user and as resolved later.
#[derive(Debug, Clone)]
pub enum PackageDesignator {
    /// A package in the local named-packages area.
    Named(String),
    /// A package fetched from a remote host, e.g. `github.com` and `user/repo`.
    Remote { host: String, path: String },
    /// A package referenced directly by a filesystem path.
    LocalPath(String),
    /// A designator whose type has not been determined yet.
    Undetermined(String),
}

/// The mathematical value of a designator.
pub enum DesignatorView {
    Named(Seq<char>),
    Remote { host: Seq<char>, path: Seq<char> },
    LocalPath(Seq<char>),
    Undetermined(Seq<char>),
}

impl View for PackageDesignator {
    type V = DesignatorView;

    open spec fn view(&self) -> DesignatorView {
        match self {
            PackageDesignator::Named(n) => DesignatorView::Named(n@),
            PackageDesignator::Remote { host, path } => DesignatorView::Remote {
                host: host@,
                path: path@,
            },
            PackageDesignator::LocalPath(p) => DesignatorView::LocalPath(p@),
            PackageDesignator::Undetermined(r) => DesignatorView::Undetermined(r@),
        }
    }
}

#[derive(Debug, Clone, Copy, PartialEq, Eq, Structural)]
pub enum DesignatorError {
    /// The text around the host separator does not split into `host:owner/name`.
    MalformedDesignator,
    /// No package type matches, or the designator has no type yet.
    CannotDetermineType,
}

/// Index of the first occurrence of `c` in `s`, or -1.
pub open spec fn index_of(s: Seq<char>, c: char) -> int
    decreases s.len(),
{
    if s.len() == 0 {
        -1
    } else if s[0] == c {
        0
    } else {
        let k = index_of(s.drop_first(), c);
        if k < 0 {
            -1
        } else {
            k + 1
        }
    }
}

pub open spec fn contains_char(s: Seq<char>, c: char) -> bool {
    exists|i: int| 0 <= i < s.len() && s[i] == c
}

/// `owner/name`: exactly two non-empty segments around the path separator.
pub open spec fn is_owner_and_name(p: Seq<char>) -> bool {
    let k = index_of(p, PATH_SEPARATOR);
    &&& 0 < k < p.len() - 1
    &&& !contains_char(p.subrange(k + 1, p.len() as int), PATH_SEPARATOR)
}

/// What `PackageDesignator::from_str` makes of a raw designator string.
pub open spec fn parse_spec(raw: Seq<char>) -> Result<DesignatorView, DesignatorError> {
    let k = index_of(raw, HOST_SEPARATOR);
    if k < 0 {
        Ok(DesignatorView::Undetermined(raw))
    } else {
        let host = raw.subrange(0, k);
        let path = raw.subrange(k + 1, raw.len() as int);
        if host.len() > 0 && is_owner_and_name(path) {
            Ok(DesignatorView::Remote { host, path })
        } else {
            Err(DesignatorError::MalformedDesignator)
        }
    }
}

pub proof fn lemma_index_of(s: Seq<char>, c: char)
    ensures
        -1 <= index_of(s, c) < s.len(),
        index_of(s, c) >= 0 ==> s[index_of(s, c)] == c,
        forall|j: int| 0 <= j < s.len() && (index_of(s, c) < 0 || j < index_of(s, c)) ==> s[j] != c,
        index_of(s, c) < 0 <==> !contains_char(s, c),
    decreases s.len(),
{
    if s.len() > 0 {
        lemma_index_of(s.drop_first(), c);
        if s[0] != c {
            assert forall|j: int| 0 < j < s.len() && (index_of(s, c) < 0 || j < index_of(s, c)) implies s[j] != c by {
                assert(s[j] == s.drop_first()[j - 1]);
            }
            if contains_char(s, c) {
                let i = choose|i: int| 0 <= i < s.len() && s[i] == c;
                assert(s.drop_first()[i - 1] == c);
            }
            if index_of(s.drop_first(), c) >= 0 {
                assert(s[index_of(s, c)] == s.drop_first()[index_of(s.drop_first(), c)]);
            }
        }
    }
}

/// The index of the first `c` in `s`, or `s@.len()` where there is none.
pub(crate) fn find_char(s: &str, c: char) -> (r: usize)
    ensures
        r <= s@.len(),
        r < s@.len() ==> r == index_of(s@, c),
        r == s@.len() ==> index_of(s@, c) < 0,
{
    proof {
        lemma_index_of(s@, c);
    }
    let n = s.unicode_len();
    let mut i: usize = 0;
    while i < n
        invariant
            n == s@.len(),
            i <= n,
            forall|j: int| 0 <= j < i ==> s@[j] != c,
        decreases n - i,
    {
        if s.get_char(i) == c {
            proof {
                lemma_index_of(s@, c);
            }
            return i;
        }
        i = i + 1;
    }
    i
}


/// `s` without its trailing path separators.
pub open spec fn trim_trailing(s: Seq<char>) -> Seq<char>
    decreases s.len(),
{
    if s.len() > 0 && s.last() == PATH_SEPARATOR {
        trim_trailing(s.drop_last())
    } else {
        s
    }
}

/// The characters after the last path separator of `s`.
pub open spec fn last_segment(s: Seq<char>) -> Seq<char>
    decreases s.len(),
{
    if s.len() == 0 || s.last() == PATH_SEPARATOR {
        Seq::empty()
    } else {
        last_segment(s.drop_last()).push(s.last())
    }
}

/// The leaf name of a path: its last segment, trailing separators ignored.
pub open spec fn leaf_name(s: Seq<char>) -> Seq<char> {
    last_segment(trim_trailing(s))
}

pub open spec fn sep() -> Seq<char> {
    seq![PATH_SEPARATOR]
}

/// The name of a designator, used as the leaf directory of its storage path.
pub open spec fn name_spec(d: DesignatorView) -> Seq<char> {
    match d {
        DesignatorView::Named(n) => n,
        DesignatorView::Remote { host: _, path } => leaf_name(path),
        DesignatorView::LocalPath(p) => leaf_name(p),
        DesignatorView::Undetermined(r) => r,
    }
}

/// The storage path of a designator, relative to the storage root.
pub open spec fn path_spec(d: DesignatorView) -> Result<Seq<char>, DesignatorError> {
    match d {
        DesignatorView::Named(n) => Ok(PACKAGE_DIR@ + sep() + n),
        DesignatorView::Remote { host, path } => Ok(
            GIT_DIR@ + sep() + host + sep() + leaf_name(path),
        ),
        DesignatorView::LocalPath(p) => Ok(p),
        DesignatorView::Undetermined(_) => Err(DesignatorError::CannotDetermineType),
    }
}

/// The path of a designator's package file, relative to the storage root.
pub open spec fn package_file_path_spec(d: DesignatorView) -> Result<Seq<char>, DesignatorError> {
    match path_spec(d) {
        Ok(p) => Ok(p + sep() + PACKAGE_FILE@),
        Err(e) => Err(e),
    }
}

/// The URL of a remote package.
pub open spec fn remote_url_spec(d: DesignatorView) -> Option<Seq<char>> {
    match d {
        DesignatorView::Remote { host, path } => Some("https://"@ + host + sep() + path),
        _ => None,
    }
}

pub open spec fn view_result(r: Result<PackageDesignator, DesignatorError>) -> Result<
    DesignatorView,
    DesignatorError,
> {
    match r {
        Ok(d) => Ok(d@),
        Err(e) => Err(e),
    }
}

pub open spec fn string_result<E>(r: Result<String, E>) -> Result<Seq<char>, E> {
    match r {
        Ok(s) => Ok(s@),
        Err(e) => Err(e),
    }
}

pub proof fn lemma_last_segment_has_no_separator(s: Seq<char>)
    ensures
        !contains_char(last_segment(s), PATH_SEPARATOR),
    decreases s.len(),
{
    if s.len() > 0 && s.last() != PATH_SEPARATOR {
        lemma_last_segment_has_no_separator(s.drop_last());
        let t = last_segment(s.drop_last());
        assert forall|i: int| 0 <= i < t.len() + 1 implies t.push(s.last())[i] != PATH_SEPARATOR by {
            if i < t.len() {
                assert(t.push(s.last())[i] == t[i]);
            }
        }
    }
}

/// The leaf name of `s`.
fn leaf_of(s: &str) -> (r: String)
    ensures
        r@ == leaf_name(s@),
{
    let n = s.unicode_len();
    let mut e: usize = n;
    assert(s@.subrange(0, n as int) =~= s@);
    while e > 0 && s.get_char(e - 1) == PATH_SEPARATOR
        invariant
            n == s@.len(),
            e <= n,
            trim_trailing(s@.subrange(0, e as int)) == trim_trailing(s@),
        decreases e,
    {
        assert(s@.subrange(0, e as int).drop_last() =~= s@.subrange(0, e - 1));
        e = e - 1;
    }
    assert(trim_trailing(s@) == s@.subrange(0, e as int));
    let mut b: usize = e;
    assert(s@.subrange(b as int, e as int) =~= Seq::<char>::empty());
    assert(last_segment(s@.subrange(0, e as int)) =~= last_segment(s@.subrange(0, b as int))
        + s@.subrange(b as int, e as int));
    while b > 0 && s.get_char(b - 1) != PATH_SEPARATOR
        invariant
            n == s@.len(),
            b <= e <= n,
            last_segment(s@.subrange(0, e as int)) == last_segment(s@.subrange(0, b as int))
                + s@.subrange(b as int, e as int),
        decreases b,
    {
        let ghost t = s@.subrange(0, b as int);
        assert(t.drop_last() =~= s@.subrange(0, b - 1));
        assert(last_segment(t) == last_segment(s@.subrange(0, b - 1)).push(t.last()));
        assert(last_segment(s@.subrange(0, b - 1)).push(t.last()) + s@.subrange(b as int, e as int)
            =~= last_segment(s@.subrange(0, b - 1)) + s@.subrange(b - 1, e as int));
        b = b - 1;
    }
    assert(last_segment(s@.subrange(0, b as int)) =~= Seq::<char>::empty());
    assert(last_segment(s@.subrange(0, e as int)) =~= s@.subrange(b as int, e as int));
    String::from_str(s.substring_char(b, e))
}

/// Whether `p` reads `owner/name` with both parts non-empty and one separator.
fn is_owner_and_name_exec(p: &str) -> (r: bool)
    ensures
        r == is_owner_and_name(p@),
{
    let n = p.unicode_len();
    let k = find_char(p, PATH_SEPARATOR);
    if k == 0 || k >= n - 1 {
        proof {
            lemma_index_of(p@, PATH_SEPARATOR);
        }
        return false;
    }
    let rest = p.substring_char(k + 1, n);
    let j = find_char(rest, PATH_SEPARATOR);
    proof {
        lemma_index_of(rest@, PATH_SEPARATOR);
    }
    j == rest.unicode_len()
}

/// The two parts of `owner/name`, where `p` is of that form.
pub fn split_owner_and_name(p: &str) -> (r: Option<(String, String)>)
    ensures
        r is Some <==> is_owner_and_name(p@),
        r matches Some((owner, name)) ==> owner@ == p@.subrange(0, index_of(p@, PATH_SEPARATOR))
            && name@ == p@.subrange(index_of(p@, PATH_SEPARATOR) + 1, p@.len() as int),
{
    if !is_owner_and_name_exec(p) {
        return None;
    }
    let n = p.unicode_len();
    let k = find_char(p, PATH_SEPARATOR);
    Some((String::from_str(p.substring_char(0, k)), String::from_str(p.substring_char(k + 1, n))))
}

impl PackageDesignator {
    /// Parses a raw designator: `host:owner/name` is a remote package, text
    /// without a host separator is left undetermined, anything else is malformed.
    pub fn from_str(s: String) -> (r: Result<PackageDesignator, DesignatorError>)
        ensures
            view_result(r) == parse_spec(s@),
    {
        let n = s.as_str().unicode_len();
        let k = find_char(s.as_str(), HOST_SEPARATOR);
        if k == n {
            return Ok(PackageDesignator::Undetermined(s));
        }
        let host = s.as_str().substring_char(0, k);
        let path = s.as_str().substring_char(k + 1, n);
        if host.unicode_len() > 0 && is_owner_and_name_exec(path) {
            Ok(PackageDesignator::Remote { host: String::from_str(host), path: String::from_str(path) })
        } else {
            Err(DesignatorError::MalformedDesignator)
        }
    }

    /// The package's name: the leaf of its path for remote and local packages.
    pub fn name(&self) -> (r: String)
        ensures
            r@ == name_spec(self@),
    {
        match self {
            PackageDesignator::Named(n) => n.clone(),
            PackageDesignator::Remote { host: _, path } => leaf_of(path.as_str()),
            PackageDesignator::LocalPath(p) => leaf_of(p.as_str()),
            PackageDesignator::Undetermined(r) => r.clone(),
        }
    }

    /// The storage path, relative to the storage root; an undetermined
    /// designator has none.
    pub fn path(&self) -> (r: Result<String, DesignatorError>)
        ensures
            string_result(r) == path_spec(self@),
    {
        proof {
            reveal_strlit("/");
            assert("/"@ =~= sep());
        }
        match self {
            PackageDesignator::Named(n) => {
                let mut r = String::from_str(PACKAGE_DIR);
                r.append("/");
                r.append(n.as_str());
                Ok(r)
            },
            PackageDesignator::Remote { host, path } => {
                let leaf = leaf_of(path.as_str());
                let mut r = String::from_str(GIT_DIR);
                r.append("/");
                r.append(host.as_str());
                r.append("/");
                r.append(leaf.as_str());
                Ok(r)
            },
            PackageDesignator::LocalPath(p) => Ok(p.clone()),
            PackageDesignator::Undetermined(_) => Err(DesignatorError::CannotDetermineType),
        }
    }

    /// The path of the package file, relative to the storage root.
    pub fn package_file_path(&self) -> (r: Result<String, DesignatorError>)
        ensures
            string_result(r) == package_file_path_spec(self@),
    {
        proof {
            reveal_strlit("/");
            assert("/"@ =~= sep());
        }
        match self.path() {
            Ok(p) => {
                let mut r = p;
                r.append("/");
                r.append(PACKAGE_FILE);
                Ok(r)
            },
            Err(e) => Err(e),
        }
    }

    /// The URL of a remote package; other designators have none.
    pub fn remote_url(&self) -> (r: Option<String>)
        ensures
            match r {
                Some(u) => remote_url_spec(self@) == Some(u@),
                None => remote_url_spec(self@) is None,
            },
    {
        proof {
            reveal_strlit("/");
            assert("/"@ =~= sep());
        }
        match self {
            PackageDesignator::Remote { host, path } => {
                let mut r = String::from_str("https://");
                r.append(host.as_str());
                r.append("/");
                r.append(path.as_str());
                Some(r)
            },
            _ => None,
        }
    }
}


/// The packages found under one host directory of the remote-packages area.
#[derive(Debug, Clone)]
pub struct HostDirectory {
    /// The host token, which is the directory's name.
    pub host: String,
    /// Names of the package directories under it, in listing order.
    pub packages: Vec<String>,
}

pub open spec fn strings_view(v: Seq<String>) -> Seq<Seq<char>> {
    v.map_values(|s: String| s@)
}

pub proof fn lemma_strings_view_push(v: Seq<String>, s: String)
    ensures
        strings_view(v.push(s)) == strings_view(v).push(s@),
{
    assert forall|j: int| 0 <= j < v.len() + 1 implies strings_view(v.push(s))[j] == strings_view(
        v,
    ).push(s@)[j] by {
        if j < v.len() {
            assert(v.push(s)[j] == v[j]);
        }
    }
    assert(strings_view(v.push(s)) =~= strings_view(v).push(s@));
}

/// Index of the first host directory, from `i` on, that holds `raw`; or -1.
pub open spec fn first_host_from(hosts: Seq<HostDirectory>, raw: Seq<char>, i: int) -> int
    decreases hosts.len() - i,
{
    if i < 0 || i >= hosts.len() {
        -1
    } else if strings_view(hosts[i].packages@).contains(raw) {
        i
    } else {
        first_host_from(hosts, raw, i + 1)
    }
}

/// What `determine` resolves a designator to, given the package directories
/// of the named area and of each host directory of the remote area.
pub open spec fn determine_spec(
    d: DesignatorView,
    named: Seq<Seq<char>>,
    hosts: Seq<HostDirectory>,
) -> Result<DesignatorView, DesignatorError> {
    match d {
        DesignatorView::Undetermined(raw) => {
            if named.contains(raw) {
                Ok(DesignatorView::Named(raw))
            } else {
                let k = first_host_from(hosts, raw, 0);
                if k >= 0 {
                    Ok(DesignatorView::Remote { host: hosts[k].host@, path: raw })
                } else {
                    Err(DesignatorError::CannotDetermineType)
                }
            }
        },
        _ => Ok(d),
    }
}

/// Whether `s` is among `v`.
fn contains_string(v: &Vec<String>, s: &String) -> (r: bool)
    ensures
        r == strings_view(v@).contains(s@),
{
    let mut i: usize = 0;
    while i < v.len()
        invariant
            i <= v@.len(),
            forall|j: int| 0 <= j < i ==> v@[j]@ != s@,
        decreases v.len() - i,
    {
        if v[i] == *s {
            assert(strings_view(v@)[i as int] == s@);
            return true;
        }
        i = i + 1;
    }
    assert forall|j: int| 0 <= j < strings_view(v@).len() implies strings_view(v@)[j] != s@ by {
        assert(strings_view(v@)[j] == v@[j]@);
    }
    false
}

impl PackageDesignator {
    /// Whether the designator's type is still to be determined.
    pub fn is_undetermined(&self) -> (r: bool)
        ensures
            r == (self@ is Undetermined),
    {
        match self {
            PackageDesignator::Undetermined(_) => true,
            _ => false,
        }
    }

    /// A copy of this designator.
    pub fn copy(&self) -> (r: PackageDesignator)
        ensures
            r@ == self@,
    {
        match self {
            PackageDesignator::Named(n) => PackageDesignator::Named(n.clone()),
            PackageDesignator::Remote { host, path } => PackageDesignator::Remote {
                host: host.clone(),
                path: path.clone(),
            },
            PackageDesignator::LocalPath(p) => PackageDesignator::LocalPath(p.clone()),
            PackageDesignator::Undetermined(r) => PackageDesignator::Undetermined(r.clone()),
        }
    }

    /// Resolves an undetermined designator: a directory of that name in the
    /// named-packages area makes it `Named`; otherwise the first host directory,
    /// in the order given, that holds a directory of that name makes it `Remote`.
    /// Other designators are returned as they are.
    pub fn determine(&self, named: &Vec<String>, hosts: &Vec<HostDirectory>) -> (r: Result<
        PackageDesignator,
        DesignatorError,
    >)
        ensures
            view_result(r) == determine_spec(self@, strings_view(named@), hosts@),
    {
        match self {
            PackageDesignator::Undetermined(raw) => {
                if contains_string(named, raw) {
                    return Ok(PackageDesignator::Named(raw.clone()));
                }
                let mut i: usize = 0;
                while i < hosts.len()
                    invariant
                        i <= hosts@.len(),
                        self@ == DesignatorView::Undetermined(raw@),
                        !strings_view(named@).contains(raw@),
                        first_host_from(hosts@, raw@, 0) == first_host_from(hosts@, raw@, i as int),
                    decreases hosts.len() - i,
                {
                    if contains_string(&hosts[i].packages, raw) {
                        assert(first_host_from(hosts@, raw@, i as int) == i);
                        return Ok(
                            PackageDesignator::Remote { host: hosts[i].host.clone(), path: raw.clone() },
                        );
                    }
                    i = i + 1;
                }
                Err(DesignatorError::CannotDetermineType)
            },
            _ => Ok(self.copy()),
        }
    }
}

/// A string with exactly one non-empty segment on each side of the host
/// separator and of the path separator parses to the remote designator made
/// of the text before and after the host separator.
pub proof fn lemma_parse_remote(host: Seq<char>, owner: Seq<char>, name: Seq<char>)
    requires
        host.len() > 0,
        owner.len() > 0,
        name.len() > 0,
        !contains_char(host, HOST_SEPARATOR),
        !contains_char(owner, PATH_SEPARATOR),
        !contains_char(name, PATH_SEPARATOR),
    ensures
        parse_spec(host + seq![HOST_SEPARATOR] + owner + sep() + name) == Ok::<
            DesignatorView,
            DesignatorError,
        >(DesignatorView::Remote { host, path: owner + sep() + name }),
{
    let path = owner + sep() + name;
    let raw = host + seq![HOST_SEPARATOR] + path;
    assert(raw =~= host + seq![HOST_SEPARATOR] + owner + sep() + name);
    lemma_index_of(raw, HOST_SEPARATOR);
    let k = index_of(raw, HOST_SEPARATOR);
    assert(raw[host.len() as int] == HOST_SEPARATOR);
    if 0 <= k < host.len() {
        assert(raw[k] == host[k]);
    }
    assert(k == host.len());
    assert(raw.subrange(0, k) =~= host);
    assert(raw.subrange(k + 1, raw.len() as int) =~= path);
    lemma_index_of(path, PATH_SEPARATOR);
    let j = index_of(path, PATH_SEPARATOR);
    assert(path[owner.len() as int] == PATH_SEPARATOR);
    if 0 <= j < owner.len() {
        assert(path[j] == owner[j]);
    }
    assert(j == owner.len());
    assert(path.subrange(j + 1, path.len() as int) =~= name);
}

/// Every string that holds the host separator and parses is of the form
/// `host:owner/name`, with each of the three parts non-empty.
pub proof fn lemma_parse_remote_form(raw: Seq<char>)
    requires
        contains_char(raw, HOST_SEPARATOR),
        parse_spec(raw) is Ok,
    ensures
        exists|host: Seq<char>, owner: Seq<char>, name: Seq<char>|
            {
                &&& host.len() > 0 && owner.len() > 0 && name.len() > 0
                &&& !contains_char(host, HOST_SEPARATOR)
                &&& !contains_char(owner, PATH_SEPARATOR)
                &&& !contains_char(name, PATH_SEPARATOR)
                &&& raw == host + seq![HOST_SEPARATOR] + owner + sep() + name
            },
{
    lemma_index_of(raw, HOST_SEPARATOR);
    let k = index_of(raw, HOST_SEPARATOR);
    let host = raw.subrange(0, k);
    let path = raw.subrange(k + 1, raw.len() as int);
    lemma_index_of(path, PATH_SEPARATOR);
    let j = index_of(path, PATH_SEPARATOR);
    let owner = path.subrange(0, j);
    let name = path.subrange(j + 1, path.len() as int);
    assert(!contains_char(host, HOST_SEPARATOR)) by {
        assert forall|i: int| 0 <= i < host.len() implies host[i] != HOST_SEPARATOR by {
            assert(host[i] == raw[i]);
        }
    }
    assert(!contains_char(owner, PATH_SEPARATOR)) by {
        assert forall|i: int| 0 <= i < owner.len() implies owner[i] != PATH_SEPARATOR by {
            assert(owner[i] == path[i]);
        }
    }
    assert(raw =~= host + seq![HOST_SEPARATOR] + owner + sep() + name);
}

/// A string without the host separator parses to an undetermined designator
/// holding it unchanged.
pub proof fn lemma_parse_undetermined(raw: Seq<char>)
    requires
        !contains_char(raw, HOST_SEPARATOR),
    ensures
        parse_spec(raw) == Ok::<DesignatorView, DesignatorError>(DesignatorView::Undetermined(raw)),
{
    lemma_index_of(raw, HOST_SEPARATOR);
}

/// `determine` leaves every determined designator unchanged, and resolving a
/// second time changes nothing: `determine(determine(d)) == determine(d)`.
pub proof fn lemma_determine_idempotent(
    d: DesignatorView,
    named: Seq<Seq<char>>,
    hosts: Seq<HostDirectory>,
)
    ensures
        !(d is Undetermined) ==> determine_spec(d, named, hosts) == Ok::<
            DesignatorView,
            DesignatorError,
        >(d),
        determine_spec(d, named, hosts) is Ok ==> determine_spec(
            determine_spec(d, named, hosts)->Ok_0,
            named,
            hosts,
        ) == determine_spec(d, named, hosts),
{
}

/// Two remote designators whose host tokens or leaf names differ have
/// different storage paths.
pub proof fn lemma_remote_path_injective(
    host1: Seq<char>,
    path1: Seq<char>,
    host2: Seq<char>,
    path2: Seq<char>,
)
    requires
        host1 != host2 || leaf_name(path1) != leaf_name(path2),
    ensures
        path_spec(DesignatorView::Remote { host: host1, path: path1 }) != path_spec(
            DesignatorView::Remote { host: host2, path: path2 },
        ),
{
    let l1 = leaf_name(path1);
    let l2 = leaf_name(path2);
    let a = GIT_DIR@ + sep() + host1 + sep();
    let b = GIT_DIR@ + sep() + host2 + sep();
    let x = a + l1;
    let y = b + l2;
    lemma_last_segment_has_no_separator(trim_trailing(path1));
    lemma_last_segment_has_no_separator(trim_trailing(path2));
    if x == y {
        assert(a.last() == PATH_SEPARATOR);
        assert(b.last() == PATH_SEPARATOR);
        if l1.len() < l2.len() {
            let i = x.len() - l1.len() - 1;
            assert(x[i] == a[a.len() - 1]);
            assert(y[i] == l2[i - b.len()]);
        } else if l2.len() < l1.len() {
            let i = y.len() - l2.len() - 1;
            assert(y[i] == b[b.len() - 1]);
            assert(x[i] == l1[i - a.len()]);
        } else {
            assert(l1 =~= x.subrange(a.len() as int, x.len() as int));
            assert(l2 =~= y.subrange(b.len() as int, y.len() as int));
            assert(host1 =~= x.subrange(GIT_DIR@.len() + 1 as int, a.len() - 1));
            assert(host2 =~= y.subrange(GIT_DIR@.len() + 1 as int, b.len() - 1));
        }
    }
}


/// Whether a path starts at the filesystem root rather than at the storage root.
pub open spec fn is_absolute(p: Seq<char>) -> bool {
    p.len() > 0 && p[0] == PATH_SEPARATOR
}

/// Where a package lives in the storage, segment by segment. A relative
/// local path is taken from the storage root; an absolute one lies outside
/// the storage, and an undetermined designator has no place there.
pub open spec fn location_spec(d: DesignatorView) -> Option<Seq<Seq<char>>> {
    match d {
        DesignatorView::Named(n) => Some(seq![PACKAGE_DIR@, n]),
        DesignatorView::Remote { host, path } => Some(seq![GIT_DIR@, host, leaf_name(path)]),
        DesignatorView::LocalPath(p) => if is_absolute(p) {
            None
        } else {
            Some(segments_spec(p))
        },
        DesignatorView::Undetermined(_) => None,
    }
}

impl PackageDesignator {
    /// The package's directory in the storage, as a path of segments.
    pub fn storage_location(&self) -> (r: Option<Path>)
        ensures
            match r {
                Some(p) => location_spec(self@) == Some(p@),
                None => location_spec(self@) is None,
            },
    {
        match self {
            PackageDesignator::Named(n) => {
                let mut segments: Vec<String> = Vec::new();
                segments.push(String::from_str(PACKAGE_DIR));
                segments.push(n.clone());
                let r = Path(segments);
                assert(r@ =~= seq![PACKAGE_DIR@, n@]);
                Some(r)
            },
            PackageDesignator::Remote { host, path } => {
                let mut segments: Vec<String> = Vec::new();
                segments.push(String::from_str(GIT_DIR));
                segments.push(host.clone());
                segments.push(leaf_of(path.as_str()));
                let r = Path(segments);
                assert(r@ =~= seq![GIT_DIR@, host@, leaf_name(path@)]);
                Some(r)
            },
            PackageDesignator::LocalPath(p) => {
                if p.as_str().unicode_len() > 0 && p.as_str().get_char(0) == PATH_SEPARATOR {
                    None
                } else {
                    Some(segments_of(p.as_str()))
                }
            },
            PackageDesignator::Undetermined(_) => None,
        }
    }

    /// Whether the package file can be read from the storage at the
    /// package's location; any failure to read it counts as absent. Whether
    /// a stored file can be read is up to the storage.
    pub fn package_exists<S: StorageOperation>(&self, storage: &S) -> (r: bool)
        ensures
            r ==> (location_spec(self@) matches Some(loc) && storage.objects().contains_key(
                loc.push(PACKAGE_FILE@),
            )),
            location_spec(self@) is None ==> !r,
            location_spec(self@) matches Some(loc) && read_error(
                storage.objects(),
                loc.push(PACKAGE_FILE@),
            ) is Some ==> !r,
    {
        match self.storage_location() {
            Some(loc) => {
                let file = loc.join(PACKAGE_FILE);
                storage.read_object(&file).is_ok()
            },
            None => false,
        }
    }
}

} // verus!
