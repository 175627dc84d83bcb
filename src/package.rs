use vstd::prelude::*;
use vstd::utf8::{decode_utf8, valid_utf8};

use crate::designator::{lemma_strings_view_push, strings_view};

verus! {

/// Whether the text is a TOML document: a function of the text alone.
pub uninterp spec fn toml_parses(text: Seq<char>) -> bool;

/// The string stored under `key` in the table `table` of the TOML document
/// `text`, if there is one: a function of its arguments alone.
pub uninterp spec fn toml_string_at(text: Seq<char>, table: Seq<char>, key: Seq<char>) -> Option<
    Seq<char>,
>;

/// The length of the array stored under `key` in the table `table` of the
/// TOML document `text`, if there is one.
pub uninterp spec fn toml_array_len_at(text: Seq<char>, table: Seq<char>, key: Seq<char>) -> Option<
    nat,
>;

/// Element `i` of the array stored under `key` in the table `table` of the
/// TOML document `text`, if it is a string.
pub uninterp spec fn toml_array_string_at(
    text: Seq<char>,
    table: Seq<char>,
    key: Seq<char>,
    i: nat,
) -> Option<Seq<char>>;

pub open spec fn opt_view(o: Option<String>) -> Option<Seq<char>> {
    match o {
        Some(s) => Some(s@),
        None => None,
    }
}

/// Relies on toml's `FromStr` for `toml::Table`: whether `text` parses as a
/// TOML document.
#[verifier::external_body]
fn is_toml_document(text: &str) -> (r: bool)
    ensures
        r == toml_parses(text@),
{
    text.parse::<toml::Table>().is_ok()
}

/// Relies on toml's `FromStr` for `toml::Table`, `toml::map::Map::get`,
/// `toml::Value::as_table` and `toml::Value::as_str`: the string under `key`
/// in the table `table` of the document `text`. A text that does not parse
/// holds none.
#[verifier::external_body]
fn toml_string(text: &str, table: &str, key: &str) -> (r: Option<String>)
    ensures
        opt_view(r) == toml_string_at(text@, table@, key@),
        !toml_parses(text@) ==> r is None,
{
    let doc = text.parse::<toml::Table>().ok()?;
    let t = doc.get(table)?.as_table()?;
    t.get(key)?.as_str().map(|s| s.to_string())
}

/// Relies on toml's `FromStr` for `toml::Table`, `toml::map::Map::get`,
/// `toml::Value::as_table` and `toml::Value::as_array`: the length of the
/// array under `key` in the table `table` of the document `text`.
#[verifier::external_body]
fn toml_array_len(text: &str, table: &str, key: &str) -> (r: Option<usize>)
    ensures
        match r {
            Some(n) => toml_array_len_at(text@, table@, key@) == Some(n as nat),
            None => toml_array_len_at(text@, table@, key@) is None,
        },
{
    let doc = text.parse::<toml::Table>().ok()?;
    let t = doc.get(table)?.as_table()?;
    t.get(key)?.as_array().map(|a| a.len())
}

/// Relies on toml's `FromStr` for `toml::Table`, `toml::map::Map::get`,
/// `toml::Value::as_table`, `toml::Value::as_array` and `toml::Value::as_str`:
/// element `i` of the array under `key` in the table `table` of the
/// document `text`, if it is a string.
#[verifier::external_body]
fn toml_array_string(text: &str, table: &str, key: &str, i: usize) -> (r: Option<String>)
    ensures
        opt_view(r) == toml_array_string_at(text@, table@, key@, i as nat),
{
    let doc = text.parse::<toml::Table>().ok()?;
    let t = doc.get(table)?.as_table()?;
    t.get(key)?.as_array()?.get(i)?.as_str().map(|s| s.to_string())
}

/// Relies on std::str::from_utf8: it accepts exactly the valid UTF-8 byte
/// sequences, and the text is what they encode.
#[verifier::external_body]
pub(crate) fn utf8_text(bytes: &Vec<u8>) -> (r: Option<String>)
    ensures
        r is Some <==> valid_utf8(bytes@),
        r matches Some(s) ==> s@ == decode_utf8(bytes@),
{
    std::str::from_utf8(bytes.as_slice()).ok().map(|s| s.to_string())
}

/// What is needed to run a package.
#[derive(Debug)]
pub struct PackageConfig {
    /// Path of the entry file, relative to the package's directory.
    pub entrypoint: String,
}

/// Information on a package, for display only; each field is there when the
/// `[metadata]` table holds it with the right type.
#[derive(Debug)]
pub struct PackageMetadata {
    pub name: Option<String>,
    pub version: Option<String>,
    pub description: Option<String>,
    pub authors: Option<Vec<String>>,
    pub licenses: Option<Vec<String>>,
}

/// The contents of a package file: a `[package]` table with its
/// `entrypoint`, and a `[metadata]` table.
#[derive(Debug)]
pub struct Package {
    pub metadata: PackageMetadata,
    pub package: PackageConfig,
}

#[derive(Debug, Clone, Copy, PartialEq, Eq, Structural)]
pub enum PackageFileError {
    /// The text is not a TOML document.
    NotToml,
    /// The `[package]` table or its `entrypoint` string is missing.
    MissingEntrypoint,
}

/// The entry point that a package file names, if any.
pub open spec fn entrypoint_of(text: Seq<char>) -> Option<Seq<char>> {
    toml_string_at(text, "package"@, "entrypoint"@)
}

/// The strings of an array of the document, if it is an array of strings.
pub open spec fn string_array_spec(text: Seq<char>, table: Seq<char>, key: Seq<char>) -> Option<
    Seq<Seq<char>>,
> {
    match toml_array_len_at(text, table, key) {
        None => None,
        Some(n) => if forall|i: nat| i < n ==> #[trigger] toml_array_string_at(text, table, key, i) is Some {
            Some(Seq::new(n, |i: int| toml_array_string_at(text, table, key, i as nat)->Some_0))
        } else {
            None
        },
    }
}

pub open spec fn opt_strings_view(o: Option<Vec<String>>) -> Option<Seq<Seq<char>>> {
    match o {
        Some(v) => Some(strings_view(v@)),
        None => None,
    }
}

/// The strings of the array under `key` in `table`, if it is an array of strings.
fn string_array(text: &str, table: &str, key: &str) -> (r: Option<Vec<String>>)
    ensures
        opt_strings_view(r) == string_array_spec(text@, table@, key@),
{
    let n = match toml_array_len(text, table, key) {
        Some(n) => n,
        None => {
            return None;
        },
    };
    let mut out: Vec<String> = Vec::new();
    let mut i: usize = 0;
    while i < n
        invariant
            i <= n,
            toml_array_len_at(text@, table@, key@) == Some(n as nat),
            forall|j: nat| j < i ==> #[trigger] toml_array_string_at(text@, table@, key@, j) is Some,
            strings_view(out@) =~= Seq::new(
                i as nat,
                |j: int| toml_array_string_at(text@, table@, key@, j as nat)->Some_0,
            ),
        decreases n - i,
    {
        match toml_array_string(text, table, key, i) {
            Some(s) => {
                let ghost before = out@;
                out.push(s);
                proof {
                    lemma_strings_view_push(before, s);
                }
            },
            None => {
                assert(!(forall|j: nat| j < n ==> #[trigger] toml_array_string_at(text@, table@, key@, j) is Some));
                return None;
            },
        }
        i = i + 1;
        assert(strings_view(out@) =~= Seq::new(
            i as nat,
            |j: int| toml_array_string_at(text@, table@, key@, j as nat)->Some_0,
        ));
    }
    Some(out)
}

impl Package {
    /// Reads a package file: its `[package]` table must hold the string
    /// `entrypoint`; the fields of its `[metadata]` table are taken where
    /// they are present.
    pub fn from_text(text: &str) -> (r: Result<Package, PackageFileError>)
        ensures
            !toml_parses(text@) ==> r == Err::<Package, PackageFileError>(PackageFileError::NotToml),
            toml_parses(text@) && entrypoint_of(text@) is None ==> r == Err::<
                Package,
                PackageFileError,
            >(PackageFileError::MissingEntrypoint),
            toml_parses(text@) && entrypoint_of(text@) is Some ==> r is Ok,
            r matches Ok(p) ==> {
                &&& entrypoint_of(text@) == Some(p.package.entrypoint@)
                &&& opt_view(p.metadata.name) == toml_string_at(text@, "metadata"@, "name"@)
                &&& opt_view(p.metadata.version) == toml_string_at(text@, "metadata"@, "version"@)
                &&& opt_view(p.metadata.description) == toml_string_at(
                    text@,
                    "metadata"@,
                    "description"@,
                )
                &&& opt_strings_view(p.metadata.authors) == string_array_spec(
                    text@,
                    "metadata"@,
                    "authors"@,
                )
                &&& opt_strings_view(p.metadata.licenses) == string_array_spec(
                    text@,
                    "metadata"@,
                    "licenses"@,
                )
            },
    {
        if !is_toml_document(text) {
            return Err(PackageFileError::NotToml);
        }
        let entrypoint = match toml_string(text, "package", "entrypoint") {
            Some(e) => e,
            None => {
                return Err(PackageFileError::MissingEntrypoint);
            },
        };
        let metadata = PackageMetadata {
            name: toml_string(text, "metadata", "name"),
            version: toml_string(text, "metadata", "version"),
            description: toml_string(text, "metadata", "description"),
            authors: string_array(text, "metadata", "authors"),
            licenses: string_array(text, "metadata", "licenses"),
        };
        Ok(Package { metadata, package: PackageConfig { entrypoint } })
    }
}

} // verus!
