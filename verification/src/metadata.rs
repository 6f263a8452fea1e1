//! The title and authors of the book, from its `book.toml`.

use vstd::prelude::*;
use crate::epub::BookMetadata;
use crate::text::{chars_of, push_str, starts_with, string_of};

verus! {

/// A value of `book.toml` that the metadata reads, as far as it matters.
pub enum TomlEntry {
    /// The key is not there (or `[book]` is not a table).
    Absent,
    /// A string.
    Str(String),
    /// An array; its strings are `Some`, its other values `None`.
    Array(Vec<Option<String>>),
    /// Any other value.
    Other,
}

/// The `book.title` and `book.authors` values of `book.toml`.
pub struct BookToml {
    pub title: TomlEntry,
    pub authors: TomlEntry,
}

/// An entry of `book.toml` by the characters it holds.
pub enum TomlEntrySpec {
    Absent,
    Str(Seq<char>),
    Array(Seq<Option<Seq<char>>>),
    Other,
}

pub open spec fn opt_string_view(o: Option<String>) -> Option<Seq<char>> {
    match o {
        Some(s) => Some(s@),
        None => None,
    }
}

impl View for TomlEntry {
    type V = TomlEntrySpec;

    open spec fn view(&self) -> TomlEntrySpec {
        match self {
            TomlEntry::Absent => TomlEntrySpec::Absent,
            TomlEntry::Str(s) => TomlEntrySpec::Str(s@),
            TomlEntry::Array(items) => TomlEntrySpec::Array(
                items@.map_values(|o: Option<String>| opt_string_view(o)),
            ),
            TomlEntry::Other => TomlEntrySpec::Other,
        }
    }
}

/// The title used when `book.toml` gives none.
pub open spec fn default_title() -> Seq<char> {
    "The Rust Programming Language"@
}

/// The title of the book: `book.title` if it is a string, else the default.
pub open spec fn title_spec(t: TomlEntrySpec) -> Seq<char> {
    match t {
        TomlEntrySpec::Str(s) => s,
        _ => default_title(),
    }
}

/// The strings among the first `n` values of an array, in order.
pub open spec fn strings_of(items: Seq<Option<Seq<char>>>, n: int) -> Seq<Seq<char>>
    decreases n,
{
    if n <= 0 {
        Seq::empty()
    } else {
        let rest = strings_of(items, n - 1);
        match items[n - 1] {
            Some(s) => rest.push(s),
            None => rest,
        }
    }
}

/// The authors of the book: the strings of `book.authors` if it is an
/// array, else none.
pub open spec fn authors_spec(a: TomlEntrySpec) -> Seq<Seq<char>> {
    match a {
        TomlEntrySpec::Array(items) => strings_of(items, items.len() as int),
        _ => Seq::empty(),
    }
}

/// The title and authors that `book.toml` gives.
pub fn book_metadata(toml: &BookToml) -> (m: BookMetadata)
    ensures
        m.title@ == title_spec(toml.title@),
        m.authors@.map_values(|s: String| s@) == authors_spec(toml.authors@),
{
    let title = match &toml.title {
        TomlEntry::Str(s) => s.clone(),
        _ => "The Rust Programming Language".to_owned(),
    };
    let mut authors: Vec<String> = Vec::new();
    match &toml.authors {
        TomlEntry::Array(items) => {
            let ghost iv = items@.map_values(|o: Option<String>| opt_string_view(o));
            let mut i: usize = 0;
            while i < items.len()
                invariant
                    i <= items@.len(),
                    iv == items@.map_values(|o: Option<String>| opt_string_view(o)),
                    authors@.map_values(|s: String| s@) == strings_of(iv, i as int),
                decreases items.len() - i,
            {
                let ghost before = authors@;
                assert(iv[i as int] == opt_string_view(items@[i as int]));
                match &items[i] {
                    Some(s) => {
                        authors.push(s.clone());
                        assert(authors@.map_values(|s: String| s@) =~= before.map_values(
                            |s: String| s@,
                        ).push(s@));
                    },
                    None => {},
                }
                i = i + 1;
            }
        },
        _ => {},
    }
    BookMetadata { title, authors }
}

#[verifier::external_type_specification]
#[verifier::external_body]
pub struct ExTomlError(toml::de::Error);

/// What `book.toml`'s text `raw` holds under `key` of its table `table`:
/// `None` if `raw` is not a TOML document.
pub uninterp spec fn toml_table_entry(raw: Seq<char>, table: Seq<char>, key: Seq<char>) -> Option<TomlEntrySpec>;

/// `str::parse::<toml::Value>` and `Value::get` of `table`, then of `key`:
/// the entry that a TOML document holds there, taken apart by its kind
/// (`Value::String`, `Value::Array` with `Value::as_str` of each item, any
/// other value), or the parse error. The result depends on the three texts
/// alone and is named by `toml_table_entry`; what that is for a given
/// document is not stated.
#[verifier::external_body]
fn parse_toml_entry(raw: &str, table: &str, key: &str) -> (r: Result<TomlEntry, toml::de::Error>)
    ensures
        match r {
            Ok(e) => toml_table_entry(raw@, table@, key@) == Some(e@),
            Err(_) => toml_table_entry(raw@, table@, key@) is None,
        },
{
    let value = raw.parse::<toml::Value>()?;
    Ok(match value.get(table).and_then(|t| t.get(key)) {
        None => TomlEntry::Absent,
        Some(toml::Value::String(s)) => TomlEntry::Str(s.clone()),
        Some(toml::Value::Array(items)) => TomlEntry::Array(items.iter().map(|v| v.as_str().map(str::to_owned)).collect()),
        Some(_) => TomlEntry::Other,
    })
}

/// The message of a TOML error (its `Display` text).
#[verifier::external_body]
fn toml_error_message(e: &toml::de::Error) -> String {
    format!("{e}")
}

/// The start of the message when `book.toml` is not TOML.
pub open spec fn toml_error_prefix(source: Seq<char>) -> Seq<char> {
    "Failed to parse "@ + source + " as TOML: "@
}

/// The error of a document that is not TOML.
fn toml_error(source: &str, e: &toml::de::Error) -> (r: String)
    ensures
        starts_with(r@, toml_error_prefix(source@)),
{
    let mut msg = chars_of("Failed to parse ");
    push_str(&mut msg, source);
    push_str(&mut msg, " as TOML: ");
    let ghost prefix = msg@;
    let m = toml_error_message(e);
    push_str(&mut msg, m.as_str());
    assert(msg@.subrange(0, prefix.len() as int) =~= prefix);
    string_of(&msg)
}

/// Reads the title and authors from the text of `book.toml`; `source` names
/// the file in the message of a document that is not TOML. The title is
/// `book.title` if it is a string (else the default) and the authors are the
/// strings of `book.authors` if it is an array (else none).
pub fn parse_book_metadata(raw: &str, source: &str) -> (r: Result<BookMetadata, String>)
    ensures
        r is Err <==> toml_table_entry(raw@, "book"@, "title"@) is None || toml_table_entry(
            raw@,
            "book"@,
            "authors"@,
        ) is None,
        r matches Err(e) ==> starts_with(e@, toml_error_prefix(source@)),
        r matches Ok(m) ==> m.title@ == title_spec(toml_table_entry(raw@, "book"@, "title"@)->0)
            && m.authors@.map_values(|s: String| s@) == authors_spec(
            toml_table_entry(raw@, "book"@, "authors"@)->0,
        ),
{
    let title = match parse_toml_entry(raw, "book", "title") {
        Ok(t) => t,
        Err(e) => return Err(toml_error(source, &e)),
    };
    let authors = match parse_toml_entry(raw, "book", "authors") {
        Ok(a) => a,
        Err(e) => return Err(toml_error(source, &e)),
    };
    let toml = BookToml { title, authors };
    Ok(book_metadata(&toml))
}

} // verus!
