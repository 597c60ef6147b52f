//! The stored configuration as a document of tables: what was read from a
//! text, and what is to be written as one.
//!
//! The text is TOML. It is read and written by the `toml` crate, which is
//! called here; the contracts speak of what it returns by name.

use vstd::prelude::*;

verus! {

/// A value that the configuration stores under a key.
#[derive(Clone, Debug)]
pub enum Scalar {
    Text(String),
    Integer(i64),
}

pub enum ScalarView {
    Text(Seq<char>),
    Integer(i64),
}

impl DeepView for Scalar {
    type V = ScalarView;

    open spec fn deep_view(&self) -> ScalarView {
        match self {
            Scalar::Text(s) => ScalarView::Text(s@),
            Scalar::Integer(i) => ScalarView::Integer(*i),
        }
    }
}

/// What a text holds under a key of a table.
#[derive(Clone, Debug)]
pub enum Field {
    /// A string or an integer.
    Plain(Scalar),
    /// Anything else: a float, a truth value, a date, an array, a table.
    Other,
}

pub enum FieldView {
    Plain(ScalarView),
    Other,
}

impl DeepView for Field {
    type V = FieldView;

    open spec fn deep_view(&self) -> FieldView {
        match self {
            Field::Plain(s) => FieldView::Plain(s.deep_view()),
            Field::Other => FieldView::Other,
        }
    }
}

/// What a text holds under a key of its top level.
#[derive(Clone, Debug)]
pub enum Section {
    /// A table, with its entries in the order of the text.
    Table(Vec<(String, Field)>),
    /// Anything else.
    Other,
}

pub enum SectionView {
    Table(Seq<(Seq<char>, FieldView)>),
    Other,
}

impl DeepView for Section {
    type V = SectionView;

    open spec fn deep_view(&self) -> SectionView {
        match self {
            Section::Table(fields) => SectionView::Table(fields.deep_view()),
            Section::Other => SectionView::Other,
        }
    }
}

/// What was read from a text: its top-level keys, in the order of the text.
pub type Parsed = Vec<(String, Section)>;

pub type ParsedView = Seq<(Seq<char>, SectionView)>;

/// The entries of a table that is to be written.
pub type Table = Vec<(String, Scalar)>;

pub type TableView = Seq<(Seq<char>, ScalarView)>;

/// What is to be written: tables under their names, in the order in which
/// they are to stand.
pub type Document = Vec<(String, Table)>;

pub type DocumentView = Seq<(Seq<char>, TableView)>;

/// What `toml` reads from `text`: `None` where `text` is no TOML document.
pub uninterp spec fn parsed(text: Seq<char>) -> Option<Seq<(Seq<char>, SectionView)>>;

/// The text that `toml` writes for `document`: `None` where it refuses to
/// write it.
pub uninterp spec fn rendered(document: Seq<(Seq<char>, Seq<(Seq<char>, ScalarView)>)>) -> Option<
    Seq<char>,
>;

/// A written document as it is expected to be read again: each table a table,
/// each value plain.
pub open spec fn read_back(document: DocumentView) -> ParsedView {
    document.map_values(
        |table: (Seq<char>, TableView)|
            (
                table.0,
                SectionView::Table(
                    table.1.map_values(
                        |entry: (Seq<char>, ScalarView)| (entry.0, FieldView::Plain(entry.1)),
                    ),
                ),
            ),
    )
}

#[verifier::external_type_specification]
#[verifier::external_body]
pub struct ExReadError(toml::de::Error);

#[verifier::external_type_specification]
#[verifier::external_body]
pub struct ExWriteError(toml::ser::Error);

/// Calls `toml::from_str` for a `toml::value::Table` and copies the table out:
/// a table under a top-level key becomes [`Section::Table`], a string or an
/// integer in it [`Field::Plain`], anything else `Other`. The result is
/// believed to be the one that [`parsed`] names for `text`.
#[verifier::external_body]
pub(crate) fn parse(text: &str) -> (read: Result<Parsed, toml::de::Error>)
    ensures
        match read {
            Ok(sections) => parsed(text@) == Some(sections.deep_view()),
            Err(_) => parsed(text@) is None,
        },
{
    let table: toml::value::Table = toml::from_str(text)?;
    Ok(table.into_iter().map(|(key, value)| (key, match value {
        toml::Value::Table(t) => Section::Table(t.into_iter().map(|(key, value)| (key, match value {
            toml::Value::String(s) => Field::Plain(Scalar::Text(s)),
            toml::Value::Integer(i) => Field::Plain(Scalar::Integer(i)),
            _ => Field::Other,
        })).collect()),
        _ => Section::Other,
    })).collect())
}

/// Copies `document` into a `toml::value::Table` of tables, entry by entry in
/// the order given, and calls `toml::to_string` on it. The result is believed
/// to be the one that [`rendered`] names for `document`.
#[verifier::external_body]
pub(crate) fn render(document: &Document) -> (written: Result<String, toml::ser::Error>)
    ensures
        match written {
            Ok(text) => rendered(document.deep_view()) == Some(text@),
            Err(_) => rendered(document.deep_view()) is None,
        },
{
    let table: toml::value::Table = document.iter().map(|(name, entries)| (name.clone(),
        toml::Value::Table(entries.iter().map(|(key, value)| (key.clone(), match value {
            Scalar::Text(s) => toml::Value::String(s.clone()),
            Scalar::Integer(i) => toml::Value::Integer(*i),
        })).collect()))).collect();
    toml::to_string(&table)
}

} // verus!
