//! A TOML document edited in place with `toml_edit`, with the text it was read from and
//! the edits made since, so that what it prints can be named.
use vstd::prelude::*;

use toml_edit::{DocumentMut, Formatted, Item, Value};

use crate::text::{chars_of, string_of};

verus! {

#[verifier::external_type_specification]
#[verifier::external_body]
pub struct ExDocumentMut(DocumentMut);

/// A dependency's value in a TOML document, as far as an update reads it.
pub enum EntryView {
    /// A string.
    Text(Seq<char>),
    /// An inline table, with the string under its `version` key if there is one.
    Inline(Option<Seq<char>>),
    /// Anything else.
    Other,
}

/// An edit of entry `name` of table `section`.
#[derive(Debug)]
pub enum Edit {
    /// The string becomes `value`.
    Text { section: String, name: String, value: String },
    /// Key `version` of the inline table becomes the string `version`.
    Version { section: String, name: String, version: String },
}

/// An edit as plain values: table, entry, new text, and whether it is a string (or else
/// an inline table's `version`).
pub open spec fn edit_view(e: Edit) -> (Seq<char>, Seq<char>, Seq<char>, bool) {
    match e {
        Edit::Text { section, name, value } => (section@, name@, value@, true),
        Edit::Version { section, name, version } => (section@, name@, version@, false),
    }
}

pub open spec fn edit_views(es: Seq<Edit>) -> Seq<(Seq<char>, Seq<char>, Seq<char>, bool)> {
    es.map_values(|e: Edit| edit_view(e))
}

/// What a TOML document holds: each top-level `[table]` by name, with its entries.
pub uninterp spec fn toml_tables(doc: DocumentMut) -> Map<Seq<char>, Map<Seq<char>, EntryView>>;

/// What `toml_edit` parses from a text: the tables of the document it builds, or, where
/// it refuses the text, the `Display` text of its error.
pub uninterp spec fn toml_edit_parse(text: Seq<char>) -> Result<
    Map<Seq<char>, Map<Seq<char>, EntryView>>,
    Seq<char>,
>;

/// The text that `toml_edit` prints for the document it parses from `source` after the
/// `edits`, in order: a string edit replaces the string of its entry by
/// `Formatted::new(value)`, a version edit inserts `version` into the entry's inline table
/// with `InlineTable::insert`, each found through `Table::get_mut`.
pub uninterp spec fn toml_edited_text(
    source: Seq<char>,
    edits: Seq<(Seq<char>, Seq<char>, Seq<char>, bool)>,
) -> Seq<char>;

/// A document read from `source`, with the edits made to it since, in order. Only the
/// functions of this module make or change one.
pub struct TomlDocument {
    doc: DocumentMut,
    source: String,
    edits: Vec<Edit>,
}

impl TomlDocument {
    /// The tables the document holds now.
    pub(crate) closed spec fn tables(self) -> Map<Seq<char>, Map<Seq<char>, EntryView>> {
        toml_tables(self.doc)
    }

    /// The text it was read from.
    pub(crate) closed spec fn source(self) -> Seq<char> {
        self.source@
    }

    /// The edits made since, in order.
    pub(crate) closed spec fn edits(self) -> Seq<(Seq<char>, Seq<char>, Seq<char>, bool)> {
        edit_views(self.edits@)
    }
}

/// Parses `text` with `<DocumentMut as FromStr>::from_str`, a refusal by the `Display`
/// text of its `TomlError`; the result depends on `text` alone and is named by
/// `toml_edit_parse`.
#[verifier::external_body]
fn parse_document(text: &str) -> (r: Result<DocumentMut, String>)
    ensures
        match r {
            Ok(doc) => toml_edit_parse(text@) == Ok::<_, Seq<char>>(toml_tables(doc)),
            Err(m) => toml_edit_parse(text@) == Err::<Map<Seq<char>, Map<Seq<char>, EntryView>>, Seq<char>>(m@),
        },
{
    match text.parse::<DocumentMut>() {
        Ok(doc) => Ok(doc),
        Err(e) => Err(e.to_string()),
    }
}

/// The document `toml_edit` reads from `text`, with no edits yet, or the message of its
/// refusal.
pub(crate) fn open_document(text: &str) -> (r: Result<TomlDocument, String>)
    ensures
        match r {
            Ok(d) => toml_edit_parse(text@) == Ok::<_, Seq<char>>(d.tables())
                && d.source() == text@
                && d.edits() == Seq::<(Seq<char>, Seq<char>, Seq<char>, bool)>::empty(),
            Err(m) => toml_edit_parse(text@) == Err::<Map<Seq<char>, Map<Seq<char>, EntryView>>, Seq<char>>(m@),
        },
{
    match parse_document(text) {
        Ok(doc) => {
            let d = TomlDocument { doc, source: string_of(&chars_of(text)), edits: Vec::new() };
            assert(d.edits() =~= Seq::<(Seq<char>, Seq<char>, Seq<char>, bool)>::empty());
            Ok(d)
        },
        Err(m) => Err(m),
    }
}

/// The text of the document, through `DocumentMut`'s `Display` impl.
#[verifier::external_body]
pub(crate) fn document_text(d: &TomlDocument) -> (r: String)
    ensures
        r@ == toml_edited_text(d.source(), d.edits()),
{
    d.doc.to_string()
}

/// How an entry of a document reads.
pub enum EntryRead {
    /// The document has no top-level table of that name.
    NoSection,
    /// The table has no entry of that name.
    NoEntry,
    Text(String),
    Inline,
    Other,
}

pub open spec fn entry_read_matches(
    r: EntryRead,
    tables: Map<Seq<char>, Map<Seq<char>, EntryView>>,
    section: Seq<char>,
    name: Seq<char>,
) -> bool {
    if !tables.dom().contains(section) {
        r is NoSection
    } else if !tables[section].dom().contains(name) {
        r is NoEntry
    } else {
        match tables[section][name] {
            EntryView::Text(t) => r matches EntryRead::Text(x) && x@ == t,
            EntryView::Inline(_) => r is Inline,
            EntryView::Other => r is Other,
        }
    }
}

/// Reads entry `name` of table `section` through `Table::get` on the document and on the
/// table, telling `Item` and `Value` variants apart.
#[verifier::external_body]
pub(crate) fn read_entry(d: &TomlDocument, section: &str, name: &str) -> (r: EntryRead)
    ensures
        entry_read_matches(r, d.tables(), section@, name@),
{
    let table = match d.doc.get(section) {
        Some(Item::Table(t)) => t,
        _ => return EntryRead::NoSection,
    };
    match table.get(name) {
        None => EntryRead::NoEntry,
        Some(Item::Value(Value::String(s))) => EntryRead::Text(s.value().clone()),
        Some(Item::Value(Value::InlineTable(_))) => EntryRead::Inline,
        Some(_) => EntryRead::Other,
    }
}

/// Replaces the string of entry `name` in table `section` by `Formatted::new(value)`,
/// found through `Table::get_mut`, and records the edit.
#[verifier::external_body]
pub(crate) fn set_text(d: &mut TomlDocument, section: &str, name: &str, value: String)
    requires
        old(d).tables().dom().contains(section@),
        old(d).tables()[section@].dom().contains(name@),
        old(d).tables()[section@][name@] is Text,
    ensures
        final(d).tables() == old(d).tables().insert(
            section@,
            old(d).tables()[section@].insert(name@, EntryView::Text(value@)),
        ),
        final(d).source() == old(d).source(),
        final(d).edits() == old(d).edits().push((section@, name@, value@, true)),
{
    d.edits.push(Edit::Text { section: section.to_string(), name: name.to_string(), value: value.clone() });
    if let Some(Item::Table(t)) = d.doc.get_mut(section) {
        if let Some(Item::Value(Value::String(s))) = t.get_mut(name) {
            *s = Formatted::new(value);
        }
    }
}

/// Sets key `version` of the inline table of entry `name` in table `section` to the string
/// `version`, through `InlineTable::insert`, and records the edit.
#[verifier::external_body]
pub(crate) fn set_inline_version(d: &mut TomlDocument, section: &str, name: &str, version: String)
    requires
        old(d).tables().dom().contains(section@),
        old(d).tables()[section@].dom().contains(name@),
        old(d).tables()[section@][name@] is Inline,
    ensures
        final(d).tables() == old(d).tables().insert(
            section@,
            old(d).tables()[section@].insert(name@, EntryView::Inline(Some(version@))),
        ),
        final(d).source() == old(d).source(),
        final(d).edits() == old(d).edits().push((section@, name@, version@, false)),
{
    d.edits.push(Edit::Version { section: section.to_string(), name: name.to_string(), version: version.clone() });
    if let Some(Item::Table(t)) = d.doc.get_mut(section) {
        if let Some(Item::Value(Value::InlineTable(it))) = t.get_mut(name) {
            it.insert("version", Value::from(version));
        }
    }
}

} // verus!
