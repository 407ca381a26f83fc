use fluent_syntax::ast::{Entry, PatternElement};
use vstd::prelude::*;

verus! {

/// One top-level entry of a parsed message-source resource, reduced to what
/// the build reads of it.
#[derive(Debug, Clone)]
pub enum FtlEntry {
    /// A message: its id, the ids of its attributes in order, and the
    /// elements of its value, if it has one.
    Message { id: String, attribute_ids: Vec<String>, value: Option<Vec<PatternPiece>> },
    /// A term, a comment or junk.
    Other,
}

/// One element of a message's value.
#[derive(Debug, Clone)]
pub enum PatternPiece {
    Text(String),
    Placeable,
}

/// The text of a value's first element, where that element is plain text.
pub open spec fn leading_text_of(value: Option<Vec<PatternPiece>>) -> Option<Seq<char>> {
    match value {
        Some(v) => if v.len() > 0 {
            match v[0] {
                PatternPiece::Text(t) => Some(t@),
                PatternPiece::Placeable => None,
            }
        } else {
            None
        },
        None => None,
    }
}

/// What a message entry means to the build.
pub struct EntryView {
    pub is_message: bool,
    pub id: Seq<char>,
    pub attribute_ids: Seq<Seq<char>>,
    pub leading_text: Option<Seq<char>>,
}

pub open spec fn opt_view(o: Option<String>) -> Option<Seq<char>> {
    match o {
        Some(s) => Some(s@),
        None => None,
    }
}

impl View for FtlEntry {
    type V = EntryView;

    open spec fn view(&self) -> EntryView {
        match self {
            FtlEntry::Message { id, attribute_ids, value } => EntryView {
                is_message: true,
                id: id@,
                attribute_ids: attribute_ids.deep_view(),
                leading_text: leading_text_of(*value),
            },
            FtlEntry::Other => EntryView {
                is_message: false,
                id: Seq::empty(),
                attribute_ids: Seq::empty(),
                leading_text: None,
            },
        }
    }
}

pub open spec fn entries_view(v: Seq<FtlEntry>) -> Seq<EntryView> {
    v.map_values(|e: FtlEntry| e@)
}

/// The entries of a resource's text, or `None` where the text does not parse.
pub uninterp spec fn parsed_entries(text: Seq<char>) -> Option<Seq<EntryView>>;

/// Relies on fluent_syntax::parser::parse: whether a text parses, and the
/// entries it holds, depend on the text alone; entries come in source order.
#[verifier::external_body]
pub(crate) fn parse_entries(text: &str) -> (r: Result<Vec<FtlEntry>, String>)
    ensures
        match r {
            Ok(v) => parsed_entries(text@) == Some(entries_view(v@)),
            Err(_) => parsed_entries(text@) is None,
        },
{
    let res = fluent_syntax::parser::parse(text).map_err(|e| format!("{:?}", e.1))?;
    Ok(res.body.iter().map(|e| match e {
        Entry::Message(m) => FtlEntry::Message {
            id: m.id.name.to_string(),
            attribute_ids: m.attributes.iter().map(|a| a.id.name.to_string()).collect(),
            value: m.value.as_ref().map(|p| p.elements.iter().map(|el| match el {
                PatternElement::TextElement { value } => PatternPiece::Text(value.to_string()),
                PatternElement::Placeable { .. } => PatternPiece::Placeable,
            }).collect()),
        },
        _ => FtlEntry::Other,
    }).collect())
}

} // verus!
