//! The core's data model: words, their grammatical variants, the symmetric
//! translation link between two words, and the audit log entry. Each
//! heap-holding type comes with a mathematical view used by the contracts.

use vstd::prelude::*;

use crate::lang::Lang;

verus! {

/// A lexical entry: one word in one language, with optional phonetic
/// transcript and part-of-speech tag. Its id is assigned by the store on
/// insertion and never changes.
#[derive(Debug)]
pub struct Word {
    pub id: u32,
    pub value: String,
    pub lang: Lang,
    pub transcript: Option<String>,
    pub pos: Option<String>,
}

/// Mathematical image of a [`Word`].
#[verifier::ext_equal]
pub struct WordView {
    pub id: u32,
    pub value: Seq<char>,
    pub lang: Lang,
    pub transcript: Option<Seq<char>>,
    pub pos: Option<Seq<char>>,
}

impl View for Word {
    type V = WordView;

    open spec fn view(&self) -> WordView {
        WordView {
            id: self.id,
            value: self.value@,
            lang: self.lang,
            transcript: self.transcript.deep_view(),
            pos: self.pos.deep_view(),
        }
    }
}

impl Clone for Word {
    fn clone(&self) -> (r: Word)
        ensures
            r@ == self@,
    {
        Word {
            id: self.id,
            value: self.value.clone(),
            lang: self.lang,
            transcript: clone_opt_string(&self.transcript),
            pos: clone_opt_string(&self.pos),
        }
    }
}

/// A read-only grammatical form attached to a word, e.g. a case or a plural.
#[derive(Debug)]
pub struct Variant {
    pub name: String,
    pub value: String,
}

/// Mathematical image of a [`Variant`].
#[verifier::ext_equal]
pub struct VariantView {
    pub name: Seq<char>,
    pub value: Seq<char>,
}

impl View for Variant {
    type V = VariantView;

    open spec fn view(&self) -> VariantView {
        VariantView { name: self.name@, value: self.value@ }
    }
}

impl Clone for Variant {
    fn clone(&self) -> (r: Variant)
        ensures
            r@ == self@,
    {
        Variant { name: self.name.clone(), value: self.value.clone() }
    }
}

/// A variant row as the store holds it: the variant together with the id of
/// the word it belongs to.
#[derive(Debug)]
pub struct VariantRow {
    pub word_id: u32,
    pub variant: Variant,
}

/// Mathematical image of a [`VariantRow`].
#[verifier::ext_equal]
pub struct VariantRowView {
    pub word_id: u32,
    pub variant: VariantView,
}

impl View for VariantRow {
    type V = VariantRowView;

    open spec fn view(&self) -> VariantRowView {
        VariantRowView { word_id: self.word_id, variant: self.variant@ }
    }
}

impl Clone for VariantRow {
    fn clone(&self) -> (r: VariantRow)
        ensures
            r@ == self@,
    {
        VariantRow { word_id: self.word_id, variant: self.variant.clone() }
    }
}

/// A translation link: an unordered pair of word ids, stored as a directed
/// row but always read symmetrically.
#[derive(Clone, Copy, Debug, PartialEq, Eq, Structural)]
pub struct Link {
    pub word_a_id: u32,
    pub word_b_id: u32,
}

/// The operation tags the audit log records.
#[derive(Clone, Copy, Debug, PartialEq, Eq, Structural)]
pub enum QueryType {
    PageView,
    Search,
    WordView,
}

/// One append-only audit event: when and which kind of operation ran. The
/// core only ever appends these; nothing reads them back.
#[derive(Clone, Copy, Debug, PartialEq, Eq, Structural)]
pub struct QueryLogEntry {
    pub timestamp: u64,
    pub query_type: QueryType,
}

/// Clones an optional text, preserving its view.
pub fn clone_opt_string(o: &Option<String>) -> (r: Option<String>)
    ensures
        r.deep_view() == o.deep_view(),
{
    match o {
        Some(s) => Some(s.clone()),
        None => None,
    }
}

} // verus!
