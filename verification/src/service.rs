//! The core-facing contract the presentation layer calls: prefix search with
//! neighbor expansion, word detail lookup, and the atomic word-pair write.
//! Each read appends one audit event; the audit trail is append-only and
//! never read back by the core.

use vstd::prelude::*;

use crate::errors::{CoreError, PairingError};
use crate::graph::{expand_spec, Translation, TranslationView};
use crate::model::{clone_opt_string, QueryLogEntry, QueryType, Variant, VariantView, Word, WordView};
use crate::pairing::{create_pair, paired, word_text_ok, StorageFaults};
use crate::store::{matching_words, variants_of, Store, StoreView};
use crate::text::{prefix_matches, trimmed};

verus! {

/// The form body of a search request.
pub struct Search {
    pub query: String,
}

/// The query parameter naming a word by id.
pub struct WordIdParam {
    pub id: u32,
}

/// The query parameter carrying an optional word value, e.g. the selected
/// word a detail view was reached from.
pub struct WordValueParam {
    pub value: Option<String>,
}

/// The query parameter carrying an optional search text.
pub struct WordParam {
    pub query: Option<String>,
}

/// The form body of an add-word request: the two words of the pair, and the
/// optional transcript and part-of-speech tag.
pub struct AddWordParam {
    pub word1: Option<String>,
    pub word2: Option<String>,
    pub transcript: Option<String>,
    pub pos: Option<String>,
}

/// What a word detail lookup returns: the word, its variants in storage
/// order, and the selected value passed through for the view.
#[derive(Debug)]
pub struct WordDetail {
    pub word: Word,
    pub variants: Vec<Variant>,
    pub selected: Option<String>,
}

/// The store with one audit event appended and every table untouched.
pub open spec fn with_log(s: StoreView, tag: QueryType, now: u64) -> StoreView {
    StoreView { log: s.log.push(QueryLogEntry { timestamp: now, query_type: tag }), ..s }
}

/// What a search returns against a given store: the words whose value the
/// trimmed query is a case-insensitive prefix of, in storage order, each
/// paired with its one-hop translations.
pub open spec fn search_results(s: StoreView, query: Seq<char>) -> Seq<TranslationView> {
    expand_spec(s, matching_words(s.words, trimmed(query)))
}

/// What a word detail lookup returns against a given store: the word with
/// the given id and its variants, or nothing when no word carries the id.
/// It reads the word and variant tables alone.
pub open spec fn detail_spec(s: StoreView, id: u32) -> Option<(WordView, Seq<VariantView>)> {
    match s.word(id) {
        Some(w) => Some((w, variants_of(s.variants, id))),
        None => None,
    }
}

/// The landing-page read: records the page view, touches nothing else.
pub fn root(store: &mut Store, now: u64)
    ensures
        final(store)@ == with_log(old(store)@, QueryType::PageView, now),
{
    store.log.push(QueryLogEntry { timestamp: now, query_type: QueryType::PageView });
    proof {
        assert(final(store)@ =~= with_log(old(store)@, QueryType::PageView, now));
    }
}

/// Prefix search with neighbor expansion. Records the search, then returns
/// every matching word paired with its translations; an unmatched query
/// yields an empty sequence — a valid outcome, not an error.
pub fn search(store: &mut Store, params: &Search, now: u64) -> (r: Vec<Translation>)
    ensures
        final(store)@ == with_log(old(store)@, QueryType::Search, now),
        r@.map_values(|t: Translation| t@) == search_results(old(store)@, params.query@),
{
    store.log.push(QueryLogEntry { timestamp: now, query_type: QueryType::Search });
    proof {
        assert(store@ =~= with_log(old(store)@, QueryType::Search, now));
    }
    let words = store.search_by_prefix(params.query.as_str());
    let results = store.expand_translations(&words);
    proof {
        assert(expand_spec(store@, words@.map_values(|w: Word| w@)) =~= search_results(
            old(store)@,
            params.query@,
        ));
    }
    results
}

/// Word detail lookup: records the view, then returns the word with the
/// given id and its variants — or `NotFound` when no word carries the id.
/// The selected value is passed through unread.
pub fn word_details(
    store: &mut Store,
    id_param: &WordIdParam,
    selected: &Option<WordValueParam>,
    now: u64,
) -> (r: Result<WordDetail, CoreError>)
    ensures
        final(store)@ == with_log(old(store)@, QueryType::WordView, now),
        match r {
            Ok(d) => detail_spec(old(store)@, id_param.id) == Some(
                (d.word@, d.variants@.map_values(|v: Variant| v@)),
            ) && d.selected.deep_view() == match selected {
                Some(p) => p.value.deep_view(),
                None => None::<Seq<char>>,
            },
            Err(e) => e == CoreError::NotFound && detail_spec(old(store)@, id_param.id) is None,
        },
        r is Ok <==> old(store)@.has_word(id_param.id),
{
    store.log.push(QueryLogEntry { timestamp: now, query_type: QueryType::WordView });
    proof {
        assert(store@ =~= with_log(old(store)@, QueryType::WordView, now));
    }
    let word = match store.get_by_id(id_param.id) {
        Ok(w) => w,
        Err(_) => {
            return Err(CoreError::NotFound);
        },
    };
    let variants = store.get_variants(id_param.id);
    let sel = match selected {
        Some(p) => clone_opt_string(&p.value),
        None => None,
    };
    Ok(WordDetail { word, variants, selected: sel })
}

/// The atomic word-pair write, against fault-free storage: validates the two
/// words, then creates them and their link as one unit. Nothing is logged on
/// this path.
pub fn add_word_pair(store: &mut Store, params: &AddWordParam) -> (r: Result<(), PairingError>)
    requires
        old(store)@.wf(),
        old(store)@.next_id + 2 <= u32::MAX,
    ensures
        final(store)@.wf(),
        !(word_text_ok(params.word1.deep_view()) && word_text_ok(params.word2.deep_view()))
            ==> r == Err::<(), PairingError>(PairingError::Validation) && final(store)@ == old(
            store,
        )@,
        word_text_ok(params.word1.deep_view()) && word_text_ok(params.word2.deep_view()) ==> r
            == Ok::<(), PairingError>(()) && final(store)@ == paired(
            old(store)@,
            params.word1.deep_view().unwrap(),
            params.word2.deep_view().unwrap(),
            params.transcript.deep_view(),
            params.pos.deep_view(),
        ),
{
    let faults = StorageFaults::none();
    match create_pair(store, &params.word1, &params.word2, &params.transcript, &params.pos, &faults) {
        Ok(_) => Ok(()),
        Err(e) => Err(e),
    }
}

/// Reads are idempotent: what a word detail lookup returns depends on the
/// word and variant tables alone, and no read changes them — so two lookups
/// of the same id with no intervening write return the same result, however
/// much the audit log grew in between.
pub proof fn lemma_reads_idempotent(s1: StoreView, s2: StoreView, id: u32)
    requires
        s1.words == s2.words,
        s1.variants == s2.variants,
    ensures
        detail_spec(s1, id) == detail_spec(s2, id),
{
}

/// Every word a search returns matches the query: the trimmed query is a
/// case-insensitive prefix of its value. And a query nothing matches yields
/// the empty sequence — never an error.
pub proof fn lemma_search_sound(s: StoreView, query: Seq<char>)
    ensures
        forall|i: int|
            0 <= i < search_results(s, query).len() ==> prefix_matches(
                trimmed(query),
                (#[trigger] search_results(s, query)[i]).word.value,
            ),
        (forall|j: int|
            0 <= j < s.words.len() ==> !prefix_matches(
                trimmed(query),
                (#[trigger] s.words[j]).value,
            )) ==> search_results(s, query).len() == 0,
{
    lemma_matching_words_sound(s.words, trimmed(query));
}

/// Soundness of the raw word filter: it keeps exactly rows the query
/// matches, so every kept row matches, and if no row matches it keeps none.
proof fn lemma_matching_words_sound(ws: Seq<WordView>, p: Seq<char>)
    ensures
        forall|i: int|
            0 <= i < matching_words(ws, p).len() ==> prefix_matches(
                p,
                (#[trigger] matching_words(ws, p)[i]).value,
            ),
        (forall|j: int| 0 <= j < ws.len() ==> !prefix_matches(p, (#[trigger] ws[j]).value))
            ==> matching_words(ws, p).len() == 0,
    decreases ws.len(),
{
    if ws.len() > 0 {
        lemma_matching_words_sound(ws.drop_last(), p);
        assert(forall|j: int| 0 <= j < ws.len() - 1 ==> ws.drop_last()[j] == (#[trigger] ws[j]));
    }
}

} // verus!
