use dict_core::errors::{CoreError, PairingError};
use dict_core::lang::Lang;
use dict_core::model::{QueryType, Word};
use dict_core::pairing::{create_pair, StorageFaults};
use dict_core::service::{
    add_word_pair, root, search, word_details, AddWordParam, Search, WordIdParam, WordValueParam,
};
use dict_core::store::Store;

fn word(id: u32, value: &str, lang: Lang) -> Word {
    Word { id, value: value.to_string(), lang, transcript: None, pos: None }
}

fn add_params(word1: Option<&str>, word2: Option<&str>) -> AddWordParam {
    AddWordParam {
        word1: word1.map(|s| s.to_string()),
        word2: word2.map(|s| s.to_string()),
        transcript: None,
        pos: None,
    }
}

#[test]
fn root_records_a_page_view() {
    let mut store = Store::new();
    root(&mut store, 17);
    assert_eq!(store.log.len(), 1);
    assert_eq!(store.log[0].query_type, QueryType::PageView);
    assert_eq!(store.log[0].timestamp, 17);
    assert!(store.words.is_empty());
}

#[test]
fn search_finds_prefix_matches_in_both_languages() {
    // A store holding word(1, "Haus", DE) and word(2, "haus", FA): a search
    // for "hau" returns both under case-insensitive matching.
    let mut store = Store {
        words: vec![word(1, "Haus", Lang::De), word(2, "haus", Lang::Fa)],
        variants: vec![],
        links: vec![],
        log: vec![],
        next_id: 3,
    };
    assert!(store.check_wf());
    let results = search(&mut store, &Search { query: "hau".to_string() }, 1);
    assert_eq!(results.len(), 2);
    assert_eq!(results[0].word.value, "Haus");
    assert_eq!(results[0].word.lang, Lang::De);
    assert_eq!(results[1].word.value, "haus");
    assert_eq!(results[1].word.lang, Lang::Fa);
    assert_eq!(store.log.len(), 1);
    assert_eq!(store.log[0].query_type, QueryType::Search);
}

#[test]
fn search_of_unmatched_prefix_is_empty_not_an_error() {
    let mut store = Store {
        words: vec![word(1, "Haus", Lang::De), word(2, "haus", Lang::Fa)],
        variants: vec![],
        links: vec![],
        log: vec![],
        next_id: 3,
    };
    let results = search(&mut store, &Search { query: "zzz".to_string() }, 2);
    assert!(results.is_empty());
}

#[test]
fn pairing_creates_two_tagged_words_and_their_link() {
    let mut store = Store::new();
    let params = AddWordParam {
        word1: Some("Katze".to_string()),
        word2: Some("گربه".to_string()),
        transcript: Some("gorbe".to_string()),
        pos: Some("noun".to_string()),
    };
    assert_eq!(add_word_pair(&mut store, &params), Ok(()));
    assert_eq!(store.words.len(), 2);
    assert_eq!(store.links.len(), 1);
    let first = &store.words[0];
    assert_eq!(first.id, 1);
    assert_eq!(first.value, "Katze");
    assert_eq!(first.lang, Lang::De);
    assert_eq!(first.transcript, None);
    assert_eq!(first.pos.as_deref(), Some("noun"));
    let second = &store.words[1];
    assert_eq!(second.id, 2);
    assert_eq!(second.value, "گربه");
    assert_eq!(second.lang, Lang::Fa);
    assert_eq!(second.transcript.as_deref(), Some("gorbe"));
    assert_eq!(second.pos.as_deref(), Some("noun"));
    assert_eq!(store.links[0].word_a_id, 1);
    assert_eq!(store.links[0].word_b_id, 2);
    // Neighbor expansion from the first word reaches the second.
    let neighbors = store.neighbors_of(1);
    assert_eq!(neighbors.len(), 1);
    assert_eq!(neighbors[0].id, 2);
    assert_eq!(neighbors[0].value, "گربه");
}

#[test]
fn pairing_rejects_an_empty_word_before_any_write() {
    let mut store = Store::new();
    let params = add_params(Some(""), Some("گربه"));
    assert_eq!(add_word_pair(&mut store, &params), Err(PairingError::Validation));
    assert_eq!(store.words.len(), 0);
    assert_eq!(store.links.len(), 0);
    assert_eq!(store.log.len(), 0);
    assert_eq!(store.next_id, 1);
}

#[test]
fn pairing_rejects_a_missing_word() {
    let mut store = Store::new();
    let params = add_params(Some("Katze"), None);
    assert_eq!(add_word_pair(&mut store, &params), Err(PairingError::Validation));
    assert_eq!(store.words.len(), 0);
}

#[test]
fn pairing_rolls_back_on_a_fault_after_the_first_insert() {
    // A simulated storage failure after the first word insert but before the
    // link insert leaves zero new rows in either table.
    let mut store = Store::new();
    let words_before = store.words.len();
    let links_before = store.links.len();
    let faults = StorageFaults {
        first_word_insert: false,
        second_word_insert: true,
        link_insert: false,
    };
    let r = create_pair(
        &mut store,
        &Some("Katze".to_string()),
        &Some("گربه".to_string()),
        &None,
        &None,
        &faults,
    );
    assert_eq!(r, Err(PairingError::Storage));
    assert_eq!(store.words.len(), words_before);
    assert_eq!(store.links.len(), links_before);
    assert_eq!(store.next_id, 1);
}

#[test]
fn pairing_rolls_back_on_a_link_insert_fault() {
    let mut store = Store::new();
    let faults = StorageFaults {
        first_word_insert: false,
        second_word_insert: false,
        link_insert: true,
    };
    let r = create_pair(
        &mut store,
        &Some("Katze".to_string()),
        &Some("گربه".to_string()),
        &None,
        &None,
        &faults,
    );
    assert_eq!(r, Err(PairingError::Storage));
    assert_eq!(store.words.len(), 0);
    assert_eq!(store.links.len(), 0);
}

#[test]
fn pairing_succeeds_with_fault_free_storage() {
    let mut store = Store::new();
    let r = create_pair(
        &mut store,
        &Some("Hund".to_string()),
        &Some("سگ".to_string()),
        &None,
        &None,
        &StorageFaults::none(),
    );
    assert_eq!(r, Ok((1, 2)));
    assert_eq!(store.next_id, 3);
}

#[test]
fn word_detail_of_unknown_id_is_not_found() {
    // Against an empty store, any id misses.
    let mut store = Store::new();
    let r = word_details(&mut store, &WordIdParam { id: 99999 }, &None, 5);
    assert_eq!(r.unwrap_err(), CoreError::NotFound);
    assert_eq!(store.log.len(), 1);
    assert_eq!(store.log[0].query_type, QueryType::WordView);
}

#[test]
fn word_detail_returns_word_variants_and_selected() {
    let mut store = Store::new();
    let params = add_params(Some("Katze"), Some("گربه"));
    add_word_pair(&mut store, &params).unwrap();
    let selected = Some(WordValueParam { value: Some("Katze".to_string()) });
    let d = word_details(&mut store, &WordIdParam { id: 2 }, &selected, 9).unwrap();
    assert_eq!(d.word.id, 2);
    assert_eq!(d.word.value, "گربه");
    assert!(d.variants.is_empty());
    assert_eq!(d.selected.as_deref(), Some("Katze"));
}

#[test]
fn repeated_word_detail_reads_are_identical() {
    let mut store = Store::new();
    add_word_pair(&mut store, &add_params(Some("Katze"), Some("گربه"))).unwrap();
    let first = word_details(&mut store, &WordIdParam { id: 1 }, &None, 1).unwrap();
    let second = word_details(&mut store, &WordIdParam { id: 1 }, &None, 2).unwrap();
    assert_eq!(first.word.id, second.word.id);
    assert_eq!(first.word.value, second.word.value);
    assert_eq!(first.word.lang, second.word.lang);
    assert_eq!(first.word.transcript, second.word.transcript);
    assert_eq!(first.word.pos, second.word.pos);
    assert_eq!(first.variants.len(), second.variants.len());
    assert_eq!(first.selected, second.selected);
    // Only the audit log grew.
    assert_eq!(store.log.len(), 2);
}
