use dict_core::errors::CoreError;
use dict_core::graph::other_endpoint;
use dict_core::lang::Lang;
use dict_core::model::{Link, Variant, VariantRow, Word};
use dict_core::store::Store;

fn word(id: u32, value: &str, lang: Lang) -> Word {
    Word { id, value: value.to_string(), lang, transcript: None, pos: None }
}

fn variant_row(word_id: u32, name: &str, value: &str) -> VariantRow {
    VariantRow { word_id, variant: Variant { name: name.to_string(), value: value.to_string() } }
}

fn two_word_store() -> Store {
    Store {
        words: vec![word(1, "Haus", Lang::De), word(2, "خانه", Lang::Fa)],
        variants: vec![],
        links: vec![Link { word_a_id: 1, word_b_id: 2 }],
        log: vec![],
        next_id: 3,
    }
}

#[test]
fn get_by_id_finds_the_row() {
    let store = two_word_store();
    let w = store.get_by_id(2).unwrap();
    assert_eq!(w.id, 2);
    assert_eq!(w.value, "خانه");
    assert_eq!(w.lang, Lang::Fa);
}

#[test]
fn get_by_id_reports_not_found() {
    let store = two_word_store();
    assert_eq!(store.get_by_id(7).unwrap_err(), CoreError::NotFound);
}

#[test]
fn search_by_prefix_trims_and_folds() {
    let store = two_word_store();
    let hits = store.search_by_prefix("  hAu \t");
    assert_eq!(hits.len(), 1);
    assert_eq!(hits[0].value, "Haus");
}

#[test]
fn search_by_prefix_empty_query_matches_everything() {
    let store = two_word_store();
    assert_eq!(store.search_by_prefix("   ").len(), 2);
}

#[test]
fn get_variants_keeps_only_the_owner_in_order() {
    let mut store = two_word_store();
    store.variants = vec![
        variant_row(1, "Nominativ", "das Haus"),
        variant_row(2, "plural", "خانه‌ها"),
        variant_row(1, "Plural", "die Häuser"),
    ];
    assert!(store.check_wf());
    let vs = store.get_variants(1);
    assert_eq!(vs.len(), 2);
    assert_eq!(vs[0].name, "Nominativ");
    assert_eq!(vs[1].value, "die Häuser");
    assert_eq!(store.get_variants(2).len(), 1);
}

#[test]
fn variants_of_unknown_word_are_empty_not_an_error() {
    let store = two_word_store();
    assert!(store.get_variants(9).is_empty());
}

#[test]
fn other_endpoint_reads_either_column() {
    let link = Link { word_a_id: 4, word_b_id: 9 };
    assert_eq!(other_endpoint(&link, 4), 9);
    assert_eq!(other_endpoint(&link, 9), 4);
}

#[test]
fn neighbors_are_symmetric() {
    let store = two_word_store();
    let of_first = store.neighbors_of(1);
    assert_eq!(of_first.len(), 1);
    assert_eq!(of_first[0].id, 2);
    let of_second = store.neighbors_of(2);
    assert_eq!(of_second.len(), 1);
    assert_eq!(of_second[0].id, 1);
}

#[test]
fn duplicate_links_yield_duplicate_neighbors() {
    let mut store = two_word_store();
    store.links.push(Link { word_a_id: 2, word_b_id: 1 });
    assert!(store.check_wf());
    let of_first = store.neighbors_of(1);
    assert_eq!(of_first.len(), 2);
    assert_eq!(of_first[0].id, 2);
    assert_eq!(of_first[1].id, 2);
}

#[test]
fn expand_translations_keeps_input_order() {
    let store = two_word_store();
    let words = vec![store.get_by_id(2).unwrap(), store.get_by_id(1).unwrap()];
    let expanded = store.expand_translations(&words);
    assert_eq!(expanded.len(), 2);
    assert_eq!(expanded[0].word.id, 2);
    assert_eq!(expanded[0].translations[0].id, 1);
    assert_eq!(expanded[1].word.id, 1);
    assert_eq!(expanded[1].translations[0].id, 2);
}

#[test]
fn check_wf_accepts_a_valid_store() {
    assert!(two_word_store().check_wf());
    assert!(Store::new().check_wf());
}

#[test]
fn check_wf_rejects_duplicate_ids() {
    let mut store = two_word_store();
    store.words.push(word(1, "Maus", Lang::De));
    store.next_id = 4;
    assert!(!store.check_wf());
}

#[test]
fn check_wf_rejects_id_at_or_past_next_id() {
    let mut store = two_word_store();
    store.next_id = 2;
    assert!(!store.check_wf());
}

#[test]
fn check_wf_rejects_self_links() {
    let mut store = two_word_store();
    store.links.push(Link { word_a_id: 1, word_b_id: 1 });
    assert!(!store.check_wf());
}

#[test]
fn check_wf_rejects_dangling_link_endpoints() {
    let mut store = two_word_store();
    store.links.push(Link { word_a_id: 1, word_b_id: 8 });
    assert!(!store.check_wf());
}

#[test]
fn check_wf_rejects_orphan_variants() {
    let mut store = two_word_store();
    store.variants.push(variant_row(5, "plural", "x"));
    assert!(!store.check_wf());
}

#[test]
fn has_word_exec_matches_contents() {
    let store = two_word_store();
    assert!(store.has_word_exec(1));
    assert!(store.has_word_exec(2));
    assert!(!store.has_word_exec(3));
}
