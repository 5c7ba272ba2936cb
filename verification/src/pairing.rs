//! The pairing service: the one mutating path of the core. It creates exactly
//! two words — the first tagged `De`, the second `Fa` — and one link between
//! them, as a single atomic unit: either every row becomes visible, or none.

use vstd::prelude::*;

use crate::errors::PairingError;
use crate::graph::{lemma_neighbors_symmetric, neighbors_spec};
use crate::lang::Lang;
use crate::model::{clone_opt_string, Link, Word, WordView};
use crate::store::{find_word_in, lemma_find_word_at, Store, StoreView};

verus! {

/// Which storage steps of the pairing transaction fail. A real storage layer
/// can fail any insert; setting a flag simulates that fault at the matching
/// step, so that callers and tests can observe the rollback. `none()` is the
/// fault-free storage.
#[derive(Clone, Copy, Debug, PartialEq, Eq, Structural)]
pub struct StorageFaults {
    pub first_word_insert: bool,
    pub second_word_insert: bool,
    pub link_insert: bool,
}

impl StorageFaults {
    /// Storage in which every step succeeds.
    pub fn none() -> (r: StorageFaults)
        ensures
            r == (StorageFaults {
                first_word_insert: false,
                second_word_insert: false,
                link_insert: false,
            }),
    {
        StorageFaults { first_word_insert: false, second_word_insert: false, link_insert: false }
    }

    /// Whether any step fails.
    pub open spec fn any(self) -> bool {
        self.first_word_insert || self.second_word_insert || self.link_insert
    }
}

/// A word of a pair is acceptable when it is present and non-empty.
pub open spec fn word_text_ok(text: Option<Seq<char>>) -> bool {
    match text {
        Some(t) => t.len() > 0,
        None => false,
    }
}

/// The store after a successful pairing: two word rows appended — the first
/// tagged `De` without transcript, the second tagged `Fa` with the given
/// transcript, both with the given part-of-speech tag — one link row joining
/// their freshly assigned ids, and the next free id advanced past them.
pub open spec fn paired(
    s: StoreView,
    word1: Seq<char>,
    word2: Seq<char>,
    transcript: Option<Seq<char>>,
    pos: Option<Seq<char>>,
) -> StoreView {
    let id1 = s.next_id;
    let id2 = (s.next_id + 1) as u32;
    StoreView {
        words: s.words.push(
            WordView { id: id1, value: word1, lang: Lang::De, transcript: None, pos },
        ).push(WordView { id: id2, value: word2, lang: Lang::Fa, transcript, pos }),
        variants: s.variants,
        links: s.links.push(Link { word_a_id: id1, word_b_id: id2 }),
        log: s.log,
        next_id: (s.next_id + 2) as u32,
    }
}

/// Creates two words and their link as one transaction against storage with
/// the given faults, and reports the ids the words received.
///
/// Validation happens before any transactional scope is opened: a missing or
/// empty word fails with `Validation` and performs zero storage writes. The
/// writes are staged and become visible only when every step has succeeded —
/// a fault at any step rolls the whole transaction back, so a failed pairing
/// leaves the store exactly as it was.
pub fn create_pair(
    store: &mut Store,
    word1: &Option<String>,
    word2: &Option<String>,
    transcript: &Option<String>,
    pos: &Option<String>,
    faults: &StorageFaults,
) -> (r: Result<(u32, u32), PairingError>)
    requires
        old(store)@.wf(),
        old(store)@.next_id + 2 <= u32::MAX,
    ensures
        final(store)@.wf(),
        !(word_text_ok(word1.deep_view()) && word_text_ok(word2.deep_view())) ==> r == Err::<
            (u32, u32),
            PairingError,
        >(PairingError::Validation) && final(store)@ == old(store)@,
        word_text_ok(word1.deep_view()) && word_text_ok(word2.deep_view()) && faults.any() ==> r
            == Err::<(u32, u32), PairingError>(PairingError::Storage) && final(store)@ == old(
            store,
        )@,
        word_text_ok(word1.deep_view()) && word_text_ok(word2.deep_view()) && !faults.any() ==> r
            == Ok::<(u32, u32), PairingError>(
            (old(store)@.next_id, (old(store)@.next_id + 1) as u32),
        ) && final(store)@ == paired(
            old(store)@,
            word1.deep_view().unwrap(),
            word2.deep_view().unwrap(),
            transcript.deep_view(),
            pos.deep_view(),
        ),
{
    let text1 = match word1 {
        Some(t) => {
            if t.unicode_len() == 0 {
                return Err(PairingError::Validation);
            }
            t.clone()
        },
        None => {
            return Err(PairingError::Validation);
        },
    };
    let text2 = match word2 {
        Some(t) => {
            if t.unicode_len() == 0 {
                return Err(PairingError::Validation);
            }
            t.clone()
        },
        None => {
            return Err(PairingError::Validation);
        },
    };
    // The transactional scope: the three inserts are staged locally and
    // nothing touches the store before the commit at the end, so a fault at
    // any step rolls back by discarding the stage.
    if faults.first_word_insert {
        return Err(PairingError::Storage);
    }
    let id1 = store.next_id;
    let first = Word {
        id: id1,
        value: text1,
        lang: Lang::De,
        transcript: None,
        pos: clone_opt_string(pos),
    };
    if faults.second_word_insert {
        return Err(PairingError::Storage);
    }
    let id2 = id1 + 1;
    let second = Word {
        id: id2,
        value: text2,
        lang: Lang::Fa,
        transcript: clone_opt_string(transcript),
        pos: clone_opt_string(pos),
    };
    if faults.link_insert {
        return Err(PairingError::Storage);
    }
    let ghost before = store@;
    store.words.push(first);
    store.words.push(second);
    store.links.push(Link { word_a_id: id1, word_b_id: id2 });
    store.next_id = id1 + 2;
    proof {
        let after = paired(
            before,
            word1.deep_view().unwrap(),
            word2.deep_view().unwrap(),
            transcript.deep_view(),
            pos.deep_view(),
        );
        assert(store@.words =~= after.words);
        assert(store@.links =~= after.links);
        assert(store@ =~= after);
        lemma_paired_wf(
            before,
            word1.deep_view().unwrap(),
            word2.deep_view().unwrap(),
            transcript.deep_view(),
            pos.deep_view(),
        );
    }
    Ok((id1, id2))
}

/// The success postcondition of pairing, spelled out: the store holds exactly
/// two new word rows under the two fresh ids — the first tagged `De`, the
/// second `Fa` — and the new link's endpoints resolve to exactly those two
/// words, each discoverable from the other by neighbor expansion.
pub proof fn lemma_pairing_connects(
    s: StoreView,
    word1: Seq<char>,
    word2: Seq<char>,
    transcript: Option<Seq<char>>,
    pos: Option<Seq<char>>,
)
    requires
        s.wf(),
        s.next_id + 2 <= u32::MAX,
    ensures
        ({
            let p = paired(s, word1, word2, transcript, pos);
            let id1 = s.next_id;
            let id2 = (s.next_id + 1) as u32;
            let first = WordView { id: id1, value: word1, lang: Lang::De, transcript: None, pos };
            let second = WordView { id: id2, value: word2, lang: Lang::Fa, transcript, pos };
            &&& p.words.len() == s.words.len() + 2
            &&& p.links.len() == s.links.len() + 1
            &&& find_word_in(p.words, id1) == Some(first)
            &&& find_word_in(p.words, id2) == Some(second)
            &&& neighbors_spec(p, id1).contains(second)
            &&& neighbors_spec(p, id2).contains(first)
        }),
{
    let p = paired(s, word1, word2, transcript, pos);
    let id1 = s.next_id;
    let id2 = (s.next_id + 1) as u32;
    let n = s.words.len() as int;
    assert(forall|j: int| 0 <= j < n ==> p.words[j] == (#[trigger] s.words[j]));
    assert(p.words[n].id == id1);
    assert(p.words[n + 1].id == id2);
    lemma_find_word_at(p.words, id1, n);
    lemma_find_word_at(p.words, id2, n + 1);
    lemma_paired_wf(s, word1, word2, transcript, pos);
    let k = p.links.len() - 1;
    assert(p.links[k] == Link { word_a_id: id1, word_b_id: id2 });
    lemma_neighbors_symmetric(p, k);
}

/// A successful pairing preserves well-formedness: the two fresh ids are new
/// and distinct, the new link joins two existing, distinct words, and every
/// old row is untouched.
proof fn lemma_paired_wf(
    s: StoreView,
    word1: Seq<char>,
    word2: Seq<char>,
    transcript: Option<Seq<char>>,
    pos: Option<Seq<char>>,
)
    requires
        s.wf(),
        s.next_id + 2 <= u32::MAX,
    ensures
        paired(s, word1, word2, transcript, pos).wf(),
{
    let p = paired(s, word1, word2, transcript, pos);
    assert(forall|i: int|
        0 <= i < s.words.len() ==> p.words[i] == (#[trigger] s.words[i]));
    assert forall|i: int| 0 <= i < p.links.len() implies p.has_word(
        (#[trigger] p.links[i]).word_a_id,
    ) && p.has_word(p.links[i].word_b_id) by {
        if i < s.links.len() {
            assert(s.has_word(s.links[i].word_a_id));
            let ja = choose|j: int|
                0 <= j < s.words.len() && (#[trigger] s.words[j]).id == s.links[i].word_a_id;
            assert(p.words[ja].id == s.links[i].word_a_id);
            let jb = choose|j: int|
                0 <= j < s.words.len() && (#[trigger] s.words[j]).id == s.links[i].word_b_id;
            assert(p.words[jb].id == s.links[i].word_b_id);
        } else {
            assert(p.words[p.words.len() - 2].id == p.links[i].word_a_id);
            assert(p.words[p.words.len() - 1].id == p.links[i].word_b_id);
        }
    }
    assert forall|i: int| 0 <= i < p.variants.len() implies p.has_word(
        (#[trigger] p.variants[i]).word_id,
    ) by {
        assert(s.has_word(s.variants[i].word_id));
        let j = choose|j: int|
            0 <= j < s.words.len() && (#[trigger] s.words[j]).id == s.variants[i].word_id;
        assert(p.words[j].id == s.variants[i].word_id);
    }
}

} // verus!
