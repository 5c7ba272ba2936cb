//! The translation graph: a link row joins two word ids, and a word's
//! translations are the words at the other end of every link that touches it
//! — one hop, read symmetrically from either column.

use vstd::prelude::*;

use crate::model::{Link, Word, WordView};
use crate::store::{find_word_in, lemma_find_word_some, Store, StoreView};

verus! {

/// Whether a link row has the given id in either column.
pub open spec fn link_touches(link: Link, id: u32) -> bool {
    link.word_a_id == id || link.word_b_id == id
}

/// The other endpoint of a link row, seen from the given id: if the id sits
/// in the first column the second is taken, otherwise the first.
pub open spec fn spec_other_endpoint(link: Link, id: u32) -> u32 {
    if link.word_a_id == id {
        link.word_b_id
    } else {
        link.word_a_id
    }
}

/// The neighbor ids of a word: for every link row touching the id, in
/// storage order, the other endpoint. Two links over the same pair yield the
/// id twice — duplicates are kept, as stored.
pub open spec fn neighbor_ids(links: Seq<Link>, id: u32) -> Seq<u32>
    decreases links.len(),
{
    if links.len() == 0 {
        Seq::empty()
    } else {
        let rest = neighbor_ids(links.drop_last(), id);
        if link_touches(links.last(), id) {
            rest.push(spec_other_endpoint(links.last(), id))
        } else {
            rest
        }
    }
}

/// The word rows carrying the given ids, in the ids' order; an id no row
/// carries is skipped, as a batched id lookup skips it.
pub open spec fn words_with_ids(ws: Seq<WordView>, ids: Seq<u32>) -> Seq<WordView>
    decreases ids.len(),
{
    if ids.len() == 0 {
        Seq::empty()
    } else {
        let rest = words_with_ids(ws, ids.drop_last());
        match find_word_in(ws, ids.last()) {
            Some(w) => rest.push(w),
            None => rest,
        }
    }
}

/// The one-hop translations of the word with the given id.
pub open spec fn neighbors_spec(s: StoreView, id: u32) -> Seq<WordView> {
    words_with_ids(s.words, neighbor_ids(s.links, id))
}

/// A word paired with its one-hop translations.
#[derive(Debug)]
pub struct Translation {
    pub word: Word,
    pub translations: Vec<Word>,
}

/// Mathematical image of a [`Translation`].
#[verifier::ext_equal]
pub struct TranslationView {
    pub word: WordView,
    pub translations: Seq<WordView>,
}

impl View for Translation {
    type V = TranslationView;

    open spec fn view(&self) -> TranslationView {
        TranslationView {
            word: self.word@,
            translations: self.translations@.map_values(|w: Word| w@),
        }
    }
}

/// Each input word paired with its translations, in input order.
pub open spec fn expand_spec(s: StoreView, ws: Seq<WordView>) -> Seq<TranslationView> {
    ws.map_values(|w: WordView| TranslationView { word: w, translations: neighbors_spec(s, w.id) })
}

/// The stateless remapping of a raw link row to the neighbor id it
/// contributes, seen from `id`.
pub fn other_endpoint(link: &Link, id: u32) -> (r: u32)
    ensures
        r == spec_other_endpoint(*link, id),
{
    if link.word_a_id == id {
        link.word_b_id
    } else {
        link.word_a_id
    }
}

impl Store {
    /// One-hop neighbor expansion: every word linked to the given id, from
    /// either side of the link, in link storage order. Duplicate links yield
    /// duplicate neighbors; an endpoint no word row carries is skipped by the
    /// batched lookup.
    pub fn neighbors_of(&self, id: u32) -> (r: Vec<Word>)
        ensures
            r@.map_values(|w: Word| w@) == neighbors_spec(self@, id),
    {
        let mut ids: Vec<u32> = Vec::new();
        let mut i: usize = 0;
        while i < self.links.len()
            invariant
                0 <= i <= self.links.len(),
                self@.links.len() == self.links.len(),
                ids@ == neighbor_ids(self@.links.subrange(0, i as int), id),
            decreases self.links.len() - i,
        {
            let ghost prefix_part = self@.links.subrange(0, i as int);
            let ghost next_part = self@.links.subrange(0, i + 1);
            proof {
                assert(next_part.drop_last() =~= prefix_part);
                assert(next_part.last() == self@.links[i as int]);
            }
            let link = self.links[i];
            if link.word_a_id == id || link.word_b_id == id {
                ids.push(other_endpoint(&link, id));
            }
            i = i + 1;
        }
        proof {
            assert(self@.links.subrange(0, self@.links.len() as int) =~= self@.links);
        }
        let mut out: Vec<Word> = Vec::new();
        let mut j: usize = 0;
        while j < ids.len()
            invariant
                0 <= j <= ids.len(),
                ids@ == neighbor_ids(self@.links, id),
                out@.map_values(|w: Word| w@) == words_with_ids(
                    self@.words,
                    ids@.subrange(0, j as int),
                ),
            decreases ids.len() - j,
        {
            let ghost prefix_part = ids@.subrange(0, j as int);
            let ghost next_part = ids@.subrange(0, j + 1);
            proof {
                assert(next_part.drop_last() =~= prefix_part);
                assert(next_part.last() == ids@[j as int]);
            }
            match self.get_by_id(ids[j]) {
                Ok(w) => {
                    out.push(w);
                    proof {
                        assert(out@.map_values(|w: Word| w@) =~= words_with_ids(
                            self@.words,
                            next_part,
                        ));
                    }
                },
                Err(_) => {
                    proof {
                        assert(out@.map_values(|w: Word| w@) =~= words_with_ids(
                            self@.words,
                            next_part,
                        ));
                    }
                },
            }
            j = j + 1;
        }
        proof {
            assert(ids@.subrange(0, ids@.len() as int) =~= ids@);
        }
        out
    }

    /// Pairs each input word with its one-hop translations, keeping the input
    /// order — the all-or-nothing aggregation of the read path.
    pub fn expand_translations(&self, words: &Vec<Word>) -> (r: Vec<Translation>)
        ensures
            r@.map_values(|t: Translation| t@) == expand_spec(
                self@,
                words@.map_values(|w: Word| w@),
            ),
    {
        let mut out: Vec<Translation> = Vec::new();
        let mut i: usize = 0;
        while i < words.len()
            invariant
                0 <= i <= words.len(),
                out@.map_values(|t: Translation| t@) == expand_spec(
                    self@,
                    words@.subrange(0, i as int).map_values(|w: Word| w@),
                ),
            decreases words.len() - i,
        {
            let translations = self.neighbors_of(words[i].id);
            let t = Translation { word: words[i].clone(), translations };
            let ghost prev = out@.map_values(|t: Translation| t@);
            out.push(t);
            proof {
                let ws1 = words@.subrange(0, i as int).map_values(|w: Word| w@);
                let ws2 = words@.subrange(0, i + 1).map_values(|w: Word| w@);
                assert(ws2.last() == words@[i as int]@);
                assert(forall|k: int| 0 <= k < i ==> ws2[k] == ws1[k]);
                assert(t@.word == ws2.last());
                assert(t@.translations == neighbors_spec(self@, ws2.last().id));
                assert(t@ == expand_spec(self@, ws2)[i as int]);
                assert(out@.map_values(|t: Translation| t@) =~= prev.push(t@));
                assert(expand_spec(self@, ws2) =~= prev.push(t@));
            }
            i = i + 1;
        }
        proof {
            assert(words@.subrange(0, words@.len() as int) =~= words@);
        }
        out
    }
}

/// A link is discoverable from either side: whichever column holds `id`, the
/// other column's id is among the neighbor ids.
pub proof fn lemma_neighbor_ids_symmetric(links: Seq<Link>, k: int)
    requires
        0 <= k < links.len(),
    ensures
        neighbor_ids(links, links[k].word_a_id).contains(links[k].word_b_id),
        neighbor_ids(links, links[k].word_b_id).contains(links[k].word_a_id),
    decreases links.len(),
{
    let l = links[k];
    if k == links.len() - 1 {
        assert(links.last() == l);
        assert(spec_other_endpoint(l, l.word_a_id) == l.word_b_id);
        let na = neighbor_ids(links, l.word_a_id);
        assert(na.last() == l.word_b_id);
        let nb = neighbor_ids(links, l.word_b_id);
        if l.word_b_id == l.word_a_id {
            assert(nb.last() == l.word_b_id);
        } else {
            assert(spec_other_endpoint(l, l.word_b_id) == l.word_a_id);
            assert(nb.last() == l.word_a_id);
        }
    } else {
        lemma_neighbor_ids_symmetric(links.drop_last(), k);
        assert(links.drop_last()[k] == l);
        lemma_neighbor_ids_prefix(links, l.word_a_id);
        lemma_neighbor_ids_prefix(links, l.word_b_id);
    }
}

/// Whatever the neighbor ids of a shorter prefix contain, those of the whole
/// row sequence contain too.
proof fn lemma_neighbor_ids_prefix(links: Seq<Link>, id: u32)
    requires
        links.len() > 0,
    ensures
        forall|x: u32|
            neighbor_ids(links.drop_last(), id).contains(x) ==> neighbor_ids(links, id).contains(
                x,
            ),
{
    let rest = neighbor_ids(links.drop_last(), id);
    let whole = neighbor_ids(links, id);
    assert forall|x: u32| rest.contains(x) implies whole.contains(x) by {
        let i = choose|i: int| 0 <= i < rest.len() && rest[i] == x;
        if link_touches(links.last(), id) {
            assert(whole[i] == x);
        } else {
            assert(whole[i] == x);
        }
    }
}

/// An id some word row carries contributes that row to the batched lookup.
proof fn lemma_words_with_ids_contains(ws: Seq<WordView>, ids: Seq<u32>, j: int)
    requires
        0 <= j < ids.len(),
        find_word_in(ws, ids[j]).is_some(),
    ensures
        words_with_ids(ws, ids).contains(find_word_in(ws, ids[j]).unwrap()),
    decreases ids.len(),
{
    let w = find_word_in(ws, ids[j]).unwrap();
    let whole = words_with_ids(ws, ids);
    if j == ids.len() - 1 {
        assert(ids.last() == ids[j]);
        assert(whole.last() == w);
    } else {
        assert(ids.drop_last()[j] == ids[j]);
        lemma_words_with_ids_contains(ws, ids.drop_last(), j);
        let rest = words_with_ids(ws, ids.drop_last());
        let i = choose|i: int| 0 <= i < rest.len() && rest[i] == w;
        assert(whole[i] == w);
    }
}

/// Link symmetry, lifted to words: in a well-formed store, every link makes
/// each of its endpoint words a neighbor of the other, whichever column
/// stored which id.
pub proof fn lemma_neighbors_symmetric(s: StoreView, k: int)
    requires
        s.wf(),
        0 <= k < s.links.len(),
    ensures
        neighbors_spec(s, s.links[k].word_a_id).contains(
            find_word_in(s.words, s.links[k].word_b_id).unwrap(),
        ),
        neighbors_spec(s, s.links[k].word_b_id).contains(
            find_word_in(s.words, s.links[k].word_a_id).unwrap(),
        ),
{
    let l = s.links[k];
    lemma_neighbor_ids_symmetric(s.links, k);
    lemma_find_word_some(s.words, l.word_a_id);
    lemma_find_word_some(s.words, l.word_b_id);
    let na = neighbor_ids(s.links, l.word_a_id);
    let ja = choose|i: int| 0 <= i < na.len() && na[i] == l.word_b_id;
    lemma_words_with_ids_contains(s.words, na, ja);
    let nb = neighbor_ids(s.links, l.word_b_id);
    let jb = choose|i: int| 0 <= i < nb.len() && nb[i] == l.word_a_id;
    lemma_words_with_ids_contains(s.words, nb, jb);
}

} // verus!
