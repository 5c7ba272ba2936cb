//! The word store: the core's model of the relational storage. It holds the
//! word, variant, translation and audit-log rows, plus the id the next
//! inserted word will receive, and offers the repository reads — lookup by
//! id, prefix search, and the variants of a word.

use vstd::prelude::*;

use crate::errors::CoreError;
use crate::model::{Link, QueryLogEntry, Variant, VariantRow, VariantRowView, Word, WordView};
use crate::text::{matches_prefix, prefix_matches, trim_spaces, trimmed};

verus! {

/// The store's state: every table, as rows in storage order.
pub struct Store {
    pub words: Vec<Word>,
    pub variants: Vec<VariantRow>,
    pub links: Vec<Link>,
    pub log: Vec<QueryLogEntry>,
    pub next_id: u32,
}

/// Mathematical image of a [`Store`].
#[verifier::ext_equal]
pub struct StoreView {
    pub words: Seq<WordView>,
    pub variants: Seq<VariantRowView>,
    pub links: Seq<Link>,
    pub log: Seq<QueryLogEntry>,
    pub next_id: u32,
}

impl View for Store {
    type V = StoreView;

    open spec fn view(&self) -> StoreView {
        StoreView {
            words: self.words@.map_values(|w: Word| w@),
            variants: self.variants@.map_values(|v: VariantRow| v@),
            links: self.links@,
            log: self.log@,
            next_id: self.next_id,
        }
    }
}

/// The first word row carrying the given id, scanning in storage order.
pub open spec fn find_word_in(ws: Seq<WordView>, id: u32) -> Option<WordView>
    decreases ws.len(),
{
    if ws.len() == 0 {
        None
    } else if ws[0].id == id {
        Some(ws[0])
    } else {
        find_word_in(ws.drop_first(), id)
    }
}

/// The words among `ws` whose value the (already trimmed) query is a
/// case-insensitive prefix of, in storage order.
pub open spec fn matching_words(ws: Seq<WordView>, query: Seq<char>) -> Seq<WordView>
    decreases ws.len(),
{
    if ws.len() == 0 {
        Seq::empty()
    } else {
        let rest = matching_words(ws.drop_last(), query);
        if prefix_matches(query, ws.last().value) {
            rest.push(ws.last())
        } else {
            rest
        }
    }
}

/// The variants belonging to the word with the given id, in storage order.
pub open spec fn variants_of(vs: Seq<VariantRowView>, word_id: u32) -> Seq<
    crate::model::VariantView,
>
    decreases vs.len(),
{
    if vs.len() == 0 {
        Seq::empty()
    } else {
        let rest = variants_of(vs.drop_last(), word_id);
        if vs.last().word_id == word_id {
            rest.push(vs.last().variant)
        } else {
            rest
        }
    }
}

impl StoreView {
    /// Whether some word row carries the given id.
    pub open spec fn has_word(self, id: u32) -> bool {
        exists|i: int| 0 <= i < self.words.len() && self.words[i].id == id
    }

    /// The word with the given id, if any.
    pub open spec fn word(self, id: u32) -> Option<WordView> {
        find_word_in(self.words, id)
    }

    /// Well-formedness of the store: ids are unique and below the next free
    /// id, links never join a word to itself, and every link endpoint and
    /// variant owner is an existing word.
    pub open spec fn wf(self) -> bool {
        &&& forall|i: int| 0 <= i < self.words.len() ==> (#[trigger] self.words[i]).id
            < self.next_id
        &&& forall|i: int, j: int|
            0 <= i < j < self.words.len() ==> (#[trigger] self.words[i]).id != (
            #[trigger] self.words[j]).id
        &&& forall|i: int|
            0 <= i < self.links.len() ==> (#[trigger] self.links[i]).word_a_id
                != self.links[i].word_b_id
        &&& forall|i: int|
            0 <= i < self.links.len() ==> self.has_word((#[trigger] self.links[i]).word_a_id)
                && self.has_word(self.links[i].word_b_id)
        &&& forall|i: int|
            0 <= i < self.variants.len() ==> self.has_word((#[trigger] self.variants[i]).word_id)
    }
}

/// A scan that saw no matching id up to `k` finds whatever the rest holds.
proof fn lemma_find_word_skip(ws: Seq<WordView>, id: u32, k: int)
    requires
        0 <= k <= ws.len(),
        forall|j: int| 0 <= j < k ==> (#[trigger] ws[j]).id != id,
    ensures
        find_word_in(ws, id) == find_word_in(ws.subrange(k, ws.len() as int), id),
    decreases k,
{
    if k == 0 {
        assert(ws.subrange(0, ws.len() as int) =~= ws);
    } else {
        assert(ws[0].id != id);
        assert forall|j: int| 0 <= j < k - 1 implies (#[trigger] ws.drop_first()[j]).id != id by {
            assert(ws.drop_first()[j] == ws[j + 1]);
        }
        lemma_find_word_skip(ws.drop_first(), id, k - 1);
        assert(ws.drop_first().subrange(k - 1, ws.drop_first().len() as int) =~= ws.subrange(
            k,
            ws.len() as int,
        ));
    }
}

/// The scan finds the first match: if `ws[k]` carries the id and nothing
/// before it does, that row is the result.
pub proof fn lemma_find_word_at(ws: Seq<WordView>, id: u32, k: int)
    requires
        0 <= k < ws.len(),
        ws[k].id == id,
        forall|j: int| 0 <= j < k ==> (#[trigger] ws[j]).id != id,
    ensures
        find_word_in(ws, id) == Some(ws[k]),
{
    lemma_find_word_skip(ws, id, k);
    assert(ws.subrange(k, ws.len() as int)[0] == ws[k]);
}

/// The scan finds a word exactly when some row carries the id.
pub proof fn lemma_find_word_some(ws: Seq<WordView>, id: u32)
    ensures
        find_word_in(ws, id).is_some() <==> exists|i: int|
            0 <= i < ws.len() && (#[trigger] ws[i]).id == id,
        find_word_in(ws, id).is_some() ==> find_word_in(ws, id).unwrap().id == id,
    decreases ws.len(),
{
    if ws.len() > 0 && ws[0].id != id {
        lemma_find_word_some(ws.drop_first(), id);
        if exists|i: int| 0 <= i < ws.len() && (#[trigger] ws[i]).id == id {
            let i = choose|i: int| 0 <= i < ws.len() && (#[trigger] ws[i]).id == id;
            assert(ws.drop_first()[i - 1].id == id);
        }
        if find_word_in(ws, id).is_some() {
            let wd = ws.drop_first();
            let i = choose|i: int| 0 <= i < wd.len() && (#[trigger] wd[i]).id == id;
            assert(ws[i + 1].id == id);
        }
    }
}

impl Store {
    /// A fresh, empty store; the first word inserted will receive id 1.
    pub fn new() -> (s: Store)
        ensures
            s@.wf(),
            s@.words =~= Seq::<WordView>::empty(),
            s@.variants =~= Seq::<VariantRowView>::empty(),
            s@.links =~= Seq::<Link>::empty(),
            s@.log =~= Seq::<QueryLogEntry>::empty(),
            s@.next_id == 1,
    {
        Store { words: Vec::new(), variants: Vec::new(), links: Vec::new(), log: Vec::new(), next_id: 1 }
    }

    /// Whether some word row carries the given id.
    pub fn has_word_exec(&self, id: u32) -> (r: bool)
        ensures
            r == self@.has_word(id),
    {
        let mut i: usize = 0;
        while i < self.words.len()
            invariant
                0 <= i <= self.words.len(),
                self@.words.len() == self.words.len(),
                forall|j: int| 0 <= j < i ==> (#[trigger] self@.words[j]).id != id,
            decreases self.words.len() - i,
        {
            proof {
                assert(self@.words[i as int] == self.words@[i as int]@);
            }
            if self.words[i].id == id {
                proof {
                    assert(self@.words[i as int].id == id);
                }
                return true;
            }
            i = i + 1;
        }
        false
    }

    /// Validation of loaded rows: whether this store is well-formed — word
    /// ids unique and below the next free id, no self-links, every link
    /// endpoint and variant owner an existing word. The adapter loading rows
    /// from a real database runs this before handing the store to the core.
    pub fn check_wf(&self) -> (r: bool)
        ensures
            r == self@.wf(),
    {
        let mut i: usize = 0;
        while i < self.words.len()
            invariant
                0 <= i <= self.words.len(),
                self@.words.len() == self.words.len(),
                forall|k: int| 0 <= k < i ==> (#[trigger] self@.words[k]).id < self@.next_id,
                forall|a: int, b: int|
                    0 <= a < i && a < b < self@.words.len() ==> (#[trigger] self@.words[a]).id != (
                    #[trigger] self@.words[b]).id,
            decreases self.words.len() - i,
        {
            proof {
                assert(self@.words[i as int] == self.words@[i as int]@);
            }
            if self.words[i].id >= self.next_id {
                proof {
                    assert(self@.words[i as int].id >= self@.next_id);
                }
                return false;
            }
            let mut j: usize = i + 1;
            while j < self.words.len()
                invariant
                    i < j <= self.words.len(),
                    self@.words.len() == self.words.len(),
                    forall|k: int|
                        i < k < j ==> (#[trigger] self@.words[k]).id != self@.words[i as int].id,
                decreases self.words.len() - j,
            {
                proof {
                    assert(self@.words[j as int] == self.words@[j as int]@);
                }
                if self.words[j].id == self.words[i].id {
                    proof {
                        assert(self@.words[i as int].id == self@.words[j as int].id);
                    }
                    return false;
                }
                j = j + 1;
            }
            i = i + 1;
        }
        let mut i: usize = 0;
        while i < self.links.len()
            invariant
                0 <= i <= self.links.len(),
                self@.links.len() == self.links.len(),
                forall|k: int|
                    0 <= k < i ==> (#[trigger] self@.links[k]).word_a_id
                        != self@.links[k].word_b_id,
                forall|k: int|
                    0 <= k < i ==> self@.has_word((#[trigger] self@.links[k]).word_a_id)
                        && self@.has_word(self@.links[k].word_b_id),
            decreases self.links.len() - i,
        {
            let link = self.links[i];
            if link.word_a_id == link.word_b_id {
                return false;
            }
            if !self.has_word_exec(link.word_a_id) {
                return false;
            }
            if !self.has_word_exec(link.word_b_id) {
                return false;
            }
            i = i + 1;
        }
        let mut i: usize = 0;
        while i < self.variants.len()
            invariant
                0 <= i <= self.variants.len(),
                self@.variants.len() == self.variants.len(),
                forall|k: int| 0 <= k < i ==> self@.has_word((#[trigger] self@.variants[k]).word_id),
            decreases self.variants.len() - i,
        {
            proof {
                assert(self@.variants[i as int] == self.variants@[i as int]@);
            }
            if !self.has_word_exec(self.variants[i].word_id) {
                return false;
            }
            i = i + 1;
        }
        true
    }

    /// Lookup of a word by id. Returns the row carrying the id, or `NotFound`
    /// when no row does — absence, never a silent default.
    pub fn get_by_id(&self, id: u32) -> (r: Result<Word, CoreError>)
        ensures
            match r {
                Ok(w) => self@.word(id) == Some(w@),
                Err(e) => e == CoreError::NotFound && self@.word(id) is None,
            },
            r is Ok <==> self@.has_word(id),
    {
        let ghost ws = self@.words;
        let mut i: usize = 0;
        while i < self.words.len()
            invariant
                0 <= i <= self.words.len(),
                ws == self@.words,
                ws.len() == self.words.len(),
                forall|j: int| 0 <= j < i ==> (#[trigger] ws[j]).id != id,
            decreases self.words.len() - i,
        {
            if self.words[i].id == id {
                proof {
                    lemma_find_word_at(ws, id, i as int);
                }
                return Ok(self.words[i].clone());
            }
            i = i + 1;
        }
        proof {
            lemma_find_word_some(ws, id);
        }
        Err(CoreError::NotFound)
    }

    /// Prefix search: trims the query of surrounding whitespace, then returns
    /// every word whose value it is a case-insensitive prefix of, in storage
    /// order. An unmatched query yields an empty result, never an error.
    pub fn search_by_prefix(&self, query: &str) -> (r: Vec<Word>)
        ensures
            r@.map_values(|w: Word| w@) == matching_words(self@.words, trimmed(query@)),
    {
        let q = trim_spaces(query);
        let mut out: Vec<Word> = Vec::new();
        let mut i: usize = 0;
        while i < self.words.len()
            invariant
                0 <= i <= self.words.len(),
                q@ == trimmed(query@),
                self@.words.len() == self.words.len(),
                out@.map_values(|w: Word| w@) == matching_words(
                    self@.words.subrange(0, i as int),
                    trimmed(query@),
                ),
            decreases self.words.len() - i,
        {
            let ghost prefix_part = self@.words.subrange(0, i as int);
            let ghost next_part = self@.words.subrange(0, i + 1);
            proof {
                assert(next_part.drop_last() =~= prefix_part);
                assert(next_part.last() == self@.words[i as int]);
            }
            if matches_prefix(q, self.words[i].value.as_str()) {
                out.push(self.words[i].clone());
                proof {
                    assert(out@.map_values(|w: Word| w@) =~= matching_words(
                        next_part,
                        trimmed(query@),
                    ));
                }
            } else {
                proof {
                    assert(out@.map_values(|w: Word| w@) =~= matching_words(
                        next_part,
                        trimmed(query@),
                    ));
                }
            }
            i = i + 1;
        }
        proof {
            assert(self@.words.subrange(0, self@.words.len() as int) =~= self@.words);
        }
        out
    }

    /// The variants of a word, in storage order. A word without variants
    /// yields an empty sequence — absence of variants is not an error.
    pub fn get_variants(&self, word_id: u32) -> (r: Vec<Variant>)
        ensures
            r@.map_values(|v: Variant| v@) == variants_of(self@.variants, word_id),
    {
        let mut out: Vec<Variant> = Vec::new();
        let mut i: usize = 0;
        while i < self.variants.len()
            invariant
                0 <= i <= self.variants.len(),
                self@.variants.len() == self.variants.len(),
                out@.map_values(|v: Variant| v@) == variants_of(
                    self@.variants.subrange(0, i as int),
                    word_id,
                ),
            decreases self.variants.len() - i,
        {
            let ghost prefix_part = self@.variants.subrange(0, i as int);
            let ghost next_part = self@.variants.subrange(0, i + 1);
            proof {
                assert(next_part.drop_last() =~= prefix_part);
                assert(next_part.last() == self@.variants[i as int]);
            }
            if self.variants[i].word_id == word_id {
                out.push(self.variants[i].variant.clone());
            }
            proof {
                assert(out@.map_values(|v: Variant| v@) =~= variants_of(
                    next_part,
                    word_id,
                ));
            }
            i = i + 1;
        }
        proof {
            assert(self@.variants.subrange(0, self@.variants.len() as int) =~= self@.variants);
        }
        out
    }
}

} // verus!
