//! Language tags. Every word carries exactly one of the two configured tags.
//! An unrecognized code falls back to the first tag rather than erroring: a
//! deliberate, documented policy of the storage row decoder.

use vstd::prelude::*;

verus! {

/// The two configured language tags: the first slot of a pair is always `De`,
/// the second always `Fa`.
#[derive(Clone, Copy, Debug, PartialEq, Eq, Structural)]
pub enum Lang {
    De,
    Fa,
}

/// The storage code of the first tag.
pub open spec fn de_code() -> Seq<char> {
    seq!['D', 'E']
}

/// The storage code of the second tag.
pub open spec fn fa_code() -> Seq<char> {
    seq!['F', 'A']
}

/// What decoding a stored language code yields: `FA` maps to `Fa`, and every
/// other code — `DE` included — maps to `De`, the fallback tag.
pub open spec fn lang_of_code(code: Seq<char>) -> Lang {
    if code == fa_code() {
        Lang::Fa
    } else {
        Lang::De
    }
}

/// The code under which a tag is stored.
pub open spec fn code_of_lang(lang: Lang) -> Seq<char> {
    match lang {
        Lang::De => de_code(),
        Lang::Fa => fa_code(),
    }
}

/// Decodes a stored language code, falling back to `De` on anything
/// unrecognized.
pub fn parse_lang(code: &str) -> (r: Lang)
    ensures
        r == lang_of_code(code@),
{
    let n = code.unicode_len();
    if n == 2 && code.get_char(0) == 'F' && code.get_char(1) == 'A' {
        proof {
            assert(code@ =~= fa_code());
        }
        Lang::Fa
    } else {
        proof {
            if code@ == fa_code() {
                assert(code@.len() == 2);
                assert(code@[0] == 'F' && code@[1] == 'A');
            }
        }
        Lang::De
    }
}

/// The code a tag is written out as.
pub fn lang_code(lang: Lang) -> (r: &'static str)
    ensures
        r@ == code_of_lang(lang),
{
    match lang {
        Lang::De => {
            proof {
                reveal_strlit("DE");
                assert("DE"@ =~= de_code());
            }
            "DE"
        },
        Lang::Fa => {
            proof {
                reveal_strlit("FA");
                assert("FA"@ =~= fa_code());
            }
            "FA"
        },
    }
}

/// Writing a tag out and decoding it again yields the same tag: the fallback
/// policy never distorts a code the core itself produced.
pub proof fn lemma_lang_code_round_trip(lang: Lang)
    ensures
        lang_of_code(code_of_lang(lang)) == lang,
{
    assert(de_code() != fa_code());
}

} // verus!
