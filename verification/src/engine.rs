//! The tokenization engine, specified from the bottom up: longest-prefix
//! lookup in one table, the ranked three-table match at a cursor, the greedy
//! segment tokenizer, the per-word assembly with uppercase markers, and the
//! space-splitting text assembler.

use vstd::prelude::*;

verus! {

use vstd::string::StringExecFns;
use vstd::string::StrSliceExecFns;
use crate::casing::has_visible;
use crate::casing::spec_camel_split;
use crate::outside::is_upper;
use crate::types::TokenModel;
use crate::types::TokenType;
use crate::types::VocabModel;
use crate::vocab::map_of;
use crate::vocab::table_get;

/// The smaller of two lengths.
pub open spec fn cap_len(a: nat, b: nat) -> nat {
    if a <= b {
        a
    } else {
        b
    }
}

/// The longest `l` with `1 <= l <= k` such that the first `l` characters of
/// `s` are a key of `m`; `None` if there is none. Candidate lengths beyond
/// `s` itself never match.
pub open spec fn lp(m: Map<Seq<char>, u32>, s: Seq<char>, k: nat) -> Option<nat>
    decreases k,
{
    if k == 0 {
        None
    } else if k <= s.len() && m.contains_key(s.subrange(0, k as int)) {
        Some(k)
    } else {
        lp(m, s, (k - 1) as nat)
    }
}

/// What a longest-prefix result means: a match is a key, lies in range, and
/// no longer candidate matches; no match means no candidate matches at all.
pub proof fn lemma_lp_spec(m: Map<Seq<char>, u32>, s: Seq<char>, k: nat)
    ensures
        match lp(m, s, k) {
            Some(l) => 1 <= l <= k && l <= s.len() && m.contains_key(
                s.subrange(0, l as int),
            ) && forall|j: int|
                l < j <= k && j <= s.len() ==> !m.contains_key(s.subrange(0, j)),
            None => forall|j: int| 1 <= j <= k && j <= s.len() ==> !m.contains_key(
                s.subrange(0, j),
            ),
        },
    decreases k,
{
    if k > 0 && !(k <= s.len() && m.contains_key(s.subrange(0, k as int))) {
        lemma_lp_spec(m, s, (k - 1) as nat);
    }
}

/// The ranked match at the start of `s`: the root table's own longest match
/// wins outright; only if the root table has none is the suffix table tried,
/// and only then the byte-pair table. Returns the matched length in
/// characters, the id, and the kind.
pub open spec fn spec_match_at(v: VocabModel, s: Seq<char>) -> Option<(nat, u32, TokenType)> {
    match lp(v.roots, s, cap_len(s.len(), v.max_root)) {
        Some(l) => Some((l, v.roots[s.subrange(0, l as int)], TokenType::Root)),
        None => match lp(v.suffixes, s, cap_len(s.len(), v.max_suffix)) {
            Some(l) => Some((l, v.suffixes[s.subrange(0, l as int)], TokenType::Suffix)),
            None => match lp(v.bpe, s, cap_len(s.len(), v.max_bpe)) {
                Some(l) => Some((l, v.bpe[s.subrange(0, l as int)], TokenType::Bpe)),
                None => None,
            },
        },
    }
}

/// The unknown-marker token.
pub open spec fn unknown_token(v: VocabModel) -> TokenModel {
    TokenModel { text: "<unknown>"@, id: v.unknown_id, kind: TokenType::Root }
}

/// The uppercase-marker token.
pub open spec fn uppercase_token(v: VocabModel) -> TokenModel {
    TokenModel { text: "<uppercase>"@, id: v.uppercase_id, kind: TokenType::Root }
}

/// The space-marker token.
pub open spec fn space_token(v: VocabModel) -> TokenModel {
    TokenModel { text: " "@, id: v.space_id, kind: TokenType::Root }
}

/// The model-level invariant of a constructed tokenizer: the combined
/// mapping layers the three tables with the byte-pair table on top, and the
/// special-marker ids resolve through the root table.
pub open spec fn model_wf(v: VocabModel) -> bool {
    &&& v.combined == v.roots.union_prefer_right(v.suffixes).union_prefer_right(v.bpe)
    &&& v.roots.contains_key("<unknown>"@) && v.roots["<unknown>"@] == v.unknown_id
    &&& v.roots.contains_key("<uppercase>"@) && v.roots["<uppercase>"@] == v.uppercase_id
    &&& v.roots.contains_key(" "@) && v.roots[" "@] == v.space_id
    &&& v.roots.contains_key("<pad>"@) && v.roots["<pad>"@] == v.pad_id
    &&& v.roots.contains_key("<eos>"@) && v.roots["<eos>"@] == v.eos_id
}

/// Greedy tokenization of one already-folded segment: repeatedly take the
/// ranked match at the cursor, or emit the unknown marker and advance by one
/// character.
pub open spec fn spec_tokenize_segment(v: VocabModel, s: Seq<char>) -> Seq<TokenModel>
    decreases s.len(),
    via spec_tokenize_segment_decreases
{
    if s.len() == 0 {
        Seq::empty()
    } else {
        match spec_match_at(v, s) {
            Some((l, id, kind)) => seq![TokenModel { text: s.subrange(0, l as int), id: id, kind: kind }]
                + spec_tokenize_segment(v, s.subrange(l as int, s.len() as int)),
            None => seq![unknown_token(v)] + spec_tokenize_segment(
                v,
                s.subrange(1, s.len() as int),
            ),
        }
    }
}

#[via_fn]
proof fn spec_tokenize_segment_decreases(v: VocabModel, s: Seq<char>) {
    if s.len() > 0 {
        lemma_lp_spec(v.roots, s, cap_len(s.len(), v.max_root));
        lemma_lp_spec(v.suffixes, s, cap_len(s.len(), v.max_suffix));
        lemma_lp_spec(v.bpe, s, cap_len(s.len(), v.max_bpe));
    }
}

/// The tokens of a word's camel-case segments, in order: an uppercase marker
/// ahead of any segment whose first original character is uppercase, then the
/// segment's own tokens.
pub open spec fn seg_tokens(v: VocabModel, w: Seq<char>, segs: Seq<(Seq<char>, nat)>) -> Seq<
    TokenModel,
>
    decreases segs.len(),
{
    if segs.len() == 0 {
        Seq::empty()
    } else {
        let marker: Seq<TokenModel> = if segs[0].1 < w.len() && is_upper(w[segs[0].1 as int]) {
            seq![uppercase_token(v)]
        } else {
            Seq::empty()
        };
        marker + spec_tokenize_segment(v, segs[0].0) + seg_tokens(v, w, segs.drop_first())
    }
}

/// All tokens of one word.
pub open spec fn spec_tokenize_word(v: VocabModel, w: Seq<char>) -> Seq<TokenModel> {
    seg_tokens(v, w, spec_camel_split(w))
}

/// The position of the first space character at or after `i`, if any.
pub open spec fn first_space_from(t: Seq<char>, i: nat) -> Option<nat>
    decreases t.len() - i,
{
    if i >= t.len() {
        None
    } else if t[i as int] == ' ' {
        Some(i)
    } else {
        first_space_from(t, i + 1)
    }
}

pub proof fn lemma_first_space_from(t: Seq<char>, i: nat)
    ensures
        match first_space_from(t, i) {
            Some(j) => i <= j < t.len() && t[j as int] == ' ' && forall|k: int|
                i <= k < j ==> t[k] != ' ',
            None => forall|k: int| i <= k < t.len() ==> t[k] != ' ',
        },
    decreases t.len() - i,
{
    if i < t.len() && t[i as int] != ' ' {
        lemma_first_space_from(t, i + 1);
    }
}

/// If the characters from `i` up to `j` are not spaces and `t[j]` is one,
/// then `j` is the first space position at or after `i`.
pub proof fn lemma_first_space_eq(t: Seq<char>, i: nat, j: int)
    requires
        i <= j < t.len(),
        t[j] == ' ',
        forall|k: int| i <= k < j ==> t[k] != ' ',
    ensures
        first_space_from(t, i) == Some(j as nat),
    decreases j - i,
{
    if i < j {
        lemma_first_space_eq(t, i + 1, j);
    }
}

/// If no character at or after `i` is a space, there is no space position.
pub proof fn lemma_first_space_none(t: Seq<char>, i: nat)
    requires
        forall|k: int| i <= k < t.len() ==> t[k] != ' ',
    ensures
        first_space_from(t, i) is None,
    decreases t.len() - i,
{
    if i < t.len() {
        lemma_first_space_none(t, i + 1);
    }
}

/// The words of `t` from `start` on, split on the space character; empty
/// words are kept, so consecutive spaces produce empty words between them.
pub open spec fn split_from(t: Seq<char>, start: nat) -> Seq<Seq<char>>
    decreases t.len() - start,
    when start <= t.len()
    via split_from_decreases
{
    match first_space_from(t, start) {
        None => seq![t.subrange(start as int, t.len() as int)],
        Some(j) => seq![t.subrange(start as int, j as int)] + split_from(t, j + 1),
    }
}

#[via_fn]
proof fn split_from_decreases(t: Seq<char>, start: nat) {
    lemma_first_space_from(t, start);
}

/// All words of `t`; the empty text is the single empty word.
pub open spec fn spec_split_spaces(t: Seq<char>) -> Seq<Seq<char>> {
    split_from(t, 0)
}

/// Assembly over the word list: a visible word contributes its tokens, and
/// exactly one space marker follows every word but the last.
pub open spec fn spec_assemble(v: VocabModel, words: Seq<Seq<char>>) -> Seq<TokenModel>
    decreases words.len(),
{
    if words.len() == 0 {
        Seq::empty()
    } else {
        let word_part: Seq<TokenModel> = if has_visible(words[0]) {
            spec_tokenize_word(v, words[0])
        } else {
            Seq::empty()
        };
        let sep: Seq<TokenModel> = if words.len() > 1 {
            seq![space_token(v)]
        } else {
            Seq::empty()
        };
        word_part + sep + spec_assemble(v, words.drop_first())
    }
}

/// The full detailed tokenization of a text.
pub open spec fn spec_tokenize_text(v: VocabModel, t: Seq<char>) -> Seq<TokenModel> {
    spec_assemble(v, spec_split_spaces(t))
}

/// The token texts of the detailed tokenization.
pub open spec fn spec_tokenize(v: VocabModel, t: Seq<char>) -> Seq<Seq<char>> {
    spec_tokenize_text(v, t).map_values(|tk: TokenModel| tk.text)
}

/// The token ids of the detailed tokenization.
pub open spec fn spec_encode(v: VocabModel, t: Seq<char>) -> Seq<u32> {
    spec_tokenize_text(v, t).map_values(|tk: TokenModel| tk.id)
}

/// The longest prefix of `s`, at most `max_len` characters, that is a key of
/// the table; returns its id and its owned text.
pub fn longest_prefix_lookup(s: &str, entries: &Vec<(String, u32)>, max_len: usize) -> (r: Option<
    (u32, String),
>)
    ensures
        match r {
            Some(p) => {
                &&& lp(map_of(entries@), s@, cap_len(s@.len(), max_len as nat)) == Some(
                    p.1@.len(),
                )
                &&& p.1@ == s@.subrange(0, p.1@.len() as int)
                &&& map_of(entries@).contains_key(p.1@)
                &&& p.0 == map_of(entries@)[p.1@]
            },
            None => lp(map_of(entries@), s@, cap_len(s@.len(), max_len as nat)) is None,
        },
{
    let n = s.unicode_len();
    let k0 = if n < max_len {
        n
    } else {
        max_len
    };
    let mut k = k0;
    while k > 0
        invariant
            k <= k0,
            k0 <= n,
            n == s@.len(),
            k0 as nat == cap_len(s@.len(), max_len as nat),
            lp(map_of(entries@), s@, k0 as nat) == lp(map_of(entries@), s@, k as nat),
        decreases k,
    {
        let candidate = s.substring_char(0, k);
        match table_get(entries, candidate) {
            Some(id) => {
                let owned = String::from_str(candidate);
                proof {
                    assert(lp(map_of(entries@), s@, k as nat) == Some(k as nat));
                }
                return Some((id, owned));
            },
            None => {},
        }
        k = k - 1;
    }
    None
}

} // verus!
