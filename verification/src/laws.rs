//! Laws of the tokenizer, stated over the vocabulary model and proved once
//! and for all: the summary views project the detailed view, the empty and
//! all-space texts tokenize to what the assembler owes them, tokenization is
//! a pure function of the vocabulary and the text, and every emitted token
//! resolves through the combined vocabulary when the three tables agree on
//! shared keys.

use vstd::prelude::*;

verus! {

use crate::casing::spec_camel_split;
use crate::engine::model_wf;
use crate::engine::lemma_lp_spec;
use crate::engine::cap_len;
use crate::engine::lp;
use crate::engine::seg_tokens;
use crate::engine::space_token;
use crate::engine::spec_assemble;
use crate::engine::spec_encode;
use crate::engine::spec_match_at;
use crate::engine::spec_split_spaces;
use crate::engine::split_from;
use crate::engine::spec_tokenize;
use crate::engine::spec_tokenize_segment;
use crate::engine::spec_tokenize_text;
use crate::engine::spec_tokenize_word;
use crate::engine::unknown_token;
use crate::engine::uppercase_token;
use crate::types::TokenModel;
use crate::types::TokenType;
use crate::types::VocabModel;

/// The ids returned by encoding are exactly the ids of the detailed
/// tokenization, in order.
pub proof fn lemma_encode_projects_tokenize_text(v: VocabModel, t: Seq<char>)
    ensures
        spec_encode(v, t) == spec_tokenize_text(v, t).map_values(|tk: TokenModel| tk.id),
{
}

/// The token texts returned by tokenizing are exactly the texts of the
/// detailed tokenization, in order.
pub proof fn lemma_tokenize_projects_tokenize_text(v: VocabModel, t: Seq<char>)
    ensures
        spec_tokenize(v, t) == spec_tokenize_text(v, t).map_values(|tk: TokenModel| tk.text),
{
}

/// The empty text tokenizes to no tokens at all.
pub proof fn lemma_tokenize_empty(v: VocabModel)
    ensures
        spec_tokenize_text(v, Seq::<char>::empty()) == Seq::<TokenModel>::empty(),
        spec_encode(v, Seq::<char>::empty()) == Seq::<u32>::empty(),
        spec_tokenize(v, Seq::<char>::empty()) == Seq::<Seq<char>>::empty(),
{
    let t = Seq::<char>::empty();
    assert(spec_split_spaces(t) == seq![t.subrange(0, 0)]);
    assert(t.subrange(0, 0) =~= t);
    let words = spec_split_spaces(t);
    assert(spec_assemble(v, words.drop_first()) == Seq::<TokenModel>::empty());
    assert(spec_tokenize_text(v, t) =~= Seq::<TokenModel>::empty());
    assert(spec_encode(v, t) =~= Seq::<u32>::empty());
    assert(spec_tokenize(v, t) =~= Seq::<Seq<char>>::empty());
}

/// A single space tokenizes to exactly one space marker.
pub proof fn lemma_tokenize_single_space(v: VocabModel)
    ensures
        spec_tokenize_text(v, seq![' ']) == seq![space_token(v)],
{
    let t = seq![' '];
    assert(crate::engine::first_space_from(t, 0) == Some(0nat));
    assert(split_from(t, 1) == seq![t.subrange(1, 1)]);
    assert(spec_split_spaces(t) == seq![t.subrange(0, 0)] + split_from(t, 1));
    let words = spec_split_spaces(t);
    assert(words =~= seq![t.subrange(0, 0), t.subrange(1, 1)]);
    assert(t.subrange(0, 0) =~= Seq::<char>::empty());
    assert(t.subrange(1, 1) =~= Seq::<char>::empty());
    assert(words.drop_first() =~= seq![t.subrange(1, 1)]);
    assert(words.drop_first().drop_first() =~= Seq::<Seq<char>>::empty());
    assert(spec_assemble(v, words.drop_first().drop_first()) == Seq::<TokenModel>::empty());
    assert(spec_assemble(v, words.drop_first()) =~= Seq::<TokenModel>::empty());
    assert(spec_tokenize_text(v, t) =~= seq![space_token(v)]);
}

/// Two consecutive spaces tokenize to exactly two space markers.
pub proof fn lemma_tokenize_double_space(v: VocabModel)
    ensures
        spec_tokenize_text(v, seq![' ', ' ']) == seq![space_token(v), space_token(v)],
{
    let t = seq![' ', ' '];
    assert(crate::engine::first_space_from(t, 0) == Some(0nat));
    assert(crate::engine::first_space_from(t, 1) == Some(1nat));
    assert(split_from(t, 2) == seq![t.subrange(2, 2)]);
    assert(split_from(t, 1) == seq![t.subrange(1, 1)] + split_from(t, 2));
    assert(spec_split_spaces(t) == seq![t.subrange(0, 0)] + split_from(t, 1));
    let words = spec_split_spaces(t);
    assert(words =~= seq![t.subrange(0, 0), t.subrange(1, 1), t.subrange(2, 2)]);
    assert(t.subrange(0, 0) =~= Seq::<char>::empty());
    assert(t.subrange(1, 1) =~= Seq::<char>::empty());
    assert(t.subrange(2, 2) =~= Seq::<char>::empty());
    assert(words.drop_first() =~= seq![t.subrange(1, 1), t.subrange(2, 2)]);
    assert(words.drop_first().drop_first() =~= seq![t.subrange(2, 2)]);
    assert(words.drop_first().drop_first().drop_first() =~= Seq::<Seq<char>>::empty());
    assert(spec_assemble(v, words.drop_first().drop_first().drop_first())
        == Seq::<TokenModel>::empty());
    assert(spec_assemble(v, words.drop_first().drop_first()) =~= Seq::<TokenModel>::empty());
    assert(spec_assemble(v, words.drop_first()) =~= seq![space_token(v)]);
    assert(spec_tokenize_text(v, t) =~= seq![space_token(v), space_token(v)]);
}

/// Tokenization is a pure function of the vocabulary and the text: two runs
/// over the same input yield the same tokens. The executable entry point's
/// contract pins its result to `spec_tokenize_text`, so this holds of two
/// calls as well.
pub proof fn lemma_tokenize_deterministic(
    v: VocabModel,
    t: Seq<char>,
    first: Seq<TokenModel>,
    second: Seq<TokenModel>,
)
    requires
        first == spec_tokenize_text(v, t),
        second == spec_tokenize_text(v, t),
    ensures
        first == second,
{
}

/// Whether the three tables give every shared key the same id.
pub open spec fn tables_agree(v: VocabModel) -> bool {
    &&& forall|k: Seq<char>|
        v.roots.contains_key(k) && v.suffixes.contains_key(k) ==> v.roots[k] == v.suffixes[k]
    &&& forall|k: Seq<char>|
        v.roots.contains_key(k) && v.bpe.contains_key(k) ==> v.roots[k] == v.bpe[k]
    &&& forall|k: Seq<char>|
        v.suffixes.contains_key(k) && v.bpe.contains_key(k) ==> v.suffixes[k] == v.bpe[k]
}

/// A token resolves when the combined vocabulary maps its text to its id.
pub open spec fn token_resolves(v: VocabModel, tk: TokenModel) -> bool {
    v.combined.contains_key(tk.text) && v.combined[tk.text] == tk.id
}

/// Under agreement, a key of any one table keeps that table's id in the
/// combined vocabulary.
proof fn lemma_combined_of_table(v: VocabModel, k: Seq<char>)
    requires
        model_wf(v),
        tables_agree(v),
    ensures
        v.roots.contains_key(k) ==> v.combined.contains_key(k) && v.combined[k] == v.roots[k],
        v.suffixes.contains_key(k) ==> v.combined.contains_key(k) && v.combined[k]
            == v.suffixes[k],
        v.bpe.contains_key(k) ==> v.combined.contains_key(k) && v.combined[k] == v.bpe[k],
{
}

/// Every token of one segment resolves through the combined vocabulary.
proof fn lemma_segment_resolves(v: VocabModel, s: Seq<char>)
    requires
        model_wf(v),
        tables_agree(v),
    ensures
        forall|i: int| 0 <= i < spec_tokenize_segment(v, s).len() ==> token_resolves(
            v,
            #[trigger] spec_tokenize_segment(v, s)[i],
        ),
    decreases s.len(),
{
    if s.len() == 0 {
    } else {
        let head: TokenModel;
        let step: nat;
        match spec_match_at(v, s) {
            Some((l, id, kind)) => {
                lemma_lp_spec(v.roots, s, cap_len(s.len(), v.max_root));
                lemma_lp_spec(v.suffixes, s, cap_len(s.len(), v.max_suffix));
                lemma_lp_spec(v.bpe, s, cap_len(s.len(), v.max_bpe));
                lemma_combined_of_table(v, s.subrange(0, l as int));
                head = TokenModel { text: s.subrange(0, l as int), id: id, kind: kind };
                step = l;
                assert(token_resolves(v, head));
            },
            None => {
                lemma_combined_of_table(v, "<unknown>"@);
                head = unknown_token(v);
                step = 1;
                assert(token_resolves(v, head));
            },
        }
        lemma_segment_resolves(v, s.subrange(step as int, s.len() as int));
        let tail = spec_tokenize_segment(v, s.subrange(step as int, s.len() as int));
        assert(spec_tokenize_segment(v, s) == seq![head] + tail);
        assert forall|i: int| 0 <= i < spec_tokenize_segment(v, s).len() implies token_resolves(
            v,
            #[trigger] spec_tokenize_segment(v, s)[i],
        ) by {
            if i == 0 {
                assert(spec_tokenize_segment(v, s)[0] == head);
            } else {
                assert(spec_tokenize_segment(v, s)[i] == tail[i - 1]);
            }
        }
    }
}

/// Every token of one word resolves through the combined vocabulary.
proof fn lemma_word_resolves(v: VocabModel, w: Seq<char>, segs: Seq<(Seq<char>, nat)>)
    requires
        model_wf(v),
        tables_agree(v),
    ensures
        forall|i: int| 0 <= i < seg_tokens(v, w, segs).len() ==> token_resolves(
            v,
            #[trigger] seg_tokens(v, w, segs)[i],
        ),
    decreases segs.len(),
{
    if segs.len() == 0 {
    } else {
        lemma_combined_of_table(v, "<uppercase>"@);
        lemma_segment_resolves(v, segs[0].0);
        lemma_word_resolves(v, w, segs.drop_first());
        let marker: Seq<TokenModel> = if segs[0].1 < w.len() && crate::outside::is_upper(
            w[segs[0].1 as int],
        ) {
            seq![uppercase_token(v)]
        } else {
            Seq::empty()
        };
        let own = spec_tokenize_segment(v, segs[0].0);
        let rest = seg_tokens(v, w, segs.drop_first());
        assert(seg_tokens(v, w, segs) == marker + own + rest);
        assert forall|i: int| 0 <= i < seg_tokens(v, w, segs).len() implies token_resolves(
            v,
            #[trigger] seg_tokens(v, w, segs)[i],
        ) by {
            if i < marker.len() {
                assert(seg_tokens(v, w, segs)[i] == uppercase_token(v));
                assert(token_resolves(v, uppercase_token(v)));
            } else if i < marker.len() + own.len() {
                assert(seg_tokens(v, w, segs)[i] == own[i - marker.len()]);
            } else {
                assert(seg_tokens(v, w, segs)[i] == rest[i - marker.len() - own.len()]);
            }
        }
    }
}

/// Every token of an assembled word list resolves through the combined
/// vocabulary.
proof fn lemma_assemble_resolves(v: VocabModel, words: Seq<Seq<char>>)
    requires
        model_wf(v),
        tables_agree(v),
    ensures
        forall|i: int| 0 <= i < spec_assemble(v, words).len() ==> token_resolves(
            v,
            #[trigger] spec_assemble(v, words)[i],
        ),
    decreases words.len(),
{
    if words.len() == 0 {
    } else {
        lemma_combined_of_table(v, " "@);
        lemma_word_resolves(v, words[0], spec_camel_split(words[0]));
        lemma_assemble_resolves(v, words.drop_first());
        let word_part: Seq<TokenModel> = if crate::casing::has_visible(words[0]) {
            spec_tokenize_word(v, words[0])
        } else {
            Seq::empty()
        };
        let sep: Seq<TokenModel> = if words.len() > 1 {
            seq![space_token(v)]
        } else {
            Seq::empty()
        };
        let rest = spec_assemble(v, words.drop_first());
        assert(spec_assemble(v, words) == word_part + sep + rest);
        assert forall|i: int| 0 <= i < spec_assemble(v, words).len() implies token_resolves(
            v,
            #[trigger] spec_assemble(v, words)[i],
        ) by {
            if i < word_part.len() {
                assert(spec_assemble(v, words)[i] == word_part[i]);
                assert(word_part[i] == seg_tokens(v, words[0], spec_camel_split(words[0]))[i]);
            } else if i < word_part.len() + sep.len() {
                assert(spec_assemble(v, words)[i] == space_token(v));
                assert(token_resolves(v, space_token(v)));
            } else {
                assert(spec_assemble(v, words)[i] == rest[i - word_part.len() - sep.len()]);
            }
        }
    }
}

/// When the three tables give every shared key the same id, every token that
/// tokenization emits — dictionary matches and markers alike — is found in
/// the combined vocabulary under its own text, with the very id it carries.
pub proof fn lemma_tokens_resolve(v: VocabModel, t: Seq<char>)
    requires
        model_wf(v),
        tables_agree(v),
    ensures
        forall|i: int| 0 <= i < spec_tokenize_text(v, t).len() ==> token_resolves(
            v,
            #[trigger] spec_tokenize_text(v, t)[i],
        ),
{
    lemma_assemble_resolves(v, spec_split_spaces(t));
}

/// Every key of the combined vocabulary keeps the id of the
/// highest-precedence source table that holds it, so every combined id is
/// reachable from one of the three tables.
pub proof fn lemma_combined_ids_reachable(v: VocabModel, k: Seq<char>)
    requires
        model_wf(v),
    ensures
        v.combined.contains_key(k) ==> {
            ||| v.bpe.contains_key(k) && v.combined[k] == v.bpe[k]
            ||| !v.bpe.contains_key(k) && v.suffixes.contains_key(k) && v.combined[k]
                == v.suffixes[k]
            ||| !v.bpe.contains_key(k) && !v.suffixes.contains_key(k) && v.roots.contains_key(
                k,
            ) && v.combined[k] == v.roots[k]
        },
{
}

/// A correctly initialized vocabulary contains all five special tokens; and
/// when the tables agree on shared keys, each resolves to its root-table id.
pub proof fn lemma_specials_in_vocab(v: VocabModel)
    requires
        model_wf(v),
    ensures
        v.combined.contains_key("<pad>"@),
        v.combined.contains_key("<eos>"@),
        v.combined.contains_key("<uppercase>"@),
        v.combined.contains_key("<unknown>"@),
        v.combined.contains_key(" "@),
        tables_agree(v) ==> v.combined["<pad>"@] == v.pad_id && v.combined["<eos>"@]
            == v.eos_id && v.combined["<uppercase>"@] == v.uppercase_id
            && v.combined["<unknown>"@] == v.unknown_id && v.combined[" "@] == v.space_id,
{
    if tables_agree(v) {
        lemma_combined_of_table(v, "<pad>"@);
        lemma_combined_of_table(v, "<eos>"@);
        lemma_combined_of_table(v, "<uppercase>"@);
        lemma_combined_of_table(v, "<unknown>"@);
        lemma_combined_of_table(v, " "@);
    }
}

} // verus!
