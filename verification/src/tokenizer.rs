//! The tokenizer itself: its vocabulary state, its construction from three
//! dictionaries, and the public tokenize/encode/lookup operations.

use vstd::prelude::*;

verus! {

use vstd::string::StringExecFns;
use vstd::string::StrSliceExecFns;
use crate::casing::camel_split;
use crate::casing::seg_views;
use crate::casing::spec_camel_split;
use crate::casing::word_has_visible;
use crate::engine::cap_len;
use crate::engine::longest_prefix_lookup;
use crate::engine::lemma_first_space_eq;
use crate::engine::lemma_first_space_none;
use crate::engine::lemma_lp_spec;
use crate::engine::seg_tokens;
use crate::engine::spec_assemble;
use crate::engine::spec_encode;
use crate::engine::spec_match_at;
use crate::engine::spec_split_spaces;
use crate::engine::split_from;
use crate::engine::spec_tokenize;
use crate::engine::spec_tokenize_segment;
use crate::engine::spec_tokenize_text;
use crate::engine::spec_tokenize_word;
use crate::engine::space_token;
use crate::engine::unknown_token;
use crate::engine::uppercase_token;
use crate::outside::json_entries_of;
use crate::outside::json_parses;
use crate::outside::parse_entries;
use crate::types::EncodingResult;
use crate::types::InitializationError;
use crate::types::Token;
use crate::types::TokenType;
use crate::types::VocabModel;
use crate::types::lemma_token_views_push;
use crate::types::token_views;
use crate::vocab::distinct_keys;
use crate::vocab::is_max_key_len;
use crate::vocab::lemma_max_key_len_of_map;
use crate::vocab::lemma_map_of_card;
use crate::vocab::lemma_map_of_cons;
use crate::vocab::lemma_map_of_contains;
use crate::vocab::map_get;
use crate::vocab::map_of;
use crate::vocab::max_key_chars;
use crate::vocab::max_key_len;
use crate::vocab::table_get;

/// The five special tokens that the root table must supply.
pub open spec fn specials_present(roots: Map<Seq<char>, u32>) -> bool {
    &&& roots.contains_key("<uppercase>"@)
    &&& roots.contains_key("<unknown>"@)
    &&& roots.contains_key(" "@)
    &&& roots.contains_key("<pad>"@)
    &&& roots.contains_key("<eos>"@)
}

/// The tokenizer: three ranked dictionaries, the combined vocabulary derived
/// from them, their maximum key lengths in characters, and the pre-resolved
/// special tokens. All state is immutable after construction.
pub struct TurkishTokenizer {
    roots: Vec<(String, u32)>,
    suffixes: Vec<(String, u32)>,
    bpe_tokens: Vec<(String, u32)>,
    vocab: Vec<(String, u32)>,
    max_root_len: usize,
    max_suffix_len: usize,
    max_bpe_len: usize,
    uppercase_marker: Token,
    unknown_marker: Token,
    space_marker: Token,
    pub pad_token: String,
    pub eos_token: String,
    pub pad_token_id: u32,
    pub eos_token_id: u32,
}

impl View for TurkishTokenizer {
    type V = VocabModel;

    closed spec fn view(&self) -> VocabModel {
        VocabModel {
            roots: map_of(self.roots@),
            suffixes: map_of(self.suffixes@),
            bpe: map_of(self.bpe_tokens@),
            combined: map_of(self.vocab@),
            max_root: self.max_root_len as nat,
            max_suffix: self.max_suffix_len as nat,
            max_bpe: self.max_bpe_len as nat,
            unknown_id: self.unknown_marker.id,
            uppercase_id: self.uppercase_marker.id,
            space_id: self.space_marker.id,
            pad_id: self.pad_token_id,
            eos_id: self.eos_token_id,
        }
    }
}

/// Splits the text on the space character, keeping empty words, so that the
/// result always holds one word more than the text holds spaces.
fn split_spaces(text: &str) -> (r: Vec<String>)
    ensures
        r@.map_values(|w: String| w@) == spec_split_spaces(text@),
{
    let n = text.unicode_len();
    let mut words: Vec<String> = Vec::new();
    let mut start: usize = 0;
    let mut i: usize = 0;
    proof {
        assert(words@.map_values(|w: String| w@) + split_from(text@, 0) =~= split_from(
            text@,
            0,
        ));
    }
    while i < n
        invariant
            start <= i <= n,
            n == text@.len(),
            forall|k: int| start <= k < i ==> text@[k] != ' ',
            spec_split_spaces(text@) == words@.map_values(|w: String| w@) + split_from(
                text@,
                start as nat,
            ),
        decreases n - i,
    {
        let c = text.get_char(i);
        if c == ' ' {
            let ghost before = words@;
            let w = String::from_str(text.substring_char(start, i));
            words.push(w);
            proof {
                lemma_first_space_eq(text@, start as nat, i as int);
                assert(words@.map_values(|x: String| x@) =~= before.map_values(|x: String| x@)
                    + seq![text@.subrange(start as int, i as int)]);
                assert(spec_split_spaces(text@) =~= words@.map_values(|x: String| x@)
                    + split_from(text@, (i + 1) as nat));
            }
            start = i + 1;
        }
        i = i + 1;
    }
    let ghost before = words@;
    let w = String::from_str(text.substring_char(start, n));
    words.push(w);
    proof {
        lemma_first_space_none(text@, start as nat);
        assert(split_from(text@, start as nat) == seq![
            text@.subrange(start as int, n as int),
        ]);
        assert(words@.map_values(|x: String| x@) =~= before.map_values(|x: String| x@) + seq![
            text@.subrange(start as int, n as int),
        ]);
        assert(words@.map_values(|x: String| x@) =~= spec_split_spaces(text@));
    }
    words
}

/// Copies the entries of `src` onto the end of `dst`.
fn push_all(dst: &mut Vec<(String, u32)>, src: &Vec<(String, u32)>)
    ensures
        final(dst)@ == old(dst)@ + src@,
{
    proof {
        assert(old(dst)@ + src@.subrange(0, 0) =~= old(dst)@);
    }
    let mut i: usize = 0;
    while i < src.len()
        invariant
            i <= src.len(),
            dst@ == old(dst)@ + src@.subrange(0, i as int),
        decreases src.len() - i,
    {
        let entry = (src[i].0.clone(), src[i].1);
        dst.push(entry);
        i = i + 1;
        proof {
            assert(old(dst)@ + src@.subrange(0, i as int) =~= (old(dst)@ + src@.subrange(
                0,
                i - 1,
            )).push(src@[i - 1]));
        }
    }
    proof {
        assert(src@.subrange(0, src@.len() as int) =~= src@);
    }
}

/// The combined vocabulary: all entries of the three tables, deduplicated so
/// that a byte-pair entry overrides a suffix entry, which overrides a root
/// entry, exactly as inserting the tables in order would.
fn build_combined(
    roots: &Vec<(String, u32)>,
    suffixes: &Vec<(String, u32)>,
    bpe_tokens: &Vec<(String, u32)>,
) -> (r: Vec<(String, u32)>)
    ensures
        distinct_keys(r@),
        map_of(r@) == map_of(roots@ + suffixes@ + bpe_tokens@),
{
    let mut all: Vec<(String, u32)> = Vec::new();
    push_all(&mut all, roots);
    push_all(&mut all, suffixes);
    push_all(&mut all, bpe_tokens);
    let ghost allv = all@;
    let mut combined: Vec<(String, u32)> = Vec::new();
    let mut i: usize = all.len();
    proof {
        assert(allv.subrange(allv.len() as int, allv.len() as int)
            =~= Seq::<(String, u32)>::empty());
    }
    while i > 0
        invariant
            i <= all.len(),
            all@ == allv,
            distinct_keys(combined@),
            map_of(combined@) == map_of(allv.subrange(i as int, allv.len() as int)),
        decreases i,
    {
        i = i - 1;
        let ghost before = combined@;
        match table_get(&combined, all[i].0.as_str()) {
            Some(_) => {},
            None => {
                proof {
                    lemma_map_of_contains(before, allv[i as int].0@);
                }
                let entry = (all[i].0.clone(), all[i].1);
                combined.push(entry);
            },
        }
        proof {
            lemma_map_of_cons(allv[i as int], allv.subrange(i + 1, allv.len() as int));
            assert(seq![allv[i as int]] + allv.subrange(i + 1, allv.len() as int)
                =~= allv.subrange(i as int, allv.len() as int));
            if !map_of(before).contains_key(allv[i as int].0@) {
                assert(combined@ == before.push(allv[i as int]));
                assert(combined@.drop_last() =~= before);
            }
        }
    }
    proof {
        assert(allv.subrange(0, allv.len() as int) =~= allv);
    }
    combined
}

impl TurkishTokenizer {
    /// Construction-time well-formedness: the maximum lengths and the
    /// combined vocabulary are what the three tables determine, and the five
    /// special tokens resolve through the root table.
    pub closed spec fn wf(&self) -> bool {
        &&& self.max_root_len as nat == max_key_len(self.roots@)
        &&& self.max_suffix_len as nat == max_key_len(self.suffixes@)
        &&& self.max_bpe_len as nat == max_key_len(self.bpe_tokens@)
        &&& distinct_keys(self.vocab@)
        &&& map_of(self.vocab@) == map_of(self.roots@ + self.suffixes@ + self.bpe_tokens@)
        &&& self.unknown_marker@ == unknown_token(self@)
        &&& self.uppercase_marker@ == uppercase_token(self@)
        &&& self.space_marker@ == space_token(self@)
        &&& self@.roots.contains_key("<unknown>"@) && self@.roots["<unknown>"@]
            == self@.unknown_id
        &&& self@.roots.contains_key("<uppercase>"@) && self@.roots["<uppercase>"@]
            == self@.uppercase_id
        &&& self@.roots.contains_key(" "@) && self@.roots[" "@] == self@.space_id
        &&& self@.roots.contains_key("<pad>"@) && self@.roots["<pad>"@] == self@.pad_id
        &&& self@.roots.contains_key("<eos>"@) && self@.roots["<eos>"@] == self@.eos_id
        &&& self.pad_token@ == "<pad>"@
        &&& self.eos_token@ == "<eos>"@
    }

    /// A well-formed tokenizer's model satisfies the model-level invariant.
    pub proof fn lemma_wf_model(&self)
        requires
            self.wf(),
        ensures
            crate::engine::model_wf(self@),
    {
        crate::vocab::lemma_map_of_concat(self.roots@ + self.suffixes@, self.bpe_tokens@);
        crate::vocab::lemma_map_of_concat(self.roots@, self.suffixes@);
    }

    /// Builds a tokenizer from three dictionaries given as entry lists.
    /// Fails exactly when one of the five special tokens is missing from the
    /// root table.
    pub fn from_entries(
        roots: Vec<(String, u32)>,
        suffixes: Vec<(String, u32)>,
        bpe_tokens: Vec<(String, u32)>,
    ) -> (r: Result<TurkishTokenizer, InitializationError>)
        ensures
            match r {
                Ok(t) => t.wf() && t@.roots == map_of(roots@) && t@.suffixes == map_of(
                    suffixes@,
                ) && t@.bpe == map_of(bpe_tokens@) && t@.max_root == max_key_len(roots@)
                    && t@.max_suffix == max_key_len(suffixes@) && t@.max_bpe == max_key_len(
                    bpe_tokens@,
                ) && specials_present(map_of(roots@)),
                Err(e) => e == InitializationError::MissingSpecialToken && !specials_present(
                    map_of(roots@),
                ),
            },
    {
        let max_root_len = max_key_chars(&roots);
        let max_suffix_len = max_key_chars(&suffixes);
        let max_bpe_len = max_key_chars(&bpe_tokens);
        let vocab = build_combined(&roots, &suffixes, &bpe_tokens);

        let uppercase_id = match table_get(&roots, "<uppercase>") {
            Some(id) => id,
            None => {
                return Err(InitializationError::MissingSpecialToken);
            },
        };
        let unknown_id = match table_get(&roots, "<unknown>") {
            Some(id) => id,
            None => {
                return Err(InitializationError::MissingSpecialToken);
            },
        };
        let space_id = match table_get(&roots, " ") {
            Some(id) => id,
            None => {
                return Err(InitializationError::MissingSpecialToken);
            },
        };
        let pad_token_id = match table_get(&roots, "<pad>") {
            Some(id) => id,
            None => {
                return Err(InitializationError::MissingSpecialToken);
            },
        };
        let eos_token_id = match table_get(&roots, "<eos>") {
            Some(id) => id,
            None => {
                return Err(InitializationError::MissingSpecialToken);
            },
        };

        let uppercase_marker = Token {
            token: String::from_str("<uppercase>"),
            id: uppercase_id,
            token_type: TokenType::Root,
        };
        let unknown_marker = Token {
            token: String::from_str("<unknown>"),
            id: unknown_id,
            token_type: TokenType::Root,
        };
        let space_marker = Token {
            token: String::from_str(" "),
            id: space_id,
            token_type: TokenType::Root,
        };

        Ok(
            TurkishTokenizer {
                roots,
                suffixes,
                bpe_tokens,
                vocab,
                max_root_len,
                max_suffix_len,
                max_bpe_len,
                uppercase_marker,
                unknown_marker,
                space_marker,
                pad_token: String::from_str("<pad>"),
                eos_token: String::from_str("<eos>"),
                pad_token_id,
                eos_token_id,
            },
        )
    }

    /// Builds a tokenizer from three dictionaries given as JSON objects of
    /// token text to id. Fails when a dictionary does not parse or a special
    /// token is missing from the root dictionary.
    pub fn new(roots_json: &str, suffixes_json: &str, bpe_json: &str) -> (r: Result<
        TurkishTokenizer,
        InitializationError,
    >)
        ensures
            r is Ok <==> json_parses(roots_json@) && json_parses(suffixes_json@) && json_parses(
                bpe_json@,
            ) && specials_present(json_entries_of(roots_json@)),
            r matches Err(e) ==> (e == InitializationError::ParseFailure <==> !(json_parses(
                roots_json@,
            ) && json_parses(suffixes_json@) && json_parses(bpe_json@))),
            r matches Ok(t) ==> t.wf() && t@.roots == json_entries_of(roots_json@)
                && t@.suffixes == json_entries_of(suffixes_json@) && t@.bpe == json_entries_of(
                bpe_json@,
            ) && is_max_key_len(t@.roots, t@.max_root) && is_max_key_len(
                t@.suffixes,
                t@.max_suffix,
            ) && is_max_key_len(t@.bpe, t@.max_bpe) && specials_present(
                json_entries_of(roots_json@),
            ),
    {
        let roots = match parse_entries(roots_json) {
            Ok(v) => v,
            Err(_) => {
                return Err(InitializationError::ParseFailure);
            },
        };
        let suffixes = match parse_entries(suffixes_json) {
            Ok(v) => v,
            Err(_) => {
                return Err(InitializationError::ParseFailure);
            },
        };
        let bpe_tokens = match parse_entries(bpe_json) {
            Ok(v) => v,
            Err(_) => {
                return Err(InitializationError::ParseFailure);
            },
        };
        proof {
            lemma_max_key_len_of_map(roots@);
            lemma_max_key_len_of_map(suffixes@);
            lemma_max_key_len_of_map(bpe_tokens@);
        }
        TurkishTokenizer::from_entries(roots, suffixes, bpe_tokens)
    }

    /// The id a token text maps to in the combined vocabulary, if any.
    pub fn token_to_id(&self, token: &str) -> (r: Option<u32>)
        ensures
            r == map_get(self@.combined, token@),
    {
        table_get(&self.vocab, token)
    }

    /// Whether the combined vocabulary holds the token text.
    pub fn contains_token(&self, token: &str) -> (r: bool)
        ensures
            r == self@.combined.contains_key(token@),
    {
        match table_get(&self.vocab, token) {
            Some(_) => true,
            None => false,
        }
    }

    /// The pad token's text, fixed for the instance lifetime.
    pub fn pad_token(&self) -> (r: &str)
        requires
            self.wf(),
        ensures
            r@ == "<pad>"@,
    {
        self.pad_token.as_str()
    }

    /// The end-of-sequence token's text, fixed for the instance lifetime.
    pub fn eos_token(&self) -> (r: &str)
        requires
            self.wf(),
        ensures
            r@ == "<eos>"@,
    {
        self.eos_token.as_str()
    }

    /// The pad token's id, resolved through the root table at construction.
    pub fn pad_token_id(&self) -> (r: u32)
        ensures
            r == self@.pad_id,
    {
        self.pad_token_id
    }

    /// The end-of-sequence token's id, resolved through the root table at
    /// construction.
    pub fn eos_token_id(&self) -> (r: u32)
        ensures
            r == self@.eos_id,
    {
        self.eos_token_id
    }

    /// The number of distinct token texts in the combined vocabulary.
    pub fn vocab_size(&self) -> (r: usize)
        requires
            self.wf(),
        ensures
            r as nat == self@.combined.dom().len(),
    {
        proof {
            lemma_map_of_card(self.vocab@);
        }
        self.vocab.len()
    }

    /// The combined vocabulary as an entry list with distinct keys.
    pub fn get_vocab(&self) -> (r: &Vec<(String, u32)>)
        requires
            self.wf(),
        ensures
            distinct_keys(r@),
            map_of(r@) == self@.combined,
    {
        &self.vocab
    }

    /// The ids of the given token texts, which must all be in the combined
    /// vocabulary.
    pub fn convert_tokens_to_ids(&self, tokens: &Vec<String>) -> (r: Vec<u32>)
        requires
            forall|i: int| 0 <= i < tokens@.len() ==> self@.combined.contains_key(
                #[trigger] tokens@[i]@,
            ),
        ensures
            r@.len() == tokens@.len(),
            forall|i: int| 0 <= i < r@.len() ==> r@[i] == self@.combined[tokens@[i]@],
    {
        let mut ids: Vec<u32> = Vec::new();
        let mut i: usize = 0;
        while i < tokens.len()
            invariant
                i <= tokens.len(),
                ids@.len() == i,
                forall|j: int| 0 <= j < tokens@.len() ==> self@.combined.contains_key(
                    #[trigger] tokens@[j]@,
                ),
                forall|j: int| 0 <= j < i ==> ids@[j] == self@.combined[tokens@[j]@],
            decreases tokens.len() - i,
        {
            match table_get(&self.vocab, tokens[i].as_str()) {
                Some(id) => {
                    ids.push(id);
                },
                None => {
                    proof {
                        assert(false);
                    }
                },
            }
            i = i + 1;
        }
        ids
    }

    /// Greedy tokenization of one already-folded segment, appended to `out`:
    /// at each cursor position the ranked three-table match is taken, or the
    /// unknown marker is emitted and the cursor advances one character.
    fn tokenize_segment_into(&self, seg: &str, out: &mut Vec<Token>)
        requires
            self.wf(),
        ensures
            token_views(final(out)@) == token_views(old(out)@) + spec_tokenize_segment(
                self@,
                seg@,
            ),
    {
        let n = seg.unicode_len();
        let mut pos: usize = 0;
        proof {
            assert(seg@.subrange(0, n as int) =~= seg@);
        }
        while pos < n
            invariant
                pos <= n,
                n == seg@.len(),
                self.wf(),
                token_views(old(out)@) + spec_tokenize_segment(self@, seg@) == token_views(
                    out@,
                ) + spec_tokenize_segment(self@, seg@.subrange(pos as int, n as int)),
            decreases n - pos,
        {
            let rest = seg.substring_char(pos, n);
            let ghost restv = rest@;
            let ghost prev = out@;
            let step: usize;
            match longest_prefix_lookup(rest, &self.roots, self.max_root_len) {
                Some(p) => {
                    let l = p.1.unicode_len();
                    let tok = Token { token: p.1, id: p.0, token_type: TokenType::Root };
                    proof {
                        lemma_lp_spec(self@.roots, restv, cap_len(restv.len(), self@.max_root));
                        lemma_token_views_push(prev, tok);
                        assert(spec_match_at(self@, restv) == Some(
                            (l as nat, tok.id, TokenType::Root),
                        ));
                    }
                    out.push(tok);
                    step = l;
                },
                None => match longest_prefix_lookup(rest, &self.suffixes, self.max_suffix_len) {
                    Some(p) => {
                        let l = p.1.unicode_len();
                        let tok = Token { token: p.1, id: p.0, token_type: TokenType::Suffix };
                        proof {
                            lemma_lp_spec(
                                self@.suffixes,
                                restv,
                                cap_len(restv.len(), self@.max_suffix),
                            );
                            lemma_token_views_push(prev, tok);
                            assert(spec_match_at(self@, restv) == Some(
                                (l as nat, tok.id, TokenType::Suffix),
                            ));
                        }
                        out.push(tok);
                        step = l;
                    },
                    None => match longest_prefix_lookup(rest, &self.bpe_tokens, self.max_bpe_len) {
                        Some(p) => {
                            let l = p.1.unicode_len();
                            let tok = Token { token: p.1, id: p.0, token_type: TokenType::Bpe };
                            proof {
                                lemma_lp_spec(
                                    self@.bpe,
                                    restv,
                                    cap_len(restv.len(), self@.max_bpe),
                                );
                                lemma_token_views_push(prev, tok);
                                assert(spec_match_at(self@, restv) == Some(
                                    (l as nat, tok.id, TokenType::Bpe),
                                ));
                            }
                            out.push(tok);
                            step = l;
                        },
                        None => {
                            let tok = self.unknown_marker.duplicate();
                            proof {
                                lemma_token_views_push(prev, tok);
                                assert(spec_match_at(self@, restv) is None);
                                assert(tok@ == unknown_token(self@));
                            }
                            out.push(tok);
                            step = 1;
                        },
                    },
                },
            }
            proof {
                assert(restv.subrange(step as int, restv.len() as int) =~= seg@.subrange(
                    pos + step,
                    n as int,
                ));
                assert(token_views(old(out)@) + spec_tokenize_segment(self@, seg@)
                    == token_views(out@) + spec_tokenize_segment(
                    self@,
                    seg@.subrange(pos + step, n as int),
                ));
            }
            pos = pos + step;
        }
        proof {
            assert(seg@.subrange(n as int, n as int) =~= Seq::<char>::empty());
            assert(token_views(out@) + spec_tokenize_segment(self@, seg@.subrange(
                n as int,
                n as int,
            )) =~= token_views(out@));
        }
    }

    /// Tokenization of one original word, appended to `out`: camel-case
    /// segments in order, an uppercase marker ahead of any segment whose
    /// first original character is uppercase.
    fn tokenize_word_into(&self, word: &str, out: &mut Vec<Token>)
        requires
            self.wf(),
        ensures
            token_views(final(out)@) == token_views(old(out)@) + spec_tokenize_word(
                self@,
                word@,
            ),
    {
        let segments = camel_split(word);
        let ghost segsv = seg_views(segments@);
        proof {
            assert(segsv.skip(0) =~= segsv);
        }
        let mut si: usize = 0;
        while si < segments.len()
            invariant
                si <= segments.len(),
                self.wf(),
                segsv == seg_views(segments@),
                segsv == spec_camel_split(word@),
                token_views(old(out)@) + spec_tokenize_word(self@, word@) == token_views(out@)
                    + seg_tokens(self@, word@, segsv.skip(si as int)),
            decreases segments.len() - si,
        {
            let off = segments[si].1;
            proof {
                assert(segsv[si as int] == (segments@[si as int].0@, off as nat));
                assert(word@.len() > 0);
                crate::casing::lemma_camel_offsets(word@, 0);
                assert(off < word@.len());
            }
            let c = word.get_char(off);
            let ghost prev = out@;
            if crate::outside::char_is_uppercase(c) {
                let tok = self.uppercase_marker.duplicate();
                proof {
                    lemma_token_views_push(prev, tok);
                }
                out.push(tok);
            }
            self.tokenize_segment_into(segments[si].0.as_str(), out);
            proof {
                assert(segsv.skip(si as int).drop_first() =~= segsv.skip(si + 1));
            }
            si = si + 1;
        }
        proof {
            assert(segsv.skip(segments@.len() as int) =~= Seq::<(Seq<char>, nat)>::empty());
            assert(token_views(out@) + seg_tokens(
                self@,
                word@,
                segsv.skip(segments@.len() as int),
            ) =~= token_views(out@));
        }
    }

    /// The detailed tokenization of a text: words split on the space
    /// character, each visible word tokenized through camel-case splitting
    /// and the ranked dictionaries, one space marker between consecutive
    /// words.
    pub fn tokenize_text(&self, text: &str) -> (r: Vec<Token>)
        requires
            self.wf(),
        ensures
            token_views(r@) == spec_tokenize_text(self@, text@),
    {
        let words = split_spaces(text);
        let ghost wordsv = words@.map_values(|w: String| w@);
        let mut result: Vec<Token> = Vec::new();
        proof {
            assert(wordsv.skip(0) =~= wordsv);
            assert(token_views(result@) + spec_assemble(self@, wordsv) =~= spec_assemble(
                self@,
                wordsv,
            ));
        }
        let mut idx: usize = 0;
        while idx < words.len()
            invariant
                idx <= words.len(),
                self.wf(),
                wordsv == words@.map_values(|w: String| w@),
                wordsv == spec_split_spaces(text@),
                spec_tokenize_text(self@, text@) == token_views(result@) + spec_assemble(
                    self@,
                    wordsv.skip(idx as int),
                ),
            decreases words.len() - idx,
        {
            proof {
                assert(wordsv[idx as int] == words@[idx as int]@);
            }
            if word_has_visible(words[idx].as_str()) {
                self.tokenize_word_into(words[idx].as_str(), &mut result);
            }
            if idx + 1 < words.len() {
                let tok = self.space_marker.duplicate();
                proof {
                    lemma_token_views_push(result@, tok);
                }
                result.push(tok);
            }
            proof {
                assert(wordsv.skip(idx as int).drop_first() =~= wordsv.skip(idx + 1));
            }
            idx = idx + 1;
        }
        proof {
            assert(wordsv.skip(words@.len() as int) =~= Seq::<Seq<char>>::empty());
            assert(token_views(result@) + spec_assemble(
                self@,
                wordsv.skip(words@.len() as int),
            ) =~= token_views(result@));
        }
        result
    }

    /// The token texts of the detailed tokenization.
    pub fn tokenize(&self, text: &str) -> (r: Vec<String>)
        requires
            self.wf(),
        ensures
            r@.map_values(|s: String| s@) == spec_tokenize(self@, text@),
    {
        let tokens = self.tokenize_text(text);
        let mut texts: Vec<String> = Vec::new();
        let mut i: usize = 0;
        proof {
            assert(texts@.map_values(|s: String| s@) =~= spec_tokenize(self@, text@).subrange(
                0,
                0,
            ));
        }
        while i < tokens.len()
            invariant
                i <= tokens.len(),
                token_views(tokens@) == spec_tokenize_text(self@, text@),
                tokens@.len() == spec_tokenize(self@, text@).len(),
                texts@.map_values(|s: String| s@) == spec_tokenize(self@, text@).subrange(
                    0,
                    i as int,
                ),
            decreases tokens.len() - i,
        {
            let ghost before = texts@;
            texts.push(tokens[i].token.clone());
            i = i + 1;
            proof {
                assert(texts@.map_values(|s: String| s@) =~= before.map_values(|s: String| s@)
                    + seq![tokens@[i - 1].token@]);
                assert(spec_tokenize(self@, text@)[i - 1] == token_views(tokens@)[i - 1].text);
                assert(spec_tokenize(self@, text@).subrange(0, i as int) =~= spec_tokenize(
                    self@,
                    text@,
                ).subrange(0, i - 1).push(spec_tokenize(self@, text@)[i - 1]));
            }
        }
        proof {
            assert(spec_tokenize(self@, text@).subrange(
                0,
                spec_tokenize(self@, text@).len() as int,
            ) =~= spec_tokenize(self@, text@));
        }
        texts
    }

    /// The token ids of the detailed tokenization.
    pub fn encode(&self, text: &str) -> (r: Vec<u32>)
        requires
            self.wf(),
        ensures
            r@ == spec_encode(self@, text@),
    {
        let tokens = self.tokenize_text(text);
        let mut ids: Vec<u32> = Vec::new();
        proof {
            assert(ids@ =~= spec_encode(self@, text@).subrange(0, 0));
        }
        let mut i: usize = 0;
        while i < tokens.len()
            invariant
                i <= tokens.len(),
                token_views(tokens@) == spec_tokenize_text(self@, text@),
                tokens@.len() == spec_encode(self@, text@).len(),
                ids@ == spec_encode(self@, text@).subrange(0, i as int),
            decreases tokens.len() - i,
        {
            ids.push(tokens[i].id);
            i = i + 1;
            proof {
                assert(spec_encode(self@, text@)[i - 1] == token_views(tokens@)[i - 1].id);
                assert(spec_encode(self@, text@).subrange(0, i as int) =~= spec_encode(
                    self@,
                    text@,
                ).subrange(0, i - 1).push(spec_encode(self@, text@)[i - 1]));
            }
        }
        proof {
            assert(spec_encode(self@, text@).subrange(
                0,
                spec_encode(self@, text@).len() as int,
            ) =~= spec_encode(self@, text@));
        }
        ids
    }

    /// Ids, token texts, and an all-ones attention mask of the same length.
    pub fn encode_plus(&self, text: &str) -> (r: EncodingResult)
        requires
            self.wf(),
        ensures
            r.input_ids@ == spec_encode(self@, text@),
            r.tokens@.map_values(|s: String| s@) == spec_tokenize(self@, text@),
            r.tokens@.len() == r.input_ids@.len(),
            r.attention_mask@.len() == r.input_ids@.len(),
            forall|i: int| 0 <= i < r.attention_mask@.len() ==> r.attention_mask@[i] == 1u32,
    {
        let input_ids = self.encode(text);
        let tokens = self.tokenize(text);
        let mut attention_mask: Vec<u32> = Vec::new();
        let mut i: usize = 0;
        while i < input_ids.len()
            invariant
                i <= input_ids.len(),
                attention_mask@.len() == i,
                forall|j: int| 0 <= j < i ==> attention_mask@[j] == 1u32,
            decreases input_ids.len() - i,
        {
            attention_mask.push(1);
            i = i + 1;
        }
        proof {
            assert(tokens@.map_values(|s: String| s@).len() == tokens@.len());
        }
        EncodingResult { input_ids, tokens, attention_mask }
    }
}

} // verus!
