//! The tokenizer's data types: token kinds, tokens, encoding results and the
//! construction error.

use vstd::prelude::*;

verus! {

/// Which ranked dictionary a token was found in. Marker tokens (unknown,
/// uppercase, space) carry the root kind.
#[derive(Clone, Copy, Debug, PartialEq, Eq, Structural)]
pub enum TokenType {
    Root,
    Suffix,
    Bpe,
}

/// One output token: its text, its id in the vocabulary, and the dictionary
/// it came from. Tokens are produced fresh on every call and carry no
/// reference back to the vocabulary.
#[derive(Clone, Debug)]
pub struct Token {
    pub token: String,
    pub id: u32,
    pub token_type: TokenType,
}

/// The mathematical content of a token.
#[verifier::ext_equal]
pub struct TokenModel {
    pub text: Seq<char>,
    pub id: u32,
    pub kind: TokenType,
}

impl View for Token {
    type V = TokenModel;

    open spec fn view(&self) -> TokenModel {
        TokenModel { text: self.token@, id: self.id, kind: self.token_type }
    }
}

/// The views of a token list.
pub open spec fn token_views(s: Seq<Token>) -> Seq<TokenModel> {
    s.map_values(|t: Token| t@)
}

pub proof fn lemma_token_views_push(s: Seq<Token>, t: Token)
    ensures
        token_views(s.push(t)) == token_views(s) + seq![t@],
{
    assert(token_views(s.push(t)) =~= token_views(s) + seq![t@]);
}

impl Token {
    /// A fresh token with the same text, id and kind.
    pub fn duplicate(&self) -> (r: Token)
        ensures
            r@ == self@,
    {
        Token { token: self.token.clone(), id: self.id, token_type: self.token_type }
    }
}

/// What `encode_plus` returns: ids, token texts, and an all-ones attention
/// mask of the same length.
#[derive(Clone, Debug)]
pub struct EncodingResult {
    pub input_ids: Vec<u32>,
    pub tokens: Vec<String>,
    pub attention_mask: Vec<u32>,
}

/// The mathematical model of a tokenizer's vocabulary state: the three
/// ranked dictionaries, the combined mapping used for id lookup, the maximum
/// key length of each dictionary in characters, and the ids of the special
/// tokens resolved through the root table.
#[verifier::ext_equal]
pub struct VocabModel {
    pub roots: Map<Seq<char>, u32>,
    pub suffixes: Map<Seq<char>, u32>,
    pub bpe: Map<Seq<char>, u32>,
    pub combined: Map<Seq<char>, u32>,
    pub max_root: nat,
    pub max_suffix: nat,
    pub max_bpe: nat,
    pub unknown_id: u32,
    pub uppercase_id: u32,
    pub space_id: u32,
    pub pad_id: u32,
    pub eos_id: u32,
}

/// Why construction failed: a dictionary that does not parse, or a root
/// table missing one of the five required special tokens.
#[derive(Clone, Copy, Debug, PartialEq, Eq, Structural)]
pub enum InitializationError {
    ParseFailure,
    MissingSpecialToken,
}

} // verus!
