use turkish_tokenizer::InitializationError;
use turkish_tokenizer::TokenType;
use turkish_tokenizer::TurkishTokenizer;

const ROOTS_JSON: &str = r#"{"<pad>":0,"<eos>":1,"<unknown>":2,"<uppercase>":3," ":4,"ev":5,"kitap":6,"gel":7,"merhaba":8,"dünya":9,"türkçe":10,"çok":11,"güzel":12,"ab":13}"#;
const SUFFIXES_JSON: &str = r#"{"ler":100,"lar":101,"ım":102,"ız":103,"dan":104,"i":105,"yorum":106,"miş":107,"tim":108,"ı":109,"abc":110}"#;
const BPE_JSON: &str = r#"{"qa":200,"c":201}"#;

fn build() -> TurkishTokenizer {
    TurkishTokenizer::new(ROOTS_JSON, SUFFIXES_JSON, BPE_JSON).unwrap()
}

// A shorter root match is preferred over a longer suffix match at the same
// cursor position: the dictionary rank is decided first.
#[test]
fn test_shorter_root_beats_longer_suffix() {
    let tokenizer = build();
    let tokens = tokenizer.tokenize_text("abc");
    assert_eq!(tokens.len(), 2);
    assert_eq!(tokens[0].token, "ab");
    assert_eq!(tokens[0].token_type, TokenType::Root);
    assert_eq!(tokens[0].id, 13);
    assert_eq!(tokens[1].token, "c");
    assert_eq!(tokens[1].token_type, TokenType::Bpe);
    assert_eq!(tokens[1].id, 201);
}

#[test]
fn test_unknown_marker_emitted() {
    let tokenizer = build();
    let tokens = tokenizer.tokenize("x");
    assert_eq!(tokens, vec!["<unknown>"]);
    let ids = tokenizer.encode("x");
    assert_eq!(ids, vec![2]);
}

// A word whose first character only is uppercase produces one segment, and
// the assembler flags it with the uppercase marker.
#[test]
fn test_uppercase_first_letter() {
    let tokenizer = build();
    let tokens = tokenizer.tokenize("Ev");
    assert_eq!(tokens, vec!["<uppercase>", "ev"]);
}

// Turkish folding: dotted capital İ lowers to i, and ASCII capital I lowers
// to dotless ı, not to i.
#[test]
fn test_turkish_case_folding() {
    let tokenizer = build();
    let tokens = tokenizer.tokenize("İ");
    assert_eq!(tokens, vec!["<uppercase>", "i"]);
    let tokens = tokenizer.tokenize("Iı");
    assert_eq!(tokens, vec!["<uppercase>", "ı", "ı"]);
}

#[test]
fn test_missing_special_token_error() {
    let roots = r#"{"<pad>":0,"<unknown>":2,"<uppercase>":3," ":4}"#;
    let result = TurkishTokenizer::new(roots, SUFFIXES_JSON, BPE_JSON);
    assert_eq!(result.err(), Some(InitializationError::MissingSpecialToken));
}

#[test]
fn test_parse_failure_error() {
    let result = TurkishTokenizer::new("not json", SUFFIXES_JSON, BPE_JSON);
    assert_eq!(result.err(), Some(InitializationError::ParseFailure));
    let result = TurkishTokenizer::new(ROOTS_JSON, r#"{"ler":-1}"#, BPE_JSON);
    assert_eq!(result.err(), Some(InitializationError::ParseFailure));
}

#[test]
fn test_encode_plus_empty_text() {
    let tokenizer = build();
    let result = tokenizer.encode_plus("");
    assert!(result.input_ids.is_empty());
    assert!(result.tokens.is_empty());
    assert!(result.attention_mask.is_empty());
}

#[test]
fn test_convert_tokens_to_ids() {
    let tokenizer = build();
    let tokens = vec!["<pad>".to_string(), "ev".to_string(), "ler".to_string()];
    let ids = tokenizer.convert_tokens_to_ids(&tokens);
    assert_eq!(ids, vec![0, 5, 100]);
}

// Every emitted token, the markers as well, resolves through token_to_id to the
// id it carries, because the test dictionaries share no keys.
#[test]
fn test_tokens_resolve_in_vocabulary() {
    let tokenizer = build();
    let tokens = tokenizer.tokenize_text("kitaplarımızdan merhabaDünya qa");
    assert!(!tokens.is_empty());
    for token in tokens {
        assert_eq!(tokenizer.token_to_id(&token.token), Some(token.id));
    }
}

#[test]
fn test_tokenize_text_idempotent() {
    let tokenizer = build();
    let first = tokenizer.tokenize_text("kitaplarımızdan merhabaDünya  evler");
    let second = tokenizer.tokenize_text("kitaplarımızdan merhabaDünya  evler");
    assert_eq!(first.len(), second.len());
    for (a, b) in first.iter().zip(second.iter()) {
        assert_eq!(a.token, b.token);
        assert_eq!(a.id, b.id);
        assert_eq!(a.token_type, b.token_type);
    }
}

#[test]
fn test_whitespace_only_word_is_skipped() {
    let tokenizer = build();
    assert!(tokenizer.tokenize("\t").is_empty());
    assert_eq!(tokenizer.tokenize("\t \t"), vec![" "]);
}

#[test]
fn test_get_vocab_matches_lookups() {
    let tokenizer = build();
    let vocab = tokenizer.get_vocab();
    assert_eq!(vocab.len(), tokenizer.vocab_size());
    assert!(vocab.iter().any(|e| e.0 == "ev" && e.1 == 5));
    for entry in vocab {
        assert_eq!(tokenizer.token_to_id(&entry.0), Some(entry.1));
    }
}

// On a key collision across dictionaries the combined vocabulary keeps the
// byte-pair id, while tokenization still finds the root entry first.
#[test]
fn test_combined_vocabulary_precedence() {
    let roots = r#"{"<pad>":0,"<eos>":1,"<unknown>":2,"<uppercase>":3," ":4,"dup":50}"#;
    let suffixes = r#"{"dup":55}"#;
    let bpe = r#"{"dup":60}"#;
    let tokenizer = TurkishTokenizer::new(roots, suffixes, bpe).unwrap();
    assert_eq!(tokenizer.token_to_id("dup"), Some(60));
    let tokens = tokenizer.tokenize_text("dup");
    assert_eq!(tokens.len(), 1);
    assert_eq!(tokens[0].id, 50);
    assert_eq!(tokens[0].token_type, TokenType::Root);
}

#[test]
fn test_from_entries_direct() {
    let roots = vec![
        ("<pad>".to_string(), 0u32),
        ("<eos>".to_string(), 1),
        ("<unknown>".to_string(), 2),
        ("<uppercase>".to_string(), 3),
        (" ".to_string(), 4),
        ("ev".to_string(), 5),
    ];
    let suffixes = vec![("ler".to_string(), 100u32)];
    let bpe = vec![];
    let tokenizer = TurkishTokenizer::from_entries(roots, suffixes, bpe).unwrap();
    assert_eq!(tokenizer.tokenize("evler"), vec!["ev", "ler"]);
    assert_eq!(tokenizer.pad_token_id, 0);
    assert_eq!(tokenizer.eos_token_id, 1);
}

#[test]
fn test_accessor_methods() {
    let tokenizer = build();
    assert_eq!(tokenizer.pad_token(), "<pad>");
    assert_eq!(tokenizer.eos_token(), "<eos>");
    assert_eq!(tokenizer.pad_token_id(), 0);
    assert_eq!(tokenizer.eos_token_id(), 1);
    assert_eq!(tokenizer.token_to_id("<pad>"), Some(tokenizer.pad_token_id()));
    assert_eq!(tokenizer.token_to_id("<eos>"), Some(tokenizer.eos_token_id()));
}

// The byte-pair table is only reached when neither the root nor the suffix
// table matches.
#[test]
fn test_bpe_fallback() {
    let tokenizer = build();
    let tokens = tokenizer.tokenize_text("qa");
    assert_eq!(tokens.len(), 1);
    assert_eq!(tokens[0].token, "qa");
    assert_eq!(tokens[0].id, 200);
    assert_eq!(tokens[0].token_type, TokenType::Bpe);
}
