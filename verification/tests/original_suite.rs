use turkish_tokenizer::TokenType;
use turkish_tokenizer::TurkishTokenizer;

const ROOTS_JSON: &str = r#"{"<pad>":0,"<eos>":1,"<unknown>":2,"<uppercase>":3," ":4,"ev":5,"kitap":6,"gel":7,"merhaba":8,"dünya":9,"türkçe":10,"çok":11,"güzel":12,"ab":13}"#;
const SUFFIXES_JSON: &str = r#"{"ler":100,"lar":101,"ım":102,"ız":103,"dan":104,"i":105,"yorum":106,"miş":107,"tim":108,"ı":109,"abc":110}"#;
const BPE_JSON: &str = r#"{"qa":200,"c":201}"#;

fn build() -> TurkishTokenizer {
    TurkishTokenizer::new(ROOTS_JSON, SUFFIXES_JSON, BPE_JSON).unwrap()
}

#[test]
fn test_tokenizer_creation() {
    let tokenizer = build();
    assert!(tokenizer.vocab_size() > 0);
    assert_eq!(tokenizer.pad_token, "<pad>");
    assert_eq!(tokenizer.eos_token, "<eos>");
}

#[test]
fn test_basic_encoding() {
    let tokenizer = build();
    let text = "merhaba dünya";
    let tokens = tokenizer.encode(text);
    assert!(!tokens.is_empty());
}

#[test]
fn test_tokenization() {
    let tokenizer = build();
    let text = "merhaba dünya";
    let tokens = tokenizer.tokenize(text);
    assert!(!tokens.is_empty());
    println!("Tokens: {:?}", tokens);
}

#[test]
fn test_camel_case() {
    let tokenizer = build();
    let text = "merhabaDünya";
    let tokens = tokenizer.tokenize(text);
    assert!(!tokens.is_empty());
    println!("CamelCase tokens: {:?}", tokens);
}

#[test]
fn test_encode_plus() {
    let tokenizer = build();
    let text = "merhaba dünya";
    let result = tokenizer.encode_plus(text);

    assert_eq!(result.input_ids.len(), result.tokens.len());
    assert_eq!(result.input_ids.len(), result.attention_mask.len());
    assert!(result.attention_mask.iter().all(|&x| x == 1));
}

#[test]
fn test_token_utilities() {
    let tokenizer = build();

    assert_eq!(tokenizer.token_to_id("<pad>"), Some(tokenizer.pad_token_id));
    assert_eq!(tokenizer.token_to_id("<eos>"), Some(tokenizer.eos_token_id));
    assert_eq!(tokenizer.token_to_id("nonexistent_token"), None);

    assert!(tokenizer.contains_token("<pad>"));
    assert!(tokenizer.contains_token("<eos>"));
    assert!(!tokenizer.contains_token("nonexistent_token"));
}

#[test]
fn test_turkish_morphology() {
    let tokenizer = build();

    let tokens = tokenizer.tokenize_text("kitaplarımızdan");

    assert_eq!(tokens.len(), 5);
    assert_eq!(tokens[0].token, "kitap");
    assert_eq!(tokens[0].token_type, TokenType::Root);
    assert_eq!(tokens[1].token, "lar");
    assert_eq!(tokens[1].token_type, TokenType::Suffix);
}

#[test]
fn test_comprehensive_tokenization() {
    let tokenizer = build();

    let test_cases = vec![
        ("ev", vec!["ev"]),
        ("evler", vec!["ev", "ler"]),
        ("kitaplarımızdan", vec!["kitap", "lar", "ım", "ız", "dan"]),
        ("geliyorum", vec!["gel", "i", "yorum"]),
        ("gelmiştim", vec!["gel", "miş", "tim"]),
        ("merhabaDünya", vec!["merhaba", "<uppercase>", "dünya"]),
        ("merhaba dünya", vec!["merhaba", " ", "dünya"]),
    ];

    for (input, expected_tokens) in test_cases {
        let tokens = tokenizer.tokenize(input);
        assert_eq!(
            tokens, expected_tokens,
            "Failed for input '{}': expected {:?}, got {:?}",
            input, expected_tokens, tokens
        );
    }
}

#[test]
fn test_special_tokens() {
    let tokenizer = build();

    assert!(tokenizer.contains_token("<pad>"));
    assert!(tokenizer.contains_token("<eos>"));
    assert!(tokenizer.contains_token("<uppercase>"));
    assert!(tokenizer.contains_token("<unknown>"));
    assert!(tokenizer.contains_token(" "));

    assert_eq!(tokenizer.token_to_id("<pad>"), Some(tokenizer.pad_token_id));
    assert_eq!(tokenizer.token_to_id("<eos>"), Some(tokenizer.eos_token_id));
}

#[test]
fn test_token_type_distribution() {
    let tokenizer = build();

    let tokens = tokenizer.tokenize_text("kitaplarımı");

    let mut has_root = false;
    let mut has_suffix = false;

    for token in tokens {
        match token.token_type {
            TokenType::Root => has_root = true,
            TokenType::Suffix => has_suffix = true,
            TokenType::Bpe => {},
        }
    }

    assert!(has_root, "Should have at least one root token");
    assert!(has_suffix, "Should have at least one suffix token");
}

#[test]
fn test_encoding_consistency() {
    let tokenizer = build();

    let text = "Türkçe çok güzel";

    let token_ids = tokenizer.encode(text);
    let detailed_tokens = tokenizer.tokenize_text(text);
    let detailed_ids: Vec<u32> = detailed_tokens.iter().map(|t| t.id).collect();

    assert_eq!(token_ids, detailed_ids);

    let encode_plus_result = tokenizer.encode_plus(text);
    assert_eq!(token_ids, encode_plus_result.input_ids);

    let simple_tokens = tokenizer.tokenize(text);
    assert_eq!(simple_tokens, encode_plus_result.tokens);
}

#[test]
fn test_empty_and_edge_cases() {
    let tokenizer = build();

    let tokens = tokenizer.tokenize("");
    assert!(tokens.is_empty());

    let ids = tokenizer.encode("");
    assert!(ids.is_empty());

    let tokens = tokenizer.tokenize(" ");
    assert_eq!(tokens, vec![" "]);

    let tokens = tokenizer.tokenize("  ");
    assert_eq!(tokens, vec![" ", " "]);

    let tokens = tokenizer.tokenize("a");
    assert!(!tokens.is_empty());
}
