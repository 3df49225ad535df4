use orthos::syntax::model::SentenceSpan;
use orthos::syntax::relations::adjacent_subject_predicate_candidates;
use orthos::syntax::safe_zones::punctuation_safe_zones;
use orthos::syntax::sentences::{next_non_space_token, sentence_span_at, token_window};
use orthos::text::{
    capitalize_first, ceil_char_boundary, char_after, char_before, excerpt, floor_char_boundary, fold_yo,
    is_punctuation_requiring_space_after, is_space_forbidden_before, morph_lookup_key, next_non_ws_char,
    normalize_word, prev_non_ws_char, starts_with_lowercase_letter, tokenize, uppercase_first, word_tokens, Span,
    TokenKind,
};

#[test]
fn word_tokens_keep_only_words() {
    let words = word_tokens("Мама, 12 пап!");
    assert_eq!(words.iter().map(|t| t.text.as_str()).collect::<Vec<_>>(), vec!["Мама", "пап"]);
    assert!(word_tokens("").is_empty());
}

#[test]
fn yo_is_folded_and_lookup_keys_are_lowercase() {
    assert_eq!(fold_yo("ёлка Ёж"), "елка Ёж");
    assert_eq!(morph_lookup_key("Ёлка"), "елка");
    assert_eq!(normalize_word("По-Русски!"), "по-русски");
    assert_eq!(normalize_word("12,5"), "");
}

#[test]
fn first_letters_are_tested_and_capitalized() {
    assert!(starts_with_lowercase_letter("мама"));
    assert!(!starts_with_lowercase_letter("Мама"));
    assert!(!starts_with_lowercase_letter(""));
    assert_eq!(capitalize_first("мама"), "Мама");
    assert_eq!(uppercase_first("ёж"), "Ёж");
    assert_eq!(capitalize_first(""), "");
}

#[test]
fn punctuation_spacing_classes() {
    assert!(is_punctuation_requiring_space_after(','));
    assert!(is_punctuation_requiring_space_after('…'));
    assert!(!is_punctuation_requiring_space_after(')'));
    assert!(is_space_forbidden_before('»'));
    assert!(is_space_forbidden_before(')'));
    assert!(!is_space_forbidden_before('('));
}

#[test]
fn char_boundaries_and_neighbours_work_on_bytes() {
    let text = "я б";
    assert_eq!(floor_char_boundary(text, 1), 0);
    assert_eq!(ceil_char_boundary(text, 1), 2);
    assert_eq!(floor_char_boundary(text, 100), text.len());
    assert_eq!(char_before(text, 2), Some((0, 'я')));
    assert_eq!(char_before(text, 1), None);
    assert_eq!(char_after(text, 2), Some((2, ' ')));
    assert_eq!(char_after(text, 1), None);
    assert_eq!(char_after(text, text.len()), None);
    assert_eq!(next_non_ws_char(text, 2), Some((3, 'б')));
    assert_eq!(prev_non_ws_char(text, 3), Some((0, 'я')));
    assert_eq!(prev_non_ws_char(text, 0), None);
}

#[test]
fn excerpt_is_the_surrounding_sentence() {
    let text = "Первое. Второе предложение! Третье";
    let start = text.find("предложение").unwrap();
    assert_eq!(excerpt(text, Span::new(start, start + "предложение".len())), "Второе предложение!");
}

#[test]
fn sentence_lookup_and_token_windows() {
    let text = "Мама пришла. Папа ушёл.";
    let second = text.find("Папа").unwrap();
    assert_eq!(sentence_span_at(text, second), Some(SentenceSpan { start: second, end: text.len() }));
    assert_eq!(sentence_span_at(text, 0).unwrap().start, 0);
    assert_eq!(sentence_span_at(text, text.len()), None);
    let tokens = tokenize(text);
    assert_eq!(next_non_space_token(&tokens, 0), Some(2));
    let window = token_window(&tokens, 2).unwrap();
    assert_eq!(window.current.text, "пришла");
    assert_eq!(window.previous.unwrap().text, "Мама");
    assert_eq!(window.next.unwrap().text, ".");
    assert!(token_window(&tokens, tokens.len()).is_none());
}

#[test]
fn safe_zones_and_subject_predicate_pairs() {
    let zones = punctuation_safe_zones("Он (тихо) сказал");
    assert_eq!(zones.len(), 1);
    assert_eq!(zones[0].span.start, "Он ".len());
    let tokens = tokenize("мама пришла, папа");
    let candidates = adjacent_subject_predicate_candidates(&tokens);
    assert_eq!(candidates.len(), 1);
}

#[test]
fn tokenization_is_one_cut_into_maximal_runs() {
    let text = "мама,  12";
    let tokens = tokenize(text);
    assert_eq!(tokens, tokenize(text));
    let kinds: Vec<TokenKind> = tokens.iter().map(|t| t.kind).collect();
    assert_eq!(kinds, vec![TokenKind::Word, TokenKind::Punctuation, TokenKind::Whitespace, TokenKind::Number]);
    assert_eq!(tokens[2].text, "  ");
    assert_eq!(tokens[3].span, Span::new(text.len() - 2, text.len()));
}
