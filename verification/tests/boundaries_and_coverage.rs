use orthos::syntax::sentences::sentence_spans;
use orthos::text::{ceil_char_boundary, floor_char_boundary};

#[test]
fn floor_char_boundary_is_the_greatest_str_boundary_below() {
    let text = "Ёж и ёлка: 𝄞!";
    for idx in 0..=text.len() + 2 {
        let m = idx.min(text.len());
        let r = floor_char_boundary(text, idx);
        assert!(r <= m);
        assert!(text.is_char_boundary(r));
        for j in r + 1..=m {
            assert!(!text.is_char_boundary(j));
        }
    }
}

#[test]
fn ceil_char_boundary_is_the_least_str_boundary_above() {
    let text = "Ёж и ёлка: 𝄞!";
    for idx in 0..=text.len() + 2 {
        let m = idx.min(text.len());
        let r = ceil_char_boundary(text, idx);
        assert!(m <= r && r <= text.len());
        assert!(text.is_char_boundary(r));
        for j in m..r {
            assert!(!text.is_char_boundary(j));
        }
    }
}

#[test]
fn sentences_cover_every_visible_character() {
    let text = "  Мама пришла. Папа ушёл!  А дети?  ";
    let spans = sentence_spans(text);
    for (offset, ch) in text.char_indices() {
        if !ch.is_whitespace() {
            assert!(spans.iter().any(|span| span.start <= offset && offset < span.end));
        }
    }
    assert!(!spans.is_empty());
}

#[test]
fn blank_text_has_no_sentences() {
    assert!(sentence_spans("   \n\t ").is_empty());
    assert!(sentence_spans("").is_empty());
}
