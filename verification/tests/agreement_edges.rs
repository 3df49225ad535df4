use orthos::readings::{AdjectiveForm, Case, MorphAnalysis, MorphFeatures, Number, PartOfSpeech};
use orthos::syntax::agreement::{adjective_noun_check, agreement_edges_from_nominal_group, AgreementGraphEdgeKind};
use orthos::syntax::ambiguity::AmbiguityModel;
use orthos::syntax::diagnostics::SuppressionReason;
use orthos::syntax::government::{MorphCompatibility, MorphosyntacticRole};
use orthos::syntax::islands::SyntacticIslandMap;
use orthos::syntax::model::SyntaxConfidence;
use orthos::syntax::nominal_groups::short_nominal_group_candidates;
use orthos::syntax::numeral_government::numeral_government_relations;
use orthos::text::{excerpt, tokenize, Span};

fn adjective(case: Case, number: Number) -> MorphAnalysis {
    MorphAnalysis {
        lemma: "новый".to_string(),
        pos: PartOfSpeech::Adjective,
        features: MorphFeatures { case: Some(case), number: Some(number), verb_form: None, adjective_form: Some(AdjectiveForm::Full), gender: None, person: None },
    }
}

fn noun(case: Case, number: Number) -> MorphAnalysis {
    MorphAnalysis {
        lemma: "дом".to_string(),
        pos: PartOfSpeech::Noun,
        features: MorphFeatures { case: Some(case), number: Some(number), verb_form: None, adjective_form: None, gender: None, person: None },
    }
}

fn readings(word: &str) -> Vec<MorphAnalysis> {
    match word {
        "новые" => vec![adjective(Case::Nominative, Number::Plural)],
        "новый" => vec![adjective(Case::Nominative, Number::Singular)],
        "дома" => vec![noun(Case::Nominative, Number::Plural)],
        "домам" => vec![noun(Case::Dative, Number::Plural)],
        _ => Vec::new(),
    }
}

#[test]
fn agreement_edges_link_each_modifier_to_the_head() {
    for (text, expected) in [("новые дома", MorphCompatibility::Compatible), ("новый домам", MorphCompatibility::Incompatible)] {
        let tokens = tokenize(text);
        let ambiguity = AmbiguityModel::from_tokens_with_analyses(&tokens, |idx| readings(&tokens[idx].text));
        let islands = SyntacticIslandMap::from_text_tokens(text, &tokens);
        let groups = short_nominal_group_candidates(&tokens, 3);
        let group = groups.iter().find(|g| g.modifiers.len() == 1).unwrap();
        let edges = agreement_edges_from_nominal_group(group, &ambiguity, &islands);
        assert_eq!(edges.len(), 1);
        let edge = &edges[0];
        assert_eq!(edge.kind, AgreementGraphEdgeKind::ModifierHead);
        assert_eq!(edge.left.token_index, 0);
        assert_eq!(edge.left.role, MorphosyntacticRole::Modifier);
        assert_eq!(edge.right.token_index, 2);
        assert_eq!(edge.span, Span::new(0, text.len()));
        assert_eq!(edge.constraint.compatibility, expected);
        assert!(edge.blockers.is_empty());
        assert_eq!(edge.is_conflict(), expected == MorphCompatibility::Incompatible && edge.confidence != SyntaxConfidence::Weak);
    }
}

#[test]
fn implausible_groups_give_no_edges_and_quotes_block_links() {
    let text = "дома новые";
    let tokens = tokenize(text);
    let ambiguity = AmbiguityModel::from_tokens_with_analyses(&tokens, |idx| readings(&tokens[idx].text));
    let islands = SyntacticIslandMap::from_text_tokens(text, &tokens);
    let groups = short_nominal_group_candidates(&tokens, 3);
    for group in &groups {
        assert!(agreement_edges_from_nominal_group(group, &ambiguity, &islands).is_empty());
    }
    assert_eq!(
        orthos::syntax::agreement::boundary_blockers_for_link(0, 2, &SyntacticIslandMap::from_text_tokens("«новые» дома", &tokenize("«новые» дома"))),
        vec![SuppressionReason::DirectSpeechBoundary]
    );
    assert_eq!(adjective_noun_check(&vec![], &vec![noun(Case::Dative, Number::Plural)]).compatibility, MorphCompatibility::Unknown);
}

#[test]
fn excerpt_tolerates_reversed_spans_whose_bounds_do_not_cross() {
    assert_eq!(excerpt("abc", Span::new(2, 1)), "abc");
}

fn numeral_readings(word: &str) -> Vec<MorphAnalysis> {
    let numeral = MorphAnalysis {
        lemma: word.to_string(),
        pos: PartOfSpeech::Numeral,
        features: MorphFeatures { case: Some(Case::Nominative), number: None, verb_form: None, adjective_form: None, gender: None, person: None },
    };
    match word {
        "пять" | "двадцать" => vec![numeral],
        "домов" => vec![noun(Case::Genitive, Number::Plural)],
        "домам" => vec![noun(Case::Dative, Number::Plural)],
        _ => Vec::new(),
    }
}

#[test]
fn numeral_relations_carry_the_quantity_check() {
    let tokens = tokenize("пять домов");
    let analyses: Vec<Vec<MorphAnalysis>> = tokens.iter().map(|t| numeral_readings(&t.text)).collect();
    let relations = numeral_government_relations(&tokens, &analyses);
    assert_eq!(relations.len(), 1);
    assert_eq!(relations[0].governor_index, 0);
    assert_eq!(relations[0].dependent_index, 2);
    assert_eq!(relations[0].constraint.compatibility(), MorphCompatibility::Compatible);

    let tokens = tokenize("пять домам");
    let analyses: Vec<Vec<MorphAnalysis>> = tokens.iter().map(|t| numeral_readings(&t.text)).collect();
    let relations = numeral_government_relations(&tokens, &analyses);
    assert_eq!(relations[0].constraint.compatibility(), MorphCompatibility::Incompatible);

    let tokens = tokenize("двадцать пять домов");
    let analyses: Vec<Vec<MorphAnalysis>> = tokens.iter().map(|t| numeral_readings(&t.text)).collect();
    let relations = numeral_government_relations(&tokens, &analyses);
    assert_eq!(
        relations.iter().filter(|r| r.governor_index == 2 && r.dependent_index == 4).count(),
        1,
        "the compound covers the simple pair"
    );
}
