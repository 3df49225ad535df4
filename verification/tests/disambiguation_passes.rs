use orthos::readings::{AdjectiveForm, Case, Gender, MorphAnalysis, MorphFeatures, Number, PartOfSpeech, VerbForm};
use orthos::syntax::constraints::{
    adjacent_word_index, allowed_cases, disambiguate_readings, feature_tags, PrepositionGovernmentEntry,
};
use orthos::syntax::disambiguation::{DisambiguationConstraint, DisambiguationTrace};
use orthos::syntax::ambiguity::AmbiguityClass;
use orthos::syntax::facts::LinguisticFactStore;
use orthos::text::{lower_ru, tokenize, TokenKind};

fn reading(lemma: &str, pos: PartOfSpeech, case: Option<Case>, number: Option<Number>) -> MorphAnalysis {
    MorphAnalysis {
        lemma: lemma.to_string(),
        pos,
        features: MorphFeatures { case, number, verb_form: None, adjective_form: None, gender: None, person: None },
    }
}

fn adjective(lemma: &str, case: Case, number: Number) -> MorphAnalysis {
    MorphAnalysis {
        lemma: lemma.to_string(),
        pos: PartOfSpeech::Adjective,
        features: MorphFeatures {
            case: Some(case),
            number: Some(number),
            verb_form: None,
            adjective_form: Some(AdjectiveForm::Full), gender: None, person: None },
    }
}

fn finite_verb(lemma: &str, number: Number) -> MorphAnalysis {
    MorphAnalysis {
        lemma: lemma.to_string(),
        pos: PartOfSpeech::Verb,
        features: MorphFeatures { case: None, number: Some(number), verb_form: Some(VerbForm::Finite), adjective_form: None, gender: None, person: None },
    }
}

fn with_gender(mut a: MorphAnalysis, gender: Gender) -> MorphAnalysis {
    a.features.gender = Some(gender);
    a
}

/// The readings of every fixture word, looked up in lowercase.
fn fixture(word: &str) -> Vec<MorphAnalysis> {
    match lower_ru(word).as_str() {
        "из" => vec![reading("из", PartOfSpeech::Preposition, None, None)],
        "у" => vec![reading("у", PartOfSpeech::Preposition, None, None)],
        "стали" => vec![
            reading("сталь", PartOfSpeech::Noun, Some(Case::Genitive), Some(Number::Singular)),
            finite_verb("стать", Number::Plural),
        ],
        "дома" => vec![
            reading("дом", PartOfSpeech::Noun, Some(Case::Genitive), Some(Number::Singular)),
            reading("дом", PartOfSpeech::Noun, Some(Case::Nominative), Some(Number::Plural)),
        ],
        "новые" => vec![
            adjective("новый", Case::Nominative, Number::Plural),
            adjective("новый", Case::Accusative, Number::Plural),
        ],
        "красивая" => vec![with_gender(adjective("красивый", Case::Nominative, Number::Singular), Gender::Feminine)],
        "дом" => vec![with_gender(
            reading("дом", PartOfSpeech::Noun, Some(Case::Nominative), Some(Number::Singular)),
            Gender::Masculine,
        )],
        "москва" => vec![reading("москва", PartOfSpeech::Noun, Some(Case::Nominative), Some(Number::Singular))],
        _ => Vec::new(),
    }
}

fn seed() -> Vec<PrepositionGovernmentEntry> {
    vec![
        PrepositionGovernmentEntry { preposition: "из".to_string(), allowed_cases: vec![Case::Genitive] },
        PrepositionGovernmentEntry { preposition: "у".to_string(), allowed_cases: vec![Case::Genitive] },
    ]
}

fn run(text: &str) -> (Vec<Vec<MorphAnalysis>>, DisambiguationTrace) {
    let tokens = tokenize(text);
    let mut readings: Vec<Vec<MorphAnalysis>> = tokens
        .iter()
        .map(|token| if token.kind == TokenKind::Word { fixture(&token.text) } else { Vec::new() })
        .collect();
    let trace = disambiguate_readings(&tokens, &mut readings, &seed());
    (readings, trace)
}

#[test]
fn preposition_excludes_verb_reading() {
    let (readings, trace) = run("Из стали куют мечи.");
    assert_eq!(readings[2].len(), 1);
    assert_eq!(readings[2][0].pos, PartOfSpeech::Noun);
    assert!(trace.eliminations.iter().any(|e| {
        e.constraint == DisambiguationConstraint::PrepositionVerbExclusion
            && e.token_index == 2
            && e.evidence_form == "Из"
            && e.eliminated_lemma == "стать"
    }));
}

#[test]
fn preposition_case_government_prunes_disallowed_case() {
    let (readings, trace) = run("У дома растёт клён.");
    assert_eq!(readings[2].len(), 1);
    assert_eq!(readings[2][0].features.case, Some(Case::Genitive));
    assert!(trace.eliminations.iter().any(|e| {
        e.constraint == DisambiguationConstraint::PrepositionCaseGovernment && e.eliminated_features.contains("case=nom")
    }));
}

#[test]
fn modifier_head_agreement_prunes_both_sides() {
    let (readings, trace) = run("новые дома");
    assert_eq!(readings[0].len(), 1, "modifier keeps only the agreeing case");
    assert_eq!(readings[0][0].features.case, Some(Case::Nominative));
    assert_eq!(readings[2].len(), 1, "noun keeps only the agreeing reading");
    assert_eq!(readings[2][0].features.number, Some(Number::Plural));
    assert!(trace.eliminations.iter().all(|e| e.constraint == DisambiguationConstraint::ModifierHeadAgreement));
    assert_eq!(trace.eliminations.len(), 2);
}

#[test]
fn real_agreement_error_is_not_pruned_away() {
    let (readings, trace) = run("красивая дом");
    assert!(trace.is_empty(), "no agreeing pair exists, engine must not prune");
    assert_eq!(readings[0].len(), 1);
    assert_eq!(readings[2].len(), 1);
}

#[test]
fn last_reading_is_never_removed() {
    let (readings, trace) = run("У Москва");
    assert!(trace.is_empty());
    assert_eq!(readings[2].len(), 1, "sole disallowed reading survives");
}

#[test]
fn punctuation_breaks_preposition_adjacency() {
    let (readings, trace) = run("Из, стали куют.");
    assert!(trace.is_empty());
    assert_eq!(readings[3].len(), 2);
}

#[test]
fn passes_stop_at_a_fixpoint_and_record_exact_eliminations() {
    let (_, trace) = run("новые дома");
    assert_eq!(trace.passes, 2);
    let noun = trace.eliminations.iter().find(|e| e.token_index == 2).unwrap();
    assert_eq!(noun.eliminated_features, "case=gen|number=sing");
    assert_eq!(noun.form, "дома");
    assert_eq!(noun.evidence_token_index, 0);
    assert_eq!(noun.explanation, "noun reading agrees with no reading of the adjacent modifier");
    let (_, trace) = run("У дома");
    assert_eq!(trace.eliminations[0].explanation, "case Some(Nominative) is not governed by preposition «у»");
    let (_, quiet) = run("мечи куют");
    assert_eq!(quiet.passes, 1);
    assert!(quiet.is_empty());
}

#[test]
fn constraint_helpers() {
    let tokens = tokenize("Из, стали куют");
    assert_eq!(adjacent_word_index(&tokens, 0), None);
    assert_eq!(adjacent_word_index(&tokens, 3), Some(5));
    assert_eq!(allowed_cases(&seed(), "у"), vec![Case::Genitive]);
    assert!(allowed_cases(&seed(), "на").is_empty());
    let f = MorphFeatures {
        case: None,
        number: Some(Number::Plural),
        verb_form: Some(VerbForm::Finite),
        adjective_form: None, gender: None, person: None };
    assert_eq!(feature_tags(&f), "number=plur|verb_form=finite");
    assert_eq!(
        feature_tags(&MorphFeatures { case: None, number: None, verb_form: None, adjective_form: None, gender: None, person: None }),
        ""
    );
}

#[test]
fn fact_store_exposes_disambiguation_trace() {
    let text = "Из стали куют мечи.";
    let tokens = tokenize(text);
    let store = LinguisticFactStore::from_tokens_with_analyses(text, &tokens, |idx| fixture(&tokens[idx].text), &seed(), &[]);
    assert_eq!(store.summary().eliminated_readings, 1);
    assert_eq!(store.disambiguation().eliminations_for_token(2).len(), 1);
    let ambiguity = store.ambiguity().for_token_index(2).expect("token tracked");
    assert_eq!(ambiguity.class, AmbiguityClass::Unambiguous, "downstream ambiguity model sees the reduced reading set");
}
