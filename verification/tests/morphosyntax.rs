use orthos::readings::{AdjectiveForm, Case, Gender, MorphAnalysis, MorphFeatures, Number, PartOfSpeech, Person, VerbForm};
use orthos::syntax::constraints::PrepositionGovernmentEntry;
use orthos::syntax::government::{MorphCompatibility, MorphosyntacticRole};
use orthos::syntax::morphosyntax::{morphosyntax_relations, preposition_government_relations};
use orthos::syntax::numeral_government::{
    numeral_noun_agreement_check, MorphosyntacticRelation, MorphosyntacticRelationKind,
};
use orthos::syntax::quantities::NumeralComponentClass;
use orthos::text::{lower_ru, tokenize, TokenKind};

fn features(case: Option<Case>, number: Option<Number>, gender: Option<Gender>) -> MorphFeatures {
    MorphFeatures { case, number, gender, person: None, verb_form: None, adjective_form: None }
}

fn reading(lemma: &str, pos: PartOfSpeech, features: MorphFeatures) -> MorphAnalysis {
    MorphAnalysis { lemma: lemma.to_string(), pos, features }
}

fn numeral(lemma: &str) -> MorphAnalysis {
    reading(lemma, PartOfSpeech::Numeral, features(Some(Case::Nominative), None, None))
}

fn noun(lemma: &str, case: Case, number: Number, gender: Gender) -> MorphAnalysis {
    reading(lemma, PartOfSpeech::Noun, features(Some(case), Some(number), Some(gender)))
}

fn adjective(case: Case, number: Number) -> MorphAnalysis {
    let mut f = features(Some(case), Some(number), None);
    f.adjective_form = Some(AdjectiveForm::Full);
    reading("новый", PartOfSpeech::Adjective, f)
}

fn verb(lemma: &str, number: Number, gender: Option<Gender>, person: Option<Person>) -> MorphAnalysis {
    let mut f = features(None, Some(number), gender);
    f.person = person;
    f.verb_form = Some(VerbForm::Finite);
    reading(lemma, PartOfSpeech::Verb, f)
}

/// The fixture lexicon, looked up in lowercase.
fn lexicon(word: &str) -> Vec<MorphAnalysis> {
    match lower_ru(word).as_str() {
        "сто" => vec![numeral("сто")],
        "двадцать" => vec![numeral("двадцать")],
        "два" => vec![numeral("два")],
        "пять" => vec![numeral("пять")],
        "новых" => vec![adjective(Case::Genitive, Number::Plural)],
        "домов" => vec![noun("дом", Case::Genitive, Number::Plural, Gender::Masculine)],
        "дома" => vec![
            noun("дом", Case::Genitive, Number::Singular, Gender::Masculine),
            noun("дом", Case::Nominative, Number::Plural, Gender::Masculine),
        ],
        "дом" => vec![noun("дом", Case::Nominative, Number::Singular, Gender::Masculine)],
        "стояли" => vec![verb("стоять", Number::Plural, None, None)],
        "согласно" => vec![reading("согласно", PartOfSpeech::Preposition, features(None, None, None))],
        "приказа" => vec![noun("приказ", Case::Genitive, Number::Singular, Gender::Masculine)],
        "приказу" => vec![noun("приказ", Case::Dative, Number::Singular, Gender::Masculine)],
        "девочка" => vec![noun("девочка", Case::Nominative, Number::Singular, Gender::Feminine)],
        "пришёл" => vec![verb("прийти", Number::Singular, Some(Gender::Masculine), None)],
        "пришла" => vec![verb("прийти", Number::Singular, Some(Gender::Feminine), None)],
        _ => Vec::new(),
    }
}

fn document_relations(text: &str) -> Vec<MorphosyntacticRelation> {
    let tokens = tokenize(text);
    let analyses: Vec<Vec<MorphAnalysis>> = tokens
        .iter()
        .map(|t| if t.kind == TokenKind::Word { lexicon(&t.text) } else { Vec::new() })
        .collect();
    morphosyntax_relations(&tokens, &analyses, &seed())
}

fn seed() -> Vec<PrepositionGovernmentEntry> {
    vec![PrepositionGovernmentEntry { preposition: "согласно".to_string(), allowed_cases: vec![Case::Dative] }]
}

#[test]
fn morphosyntax_document_uses_governing_component_inside_compound_numeral_phrase() {
    let relations = document_relations("Сто двадцать два новых домов стояли рядом.");
    let relation = relations
        .iter()
        .filter(|r| r.kind == MorphosyntacticRelationKind::NumeralCaseNumberGovernment)
        .find(|r| r.governor.text == "два" && r.dependent.text == "домов")
        .expect("compound numeral morphosyntactic relation");

    assert_eq!(relation.governor_role, MorphosyntacticRole::Quantifier);
    assert_eq!(relation.dependent_role, MorphosyntacticRole::QuantifiedHead);
    assert_eq!(relation.span.start, 0);
    assert_eq!(relation.constraint.explanation_label(), "quantity-conflict");
    assert!(relation.is_confident_rejection());
    assert!(!relations.iter().any(|r| r.governor.text == "два" && r.dependent.text == "домов" && r.span.start == 24));
}

#[test]
fn morphosyntax_document_exposes_preposition_case_government_conflict() {
    let relations = document_relations("Согласно приказа, встреча перенесена.");
    let relation = relations
        .iter()
        .filter(|r| r.kind == MorphosyntacticRelationKind::PrepositionCaseGovernment)
        .find(|r| r.governor.text == "Согласно" && r.dependent.text == "приказа")
        .expect("preposition government morphosyntactic relation");

    assert_eq!(relation.governor_role, MorphosyntacticRole::CaseGovernor);
    assert_eq!(relation.dependent_role, MorphosyntacticRole::GovernedNominal);
    assert!(relation.is_confident_rejection());
    assert_eq!(relation.constraint.explanation_label(), "government-conflict");
}

#[test]
fn preposition_with_an_allowed_case_is_no_conflict() {
    let tokens = tokenize("Согласно приказу");
    let analyses: Vec<Vec<MorphAnalysis>> = tokens.iter().map(|t| lexicon(&t.text)).collect();
    let relations = preposition_government_relations(&tokens, &analyses, &seed());
    assert_eq!(relations.len(), 1);
    assert_eq!(relations[0].constraint.compatibility(), MorphCompatibility::Compatible);
    assert_eq!(relations[0].constraint.explanation_label(), "government");
}

#[test]
fn paucal_numerals_take_the_genitive_singular() {
    let two = vec![numeral("два")];
    let check = |noun: Vec<MorphAnalysis>| numeral_noun_agreement_check(NumeralComponentClass::UnitPaucal, &two, &noun);
    assert_eq!(check(lexicon("дома")).compatibility, MorphCompatibility::Compatible);
    assert_eq!(check(lexicon("домов")).compatibility, MorphCompatibility::Incompatible);
    assert_eq!(check(lexicon("дом")).compatibility, MorphCompatibility::Incompatible);
    let five = vec![numeral("пять")];
    let many = |noun: Vec<MorphAnalysis>| numeral_noun_agreement_check(NumeralComponentClass::UnitMany, &five, &noun);
    assert_eq!(many(lexicon("домов")).compatibility, MorphCompatibility::Compatible);
    assert_eq!(many(lexicon("дом")).compatibility, MorphCompatibility::Incompatible);
}

#[test]
fn two_new_house_is_a_quantity_conflict() {
    let relations = document_relations("Два новых дом стояли рядом.");
    assert!(relations.iter().any(|r| {
        r.kind == MorphosyntacticRelationKind::NumeralCaseNumberGovernment
            && r.governor.text == "Два"
            && r.dependent.text == "дом"
            && r.is_confident_rejection()
    }));
}

#[test]
fn subject_predicate_gender_clash_is_a_conflict() {
    let relations = document_relations("Девочка пришёл.");
    let relation = relations
        .iter()
        .find(|r| r.kind == MorphosyntacticRelationKind::SubjectPredicateAgreement)
        .expect("subject-predicate relation");
    assert!(relation.is_confident_rejection());
    assert_eq!(relation.constraint.explanation_label(), "agreement-conflict");

    let relations = document_relations("Девочка пришла.");
    assert!(relations
        .iter()
        .filter(|r| r.kind == MorphosyntacticRelationKind::SubjectPredicateAgreement)
        .all(|r| !r.is_confident_rejection()));
}
