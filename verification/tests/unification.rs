use orthos::readings::{can_agree_as_adj_noun, AdjectiveForm, Case, Gender, MorphAnalysis, MorphFeatures, Number, PartOfSpeech};
use orthos::syntax::government::MorphCompatibility;
use orthos::unification::{adjective_noun_feature_unification, AgreementFeatureKind, FeatureUnificationStatus};

fn reading(
    lemma: &str,
    pos: PartOfSpeech,
    case: Option<Case>,
    number: Option<Number>,
    gender: Option<Gender>,
) -> MorphAnalysis {
    let adjective_form = if pos == PartOfSpeech::Adjective { Some(AdjectiveForm::Full) } else { None };
    MorphAnalysis {
        lemma: lemma.to_string(),
        pos,
        features: MorphFeatures { case, number, gender, person: None, verb_form: None, adjective_form },
    }
}

/// The fixture lexicon: "синем" (dative or locative), "дому", "новые", "дом".
fn analyze(word: &str) -> Vec<MorphAnalysis> {
    match word {
        "синем" => vec![
            reading("синий", PartOfSpeech::Adjective, Some(Case::Dative), Some(Number::Singular), Some(Gender::Masculine)),
            reading(
                "синий",
                PartOfSpeech::Adjective,
                Some(Case::Prepositional),
                Some(Number::Singular),
                Some(Gender::Masculine),
            ),
        ],
        "дому" => vec![reading("дом", PartOfSpeech::Noun, Some(Case::Dative), Some(Number::Singular), Some(Gender::Masculine))],
        "новые" => vec![reading("новый", PartOfSpeech::Adjective, Some(Case::Nominative), Some(Number::Plural), None)],
        "дом" => vec![reading("дом", PartOfSpeech::Noun, Some(Case::Nominative), Some(Number::Singular), Some(Gender::Masculine))],
        _ => Vec::new(),
    }
}

#[test]
fn feature_unification_uses_intersections_across_multiple_fixtures() {
    let compatible = adjective_noun_feature_unification(&analyze("синем"), &analyze("дому"));
    let case_step = compatible.steps.iter().find(|step| step.feature == AgreementFeatureKind::Case).unwrap();
    assert_eq!(compatible.compatibility(), MorphCompatibility::Compatible);
    assert_eq!(case_step.intersection, vec!["Dative".to_owned()]);

    let conflict = adjective_noun_feature_unification(&analyze("новые"), &analyze("дом"));
    assert_eq!(conflict.compatibility(), MorphCompatibility::Incompatible);
    assert!(conflict
        .steps
        .iter()
        .any(|step| step.feature == AgreementFeatureKind::Number && step.status == FeatureUnificationStatus::Conflict));
}

#[test]
fn feature_unification_lists_each_side_and_leaves_unsaid_features_unknown() {
    let conflict = adjective_noun_feature_unification(&analyze("новые"), &analyze("дом"));
    assert_eq!(conflict.steps.len(), 3);
    assert_eq!(conflict.steps[0].feature, AgreementFeatureKind::Case);
    assert_eq!(conflict.steps[0].status, FeatureUnificationStatus::Shared);
    assert_eq!(conflict.steps[0].intersection, vec!["Nominative".to_owned()]);
    assert_eq!(conflict.steps[1].left, vec!["Plural".to_owned()]);
    assert_eq!(conflict.steps[1].right, vec!["Singular".to_owned()]);
    assert!(conflict.steps[1].intersection.is_empty());
    assert_eq!(conflict.steps[2].feature, AgreementFeatureKind::Gender);
    assert_eq!(conflict.steps[2].status, FeatureUnificationStatus::Unknown);

    let compatible = adjective_noun_feature_unification(&analyze("синем"), &analyze("дому"));
    assert_eq!(compatible.steps[0].left, vec!["Dative".to_owned(), "Prepositional".to_owned()]);

    let nothing = adjective_noun_feature_unification(&analyze("кто"), &analyze("дом"));
    assert_eq!(nothing.compatibility(), MorphCompatibility::Unknown);
    assert!(nothing.steps.iter().all(|step| step.status == FeatureUnificationStatus::Unknown));
}

#[test]
fn feature_unification_of_single_readings_matches_pairwise_agreement() {
    let beautiful = reading("красивый", PartOfSpeech::Adjective, Some(Case::Nominative), Some(Number::Singular), Some(Gender::Feminine));
    let house = reading("дом", PartOfSpeech::Noun, Some(Case::Nominative), Some(Number::Singular), Some(Gender::Masculine));
    let new_masc = reading("новый", PartOfSpeech::Adjective, Some(Case::Nominative), Some(Number::Singular), Some(Gender::Masculine));

    let clash = adjective_noun_feature_unification(&[beautiful.clone()], &[house.clone()]);
    assert_eq!(clash.compatibility(), MorphCompatibility::Incompatible);
    assert!(!can_agree_as_adj_noun(&beautiful, &house));
    assert_eq!(clash.steps[2].status, FeatureUnificationStatus::Conflict);

    let fits = adjective_noun_feature_unification(&[new_masc.clone()], &[house.clone()]);
    assert_eq!(fits.compatibility(), MorphCompatibility::Compatible);
    assert!(can_agree_as_adj_noun(&new_masc, &house));
}
