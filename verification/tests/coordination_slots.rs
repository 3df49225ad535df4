use orthos::syntax::diagnostic_ledger::{DiagnosticLedgerKind, DiagnosticLedgerStatus};
use orthos::syntax::diagnostics::DiagnosticProofKind;
use orthos::readings::{AdjectiveForm, Case, MorphAnalysis, MorphAnalyzer, MorphFeatures, Number, PartOfSpeech, VerbForm};
use orthos::syntax::ambiguity::{AmbiguityClass, AmbiguityModel};
use orthos::syntax::coordination::{
    is_coordination_conjunction, CoordinationConnectorKind,
    CoordinationGroupKind,
};
use orthos::syntax::diagnostics::SuppressionReason;
use orthos::syntax::islands::SyntacticIslandMap;
use orthos::syntax::punctuation::{PunctuationBoundaryStrength, PunctuationMark, PunctuationSlot, PunctuationSlotEvidenceKind};
use orthos::syntax::slots::{
    asyndetic_coordination_candidate, following_nominal_head, modifier_coordination_pair, punctuation_slots_from_facts,
};
use orthos::syntax::facts::LinguisticFactStore;
use orthos::text::{lower_ru, tokenize};

fn analysis(lemma: &str, pos: PartOfSpeech, features: MorphFeatures) -> MorphAnalysis {
    MorphAnalysis { lemma: lemma.to_string(), pos, features }
}

fn full_adjective(lemma: &str) -> MorphAnalysis {
    analysis(
        lemma,
        PartOfSpeech::Adjective,
        MorphFeatures {
            case: Some(Case::Nominative),
            number: Some(Number::Singular),
            verb_form: None,
            adjective_form: Some(AdjectiveForm::Full), gender: None, person: None },
    )
}

fn short_adjective(lemma: &str) -> MorphAnalysis {
    analysis(
        lemma,
        PartOfSpeech::Adjective,
        MorphFeatures { case: None, number: Some(Number::Singular), verb_form: None, adjective_form: Some(AdjectiveForm::Short), gender: None, person: None },
    )
}

fn noun(lemma: &str, case: Case, number: Number) -> MorphAnalysis {
    analysis(
        lemma,
        PartOfSpeech::Noun,
        MorphFeatures { case: Some(case), number: Some(number), verb_form: None, adjective_form: None, gender: None, person: None },
    )
}

fn finite_verb(lemma: &str, number: Number) -> MorphAnalysis {
    analysis(
        lemma,
        PartOfSpeech::Verb,
        MorphFeatures { case: None, number: Some(number), verb_form: Some(VerbForm::Finite), adjective_form: None, gender: None, person: None },
    )
}

/// The coordination fixture lexicon, looked up in lowercase.
struct CoordinationFixture;

impl MorphAnalyzer for CoordinationFixture {
    fn analyze(&self, word: &str) -> Vec<MorphAnalysis> {
        match lower_ru(word).as_str() {
            "умный" => vec![full_adjective("умный")],
            "быстрый" => vec![full_adjective("быстрый")],
            "надёжный" => vec![full_adjective("надёжный")],
            "анализатор" => vec![noun("анализатор", Case::Nominative, Number::Singular)],
            "мама" => vec![noun("мама", Case::Nominative, Number::Singular)],
            "папа" => vec![noun("папа", Case::Nominative, Number::Singular)],
            "пришли" => vec![finite_verb("прийти", Number::Plural)],
            "рыба" => vec![noun("рыба", Case::Nominative, Number::Singular)],
            "мясо" => vec![noun("мясо", Case::Nominative, Number::Singular)],
            "работает" => vec![finite_verb("работать", Number::Singular)],
            "проверяет" => vec![finite_verb("проверять", Number::Singular)],
            "точен" => vec![short_adjective("точный")],
            "стабилен" => vec![short_adjective("стабильный")],
            _ => Vec::new(),
        }
    }
}

/// A lexicon in which "дома" has two noun readings.
struct DemoLexicon;

impl MorphAnalyzer for DemoLexicon {
    fn analyze(&self, word: &str) -> Vec<MorphAnalysis> {
        match lower_ru(word).as_str() {
            "дома" => vec![noun("дом", Case::Genitive, Number::Singular), noun("дом", Case::Nominative, Number::Plural)],
            "стоят" => vec![finite_verb("стоять", Number::Plural)],
            _ => Vec::new(),
        }
    }
}

fn facts(text: &str) -> LinguisticFactStore<'_> {
    let tokens = tokenize(text);
    LinguisticFactStore::from_tokens_with_analyses(text, &tokens, |idx| CoordinationFixture.analyze(&tokens[idx].text), &[], &[])
}

#[test]
fn ambiguity_model_keeps_multiple_analyses_explicit() {
    let tokens = tokenize("Дома стоят.");
    let ambiguity = AmbiguityModel::from_tokens(&tokens, &DemoLexicon);
    let token_index = tokens.iter().position(|token| token.text == "Дома").unwrap();
    let item = ambiguity.for_token_index(token_index).unwrap();

    assert_eq!(item.class, AmbiguityClass::AmbiguousSamePartOfSpeech);
    assert!(item.blockers.contains(&SuppressionReason::AmbiguousMorphology));
}

#[test]
fn punctuation_slots_find_asyndetic_modifier_coordination() {
    let facts = facts("умный быстрый анализатор");
    let slot = facts
        .punctuation_slots
        .iter()
        .find(|slot| slot.left_token.text == "умный" && slot.right_token.text == "быстрый")
        .unwrap();

    assert!(slot.missing_expected_mark(PunctuationMark::Comma));
    assert!(slot.evidence.iter().any(|item| {
        item.kind == PunctuationSlotEvidenceKind::Coordination && item.mark == Some(PunctuationMark::Comma)
    }));
}

#[test]
fn coordination_groups_are_extracted_from_multiple_fixtures() {
    let modifier = facts("умный, быстрый и надёжный анализатор");
    assert!(modifier.coordination_groups.iter().any(|group| {
        group.kind == CoordinationGroupKind::ModifierSeries
            && group.members.len() == 3
            && group.connectors.len() == 2
            && group.is_actionable()
    }));

    let subject = facts("мама и папа пришли");
    assert!(subject.coordination_groups.iter().any(|group| {
        group.kind == CoordinationGroupKind::NominalSubject
            && group.members.len() == 2
            && group.agreement_number == Some(Number::Plural)
            && group.shared_cases == vec![Case::Nominative]
    }));

    let repeated = facts("ни рыба ни мясо");
    assert!(repeated.coordination_groups.iter().any(|group| {
        group.connectors.iter().any(|connector| connector.kind == CoordinationConnectorKind::RepeatedConjunction)
    }));
}

#[test]
fn punctuation_slots_document_expected_marks_and_suppression_fixtures() {
    let introductory = facts("Конечно анализатор работает.");
    assert!(introductory.punctuation_slots.iter().any(|slot| {
        slot.left_token.text == "Конечно" && slot.after_introductory_candidate && slot.expects(PunctuationMark::Comma)
    }));

    let coordinated = facts("умный, быстрый анализатор");
    assert!(coordinated.punctuation_slots.iter().any(|slot| {
        slot.left_token.text == "умный"
            && slot.right_token.text == "быстрый"
            && slot.existing_marks.contains(&PunctuationMark::Comma)
    }));

    let quoted = facts("Он сказал: «конечно анализатор работает».");
    assert!(quoted.punctuation_slots.iter().any(|slot| {
        slot.inside_quotes && slot.blockers.contains(&SuppressionReason::DirectSpeechBoundary)
    }));

    let proof_slot = introductory.punctuation_slots.iter().find(|slot| slot.left_token.text == "Конечно").unwrap();
    assert!(proof_slot.missing_expected_mark(PunctuationMark::Comma));
    assert!(proof_slot.evidence.iter().any(|item| {
        item.kind == PunctuationSlotEvidenceKind::IntroductoryCandidate && item.mark == Some(PunctuationMark::Comma)
    }));
}

#[test]
fn one_slot_per_pair_of_neighbouring_words() {
    let facts = facts("Мама и папа пришли.");
    assert_eq!(facts.punctuation_slots.len(), 3);
    for (id, slot) in facts.punctuation_slots.iter().enumerate() {
        assert_eq!(slot.id, id);
        assert!(slot.left_token_index < slot.right_token_index);
        assert_eq!(slot.span.start, facts.tokens[slot.left_token_index].span.end);
        assert_eq!(slot.span.end, facts.tokens[slot.right_token_index].span.start);
    }
    assert!(facts.clauses.len() >= 1);
    assert!(tokenize("").is_empty());
    let empty = self::facts("");
    assert!(empty.punctuation_slots.is_empty());
    assert!(empty.coordination_groups.is_empty());
}

#[test]
fn coordination_group_fields_follow_the_series() {
    let facts = facts("умный, быстрый и надёжный анализатор");
    assert_eq!(facts.coordination_groups.len(), 1);
    let group = &facts.coordination_groups[0];
    assert_eq!(group.id, 0);
    assert_eq!(group.start_token, 0);
    assert_eq!(group.members.iter().map(|m| m.token.text.as_str()).collect::<Vec<_>>(), vec!["умный", "быстрый", "надёжный"]);
    assert_eq!(group.connectors[0].kind, CoordinationConnectorKind::Comma);
    assert_eq!(group.connectors[1].kind, CoordinationConnectorKind::SingleConjunction);
    assert_eq!(group.head_context.as_ref().unwrap().text, "анализатор");
    assert_eq!(group.agreement_number, Some(Number::Singular));
    assert_eq!(group.shared_cases, vec![Case::Nominative]);
    assert_eq!(group.island_id, Some(0));
    assert_eq!(group.span.start, 0);
    assert_eq!(group.span.end, facts.tokens[group.end_token].span.end);
    assert!(group.blockers.is_empty());
    assert!(facts.islands.islands().len() >= 1);

    let predicates = self::facts("Анализатор точен и стабилен");
    let series = &predicates.coordination_groups[0];
    assert_eq!(series.members.len(), 2);
    assert_eq!(series.kind, CoordinationGroupKind::Unknown);
    assert_eq!(series.agreement_number, None);
    assert!(series.shared_cases.is_empty());

    let verbs = self::facts("Анализатор работает и проверяет");
    assert_eq!(verbs.coordination_groups[0].kind, CoordinationGroupKind::PredicateSeries);
    assert_eq!(verbs.coordination_groups[0].agreement_number, Some(Number::Singular));
    assert!(verbs.ambiguity.analyses_for_token(2).len() == 1);
}

#[test]
fn groups_do_not_cross_into_quotes() {
    let facts = facts("мама сказала: «мама и папа»");
    assert_eq!(facts.coordination_groups.len(), 1);
    let group = &facts.coordination_groups[0];
    assert!(group.members.iter().all(|m| m.token.text != "сказала"));
    assert!(group.blockers.contains(&SuppressionReason::DirectSpeechBoundary));
    assert!(!group.is_actionable());
}

#[test]
fn slot_helpers_read_marks_readings_and_heads() {
    let tokens = tokenize("умный, быстрый анализатор");
    let ambiguity = AmbiguityModel::from_tokens(&tokens, &CoordinationFixture);
    let islands = SyntacticIslandMap::from_text_tokens("умный, быстрый анализатор", &tokens);
    assert!(following_nominal_head(&tokens, &ambiguity, 3));
    assert!(!following_nominal_head(&tokens, &ambiguity, 5));
    assert!(asyndetic_coordination_candidate(&tokens, &ambiguity, 0, 3, &islands));
    assert!(!asyndetic_coordination_candidate(&tokens, &ambiguity, 3, 5, &islands));
    let adj = vec![full_adjective("умный")];
    let nn = vec![noun("анализатор", Case::Nominative, Number::Singular)];
    assert!(modifier_coordination_pair(&adj, &adj));
    assert!(!modifier_coordination_pair(&adj, &nn));
    assert!(!modifier_coordination_pair(&adj, &[noun("x", Case::Genitive, Number::Singular)]));
    assert!(is_coordination_conjunction("И"));
    assert!(is_coordination_conjunction("либо"));
    assert!(!is_coordination_conjunction("или-то"));
    let slots = punctuation_slots_from_facts(&tokens, &ambiguity, &islands, &[], &[]);
    assert_eq!(slots[0].existing_marks, vec![PunctuationMark::Comma]);
    assert_eq!(slots[0].boundary_strength, PunctuationBoundaryStrength::Strong);
    assert_eq!(slots[0].explanation, "slot is inside a coordination group");
    assert_eq!(slots[1].boundary_strength, PunctuationBoundaryStrength::Weak);
    assert_eq!(slots[1].explanation, "slot has Weak boundary evidence");
    assert!(slots[1].expected_marks.is_empty());
}

#[test]
fn blocked_slots_forbid_marks_and_report_nothing() {
    let quoted = facts("Он сказал: «конечно анализатор работает».");
    let blocked: Vec<&PunctuationSlot> = quoted.punctuation_slots.iter().filter(|slot| !slot.blockers.is_empty()).collect();
    assert!(!blocked.is_empty());
    for slot in blocked {
        assert_eq!(slot.boundary_strength, PunctuationBoundaryStrength::Unsafe);
        assert!(!slot.allows(PunctuationMark::Comma));
        assert!(!slot.allows(PunctuationMark::Dash));
        assert!(!slot.allows(PunctuationMark::Colon));
        assert!(!slot.missing_expected_mark(PunctuationMark::Comma));
    }
}

#[test]
fn groups_stay_inside_their_island_and_unlinkable_ones_are_untrusted() {
    let facts = facts("мама сказала: «мама и папа»");
    for group in &facts.coordination_groups {
        let island = &facts.islands.islands()[group.island_id.unwrap()];
        let (start, end) = (island.start_token.unwrap(), island.end_token.unwrap());
        for pair in group.members.windows(2) {
            assert!(pair[0].token_index < pair[1].token_index);
        }
        assert!(group.members.iter().all(|m| start <= m.token_index && m.token_index <= end));
        assert!(group.blockers.contains(&SuppressionReason::UnsafeBoundary));
        assert!(!group.is_actionable());
    }
}

#[test]
fn groups_are_numbered_in_text_order() {
    let facts = facts("Мама и папа пришли. Рыба и мясо.");
    assert_eq!(facts.coordination_groups.len(), 2);
    for (id, group) in facts.coordination_groups.iter().enumerate() {
        assert_eq!(group.id, id);
    }
    assert!(facts.coordination_groups[0].span.start < facts.coordination_groups[1].span.start);
    assert_eq!(facts.coordination_groups[1].members[0].token.text, "Рыба");
}

#[test]
fn fact_store_summary_is_a_debuggable_document_profile() {
    let facts = facts("# Глоссарий\n- анализатор — модуль проверки\n\nМама и папа пришли. Анализатор работает.");
    let summary = facts.summary();

    assert!(summary.tokens > 0);
    assert!(summary.islands > 0);
    assert!(summary.coordination_groups > 0);
    assert!(summary.punctuation_slots > 0);
    assert_eq!(summary.glossary_entries, 1);
}

#[test]
fn diagnostic_ledger_keeps_emitted_and_suppressed_candidates() {
    let facts = facts(
        "умный быстрый анализатор. Он сказал: «Конечно анализатор работает». ООН решила вопрос. ООН обновила доклад.",
    );
    let ledger = facts.diagnostic_ledger();

    assert!(ledger.entries_by_kind(DiagnosticLedgerKind::Punctuation).iter().any(|entry| {
        entry.status == DiagnosticLedgerStatus::EmittedCandidate
            && entry.proof.conflict.as_ref().is_some_and(|conflict| conflict.kind == "missing_punctuation_mark")
    }));
    assert!(ledger.suppressed().iter().any(|entry| {
        entry.kind == DiagnosticLedgerKind::Punctuation
            && entry.proof.blockers.contains(&SuppressionReason::DirectSpeechBoundary)
    }));
    assert!(ledger.entries_by_kind(DiagnosticLedgerKind::DocumentAbbreviation).iter().any(|entry| {
        entry.status == DiagnosticLedgerStatus::EmittedCandidate && entry.proof.kind == DiagnosticProofKind::DocumentAbbreviation
    }));
    assert!(facts.summary().diagnostic_ledger_entries >= ledger.entries().len());
}
