use orthos::readings::{Case, Gender, MorphAnalysis, MorphFeatures, Number, PartOfSpeech, Person, VerbForm};
use orthos::syntax::agreement::AgreementGraphEdgeKind;
use orthos::syntax::constraints::PrepositionGovernmentEntry;
use orthos::syntax::diagnostics::SuppressionReason;
use orthos::syntax::facts::LinguisticFactStore;
use orthos::syntax::government::{GovernmentFrameKind, GovernmentFrameSource, MorphCompatibility, VerbGovernmentComplementKind};
use orthos::syntax::government_frames::VerbGovernmentEntry;
use orthos::text::{lower_ru, tokenize, TokenKind};

fn features(case: Option<Case>, number: Option<Number>, gender: Option<Gender>) -> MorphFeatures {
    MorphFeatures { case, number, gender, person: None, verb_form: None, adjective_form: None }
}

fn reading(lemma: &str, pos: PartOfSpeech, features: MorphFeatures) -> MorphAnalysis {
    MorphAnalysis { lemma: lemma.to_string(), pos, features }
}

fn verb(lemma: &str, number: Option<Number>, gender: Option<Gender>, form: VerbForm) -> MorphAnalysis {
    let mut f = features(None, number, gender);
    f.verb_form = Some(form);
    if form == VerbForm::Finite && gender.is_none() {
        f.person = Some(Person::Third);
    }
    reading(lemma, PartOfSpeech::Verb, f)
}

fn lexicon(word: &str) -> Vec<MorphAnalysis> {
    match lower_ru(word).as_str() {
        "говорит" => vec![verb("говорить", Some(Number::Singular), None, VerbForm::Finite)],
        "задачу" => vec![reading("задача", PartOfSpeech::Noun, features(Some(Case::Accusative), Some(Number::Singular), Some(Gender::Feminine)))],
        "ждать" => vec![verb("ждать", None, None, VerbForm::Infinitive)],
        "ответу" => vec![reading("ответ", PartOfSpeech::Noun, features(Some(Case::Dative), Some(Number::Singular), Some(Gender::Masculine)))],
        "проверяет" => vec![verb("проверять", Some(Number::Singular), None, VerbForm::Finite)],
        "проверять" => vec![verb("проверять", None, None, VerbForm::Infinitive)],
        "что" => vec![reading("что", PartOfSpeech::Other, features(None, None, None))],
        "проекту" => vec![reading("проект", PartOfSpeech::Noun, features(Some(Case::Dative), Some(Number::Singular), Some(Gender::Masculine)))],
        "согласно" => vec![reading("согласно", PartOfSpeech::Preposition, features(None, None, None))],
        "приказа" => vec![reading("приказ", PartOfSpeech::Noun, features(Some(Case::Genitive), Some(Number::Singular), Some(Gender::Masculine)))],
        "девочка" => vec![reading("девочка", PartOfSpeech::Noun, features(Some(Case::Nominative), Some(Number::Singular), Some(Gender::Feminine)))],
        "пришла" => vec![verb("прийти", Some(Number::Singular), Some(Gender::Feminine), VerbForm::Finite)],
        _ => Vec::new(),
    }
}

fn valency() -> Vec<VerbGovernmentEntry> {
    vec![
        VerbGovernmentEntry {
            lemma: "говорить".to_string(),
            complement_kind: VerbGovernmentComplementKind::Prepositional,
            preposition: Some("о".to_string()),
            allowed_cases: vec![Case::Prepositional],
            source_id: Some("project.verb_government_seed".to_string()),
        },
        VerbGovernmentEntry {
            lemma: "ждать".to_string(),
            complement_kind: VerbGovernmentComplementKind::Direct,
            preposition: None,
            allowed_cases: vec![Case::Genitive],
            source_id: Some("project.verb_government_seed".to_string()),
        },
        VerbGovernmentEntry {
            lemma: "проверять".to_string(),
            complement_kind: VerbGovernmentComplementKind::Direct,
            preposition: None,
            allowed_cases: vec![Case::Accusative],
            source_id: Some("project.verb_government_seed".to_string()),
        },
    ]
}

fn prepositions() -> Vec<PrepositionGovernmentEntry> {
    vec![PrepositionGovernmentEntry { preposition: "согласно".to_string(), allowed_cases: vec![Case::Dative] }]
}

fn facts(text: &str) -> LinguisticFactStore<'_> {
    let tokens = tokenize(text);
    LinguisticFactStore::from_tokens_with_analyses(
        text,
        &tokens,
        |idx| if tokens[idx].kind == TokenKind::Word { lexicon(&tokens[idx].text) } else { Vec::new() },
        &prepositions(),
        &valency(),
    )
}

#[test]
fn government_frames_include_prepositional_verb_valency() {
    let facts = facts("говорит о задачу");
    let frame = facts
        .government_frames()
        .iter()
        .find(|frame| {
            frame.kind == GovernmentFrameKind::Verb
                && frame.source == GovernmentFrameSource::VerbPrepositionalValencySeed
                && frame.governor.token.text == "говорит"
                && frame.dependent.token.text == "задачу"
        })
        .expect("prepositional verb-government frame");

    assert_eq!(frame.expected_cases, vec![Case::Prepositional]);
    assert_eq!(frame.observed_cases, vec![Case::Accusative]);
    assert!(frame.is_conflict());
    let model_ref = frame.model_ref.as_ref().expect("model reference");
    assert_eq!(model_ref.lemma, "говорить");
    assert_eq!(model_ref.complement_kind, VerbGovernmentComplementKind::Prepositional);
    assert_eq!(model_ref.preposition.as_deref(), Some("о"));
    assert_eq!(model_ref.source_id.as_deref(), Some("project.verb_government_seed"));
}

#[test]
fn verb_government_uses_lemma_for_direct_object_seed() {
    let facts = facts("проверяет проекту");
    let frame = facts
        .government_frames()
        .iter()
        .find(|frame| {
            frame.kind == GovernmentFrameKind::Verb
                && frame.source == GovernmentFrameSource::VerbValencySeed
                && frame.governor.token.text == "проверяет"
                && frame.dependent.token.text == "проекту"
        })
        .expect("direct verb-government frame");

    assert_eq!(frame.expected_cases, vec![Case::Accusative]);
    assert_eq!(frame.observed_cases, vec![Case::Dative]);
    assert!(frame.is_conflict());
    let model_ref = frame.model_ref.as_ref().expect("model reference");
    assert_eq!(model_ref.lemma, "проверять");
    assert_eq!(model_ref.complement_kind, VerbGovernmentComplementKind::Direct);
    assert_eq!(model_ref.preposition, None);
}

#[test]
fn verb_government_frame_is_blocked_across_clause_boundary() {
    let facts = facts("проверять что проекту");
    let frame = facts
        .government_frames()
        .iter()
        .find(|frame| {
            frame.kind == GovernmentFrameKind::Verb
                && frame.source == GovernmentFrameSource::VerbValencySeed
                && frame.governor.token.text == "проверять"
                && frame.dependent.token.text == "проекту"
        })
        .expect("blocked direct verb-government frame");

    assert_eq!(frame.compatibility, MorphCompatibility::Incompatible);
    assert!(frame.blockers.contains(&SuppressionReason::ClauseBoundary));
    assert!(!frame.is_conflict());
}

#[test]
fn fact_store_exposes_clauses_agreement_graph_and_government_frames() {
    let facts = facts("Согласно приказа. Девочка пришла.");

    assert!(!facts.nominal_groups().is_empty());
    assert!(facts.government_frames().iter().any(|frame| {
        frame.kind == GovernmentFrameKind::Preposition
            && frame.governor.token.text == "Согласно"
            && frame.dependent.token.text == "приказа"
            && frame.is_conflict()
    }));
    assert!(facts.clauses().iter().any(|clause| {
        clause.subject_candidate.as_ref().is_some_and(|term| term.token.text == "Девочка")
            && clause.predicate.as_ref().is_some_and(|term| term.token.text == "пришла")
            && clause.is_actionable()
    }));
    assert!(facts.agreement_graph().edges().iter().any(|edge| {
        edge.kind == AgreementGraphEdgeKind::SubjectPredicate
            && edge.left.token.text == "Девочка"
            && edge.right.token.text == "пришла"
    }));
}

#[test]
fn preposition_frame_lists_expected_and_observed_cases() {
    let facts = facts("Согласно приказа.");
    let frame = facts
        .government_frames()
        .iter()
        .find(|frame| frame.kind == GovernmentFrameKind::Preposition)
        .expect("preposition frame");
    assert_eq!(frame.source, GovernmentFrameSource::MorphosyntaxRelation);
    assert_eq!(frame.expected_cases, vec![Case::Dative]);
    assert_eq!(frame.observed_cases, vec![Case::Genitive]);
    assert_eq!(facts.summary().government_frames, facts.government_frames().len());
}

#[test]
fn ledger_lists_government_conflicts_with_positions_as_ids() {
    let facts = facts("проверяет проекту");
    let ledger = facts.diagnostic_ledger();
    for (k, entry) in ledger.entries().iter().enumerate() {
        assert_eq!(entry.id, k);
    }
    assert!(ledger
        .entries_by_kind(orthos::syntax::diagnostic_ledger::DiagnosticLedgerKind::Government)
        .iter()
        .any(|entry| entry.status == orthos::syntax::diagnostic_ledger::DiagnosticLedgerStatus::EmittedCandidate));
    assert_eq!(
        ledger.emitted_candidates().len() + ledger.suppressed().len(),
        ledger.entries().len()
    );
}

#[test]
fn government_frames_include_seed_verb_valency() {
    let facts = facts("Ждать ответу нельзя.");

    assert!(facts.government_frames().iter().any(|frame| {
        frame.kind == GovernmentFrameKind::Verb
            && frame.source == GovernmentFrameSource::VerbValencySeed
            && frame.governor.token.text == "Ждать"
            && frame.dependent.token.text == "ответу"
            && frame.expected_cases == vec![Case::Genitive]
            && frame.observed_cases == vec![Case::Dative]
            && frame.is_conflict()
    }));
}
