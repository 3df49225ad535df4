use orthos::readings::{AdjectiveForm, Case, MorphAnalysis, MorphFeatures, Number, PartOfSpeech, VerbForm};
use orthos::syntax::ambiguity::{AmbiguityClass, AmbiguityModel};
use orthos::syntax::clause_candidates::clause_candidates_from_islands;
use orthos::syntax::clauses::ClauseBoundaryMap;
use orthos::syntax::coordination::{CoordinationGroup, CoordinationGroupKind, CoordinationMember};
use orthos::syntax::diagnostics::SuppressionReason;
use orthos::syntax::disambiguation::{DisambiguationConstraint, DisambiguationTrace, ReadingElimination};
use orthos::syntax::document::{token_range_for_span, SyntaxDocument};
use orthos::syntax::document_context::DocumentContext;
use orthos::syntax::document_diagnostics::{
    decimal_string, document_abbreviation_candidates, document_abbreviation_proof, document_style_candidates,
    document_style_proof,
};
use orthos::syntax::document_structure::{heading_candidates, list_item_candidates, paragraph_count, HeadingStyle, ListMarkerKind};
use orthos::syntax::document_terms::{normalize_abbreviation, normalize_document_term};
use orthos::syntax::islands::{SyntacticIslandKind, SyntacticIslandMap};
use orthos::syntax::model::SyntaxConfidence;
use orthos::syntax::nominal_groups::{
    nominal_group_from_start, nominal_group_roles_are_plausible, numeral_governed_nominal_group_candidates,
    preposition_governed_nominal_group_candidates,
};
use orthos::syntax::phraseology::phraseological_pair_commas;
use orthos::syntax::punctuation::{
    punctuation_slot_evidence, punctuation_slot_proof, PunctuationBoundaryStrength, PunctuationMark, PunctuationSlot,
    PunctuationSlotEvidenceKind,
};
use orthos::syntax::quantities::{numeral_component_class_for_surface, NumeralComponentClass};
use orthos::syntax::relations::{
    adjacent_modifier_head_candidates, merge_blockers, whitespace_blockers, SyntaxRelationBlocker,
};
use orthos::text::{tokenize, Span, Token, TokenKind};

fn reading(lemma: &str, pos: PartOfSpeech, case: Option<Case>) -> MorphAnalysis {
    MorphAnalysis {
        lemma: lemma.to_string(),
        pos,
        features: MorphFeatures { case, number: Some(Number::Singular), verb_form: None, adjective_form: None, gender: None, person: None },
    }
}

fn finite_verb(lemma: &str) -> MorphAnalysis {
    MorphAnalysis {
        lemma: lemma.to_string(),
        pos: PartOfSpeech::Verb,
        features: MorphFeatures { case: None, number: Some(Number::Singular), verb_form: Some(VerbForm::Finite), adjective_form: None, gender: None, person: None },
    }
}

fn demo_readings(word: &str) -> Vec<MorphAnalysis> {
    match word {
        "Девочка" | "девочка" => vec![reading("девочка", PartOfSpeech::Noun, Some(Case::Nominative))],
        "пришла" => vec![finite_verb("прийти")],
        "Дома" => vec![
            reading("дом", PartOfSpeech::Noun, Some(Case::Genitive)),
            reading("дом", PartOfSpeech::Noun, Some(Case::Nominative)),
        ],
        "стоят" => vec![finite_verb("стоять")],
        "новые" => vec![MorphAnalysis {
            lemma: "новый".to_string(),
            pos: PartOfSpeech::Adjective,
            features: MorphFeatures { case: Some(Case::Nominative), number: Some(Number::Plural), verb_form: None, adjective_form: Some(AdjectiveForm::Full), gender: None, person: None },
        }],
        "дома" => vec![reading("дом", PartOfSpeech::Noun, Some(Case::Nominative))],
        _ => Vec::new(),
    }
}

fn token(kind: TokenKind, text: &str, start: usize) -> Token {
    Token { kind, text: text.to_string(), span: Span::new(start, start + text.len()) }
}

#[test]
fn line_breaks_block_adjacent_relations() {
    assert_eq!(whitespace_blockers(" "), Vec::<SyntaxRelationBlocker>::new());
    assert_eq!(whitespace_blockers(" \n "), vec![SyntaxRelationBlocker::NewlineBetween]);
    let tokens = tokenize("новый\nдом");
    let candidates = adjacent_modifier_head_candidates(&tokens);
    assert_eq!(candidates.len(), 1);
    assert_eq!(candidates[0].blockers, vec![SyntaxRelationBlocker::NewlineBetween]);
    assert_eq!(candidates[0].confidence, SyntaxConfidence::Ambiguous);
    assert!(!candidates[0].is_actionable());
}

#[test]
fn merged_blockers_are_sorted_and_unique_in_either_order() {
    let a = vec![SyntaxRelationBlocker::Coordination, SyntaxRelationBlocker::NewlineBetween];
    let b = vec![SyntaxRelationBlocker::NewlineBetween, SyntaxRelationBlocker::PunctuationBetween];
    let expected = vec![
        SyntaxRelationBlocker::PunctuationBetween,
        SyntaxRelationBlocker::NewlineBetween,
        SyntaxRelationBlocker::Coordination,
    ];
    assert_eq!(merge_blockers(a.clone(), b.clone()), expected);
    assert_eq!(merge_blockers(b, a), expected);
}

#[test]
fn nominal_groups_walk_words_separated_by_plain_space() {
    let tokens = tokenize("Новый важный приказ");
    let group = nominal_group_from_start(&tokens, 0, 2).unwrap();
    assert_eq!(group.end_token, 4);
    assert_eq!(group.head.text, "приказ");
    assert_eq!(group.span, Span::new(0, tokens[4].span.end));
    assert!(nominal_group_from_start(&tokens, 0, 3).is_none());
    let punctuated = tokenize("Новый, приказ");
    assert!(nominal_group_from_start(&punctuated, 0, 1).is_none());
}

#[test]
fn governed_groups_follow_the_governor() {
    let tokens = tokenize("Согласно новому приказу");
    let prepositions = vec!["согласно".to_string()];
    let governed = preposition_governed_nominal_group_candidates(&tokens, &prepositions, 3);
    assert_eq!(governed.len(), 2);
    assert_eq!(governed[0].group.head.text, "новому");
    assert_eq!(governed[1].group.head.text, "приказу");
    assert!(governed.iter().all(|candidate| candidate.governor.text == "Согласно" && candidate.is_actionable()));
    let numerals = numeral_governed_nominal_group_candidates(&tokens, 0);
    assert_eq!(numerals.len(), 2);
}

#[test]
fn numeral_components_are_classified_by_lowercase_form() {
    assert_eq!(numeral_component_class_for_surface("Тысяча"), NumeralComponentClass::Thousand);
    assert_eq!(numeral_component_class_for_surface("семеро"), NumeralComponentClass::Collective);
    assert_eq!(numeral_component_class_for_surface("пятый"), NumeralComponentClass::Unknown);
    assert!(!NumeralComponentClass::Unknown.can_select_governed_nominal_form());
}

#[test]
fn phraseological_pairs_take_no_comma() {
    let tokens = tokenize("Он работал и день, и ночь.");
    let commas = phraseological_pair_commas(&tokens);
    assert_eq!(commas.len(), 1);
    assert_eq!(tokens[commas[0].comma_token_index].text, ",");
    let text = "ни рыба, ни мясо";
    let tokens = tokenize(text);
    let commas = phraseological_pair_commas(&tokens);
    assert_eq!(commas.len(), 1);
    assert_eq!(commas[0].pair_span, Span::new(0, text.len()));
    assert!(phraseological_pair_commas(&tokenize("и день, и утро")).is_empty());
}

#[test]
fn slot_evidence_lists_flags_marks_and_blockers_in_order() {
    let span = Span::new(3, 4);
    let evidence = punctuation_slot_evidence(
        span,
        PunctuationBoundaryStrength::Medium,
        true,
        false,
        false,
        &[PunctuationMark::Dash],
        &[PunctuationMark::Comma],
        &[],
        &[SuppressionReason::QuoteBoundary],
    );
    let messages = evidence.iter().map(|item| item.message.as_str()).collect::<Vec<_>>();
    assert_eq!(
        messages,
        vec![
            "boundary strength: Medium",
            "slot lies between two clause candidates",
            "existing mark: Dash",
            "expected mark: Comma",
            "blocked by QuoteBoundary",
        ]
    );
    assert_eq!(evidence[1].kind, PunctuationSlotEvidenceKind::ClauseBoundary);
    assert!(evidence.iter().all(|item| item.span == Some(span)));
}

fn slot(existing: Vec<PunctuationMark>, blockers: Vec<SuppressionReason>) -> PunctuationSlot {
    let left = token(TokenKind::Word, "Конечно", 0);
    let right = token(TokenKind::Word, "это", 15);
    PunctuationSlot {
        id: 0,
        span: Span::new(14, 15),
        left_token_index: 0,
        right_token_index: 2,
        left_token: left,
        right_token: right,
        boundary_strength: PunctuationBoundaryStrength::Strong,
        inside_quotes: false,
        inside_parentheses: false,
        between_clauses: false,
        after_introductory_candidate: true,
        existing_marks: existing,
        expected_marks: vec![PunctuationMark::Comma],
        forbidden_marks: vec![PunctuationMark::Colon],
        explanation: "introductory word".to_string(),
        evidence: Vec::new(),
        blockers,
    }
}

#[test]
fn slot_proof_reports_a_missing_mark_only_when_unblocked() {
    let open = slot(Vec::new(), Vec::new());
    assert!(open.missing_expected_mark(PunctuationMark::Comma));
    assert!(!open.allows(PunctuationMark::Colon));
    let proof = punctuation_slot_proof(&open, PunctuationMark::Comma);
    assert!(proof.is_actionable());
    assert_eq!(proof.facts[2].value, "Strong");
    assert_eq!(proof.facts[4].value, "Comma");
    assert_eq!(proof.suppressed_alternatives[0].label, "forbidden Colon");
    let conflict = proof.conflict.clone().unwrap();
    assert_eq!(conflict.kind, "missing_punctuation_mark");

    let present = slot(vec![PunctuationMark::Comma], Vec::new());
    assert!(punctuation_slot_proof(&present, PunctuationMark::Comma).conflict.is_none());
    let blocked = slot(Vec::new(), vec![SuppressionReason::QuoteBoundary]);
    let proof = punctuation_slot_proof(&blocked, PunctuationMark::Comma);
    assert!(proof.conflict.is_none());
    assert_eq!(proof.blockers, vec![SuppressionReason::QuoteBoundary]);
}

#[test]
fn islands_split_at_parentheses_and_link_only_inside_plain_text() {
    let text = "Мама сказала (тихо) привет.";
    let tokens = tokenize(text);
    let map = SyntacticIslandMap::from_text_tokens(text, &tokens);
    let islands = map.islands();
    assert_eq!(islands.len(), 3);
    assert!(islands.iter().enumerate().all(|(idx, island)| island.id == idx));
    assert_eq!(islands[1].kind, SyntacticIslandKind::Parenthetical);
    assert_eq!(islands[1].blockers, vec![SuppressionReason::ParenthesisBoundary]);
    let mama = tokens.iter().position(|t| t.text == "Мама").unwrap();
    let said = tokens.iter().position(|t| t.text == "сказала").unwrap();
    let quiet = tokens.iter().position(|t| t.text == "тихо").unwrap();
    assert!(map.can_link_tokens(mama, said));
    assert!(!map.can_link_tokens(said, quiet));
    assert!(!map.can_link_tokens(quiet, quiet));
}

#[test]
fn clause_blockers_do_not_depend_on_argument_order() {
    let text = "проверять что проекту";
    let tokens = tokenize(text);
    let map = ClauseBoundaryMap::from_text_tokens(text, &tokens);
    assert_eq!(map.blockers_between_tokens(4, 0), map.blockers_between_tokens(0, 4));
    assert!(map.blockers_between_tokens(2, 2).is_empty());
    assert!(map.blockers_between_tokens(0, 1).is_empty());
}

#[test]
fn plain_document_has_no_clause_boundaries() {
    let document = SyntaxDocument::new("Я знаю что он ушёл. Потом (если можно) звонил.");
    assert_eq!(document.sentences().len(), 2);
    assert!(document.clause_boundaries().is_empty());
    assert_eq!(document.parentheticals().len(), 1);
    let inside = document.text().find("если").unwrap();
    assert!(document.is_inside_punctuation_safe_zone(inside));
    assert_eq!(document.sentence_at(inside).unwrap().span.start, document.sentences()[1].span.start);
    assert!(document.sentence_at(document.text().len()).is_none());
    let first = &document.sentences()[0];
    assert_eq!(first.start_token, Some(0));
    assert_eq!(token_range_for_span(document.tokens(), 1000, 2000), (None, None));
}

#[test]
fn headings_and_list_items_are_read_line_by_line() {
    let text = "## Обзор\n  12. пункт первый.\n• пункт\nКороткая строка\nДлинная строка с точкой.";
    let headings = heading_candidates(text);
    assert_eq!(headings.len(), 2);
    assert_eq!(headings[0].text, "Обзор");
    assert_eq!(headings[0].style, HeadingStyle::MarkdownAtx);
    assert_eq!(headings[1].text, "Короткая строка");
    assert_eq!(headings[1].line_number, 4);
    let items = list_item_candidates(text);
    assert_eq!(items.len(), 2);
    assert_eq!(items[0].marker, "12.");
    assert_eq!(items[0].marker_kind, ListMarkerKind::Numbered);
    assert_eq!(items[0].body, "пункт первый.");
    assert!(items[0].has_terminal_punctuation);
    assert_eq!(items[0].span.start, text.find("12.").unwrap());
    assert_eq!(items[1].marker_kind, ListMarkerKind::Bullet);
    assert_eq!(paragraph_count("a\n\n\n\nb\n\n  \n\nc"), 3);
    assert_eq!(paragraph_count(""), 0);
}

#[test]
fn terms_and_abbreviations_are_normalized() {
    assert_eq!(normalize_document_term("Анализ-Тест!").into_iter().collect::<String>(), "анализ-тест");
    assert_eq!(normalize_abbreviation("(ООН)").map(|v| v.into_iter().collect::<String>()), Some("ООН".to_string()));
    assert_eq!(normalize_abbreviation("Оон"), None);
    assert_eq!(normalize_abbreviation("А"), None);
    assert_eq!(decimal_string(0), "0");
    assert_eq!(decimal_string(1207), "1207");
}

#[test]
fn document_candidates_and_proofs_explain_style_and_abbreviations() {
    let text = "- один\n* два\n\nМВД сообщило. МВД ответило.";
    let tokens = tokenize(text);
    let document = DocumentContext::new(text, &tokens);
    let abbreviations = document_abbreviation_candidates(&document);
    assert_eq!(abbreviations.len(), 1);
    assert_eq!(abbreviations[0].abbreviation.short, "МВД");
    let proof = document_abbreviation_proof(abbreviations[0].abbreviation, abbreviations[0].reason);
    assert_eq!(proof.facts[1].value, "2");
    assert_eq!(proof.conflict.clone().unwrap().kind, "missing_first_mention_expansion");
    assert!(proof.is_actionable());

    let styles = document_style_candidates(&document);
    assert_eq!(styles.len(), 1);
    assert_eq!(styles[0].key, "mixed_list_markers");
    assert_eq!(styles[0].span, Span::new(0, text.find("\n\n").unwrap()));
    let proof = document_style_proof(&styles[0]);
    assert_eq!(proof.facts.len(), 3);
    assert_eq!(proof.facts[1].value, "-::Dash");
    assert_eq!(proof.facts[2].value, "*::Asterisk");
}

#[test]
fn ambiguity_model_keeps_every_reading_and_classifies_it() {
    let tokens = tokenize("Дома стоят.");
    let ambiguity = AmbiguityModel::from_tokens_with_analyses(&tokens, |idx| demo_readings(&tokens[idx].text));
    assert_eq!(ambiguity.token_ambiguities().len(), 2);
    let home = ambiguity.for_token_index(0).unwrap();
    assert_eq!(home.class, AmbiguityClass::AmbiguousSamePartOfSpeech);
    assert_eq!(home.blockers, vec![SuppressionReason::AmbiguousMorphology]);
    assert!(home.has_pos(PartOfSpeech::Noun));
    assert!(AmbiguityClass::AmbiguousSamePartOfSpeech.is_ambiguous());
    let stand = ambiguity.for_token_index(2).unwrap();
    assert!(stand.is_safe_for_confident_diagnostic());
    assert!(ambiguity.for_token_index(1).is_none());
    assert!(ambiguity.analyses_for_token(3).is_empty());
}

#[test]
fn clause_candidates_find_predicate_and_subject_per_island() {
    let text = "Девочка пришла: «Дома стоят».";
    let tokens = tokenize(text);
    let islands = SyntacticIslandMap::from_text_tokens(text, &tokens);
    let ambiguity = AmbiguityModel::from_tokens_with_analyses(&tokens, |idx| demo_readings(&tokens[idx].text));
    let clauses = clause_candidates_from_islands(&tokens, &ambiguity, &islands);
    assert_eq!(clauses.len(), islands.islands().len());
    let first = &clauses[0];
    assert_eq!(first.predicate.as_ref().unwrap().token.text, "пришла");
    assert_eq!(first.subject_candidate.as_ref().unwrap().token.text, "Девочка");
    assert!(first.is_actionable());
    let quoted = clauses.iter().find(|clause| clause.island_id == Some(1)).unwrap();
    assert!(quoted.blockers.contains(&SuppressionReason::DirectSpeechBoundary));
    assert!(quoted.blockers.contains(&SuppressionReason::AmbiguousMorphology));
    assert_eq!(quoted.confidence, SyntaxConfidence::Weak);
}

#[test]
fn nominal_group_roles_follow_the_readings() {
    let tokens = tokenize("новые дома");
    let group = nominal_group_from_start(&tokens, 0, 1).unwrap();
    assert!(nominal_group_roles_are_plausible(&group, &|idx: usize| demo_readings(&tokens[idx].text)));
    let reversed = tokenize("дома новые");
    let group = nominal_group_from_start(&reversed, 0, 1).unwrap();
    assert!(!nominal_group_roles_are_plausible(&group, &|idx: usize| demo_readings(&reversed[idx].text)));
}

#[test]
fn disambiguation_trace_reports_eliminations_per_token() {
    assert_eq!(DisambiguationConstraint::PrepositionVerbExclusion.as_str(), "preposition_verb_exclusion");
    let elimination = ReadingElimination {
        token_index: 2,
        form: "стали".to_string(),
        eliminated_lemma: "стать".to_string(),
        eliminated_pos: PartOfSpeech::Verb,
        eliminated_features: "number=plur".to_string(),
        constraint: DisambiguationConstraint::PrepositionVerbExclusion,
        evidence_token_index: 0,
        evidence_form: "Из".to_string(),
        explanation: "verb after preposition".to_string(),
    };
    let trace = DisambiguationTrace { eliminations: vec![elimination], passes: 1 };
    assert!(!trace.is_empty());
    assert_eq!(trace.eliminations_for_token(2).len(), 1);
    assert!(trace.eliminations_for_token(0).is_empty());
    assert!(DisambiguationTrace::default().is_empty());
}

#[test]
fn coordination_needs_two_trusted_members() {
    let member = |idx: usize, text: &str| CoordinationMember {
        token_index: idx,
        token: token(TokenKind::Word, text, idx * 10),
        analyses: Vec::new(),
    };
    let mut group = CoordinationGroup {
        id: 0,
        kind: CoordinationGroupKind::NominalSubject,
        span: Span::new(0, 20),
        start_token: 0,
        end_token: 4,
        island_id: Some(0),
        members: vec![member(0, "мама"), member(4, "папа")],
        connectors: Vec::new(),
        head_context: None,
        agreement_number: Some(Number::Plural),
        shared_cases: vec![Case::Nominative],
        confidence: SyntaxConfidence::Strong,
        blockers: Vec::new(),
    };
    assert!(group.is_actionable());
    group.members.pop();
    assert!(!group.is_actionable());
}
