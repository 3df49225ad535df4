use orthos::readings::{AdjectiveForm, Case, MorphAnalysis, MorphAnalyzer, MorphFeatures, Number, PartOfSpeech, VerbForm};
use orthos::syntax::agreement::AgreementGraphEdgeKind;
use orthos::syntax::agreement_graph::{agreement_edge_proof, AgreementGraph};
use orthos::syntax::diagnostics::DiagnosticProofKind;
use orthos::syntax::facts::LinguisticFactStore;
use orthos::text::{lower_ru, tokenize};

fn analysis(lemma: &str, pos: PartOfSpeech, features: MorphFeatures) -> MorphAnalysis {
    MorphAnalysis { lemma: lemma.to_string(), pos, features }
}

fn adjective(lemma: &str, case: Case, number: Number) -> MorphAnalysis {
    analysis(
        lemma,
        PartOfSpeech::Adjective,
        MorphFeatures { case: Some(case), number: Some(number), verb_form: None, adjective_form: Some(AdjectiveForm::Full), gender: None, person: None },
    )
}

fn noun(lemma: &str, case: Case, number: Number) -> MorphAnalysis {
    analysis(
        lemma,
        PartOfSpeech::Noun,
        MorphFeatures { case: Some(case), number: Some(number), verb_form: None, adjective_form: None, gender: None, person: None },
    )
}

fn finite_verb(lemma: &str, number: Number) -> MorphAnalysis {
    analysis(
        lemma,
        PartOfSpeech::Verb,
        MorphFeatures { case: None, number: Some(number), verb_form: Some(VerbForm::Finite), adjective_form: None, gender: None, person: None },
    )
}

/// The agreement fixture lexicon, looked up in lowercase.
struct AgreementFixture;

impl MorphAnalyzer for AgreementFixture {
    fn analyze(&self, word: &str) -> Vec<MorphAnalysis> {
        match lower_ru(word).as_str() {
            "красивый" => vec![adjective("красивый", Case::Nominative, Number::Singular)],
            "новые" => vec![
                adjective("новый", Case::Nominative, Number::Plural),
                adjective("новый", Case::Accusative, Number::Plural),
            ],
            "дома" => vec![noun("дом", Case::Genitive, Number::Singular), noun("дом", Case::Nominative, Number::Plural)],
            "девочка" => vec![noun("девочка", Case::Nominative, Number::Singular)],
            "пришла" => vec![finite_verb("прийти", Number::Singular)],
            "пришли" => vec![finite_verb("прийти", Number::Plural)],
            _ => Vec::new(),
        }
    }
}

fn facts(text: &str) -> LinguisticFactStore<'_> {
    let tokens = tokenize(text);
    LinguisticFactStore::from_tokens_with_analyses(text, &tokens, |idx| AgreementFixture.analyze(&tokens[idx].text), &[], &[])
}

#[test]
fn agreement_graph_exposes_nominal_group_edges_with_proofs() {
    let facts = facts("красивый новые дома");
    let conflicts = facts.agreement_graph().conflicts_by_kind(AgreementGraphEdgeKind::ModifierHead);
    let edge = conflicts
        .iter()
        .find(|edge| edge.left.token.text == "красивый" && edge.right.token.text == "дома")
        .unwrap();
    let proof = agreement_edge_proof(edge);

    assert_eq!(proof.kind, DiagnosticProofKind::AgreementConflict);
    assert!(proof.is_actionable());
}

#[test]
fn agreeing_modifier_gives_an_edge_without_conflict() {
    let facts = facts("новые дома");
    let graph = facts.agreement_graph();
    assert!(graph.edges().iter().any(|edge| {
        edge.kind == AgreementGraphEdgeKind::ModifierHead
            && edge.left.token.text == "новые"
            && edge.right.token.text == "дома"
            && !edge.is_conflict()
    }));
    assert!(graph.conflicts().is_empty());
}

#[test]
fn agreement_graph_links_subject_and_predicate() {
    let facts = facts("Девочка пришла.");
    let graph = facts.agreement_graph();
    assert!(graph.edges().iter().any(|edge| {
        edge.kind == AgreementGraphEdgeKind::SubjectPredicate
            && edge.left.token.text == "Девочка"
            && edge.right.token.text == "пришла"
    }));
    let subject = facts.tokens().iter().position(|token| token.text == "Девочка").unwrap();
    assert!(!graph.edges_for_token(subject).is_empty());
    assert!(graph.conflicts_by_kind(AgreementGraphEdgeKind::SubjectPredicate).is_empty());
}

#[test]
fn subject_predicate_number_clash_is_a_conflict() {
    let facts = facts("Девочка пришли.");
    let conflicts = facts.agreement_graph().conflicts_by_kind(AgreementGraphEdgeKind::SubjectPredicate);
    assert_eq!(conflicts.len(), 1);
    let proof = agreement_edge_proof(conflicts[0]);
    assert_eq!(proof.kind, DiagnosticProofKind::AgreementConflict);
    assert_eq!(proof.facts[2].value, "SubjectPredicate");
    assert_eq!(proof.conflict.as_ref().unwrap().kind, "SubjectPredicate");
}

#[test]
fn repeated_facts_give_each_edge_once() {
    let facts = facts("Девочка пришла.");
    let mut clauses = facts.clauses().to_vec();
    clauses.extend(facts.clauses().iter().cloned());
    let graph = AgreementGraph::from_facts(
        facts.morphosyntax(),
        &clauses,
        facts.nominal_groups(),
        facts.ambiguity(),
        facts.islands(),
    );
    assert_eq!(graph.edges().len(), facts.agreement_graph().edges().len());
    assert_eq!(
        graph.edges().iter().filter(|edge| edge.kind == AgreementGraphEdgeKind::SubjectPredicate).count(),
        1
    );
}
