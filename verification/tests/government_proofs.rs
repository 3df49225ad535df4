use orthos::readings::Case;
use orthos::syntax::diagnostics::{DiagnosticProofKind, SuppressionReason};
use orthos::syntax::government::{
    government_frame_proof, GovernmentFrame, GovernmentFrameKind, GovernmentFrameModelRef, GovernmentFrameSource,
    MorphCompatibility, MorphosyntacticRole, MorphosyntacticTerm, VerbGovernmentComplementKind,
};
use orthos::syntax::model::SyntaxConfidence;
use orthos::text::{Span, Token, TokenKind};

fn term(index: usize, text: &str, start: usize, role: MorphosyntacticRole) -> MorphosyntacticTerm {
    MorphosyntacticTerm {
        token_index: index,
        token: Token { kind: TokenKind::Word, text: text.to_string(), span: Span::new(start, start + text.len()) },
        role,
        analyses: Vec::new(),
    }
}

fn frame(kind: GovernmentFrameKind, blockers: Vec<SuppressionReason>) -> GovernmentFrame {
    GovernmentFrame {
        kind,
        source: GovernmentFrameSource::VerbValencySeed,
        governor: term(0, "вижу", 0, MorphosyntacticRole::CaseGovernor),
        dependent: term(2, "дому", 9, MorphosyntacticRole::GovernedNominal),
        span: Span::new(0, 17),
        expected_cases: vec![Case::Accusative],
        observed_cases: vec![Case::Dative],
        compatibility: MorphCompatibility::Incompatible,
        confidence: SyntaxConfidence::Strong,
        blockers,
        model_ref: Some(GovernmentFrameModelRef {
            lemma: "видеть".to_string(),
            complement_kind: VerbGovernmentComplementKind::Direct,
            preposition: None,
            source_id: Some("seed:1".to_string()),
            note: None,
        }),
    }
}

#[test]
fn government_frame_proof_lists_facts_and_the_case_conflict() {
    let f = frame(GovernmentFrameKind::Verb, Vec::new());
    assert!(f.is_conflict());
    let proof = government_frame_proof(&f);
    assert_eq!(proof.kind, DiagnosticProofKind::GovernmentConflict);
    let keys: Vec<&str> = proof.facts.iter().map(|fact| fact.key.as_str()).collect();
    assert_eq!(
        keys,
        vec!["governor", "dependent", "frame_kind", "frame_source", "model_lemma", "model_complement_kind", "model_preposition", "model_source_id"]
    );
    assert_eq!(proof.facts[2].value, "Verb");
    assert_eq!(proof.facts[3].value, "VerbValencySeed");
    assert_eq!(proof.facts[6].value, "");
    let conflict = proof.conflict.as_ref().unwrap();
    assert_eq!(conflict.kind, "case_government");
    assert_eq!(conflict.expected, vec!["Accusative".to_string()]);
    assert_eq!(conflict.observed, vec!["Dative".to_string()]);
    assert!(proof.is_actionable());
}

#[test]
fn numeral_frames_prove_quantity_and_blockers_suppress() {
    let f = frame(GovernmentFrameKind::Numeral, vec![SuppressionReason::ClauseBoundary, SuppressionReason::ClauseBoundary]);
    assert!(!f.is_conflict());
    let proof = government_frame_proof(&f);
    assert_eq!(proof.kind, DiagnosticProofKind::QuantityConflict);
    assert_eq!(proof.conflict.as_ref().unwrap().kind, "quantity_government");
    assert_eq!(proof.blockers, vec![SuppressionReason::ClauseBoundary]);
    assert!(!proof.is_actionable());
}
