use vstd::prelude::*;
use crate::text::{Token, TokenKind};
use crate::readings::{copy_analyses, MorphAnalysis};
use crate::syntax::ambiguity::{
    ambiguity_of, analyzable, analyzable_indices, lemma_analyzable_indices, spec_is_ambiguous, AmbiguityModel, TokenAmbiguity,
};
use crate::syntax::islands::{islands_of, SyntacticIslandMap};
use crate::syntax::clauses::ClauseBoundaryMap;
use crate::syntax::nominal_groups::{group_views, short_nominal_group_candidates, spec_short_groups, NominalGroupCandidate};
use crate::syntax::clause_candidates::{clause_candidates_from_islands, is_clause_candidate, ClauseCandidate};
use crate::syntax::coordination::{coordination_groups_from_facts, groups_of, CoordinationGroup};
use crate::syntax::slots::{all_word_positions, is_slot, punctuation_slots_from_facts};
use crate::syntax::punctuation::PunctuationSlot;
use crate::syntax::document_context::{context_of, DocumentContext};
use crate::syntax::document_terms::abbreviation_starts_ok;
use crate::syntax::constraints::{
    disambiguate_readings, elimination_ok, is_subsequence, pass_count, passes_from, reading_views, total_readings,
    PrepositionGovernmentEntry,
};
use crate::syntax::disambiguation::DisambiguationTrace;
use crate::syntax::nominal_groups::lemma_short_groups_fit;
use crate::syntax::numeral_government::{morphosyntactic_views, MorphosyntacticRelation};
use crate::syntax::morphosyntax::{morphosyntax_relations, spec_morphosyntax_relations};
use crate::syntax::agreement_graph::{dedup_edges, graph_candidates, AgreementGraph};
use crate::syntax::government::GovernmentFrame;
use crate::syntax::government_frames::{
    dedup_frames, frames_are, government_frames_from_facts, spec_all_frames, VerbGovernmentEntry,
};
use crate::syntax::diagnostic_ledger::{
    entries_are, entries_with_status, ledger_items, DiagnosticLedger, DiagnosticLedgerStatus,
};
use crate::syntax::document_diagnostics::unexpanded_upto;

verus! {

/// The readings the source gives for each word token; none for other
/// tokens.
pub open spec fn source_readings<F: Fn(usize) -> Vec<MorphAnalysis>>(
    toks: Seq<Token>,
    f: F,
    rs: Seq<Vec<MorphAnalysis>>,
) -> bool {
    &&& rs.len() == toks.len()
    &&& forall|i: int|
        0 <= i < toks.len() ==> if analyzable(toks[i]) {
            call_ensures(f, (i as usize,), #[trigger] rs[i])
        } else {
            rs[i]@.len() == 0
        }
}

/// The counts of what the fact layers found.
#[derive(Debug, Clone, PartialEq, Eq)]
pub struct LinguisticFactStoreSummary {
    pub tokens: usize,
    pub ambiguous_tokens: usize,
    pub eliminated_readings: usize,
    pub islands: usize,
    pub nominal_groups: usize,
    pub clause_boundaries: usize,
    pub clauses: usize,
    pub agreement_edges: usize,
    pub coordination_groups: usize,
    pub punctuation_slots: usize,
    pub government_frames: usize,
    pub document_terms: usize,
    pub document_abbreviations: usize,
    pub glossary_entries: usize,
    pub diagnostic_ledger_entries: usize,
    pub suppressed_diagnostics: usize,
}

/// Every fact layer of one text, each built from the layers before it.
pub struct LinguisticFactStore<'a> {
    pub tokens: Vec<Token>,
    pub readings: Vec<Vec<MorphAnalysis>>,
    pub disambiguation: DisambiguationTrace,
    pub ambiguity: AmbiguityModel,
    pub islands: SyntacticIslandMap,
    pub clause_boundaries: ClauseBoundaryMap,
    pub nominal_groups: Vec<NominalGroupCandidate>,
    pub clauses: Vec<ClauseCandidate>,
    pub morphosyntax: Vec<MorphosyntacticRelation>,
    pub agreement_graph: AgreementGraph,
    pub government_frames: Vec<GovernmentFrame>,
    pub coordination_groups: Vec<CoordinationGroup>,
    pub punctuation_slots: Vec<PunctuationSlot>,
    pub document_context: DocumentContext<'a>,
    pub diagnostic_ledger: DiagnosticLedger,
}

/// How many items are ambiguous among the first `k`.
pub open spec fn ambiguous_count(items: Seq<TokenAmbiguity>, k: int) -> int
    decreases k,
{
    if k <= 0 {
        0
    } else {
        ambiguous_count(items, k - 1) + if spec_is_ambiguous(items[k - 1].class) {
            1int
        } else {
            0
        }
    }
}

impl<'a> LinguisticFactStore<'a> {
    /// The layers of the store, as the builder ties them to each other and
    /// to the text `s` cut into `toks`, with `rs0` the readings the source
    /// gave, `preps` the preposition entries and `verbs` the verb valency
    /// entries.
    pub open spec fn layered(
        &self,
        s: Seq<char>,
        toks: Seq<Token>,
        rs0: Seq<Vec<MorphAnalysis>>,
        preps: Seq<PrepositionGovernmentEntry>,
        verbs: Seq<VerbGovernmentEntry>,
    ) -> bool {
        let items = self.ambiguity.items();
        let v = self.islands.islands_view();
        let w = all_word_positions(toks);
        &&& self.tokens@ == toks
        &&& self.readings@.len() == rs0.len()
        &&& forall|i: int| 0 <= i < rs0.len() ==> is_subsequence(#[trigger] self.readings@[i]@, rs0[i]@)
        &&& forall|i: int| 0 <= i < rs0.len() && rs0[i]@.len() > 0 ==> (#[trigger] self.readings@[i])@.len() > 0
        &&& total_readings(rs0) - total_readings(self.readings@) == self.disambiguation.eliminations@.len()
        &&& 1 <= self.disambiguation.passes <= 3
        &&& reading_views(self.readings@) == passes_from(toks, reading_views(rs0), preps, 0)
        &&& self.disambiguation.passes == pass_count(toks, reading_views(rs0), preps, 0)
        &&& forall|k: int|
            0 <= k < self.disambiguation.eliminations@.len() ==> elimination_ok(
                toks,
                #[trigger] self.disambiguation.eliminations@[k],
            )
        &&& items.len() == analyzable_indices(toks, toks.len() as int).len()
        &&& forall|j: int|
            0 <= j < items.len() ==> (#[trigger] items[j]).analyses@ == self.readings@[analyzable_indices(
                toks,
                toks.len() as int,
            )[j]]@ && items[j].token_index == analyzable_indices(toks, toks.len() as int)[j]
        &&& islands_of(s, toks, v)
        &&& self.clause_boundaries.built_from(s, toks)
        &&& group_views(self.nominal_groups@) == spec_short_groups(toks, 3, toks.len() as int)
        &&& self.clauses@.len() == v.len()
        &&& forall|k: int| 0 <= k < self.clauses@.len() ==> is_clause_candidate(toks, items, k, v[k], #[trigger] self.clauses@[k])
        &&& morphosyntactic_views(self.morphosyntax@) == spec_morphosyntax_relations(toks, self.readings@, preps)
        &&& exists|pre: Seq<crate::syntax::agreement::AgreementGraphEdge>|
            graph_candidates(self.morphosyntax@, self.clauses@, self.nominal_groups@, items, v, pre)
                && #[trigger] self.agreement_graph.edge_list() == dedup_edges(pre, pre.len() as int)
        &&& frames_are(
            self.government_frames@,
            dedup_frames(
                spec_all_frames(
                    toks,
                    items,
                    morphosyntactic_views(self.morphosyntax@),
                    self.clause_boundaries.boundaries_view(),
                    v,
                    preps,
                    verbs,
                ),
                spec_all_frames(
                    toks,
                    items,
                    morphosyntactic_views(self.morphosyntax@),
                    self.clause_boundaries.boundaries_view(),
                    v,
                    preps,
                    verbs,
                ).len() as int,
            ),
        )
        &&& groups_of(toks, items, v, self.coordination_groups@)
        &&& self.punctuation_slots@.len() == if w.len() == 0 {
            0
        } else {
            w.len() - 1
        }
        &&& forall|k: int|
            0 <= k < self.punctuation_slots@.len() ==> is_slot(
                toks,
                items,
                v,
                self.clauses@,
                self.coordination_groups@,
                k,
                w[k],
                w[k + 1],
                #[trigger] self.punctuation_slots@[k],
            )
        &&& context_of(self.document_context, s, toks)
        &&& entries_are(
            self.diagnostic_ledger.entry_list(),
            ledger_items(
                self.agreement_graph.edge_list(),
                self.government_frames@,
                self.punctuation_slots@,
                self.document_context,
            ),
            self.agreement_graph.edge_list(),
            self.government_frames@,
            self.punctuation_slots@,
            unexpanded_upto(self.document_context.abbreviations@, self.document_context.abbreviations@.len() as int),
        )
    }

    /// Builds every layer of `text` cut into `tokens`: the readings the
    /// source gives for each word are disambiguated first, and all later
    /// layers read the reduced readings.
    pub fn from_tokens_with_analyses<F: Fn(usize) -> Vec<MorphAnalysis>>(
        text: &'a str,
        tokens: &[Token],
        analyses_for_token: F,
        prepositions: &[PrepositionGovernmentEntry],
        verbs: &[VerbGovernmentEntry],
    ) -> (r: Self)
        requires
            forall|i: usize| i < tokens@.len() ==> call_requires(analyses_for_token, (i,)),
            abbreviation_starts_ok(text@, tokens@),
        ensures
            exists|rs0: Seq<Vec<MorphAnalysis>>|
                source_readings(tokens@, analyses_for_token, rs0) && #[trigger] r.layered(text@, tokens@, rs0, prepositions@, verbs@),
    {
        let mut readings: Vec<Vec<MorphAnalysis>> = Vec::new();
        let mut owned_tokens: Vec<Token> = Vec::new();
        let mut i: usize = 0;
        while i < tokens.len()
            invariant
                i <= tokens@.len(),
                forall|j: usize| j < tokens@.len() ==> call_requires(analyses_for_token, (j,)),
                readings@.len() == i,
                owned_tokens@ == tokens@.take(i as int),
                forall|j: int|
                    0 <= j < i ==> if analyzable(tokens@[j]) {
                        call_ensures(analyses_for_token, (j as usize,), #[trigger] readings@[j])
                    } else {
                        readings@[j]@.len() == 0
                    },
            decreases tokens@.len() - i,
        {
            if tokens[i].kind == TokenKind::Word || tokens[i].kind == TokenKind::Number {
                readings.push(analyses_for_token(i));
            } else {
                readings.push(Vec::new());
            }
            owned_tokens.push(tokens[i].duplicate());
            assert(owned_tokens@ =~= tokens@.take(i as int + 1));
            i = i + 1;
        }
        assert(owned_tokens@ =~= tokens@);
        let ghost rs0 = readings@;
        assert(source_readings(tokens@, analyses_for_token, rs0));
        let disambiguation = disambiguate_readings(tokens, &mut readings, prepositions);
        let rd = &readings;
        let reader = |t: usize| -> (v: Vec<MorphAnalysis>)
            requires
                t < rd@.len(),
            ensures
                v@ == rd@[t as int]@,
            { copy_analyses(rd[t].as_slice()) };
        let ambiguity = AmbiguityModel::from_tokens_with_analyses(tokens, reader);
        proof {
            let items = ambiguity.items();
            let idx = analyzable_indices(tokens@, tokens@.len() as int);
            lemma_analyzable_indices(tokens@, tokens@.len() as int);
            assert forall|j: int| 0 <= j < items.len() implies (#[trigger] items[j]).analyses@
                == readings@[idx[j]]@ && items[j].token_index == idx[j] by {
                assert(ambiguity_of(tokens@, reader, idx[j], items[j]));
            }
        }
        let islands = SyntacticIslandMap::from_text_tokens(text, tokens);
        let clause_boundaries = ClauseBoundaryMap::from_text_tokens(text, tokens);
        let nominal_groups = short_nominal_group_candidates(tokens, 3);
        let clauses = clause_candidates_from_islands(tokens, &ambiguity, &islands);
        let morphosyntax = morphosyntax_relations(tokens, readings.as_slice(), prepositions);
        proof {
            lemma_short_groups_fit(tokens@, 3, tokens@.len() as int);
            assert forall|g: int| 0 <= g < nominal_groups@.len() implies #[trigger] nominal_groups@[g].start_token + 2
                * nominal_groups@[g].modifiers@.len() <= usize::MAX by {
                assert(group_views(nominal_groups@)[g] == nominal_groups@[g]@);
            }
        }
        let agreement_graph = AgreementGraph::from_facts(
            morphosyntax.as_slice(),
            clauses.as_slice(),
            nominal_groups.as_slice(),
            &ambiguity,
            &islands,
        );
        let government_frames = government_frames_from_facts(
            tokens,
            &ambiguity,
            morphosyntax.as_slice(),
            &islands,
            &clause_boundaries,
            prepositions,
            verbs,
        );
        let coordination_groups = coordination_groups_from_facts(tokens, &ambiguity, &islands);
        let punctuation_slots = punctuation_slots_from_facts(
            tokens,
            &ambiguity,
            &islands,
            clauses.as_slice(),
            coordination_groups.as_slice(),
        );
        let document_context = DocumentContext::new(text, tokens);
        let diagnostic_ledger = DiagnosticLedger::from_facts(
            &agreement_graph,
            government_frames.as_slice(),
            punctuation_slots.as_slice(),
            &document_context,
        );
        let r = LinguisticFactStore {
            tokens: owned_tokens,
            readings,
            disambiguation,
            ambiguity,
            islands,
            clause_boundaries,
            nominal_groups,
            clauses,
            morphosyntax,
            agreement_graph,
            government_frames,
            coordination_groups,
            punctuation_slots,
            document_context,
            diagnostic_ledger,
        };
        assert(r.layered(text@, tokens@, rs0, prepositions@, verbs@));
        r
    }

    /// The morphosyntactic relations over the reduced readings.
    pub fn morphosyntax(&self) -> (r: &[MorphosyntacticRelation])
        ensures
            r@ == self.morphosyntax@,
    {
        self.morphosyntax.as_slice()
    }

    /// The government frames of the relations and the verb valency entries.
    pub fn government_frames(&self) -> (r: &[GovernmentFrame])
        ensures
            r@ == self.government_frames@,
    {
        self.government_frames.as_slice()
    }

    /// The ledger of candidate diagnostics.
    pub fn diagnostic_ledger(&self) -> (r: &DiagnosticLedger)
        ensures
            *r == self.diagnostic_ledger,
    {
        &self.diagnostic_ledger
    }

    /// The agreement graph over the relations, clauses and nominal groups.
    pub fn agreement_graph(&self) -> (r: &AgreementGraph)
        ensures
            *r == self.agreement_graph,
    {
        &self.agreement_graph
    }

    pub fn tokens(&self) -> (r: &[Token])
        ensures
            r@ == self.tokens@,
    {
        self.tokens.as_slice()
    }

    /// The readings of each token after disambiguation.
    pub fn readings(&self) -> (r: &[Vec<MorphAnalysis>])
        ensures
            r@ == self.readings@,
    {
        self.readings.as_slice()
    }

    pub fn disambiguation(&self) -> (r: &DisambiguationTrace)
        ensures
            *r == self.disambiguation,
    {
        &self.disambiguation
    }

    pub fn ambiguity(&self) -> (r: &AmbiguityModel)
        ensures
            *r == self.ambiguity,
    {
        &self.ambiguity
    }

    pub fn islands(&self) -> (r: &SyntacticIslandMap)
        ensures
            *r == self.islands,
    {
        &self.islands
    }

    pub fn clause_boundaries(&self) -> (r: &ClauseBoundaryMap)
        ensures
            *r == self.clause_boundaries,
    {
        &self.clause_boundaries
    }

    pub fn nominal_groups(&self) -> (r: &[NominalGroupCandidate])
        ensures
            r@ == self.nominal_groups@,
    {
        self.nominal_groups.as_slice()
    }

    pub fn clauses(&self) -> (r: &[ClauseCandidate])
        ensures
            r@ == self.clauses@,
    {
        self.clauses.as_slice()
    }

    pub fn coordination_groups(&self) -> (r: &[CoordinationGroup])
        ensures
            r@ == self.coordination_groups@,
    {
        self.coordination_groups.as_slice()
    }

    pub fn punctuation_slots(&self) -> (r: &[PunctuationSlot])
        ensures
            r@ == self.punctuation_slots@,
    {
        self.punctuation_slots.as_slice()
    }

    pub fn document_context(&self) -> (r: &DocumentContext<'a>)
        ensures
            *r == self.document_context,
    {
        &self.document_context
    }

    /// How much each layer found.
    pub fn summary(&self) -> (r: LinguisticFactStoreSummary)
        ensures
            r.tokens == self.tokens@.len(),
            r.ambiguous_tokens == ambiguous_count(self.ambiguity.items(), self.ambiguity.items().len() as int),
            r.eliminated_readings == self.disambiguation.eliminations@.len(),
            r.islands == self.islands.islands_view().len(),
            r.clause_boundaries == self.clause_boundaries.boundaries_view().len(),
            r.nominal_groups == self.nominal_groups@.len(),
            r.clauses == self.clauses@.len(),
            r.agreement_edges == self.agreement_graph.edge_list().len(),
            r.coordination_groups == self.coordination_groups@.len(),
            r.punctuation_slots == self.punctuation_slots@.len(),
            r.government_frames == self.government_frames@.len(),
            r.diagnostic_ledger_entries == self.diagnostic_ledger.entry_list().len(),
            r.suppressed_diagnostics == entries_with_status(
                self.diagnostic_ledger.entry_list(),
                DiagnosticLedgerStatus::Suppressed,
            ).len(),
            r.document_terms == self.document_context.terms@.len(),
            r.document_abbreviations == self.document_context.abbreviations@.len(),
            r.glossary_entries == self.document_context.glossary_entries@.len(),
    {
        let items = self.ambiguity.token_ambiguities();
        let mut ambiguous: usize = 0;
        let mut i: usize = 0;
        while i < items.len()
            invariant
                i <= items@.len(),
                items@ == self.ambiguity.items(),
                ambiguous == ambiguous_count(items@, i as int),
                ambiguous <= i,
            decreases items@.len() - i,
        {
            if items[i].class.is_ambiguous() {
                ambiguous = ambiguous + 1;
            }
            i = i + 1;
        }
        LinguisticFactStoreSummary {
            tokens: self.tokens.len(),
            ambiguous_tokens: ambiguous,
            eliminated_readings: self.disambiguation.eliminations.len(),
            islands: self.islands.islands().len(),
            nominal_groups: self.nominal_groups.len(),
            clause_boundaries: self.clause_boundaries.boundaries().len(),
            clauses: self.clauses.len(),
            agreement_edges: self.agreement_graph.edges().len(),
            coordination_groups: self.coordination_groups.len(),
            punctuation_slots: self.punctuation_slots.len(),
            government_frames: self.government_frames.len(),
            document_terms: self.document_context.terms.len(),
            document_abbreviations: self.document_context.abbreviations.len(),
            glossary_entries: self.document_context.glossary_entries.len(),
            diagnostic_ledger_entries: self.diagnostic_ledger.entries().len(),
            suppressed_diagnostics: self.diagnostic_ledger.suppressed().len(),
        }
    }
}

} // verus!
