pub mod model;
pub mod boundaries;
pub mod safe_zones;
pub mod sentences;
pub mod markers;
pub mod diagnostics;
pub mod clauses;
pub mod document;
pub mod relations;
pub mod nominal_groups;
pub mod quantities;
pub mod islands;
pub mod punctuation;
pub mod phraseology;
pub mod document_structure;
pub mod document_terms;
pub mod document_context;
pub mod document_diagnostics;
pub mod ambiguity;
pub mod clause_candidates;
pub mod disambiguation;
pub mod constraints;
pub mod facts;
pub mod government;
pub mod agreement;
pub mod numeral_government;
pub mod morphosyntax;
pub mod agreement_graph;
pub mod government_frames;
pub mod diagnostic_ledger;
pub mod coordination;
pub mod slots;
