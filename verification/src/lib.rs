pub mod unicode;
pub mod text;
pub mod syntax;
pub mod laws;
pub mod readings;
pub mod unification;
pub mod word_laws;
