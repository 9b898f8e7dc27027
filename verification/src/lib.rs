pub mod json;
pub mod markup;
pub mod sequences;
pub mod spanishdict;
pub mod text;
pub mod web;

pub use web::{index_to_letter, SearchForm, TranslateQuery};
