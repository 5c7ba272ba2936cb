//! Core of a bilingual dictionary service: words tagged with one of two
//! languages, symmetric translation links between them, read-only grammatical
//! variants, and the operations the presentation layer calls — prefix search,
//! one-hop neighbor expansion, word detail lookup, and atomic creation of a
//! word pair with its link.

pub mod errors;
pub mod graph;
pub mod lang;
pub mod model;
pub mod pairing;
pub mod service;
pub mod store;
pub mod text;
