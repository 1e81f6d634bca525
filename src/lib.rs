//! Shared-dependency negotiation for module federation: version precedence
//! and ranges with their text forms, the negotiation rule, the
//! classification of import requests against shared declarations, the
//! dependency nodes that sharing adds to the module graph, and the runtime
//! sharing registry with its fallback and load-coalescing rules.
pub mod version;
pub mod range;
pub mod parse;
pub mod negotiate;
pub mod registry;
pub mod text;
pub mod classify;
pub mod dependency;
