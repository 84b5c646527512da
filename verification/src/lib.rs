//! Parser-first HTML and T-HTML backends for template strings: a pretty-printing
//! document algebra, HTML escaping, template parsing, validation, rendering and
//! canonical formatting.

pub mod text;
pub mod doc;
pub mod escape;
pub mod syntax;
pub mod html;
pub mod thtml;
pub mod tdom;
pub mod cache;
pub mod components;
