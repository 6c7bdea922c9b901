//! Rule grammar and context-matching engine for turning ASCII-art diagrams
//! into vector drawing instructions.
//!
//! A rule set is written in a small language (see [`parser`]), parsed into an
//! ordered table of [`Rule`]s, and then queried once per grid cell by
//! [`engine::select`], which picks the first rule whose neighbourhood pattern
//! fits and the compass directions it fits along. The chosen rule's draw
//! template is then filled in by [`template::resolve_rendering`] from the
//! anchor coordinates computed for those directions.

pub mod engine;
pub mod grammar;
pub mod layout;
pub mod parser;
pub mod template;

pub use engine::{select, Kind, Selection};
pub use grammar::{CharSet, Dir, Dirs, Match, Rendering, Rule, Unforgeable};
pub use parser::{parse_rules, ParseError};
pub use template::{resolve_rendering, resolve_template, ResolvedRendering, UnknownAnchor};
