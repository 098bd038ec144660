//! Rewrites the module specifiers of a source file so that the file can be
//! loaded after it has been published: bare package names become registry
//! references, mapped paths become relative paths, names of Node built-in
//! modules get their `node:` prefix.
//!
//! [`SpecifierUnfurler::unfurl`] makes one pass over a module: it resolves
//! each specifier through the chain of resolvers, decides what to do with
//! each dynamic import, collects the text changes and applies them, and
//! reports the dynamic imports that it could not analyze.

pub mod deps;
pub mod dynamic;
pub mod resolver;
pub mod slots;
pub mod source;
pub mod specifier;
pub mod text;
pub mod text_changes;
pub mod unfurl;
pub mod version_guard;

pub use crate::resolver::{MappedSpecifierResolver, SloppyImportsResolver};
pub use crate::source::{ModuleInfo, ParsedSource};
pub use crate::specifier::ModuleSpecifier;
pub use crate::text_changes::{SourceRange, TextChange};
pub use crate::unfurl::{SpecifierUnfurler, SpecifierUnfurlerDiagnostic};
