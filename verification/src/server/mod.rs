//! What the language server decides: where a clone is in a document, which
//! clones a position leads to, what a diagnostic says, what a change on disk
//! or in the editor leads to, and which engine a file belongs to.

pub mod debounce;
pub mod diagnostic;
pub mod events;
pub mod navigation;
pub mod router;
