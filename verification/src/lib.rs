//! Output stage of a schema compiler: translation of recursive type
//! expressions into target-language type syntax (both the full form and the
//! "partial" form used for incremental decoding), an in-memory collector of
//! generated files, and a safe commit protocol that replaces a destination
//! directory only when every file already there is generator-owned.

pub mod typeref;
pub mod collector;
pub mod commit;
pub mod entities;
