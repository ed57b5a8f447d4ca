//! Generating `.gitignore` files from GitHub's gitignore templates: the cache
//! bookkeeping, the check of requested language names, the text of the file,
//! and the state of the template picker, each with its contract.
pub mod sync;
pub mod templates;
pub mod text;
pub mod ui;
