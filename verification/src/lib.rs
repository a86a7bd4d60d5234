//! Shell tab-completion for a PHP package manager's command line.
//!
//! Given the command line being completed and the cursor position, the
//! library recovers the word under the cursor, parses the project's
//! dependency manifest (`composer.json`), and computes the dependency
//! names that complete that word.  All logic is verified; reading the
//! environment, the filesystem and printing are left to the caller.

pub mod args;
pub mod errors;
pub mod filter;
pub mod jsonmodel;
pub mod jsontrusted;
pub mod locate;
pub mod manifest;
