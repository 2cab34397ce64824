//! A launcher for SteamVR on Windows: finding the SteamVR installation,
//! making a desktop shortcut to it, and setting Steam's display language.
//!
//! The library decides; the caller reads and writes the registry and the
//! file system and hands back the results.
pub mod text;
pub mod windows_path;
pub mod unix_path;
pub mod steam_path;
pub mod steam_language;
pub mod shortcut_manager;
pub mod launcher;
pub mod fonts;

use vstd::prelude::*;

verus! {

/// The standard library's I/O error, carried by this library's errors.
#[verifier::external_type_specification]
#[verifier::external_body]
pub struct ExIoError(std::io::Error);

/// The text of an I/O error, as its `Display` writes it (`to_string`).
/// Nothing is claimed of the text.
#[verifier::external_body]
pub(crate) fn io_error_text(e: &std::io::Error) -> String {
    e.to_string()
}

} // verus!
