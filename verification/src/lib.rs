//! Core of a background translation-synchronization service for a game
//! client's companion utility.
//!
//! The library covers the logic worth specifying: discovery of game
//! installations from the launcher's log, checking whether a localized text
//! overlay is installed and current, planning installs and removals, the
//! background scheduler's control state, and the configuration codec the
//! scheduler depends on. All file, network and OS work stays outside; the
//! functions here take and return plain values and carry full contracts.

pub mod characters;
pub mod checker;
pub mod config;
pub mod locator;
pub mod prefs;
pub mod scheduler;
pub mod text;
