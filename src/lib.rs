//! Package metadata reconciliation and version-history resolution: parsing
//! of package-tool output, reconciliation of installed packages with the
//! package cache, archive history from the remote index, and the choice of a
//! terminal emulator to run an upgrade in.

pub mod text;
pub mod filename;
pub mod updates;
pub mod order;
pub mod installed;
pub mod history;
pub mod terminal;
pub mod news;
