//! The decisions of the DeepSeek Harness desktop shell: windows, processes, files
//! and the network are left to its caller.

pub mod catalog;
pub mod encoding;
pub mod json;
pub mod launch;
pub mod locale;
pub mod npm;
pub mod plugin;
pub mod prefs;
pub mod profile;
pub mod release;
pub mod shell;
pub mod signature;
pub mod terminal;
pub mod text;
pub mod version;
pub mod watchdog;
