//! Verified core of a Palworld save-file analyser: GVAS property scanning,
//! inventory slot encoding, breeding rules and small decision helpers.
use vstd::prelude::*;

pub mod analysis;
pub mod breeding;
pub mod camps;
pub mod console;
pub mod datamine;
pub mod db;
pub mod full;
pub mod guid;
pub mod gvas;
pub mod i18n;
pub mod level;
pub mod measure;
pub mod mcp;
pub mod output;
pub mod pals;
pub mod players;
pub mod progress;
pub mod remote;
pub mod report;
pub mod save_editor;
pub mod scanner;
pub mod server;
pub mod settings;
pub mod setup;
pub mod text;
pub mod wire;
pub mod world;

