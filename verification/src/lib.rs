//! Self-update support for an application installed by an Inno Setup style
//! installer: the codec of the installer's uninstall log, the rewriting of the
//! paths recorded in it, and the decisions of the update transaction.

pub mod blockio;
pub mod checksum;
pub mod endian;
pub mod gui;
pub mod handle;
pub mod layout;
pub mod log;
pub mod model;
pub mod process;
pub mod rename;
pub mod retry;
pub mod stream;
pub mod strings;
pub mod text;
pub mod update;
pub mod utf16;
pub mod walk;
pub mod winpath;
