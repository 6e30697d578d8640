//! A command-bookmark library: shell commands stored under aliases, grouped
//! into tabs by their executable, and browsed with a selection state machine.

pub mod import;
pub mod model;
pub mod navigation;
pub mod service;
pub mod storage;

pub use import::populate_db;
pub use model::Command;
pub use navigation::{App, AppAction, KeyInput, StatefulList, TabState};
pub use service::{CommandService, CommandServiceError};
pub use storage::{CommandStorageError, CommandStorageManager, UniqueColumn};
