//! Inventory expansion, item box and message-archive tooling for
//! Resident Evil 0 HD, with the rules they rest on proved.
//!
//! The game keeps a six-slot bag per character. This library keeps a larger
//! store behind it and shows the game a six-slot window onto that store. The
//! store's layout rules, the window's translation between visible slots and
//! store indices, the side file that carries the extra slots across a save,
//! the message-archive formats, and the byte-level analysis helpers are all
//! here, each with a contract.

pub mod accessor;
pub mod analyzer;
pub mod arc;
pub mod bag_hooks;
pub mod bytes;
pub mod config;
pub mod detour;
pub mod doors;
pub mod game;
pub mod gmd;
pub mod input;
pub mod inventory;
pub mod item_box;
pub mod memory;
pub mod messages;
pub mod panel;
pub mod persistence;
pub mod prompt;
pub mod registry;
pub mod save_file;
pub mod screen;
pub mod selection;
pub mod slots;
pub mod startup;
pub mod text;
pub mod typewriter;
pub mod watchdog;
pub mod window;
