//! Static analysis of a dump of the game's decrypted code section: address
//! translation, byte-pattern and cross-reference search, and the scoring
//! that tells code which scans a bag from code which reads one slot.

pub mod bounds;
pub mod cli;
pub mod classify;
pub mod disasm;
pub mod disp;
pub mod image;
pub mod pattern;
pub mod xref;
