//! Verified core of an interactive compose-file menu.
//!
//! The library holds everything the program decides or computes: the
//! lexicographic ordering and sorting of directory entries, the derivation
//! of an entry's display name, the rendering of the numbered menu, the
//! interpretation of a line of user input, the control loop that prompts
//! until that line quits or selects, and the launcher state machine that
//! waits for a daemon before starting the orchestration command.
//! The surrounding process (directory scan, terminal I/O, spawning the
//! external commands) lives outside and hands the library plain values.

pub mod control;
pub mod input;
pub mod launcher;
pub mod lister;
pub mod menu;
pub mod order;
