//! File search, shortcut handling and calculator request parsing for the launcher.
pub mod text;
pub mod shortcut;
pub mod index;
pub mod scan;
pub mod calculator;
pub mod resident;
pub mod icon;
pub mod palette;
pub mod schedule;
