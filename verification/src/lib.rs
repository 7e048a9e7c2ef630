//! The model behind a mod manager's window: the list of installed mods with
//! its filters and sort order, the bulk actions on the current selection, and
//! the bookkeeping of presets.

pub mod text;
pub mod sorting;
pub mod config;
pub mod preset;
pub mod metadata;
pub mod record;
pub mod criteria;
pub mod compare;
pub mod filter;
pub mod steps;
pub mod mods;
pub mod bulk;
pub mod presets;
pub mod startup;
