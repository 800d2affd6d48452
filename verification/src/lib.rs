//! Core logic of a multi-tab editing pane: which items are open and active,
//! how navigation history records and replays activations, how batches of
//! items are closed with save prompting de-duplicated per resource, and how
//! tab labels are assigned the minimal detail needed to be unambiguous.
//!
//! Rendering, input dispatch, and the actual disk and prompt effects live in
//! the surrounding shell; this crate holds the state machines and algorithms
//! and states their behaviour as contracts.

pub mod close;
pub mod history;
pub mod item;
pub mod pane;
pub mod tab_details;
pub mod tab_switcher;
pub mod travel;
