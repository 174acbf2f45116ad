//! Stage Manager layout mode (macOS-style).
//!
//! Windows are organized into groups: one **active** group on the stage and up to N **cast**
//! groups shown as single live thumbnails in a strip. Additional groups are kept in **hidden**
//! overflow. The state here decides which window goes where; the effects that a decision has
//! on the workspace (saving and restoring window positions, resetting sizes) are handed back as
//! a list of [`state::StageAction`] for the caller to perform.

pub mod group;
pub mod state;
pub mod policy;
pub mod laws;
pub mod geometry;
