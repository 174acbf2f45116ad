//! Stage Manager layout mode, keyboard-driven pointer control and their configuration,
//! as a verified library.
//!
//! - [`stage`]: the Stage Manager: which window is on the stage, which in the cast strip,
//!   and what each window event, drag, click or timer tick changes; [`stage::laws`] states
//!   what every decision keeps.
//! - [`keyboard_pointer`]: keyboard-driven pointer mode (keys, speed, clicks and drags).
//! - [`config`]: the configuration sections and how a section merges into the settings.
//! - [`config_kdl`]: reading the `stage-manager` section from KDL text, parsed by `knuffel`
//!   through [`kdl`].
//!
//! Fractional configuration values (proportions, scales, speeds) are held as exact decimal
//! fixed-point integers in millionths: `700_000` stands for `0.7`.

pub mod config;
pub mod kdl;
pub mod config_kdl;
pub mod decimal;
pub mod stage;
pub mod keyboard_pointer;
