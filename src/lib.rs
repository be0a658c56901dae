//! Conversion of Windows keyboard layouts (KLC) into XKB symbol partials.
//!
//! The library holds the two layout models, the flattening of XKB partial
//! chains into one baseline mapping, the dead-key decision, and the
//! conversion that emits only what differs from the baseline.

pub mod output;
pub mod keymap;
pub mod reference;
pub mod target;
pub mod resolve;
pub mod deadkey;
pub mod convert;
