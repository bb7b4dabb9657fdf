//! Control-key keyboard layout switching for GNOME: the tap detector that
//! recognises a lone tap of a Control key, the rule that picks the layout to
//! switch to, the settings model and the small text and path rules around them.

pub mod config;
pub mod daemon;
pub mod devices;
pub mod gui;
pub mod text;
