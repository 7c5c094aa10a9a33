//! The blame panel: where the time admission is shut goes, drawn as the bill it is.

pub mod controls;
pub mod desk;
pub mod frame;
pub mod panel;
pub mod seats;
pub mod styles;
pub mod tracks;
