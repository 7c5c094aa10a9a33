//! The pieces the pictures are made of.

pub mod client_grid;
pub mod client_strip;
pub mod code;
pub mod controls;
pub mod cut;
pub mod lanes;
pub mod latency_table;
pub mod legend;
pub mod server_box;
pub mod slider;
pub mod stage;
pub mod strips;
pub mod tenant_stage;
pub mod tier;
pub mod toggle;
pub mod waterfall;
pub mod wires;
