//! Demand that does not stop, the choice each client makes in it, and what each choice earned.

pub mod band;
pub mod card;
pub mod columns;
pub mod give;
