//! Calco: personal budgeting sheets whose cached totals are kept consistent
//! by propagating signed changes through the sheet inheritance graph.

pub mod api;
pub mod constants;
pub mod models;
pub mod utils;
