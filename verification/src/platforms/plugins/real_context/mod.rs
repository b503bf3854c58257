//! Real group context: recent group history and its rolling summary.

pub mod history_summary;
