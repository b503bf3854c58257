//! The conversation database's schema bookkeeping.

pub mod migrations;
