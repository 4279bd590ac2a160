//! Decision logic of nocruft: which paths a traced process tree created, which
//! of them are worth reporting, and in what order they may be removed.

pub mod bpf_events;
pub mod caps;
pub mod classify;
pub mod cli;
pub mod delete;
pub mod hostpath;
pub mod laws;
pub mod order;
pub mod output;
pub mod outside;
pub mod pathres;
pub mod text;
pub mod tracker;
