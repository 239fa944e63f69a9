//! A dependency-injection registry for long-lived singleton components.
//!
//! `registry` holds the definitions and instances and decides what each
//! operation does to them, including the two-phase injection round;
//! `laws` states and proves what holds across operations; `config` reads
//! the options that select a component's capabilities.

pub mod config;
pub mod laws;
pub mod registry;
