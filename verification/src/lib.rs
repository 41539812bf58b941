//! A resource-probing library for Linux-style kernel pseudo-files.
//!
//! Each collector turns the raw text of an OS-exposed source (the per-CPU
//! accounting file, the memory-info file, the uptime file, a sensor or
//! network-interface directory) into a typed, immutable snapshot, or into a
//! typed error naming exactly what was malformed.  The reading of the sources
//! is left to the surrounding program; everything from the raw text to the
//! snapshot is verified.

pub mod text;
pub mod sample;
pub mod health;
pub mod uptime;
pub mod cpu;
pub mod memory;
pub mod scan;
pub mod network;
