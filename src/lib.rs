//! A reader for GHW waveform files, the traces written by the GHDL VHDL
//! simulator: header, string table, type table, design hierarchy, snapshot
//! and cycle sections, decoded from bytes into a navigable model.

pub mod error;
pub mod section;
pub mod reader;
pub mod strings;
pub mod rtik;
pub mod types;
pub mod kind;
pub mod hierarchy;
pub mod signals;
pub mod tree;
pub mod handle;
