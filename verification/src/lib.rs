//! Power activity from recorded simulation traces: per-bit statistics of the signals of a
//! trace, and their export as a SAIF report or as the entries of a Tcl script, along a walk
//! of the signal hierarchy that a netlist can narrow down to the pins of black boxes.

pub mod context;
pub mod exporters;
pub mod hierarchy;
pub mod netlist;
pub mod output_format;
pub mod parsers;
pub mod stats;
pub mod text;
pub mod waveform;
