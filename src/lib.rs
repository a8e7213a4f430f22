//! Control-Change remapping for a MIDI bridge: the mapping table, the
//! event remap engine, the mapping-file reader, device choice and the run
//! configuration.

pub mod config;
pub mod device;
pub mod event;
pub mod mapping_file;
pub mod table;
