//! The run configuration, fixed at start-up.

use crate::table::CCMap;
use vstd::prelude::*;

verus! {

/// Debug tracing, the preferred device names and the mapping table.
pub struct Config {
    pub debug: bool,
    pub in_device_name: Option<String>,
    pub out_device_name: Option<String>,
    pub mapping: CCMap,
}

impl Config {
    /// The default configuration around a table: no tracing and no
    /// preferred devices.
    pub fn new(mapping: CCMap) -> (r: Config)
        ensures
            !r.debug,
            r.in_device_name is None,
            r.out_device_name is None,
            r.mapping == mapping,
    {
        Config { debug: false, in_device_name: None, out_device_name: None, mapping }
    }
}

} // verus!
