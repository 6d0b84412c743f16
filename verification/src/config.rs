//! The settings of the service, read once and handed to whoever needs them.

use vstd::prelude::*;
use crate::timestamp::{parse_validity, validity_of, DEFAULT_VALIDITY};
use crate::vm::DEFAULT_COMMAND_DIR;

verus! {

/// The settings that the lifecycle of a runner depends on.
#[derive(Debug)]
pub struct Config {
    /// The validity window of a lease, in seconds.
    pub validity: i64,
    /// The directory in which the marker files of the signals are created.
    pub command_dir: String,
}

impl Config {
    /// The settings with the given values.
    pub fn new(validity: i64, command_dir: String) -> (config: Config)
        ensures
            config.validity == validity,
            config.command_dir == command_dir,
    {
        Config { validity, command_dir }
    }

    /// The settings that follow from what is configured: the validity
    /// window as a text such as `60min`, and the directory of the marker
    /// files. What is not configured takes its default.
    pub fn from_settings(validity: Option<&str>, command_dir: Option<&str>) -> (config: Config)
        ensures
            config.validity == match validity {
                Some(setting) => validity_of(setting@),
                None => DEFAULT_VALIDITY as int,
            },
            config.command_dir@ == match command_dir {
                Some(dir) => dir@,
                None => DEFAULT_COMMAND_DIR@,
            },
    {
        let validity = match validity {
            Some(setting) => parse_validity(setting),
            None => DEFAULT_VALIDITY,
        };
        let command_dir = match command_dir {
            Some(dir) => dir.to_owned(),
            None => DEFAULT_COMMAND_DIR.to_owned(),
        };
        Config { validity, command_dir }
    }
}

} // verus!
