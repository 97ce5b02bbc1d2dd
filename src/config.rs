//! Settings of the connector, as plain values. Reading them from files and
//! from the command line is left to the program around the library.

use vstd::prelude::*;

verus! {

/// Where the connector finds the proxy's configuration, and the address it
/// listens on.
#[derive(Clone, Debug, PartialEq, Eq)]
pub struct ConnectorConfig {
    pub sozu_configuration_path: String,
    pub listening_address: String,
}

impl ConnectorConfig {
    /// The path of the proxy's configuration file.
    pub fn parse_sozu_config_path(&self) -> (r: String)
        ensures
            r@ == self.sozu_configuration_path@,
    {
        self.sozu_configuration_path.clone()
    }
}

/// The proxy's side of the settings: the path of its configuration file.
#[derive(Clone, Debug, PartialEq, Eq)]
pub struct Sozu {
    pub configuration: String,
}

/// The command line: how verbose to be, and an optional configuration file.
#[derive(Clone, Debug, PartialEq, Eq)]
pub struct Args {
    pub verbosity: u8,
    pub config: Option<String>,
}

} // verus!
