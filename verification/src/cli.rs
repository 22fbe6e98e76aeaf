//! The command-line surface, as bare data.
//!
//! The binary crate parses arguments with its own copies of these types,
//! which carry the parser's derives, and converts into the bare forms here.

use vstd::prelude::*;

verus! {

/// The default baud rate of the connection.
pub const DEFAULT_BAUD_RATE: u32 = 57600;

/// The default connection timeout, in milliseconds.
pub const DEFAULT_TIMEOUT_MS: u64 = 5000;

/// The options of the plain single-file invocation.
pub struct CommandLineOptions {
    /// Path of the hex file to be programmed.
    pub input_file_path: String,
}

/// The parsed command line: one operation per invocation.
pub struct Cli {
    pub command: Commands,
}

/// The operations the tool offers.
pub enum Commands {
    /// Enumerate the serial devices available, by name.
    ListPorts,
    /// Flash a firmware image onto the device behind a port.
    Program {
        /// Path of the hex file to be programmed.
        input_file_path: String,
        /// Name of the port to use.
        port_name: String,
        /// Baud rate for the connection.
        baud_rate: u32,
        /// Connection timeout in milliseconds.
        timeout: u64,
        /// Whether to print more content.
        verbose: bool,
    },
}

} // verus!
