use vstd::prelude::*;

verus! {

/// The command line: `cargo profiler <command>`.
#[derive(Clone, Debug)]
pub enum Args {
    Profiler { command: Command },
}

/// What to do with the package's binary.
#[derive(Clone, Debug)]
pub enum Command {
    /// Profile the binary named `bin` (the package's own where `None`), built in
    /// release mode where `release` holds.
    Profile { bin: Option<String>, release: bool },
    /// Collect statistics on the binary, with the same options.
    Stat { bin: Option<String>, release: bool },
}

} // verus!
