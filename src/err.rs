use vstd::prelude::*;
use crate::text::{chars_of, push_str, string_of};

verus! {

/// The ways in which profiling can fail.
#[derive(Debug)]
pub enum ProfError {
    /// A line that looked like data held a field that is no count.
    RegexError,
    InvalidProfiler,
    InvalidBinary,
    InvalidNum,
    InvalidSortMetric,
    /// An I/O failure, with its message.
    IOError(String),
    UTF8Error,
    /// The rows of a report could not be stacked into a table.
    MisalignedData,
    /// The package (first) failed to compile, with the compiler's output (second).
    CompilationError(String, String),
    TomlError,
    ReadManifestError,
    NoNameError,
    NoTargetDirectory,
    /// The profiling tool ran out of memory.
    OutOfMemoryError,
    CliError,
}

/// The short description of each kind of error.
pub open spec fn description_of(e: ProfError) -> Seq<char> {
    match e {
        ProfError::RegexError => "Regex error. file bug."@,
        ProfError::InvalidProfiler => "Invalid Profiler."@,
        ProfError::InvalidBinary => "Invalid Binary."@,
        ProfError::InvalidNum => "Invalid number."@,
        ProfError::InvalidSortMetric => "Invalid sort metric."@,
        ProfError::MisalignedData => "Misaligned Data. File bug."@,
        ProfError::CompilationError(_, _) => "Failed to compile. Run cargo build to get compilation error."@,
        ProfError::TomlError => "Error in parsing Cargo.toml."@,
        ProfError::ReadManifestError => "Error in reading the manifest of this crate."@,
        ProfError::NoNameError => "No package name found in Cargo.toml"@,
        ProfError::NoTargetDirectory => "No target output directory found in project."@,
        ProfError::IOError(msg) => msg@,
        ProfError::OutOfMemoryError => "out of memory."@,
        ProfError::CliError => "make sure valgrind is installed properly."@,
        ProfError::UTF8Error => "utf8 error. file bug."@,
    }
}

/// The message shown to the user for each kind of error, after `error: `.
pub open spec fn message_of(e: ProfError) -> Seq<char> {
    match e {
        ProfError::RegexError => "Regex error -- please file a bug. In bug report, please include the output file from the profiler, e.g. from valgrind --tool=cachegrind --cachegrind-out-file=cachegrind.txt"@,
        ProfError::InvalidProfiler => "Invalid profiler. cargo profiler currently supports callgrind and cachegrind."@,
        ProfError::InvalidBinary => "Invalid binary. make sure binary exists."@,
        ProfError::InvalidNum => "Invalid number. make sure number is a positive integer."@,
        ProfError::InvalidSortMetric => "Invalid metric to sort on. available cachegrind metrics are \nir, i1mr, ilmr, dr, d1mr, dlmr, dw, d1mw, and dlmw. Check README for details on these metrics."@,
        ProfError::IOError(msg) => "IO error: "@ + msg@ + " -- please file a bug."@,
        ProfError::UTF8Error => "CLI Utf8 error -- please file a bug."@,
        ProfError::MisalignedData => "Misaligned data arrays due to regex error -- please file a bug."@,
        ProfError::CompilationError(name, stderr) => "Failed to compile "@ + name@ + ".\n\n"@ + stderr@,
        ProfError::TomlError => "Error in parsing Cargo.toml to derive package name. Make sure package name is directly under [package] tag."@,
        ProfError::ReadManifestError => "Cargo.toml missing. Are you sure you're in a Rust project?"@,
        ProfError::NoNameError => "No package name found in Cargo.toml. Run cargo read-manifest to make sure everything looks okay. Otherwise please submit bug."@,
        ProfError::NoTargetDirectory => "No target output directory found in project. Binary must be in target/debug/ or target/release/, or specify binary path explicitly with --bin argument."@,
        ProfError::OutOfMemoryError => "Valgrind's memory management: out of memory. Valgrind cannot continue. Sorry. "@,
        ProfError::CliError => "Error in valgrind cli call. Make sure valgrind is installed properly."@,
    }
}

fn text(s: &str) -> (r: String)
    ensures
        r@ == s@,
{
    string_of(&chars_of(s))
}

impl ProfError {
    /// A short description of the error.
    pub fn description(&self) -> (r: String)
        ensures
            r@ == description_of(*self),
    {
        match self {
            ProfError::RegexError => text("Regex error. file bug."),
            ProfError::InvalidProfiler => text("Invalid Profiler."),
            ProfError::InvalidBinary => text("Invalid Binary."),
            ProfError::InvalidNum => text("Invalid number."),
            ProfError::InvalidSortMetric => text("Invalid sort metric."),
            ProfError::MisalignedData => text("Misaligned Data. File bug."),
            ProfError::CompilationError(_, _) => text(
                "Failed to compile. Run cargo build to get compilation error.",
            ),
            ProfError::TomlError => text("Error in parsing Cargo.toml."),
            ProfError::ReadManifestError => text("Error in reading the manifest of this crate."),
            ProfError::NoNameError => text("No package name found in Cargo.toml"),
            ProfError::NoTargetDirectory => text("No target output directory found in project."),
            ProfError::IOError(msg) => text(msg.as_str()),
            ProfError::OutOfMemoryError => text("out of memory."),
            ProfError::CliError => text("make sure valgrind is installed properly."),
            ProfError::UTF8Error => text("utf8 error. file bug."),
        }
    }

    /// The message shown to the user, after `error: `.
    pub fn message(&self) -> (r: String)
        ensures
            r@ == message_of(*self),
    {
        match self {
            ProfError::RegexError => text(
                "Regex error -- please file a bug. In bug report, please include the output file from the profiler, e.g. from valgrind --tool=cachegrind --cachegrind-out-file=cachegrind.txt",
            ),
            ProfError::InvalidProfiler => text(
                "Invalid profiler. cargo profiler currently supports callgrind and cachegrind.",
            ),
            ProfError::InvalidBinary => text("Invalid binary. make sure binary exists."),
            ProfError::InvalidNum => text("Invalid number. make sure number is a positive integer."),
            ProfError::InvalidSortMetric => text(
                "Invalid metric to sort on. available cachegrind metrics are \nir, i1mr, ilmr, dr, d1mr, dlmr, dw, d1mw, and dlmw. Check README for details on these metrics.",
            ),
            ProfError::IOError(msg) => {
                let mut out: Vec<char> = Vec::new();
                push_str(&mut out, "IO error: ");
                push_str(&mut out, msg.as_str());
                push_str(&mut out, " -- please file a bug.");
                string_of(&out)
            },
            ProfError::UTF8Error => text("CLI Utf8 error -- please file a bug."),
            ProfError::MisalignedData => text(
                "Misaligned data arrays due to regex error -- please file a bug.",
            ),
            ProfError::CompilationError(name, stderr) => {
                let mut out: Vec<char> = Vec::new();
                push_str(&mut out, "Failed to compile ");
                push_str(&mut out, name.as_str());
                push_str(&mut out, ".\n\n");
                push_str(&mut out, stderr.as_str());
                string_of(&out)
            },
            ProfError::TomlError => text(
                "Error in parsing Cargo.toml to derive package name. Make sure package name is directly under [package] tag.",
            ),
            ProfError::ReadManifestError => text(
                "Cargo.toml missing. Are you sure you're in a Rust project?",
            ),
            ProfError::NoNameError => text(
                "No package name found in Cargo.toml. Run cargo read-manifest to make sure everything looks okay. Otherwise please submit bug.",
            ),
            ProfError::NoTargetDirectory => text(
                "No target output directory found in project. Binary must be in target/debug/ or target/release/, or specify binary path explicitly with --bin argument.",
            ),
            ProfError::OutOfMemoryError => text(
                "Valgrind's memory management: out of memory. Valgrind cannot continue. Sorry. ",
            ),
            ProfError::CliError => text(
                "Error in valgrind cli call. Make sure valgrind is installed properly.",
            ),
        }
    }
}

} // verus!
