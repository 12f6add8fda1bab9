pub mod argparse;
pub mod args;
pub mod display;
pub mod err;
pub mod extract;
pub mod parse;
pub mod profiler;
pub mod rank;
pub mod table;
pub mod text;
