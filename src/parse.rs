pub mod cachegrind;
pub mod callgrind;
