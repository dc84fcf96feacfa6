//! Argument parsing, path planning and result bookkeeping for a command-line
//! background-removal tool, with contracts checked by Verus.

pub mod batch;
pub mod cli;
pub mod matting;
pub mod order;
pub mod paths;
pub mod server;
pub mod text;
