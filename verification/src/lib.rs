//! Structured patches of files: their language, their meaning on a staged view of the files, and
//! the steps that write the outcome, all of it or none.

use vstd::prelude::*;

pub mod applier;
pub mod apply_laws;
pub mod batch;
pub mod bytes;
pub mod change_laws;
pub mod diffs;
pub mod error;
pub mod excerpt;
pub mod function_laws;
pub mod functions;
pub mod grammar;
pub mod hints;
pub mod hunk_laws;
pub mod hunks;
pub mod laws;
pub mod lists;
pub mod map_laws;
pub mod matching;
pub mod near_laws;
pub mod newlines;
pub mod numbers;
pub mod outcome;
pub mod parser;
pub mod patch;
pub mod patch_laws;
pub mod patch_utils;
pub mod path_laws;
pub mod paths;
pub mod patterns;
pub mod read_laws;
pub mod reader;
pub mod reading;
pub mod report;
pub mod result_laws;
pub mod server;
pub mod service_laws;
pub mod similarity;
pub mod sizes;
pub mod text;
pub mod text_laws;
pub mod threshold;
pub mod threshold_laws;
pub mod tool_contract;
pub mod transaction;
pub mod tree;
pub mod validator;
pub mod workspace;

verus! {

} // verus!
