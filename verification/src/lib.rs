use vstd::prelude::*;

pub mod num;
pub mod patch;
pub mod text;
pub mod extract;
pub mod mcp;
pub mod tool;
pub mod prompt;
pub mod tokens;
pub mod session;
pub mod edit;
pub mod shell;
pub mod order;
pub mod files;
pub mod search;
pub mod git;
pub mod todo;
pub mod agent;
pub mod web;
pub mod fetch;
pub mod stream;
pub mod crawl;
pub mod backend;
pub mod run;

verus! {

} // verus!
