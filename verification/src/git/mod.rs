//! Git as a collaborator: how it is asked, and how its answers are read.
//! Running the commands is left to the caller.

pub mod command;
pub mod outcome;
pub mod output;
pub mod path;
pub mod repo;
