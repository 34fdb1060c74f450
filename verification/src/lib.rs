//! Reading the textual description of a filtergraph, such as
//! `[0:v]scale=640:480[a];[a][1:v]overlay=10:10`, and the command line that
//! carries it.
//!
//! A graph description is turned into an ordered list of filter instances,
//! the directed links between their pads, and the pads that are left open
//! on either side of the graph.  Which filters exist, and how many pads an
//! instance has for a given argument string, is asked of a registry that
//! the caller supplies.
//!
//! - [`scanner`] is the cursor over the bytes of a description;
//! - [`text`] holds small operations on byte strings;
//! - [`graph`] holds the values a description is read into;
//! - [`filter`] reads one filter and turns the registry's answer into an
//!   instance;
//! - [`pads`] matches pads by label and links them;
//! - [`parse`] reads a whole description;
//! - [`laws`] proves what holds of every graph that is read;
//! - [`tally`] counts, for these proofs;
//! - [`options`] describes command-line options;
//! - [`cmdline`] keeps the groups that options are sorted into;
//! - [`split`] splits a command line into these groups.

pub mod cmdline;
pub mod filter;
pub mod graph;
pub mod laws;
pub mod options;
pub mod pads;
pub mod parse;
pub mod scanner;
pub mod split;
pub mod tally;
pub mod text;
