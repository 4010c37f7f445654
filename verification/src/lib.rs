//! Builds a small static site of plausible but meaningless prose from a seed corpus.
//!
//! The work flows one way:
//!
//! - [`corpus`] turns a blob of text into training lines;
//! - [`chain`] trains a word chain on them and draws utterances from it;
//! - [`page`] shapes utterances into titles, paragraphs and pages, gives each page its
//!   address, and builds the link index;
//! - [`site`] renders every page through the template and lays the files out;
//! - [`writer`] decides, step by step, what is done to the output directory.
//!
//! [`text`] holds the string primitives the others share, and [`error`] the ways a build
//! can fail. Nothing here touches the file system: the caller takes the writer's steps.

pub mod chain;
pub mod corpus;
pub mod error;
pub mod page;
pub mod site;
pub mod text;
pub mod writer;
