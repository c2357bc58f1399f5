//! Turns commit messages into a structured, filterable changelog.
//!
//! A commit message is parsed into a typed document ([`ParsedCommit`]), the
//! commits of a history are grouped by the release tag that contains them
//! ([`ParsedTag`]), and the groups are rendered as a flat list or through a
//! nested template of sections.
pub mod calendar;
pub mod changelog;
pub mod config;
pub mod correlate;
pub mod document;
pub mod footers;
pub mod format;
pub mod grammar;
pub mod journal;
pub mod order;
pub mod output;
pub mod parser;
pub mod pattern;
pub mod render;
pub mod schedule;
pub mod tags;
pub mod template;
pub mod text;

pub use config::Config;
pub use document::{
    BodyElement, Date, FooterElement, ListElement, Oid, ParagraphElement, ParsedCommit, ParsedTag,
    SummaryElement,
};
pub use journal::GitJournal;
pub use output::Output;
pub use parser::{ParseError, Parser};
pub use render::{Print, Printed};
pub use tags::Tags;
