//! A verified ingestion-to-package pipeline for comic-book archives.
//!
//! The library watches no directory and writes no file itself: it holds the
//! decisions and transformations of the pipeline — classifying entries,
//! parsing the embedded metadata sidecar, ordering pages, splitting them
//! into size-bounded packages and assembling each package — with contracts
//! that pin down what every stage returns.

pub mod archive;
pub mod assets;
pub mod comicinfo;
pub mod config;
pub mod ledger;
pub mod ordering;
pub mod package;
pub mod pipeline;
pub mod scan;
pub mod sniff;
pub mod stability;
pub mod split;
