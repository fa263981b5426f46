//! Streaming tag filter and tag extractor for gzip-compressed XML project
//! files.
//!
//! The crate unpacks a project container ([`gzip`]), reads the document in
//! it into a stream of events ([`reader`], [`event`]), and runs one of two
//! passes over that stream:
//!
//! - the tag filter ([`filter`]) removes the subtrees rooted at listed
//!   element names and writes everything else back, one tag per line,
//!   indented by depth;
//! - the tag extractor ([`extract`]) collects, for each occurrence of a
//!   named element, the self-closing elements directly inside it, whose
//!   attributes can then be looked up ([`tag`], [`plugins`]).
//!
//! # What is proved and what is assumed
//!
//! Everything is verified with Verus against the contracts in the source,
//! and the modules whose names end in `_laws` prove what holds of the two
//! passes on every input. Five functions call code that Verus does not
//! see, and their contracts are assumed:
//!
//! - `reader::open_reader` and `reader::next_event` (the `quick-xml`
//!   reader): the events of a document are named by
//!   `reader::parsed_events`, not defined;
//! - `extract::parse_attributes` (the `quick-xml` attribute iterator),
//!   named by `extract::attribute_pairs`;
//! - `gzip::gunzip` (the `flate2` gzip decoder), named by
//!   `gzip::gzip_member`;
//! - `text::text_from_utf8` (`std::str::from_utf8`), stated over the
//!   definition of UTF-8 in `vstd`.

pub mod bytes;
pub mod error;
pub mod event;
pub mod extract;
pub mod extract_laws;
pub mod filter;
pub mod filter_laws;
pub mod gzip;
pub mod plugins;
pub mod reader;
pub mod tag;
pub mod tag_laws;
pub mod text;
