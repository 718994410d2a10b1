//! Zero-copy parsing of HL7 v2 messages.
//!
//! A message is text cut by nested delimiters into segments, fields, repeats,
//! components and subcomponents. Every value handed out is a span of the text
//! it was parsed from; every contract is stated over the characters of that
//! text.
//!
//! - [`text`] splits a text on one delimiter and joins it again, and defines
//!   what the contracts of the other modules mean by that.
//! - [`separators`] holds the delimiter set of a message and reads it off
//!   the message's header.
//! - [`fields`] splits a field into its repeats, components and
//!   subcomponents, and addresses them by number and by dotted path.
//! - [`segments`] reads a line as the typed header or as a bag of fields.
//! - [`forwards_parser`] reads a whole message into a tree in one pass, and
//!   looks fields up in the tree or in the bare text.
//! - [`paths`] reads the tokens of a dotted path, and [`offsets`] cuts spans
//!   out of a text where its characters start in memory.

#![allow(unused_imports)]

pub mod fields;
pub mod forwards_parser;
pub mod offsets;
pub mod paths;
pub mod segments;
pub mod separators;
pub mod text;

use vstd::prelude::*;

verus! {

/// Why a message, or a part of one, could not be parsed.
#[derive(Debug, PartialEq)]
pub enum Hl7ParseError {
    /// The text does not have the shape that the parser was asked to find.
    Generic(String),
    /// A field that must be present has no source text.
    MissingRequiredValue(),
}

} // verus!
