//! A small personal note store: an ordered collection of text notes with
//! tags and positional ids, a builder for SQL-like statement text over a
//! named table, and a byte codec for whole-collection persistence.

pub mod codec;
pub mod errors;
pub mod note;
pub mod notes;
pub mod query;
pub mod tags;
pub mod text;
