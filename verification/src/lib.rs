//! Core engine of a small blog server: markdown-aware content truncation
//! and cursor-based pagination.
//!
//! The truncator shortens a stream of markdown events to a word budget
//! without unbalancing the markup; the paginator turns an ordered set of
//! posts and an optional cursor into a bounded page in display order with
//! next/prev markers.  Parsing markdown and serializing events to HTML are
//! the work of an outside tokenizer and serializer, called through trusted
//! wrappers; storage queries are issued by the surrounding application.

pub mod config;
pub mod events;
pub mod page;
pub mod preview;
pub mod render;
pub mod text;
