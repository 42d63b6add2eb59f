//! Core content pipeline for a markdown blog engine.
//!
//! The library loads documents that carry a structured metadata block,
//! renders their markdown bodies to HTML with syntax-highlighted code
//! blocks and stable heading anchors, extracts tables of contents, ranks
//! related documents by explicit references and by tag overlap, and keeps
//! an atomically replaceable snapshot of the whole corpus.
//!
//! All file, network and template handling lives outside this crate; the
//! functions here compute over plain values and are verified against the
//! contracts they state.

pub mod text;

pub mod slug;

pub mod date;

pub mod models;

pub mod frontmatter;

pub mod corpus;

pub mod store;

pub mod ranker;

pub mod highlight;

pub mod markdown;
