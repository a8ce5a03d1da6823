//! Pensieve: the structural core of a navigable knowledge graph.
//!
//! The graph of collections and posts, its tag-inferred associations, the
//! navigation state (depth stack, rail selection, active tag filters), the
//! decisions taken on keyboard events, and the HTML text that the views show.

pub mod text;
pub mod graph;
pub mod queries;
pub mod tags;
pub mod layout;
pub mod render;
pub mod nav;
pub mod input;
pub mod overlay;
pub mod laws;
pub mod chain;
