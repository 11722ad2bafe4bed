//! HTML-to-Markdown conversion with verified building blocks.

pub mod chars;
pub mod conversion_laws;
pub mod document;
pub mod dom_context;
pub mod error;
pub mod fast_dom;
pub mod html;
pub mod markdown;
pub mod mdream_adapter;
pub mod options;
pub mod scan;
pub mod state;
pub mod tags;
pub mod text;
pub mod text_cache;
