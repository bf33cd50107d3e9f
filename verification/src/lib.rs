//! A pager for text that carries SGR styling and OSC-8 hyperlinks.

pub mod doc;
pub mod escape;
pub mod flow;
pub mod op;
pub mod order;
pub mod render;
pub mod render_laws;
pub mod search;
pub mod state;
pub mod style;
pub mod text;
pub mod ui;
pub mod view;
