//! The core of a static-site authoring tool: path classification, Markdown
//! rendering with front-matter and layouts, the build plan for a whole
//! source tree, the preview resolver and the decisions of the deploy
//! pipeline. Everything here computes on plain values; reading and writing
//! the disk is left to the program around it.

pub mod deploy;
pub mod fleen_app;
pub mod renderer;
pub mod server;
pub mod site_path;
pub mod source_tree;
pub mod text;
pub mod utils;
