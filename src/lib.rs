//! A static-site content pipeline: frontmatter extraction, a small shortcode language spliced
//! into markdown, page construction, and the site index with its taxonomy and section queries.

pub mod engine;
pub mod error;
pub mod frontmatter;
pub mod links;
pub mod paths;
pub mod pipeline;
pub mod render;
pub mod shortcode;
pub mod site;
pub mod splice;
pub mod taxonomy;
pub mod text;
