//! A small static-blog post pipeline: decode dated filenames, parse the
//! marker-delimited header of each post, convert bodies to HTML, order the
//! posts most-recent-first, and plan the rendered output tree.

pub mod filename;
pub mod header;
pub mod load;
pub mod markdown;
pub mod order;
pub mod plan;
pub mod post;
pub mod strutil;
