//! A flat-file blog: posts, their rendering, and the logic behind each page.
pub mod text;
pub mod parse;
pub mod escape;
pub mod slug;
pub mod html;
pub mod highlight;
pub mod render;
pub mod post;
pub mod config;
pub mod archive;
pub mod tags;
pub mod feed;
pub mod handlers;
pub mod watch;

pub use crate::config::{
    posts_per_page, site_desc, site_title, site_url, AboutConfig, SiteConfig,
};
