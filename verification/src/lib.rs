//! Build static project pages for GitHub Pages: the Markdown subset
//! renderer, HTML escaping, the site configuration model and the plans for
//! pages, copied reports and the compressed artifact.

pub mod text;
pub mod html;
pub mod path;
pub mod config;
pub mod site;
pub mod artifact;
pub mod cli;

pub use artifact::create_artifact;
pub use artifact::deploy_github_pages;
pub use artifact::publish_github_pages;
