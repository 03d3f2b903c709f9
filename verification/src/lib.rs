//! A robots.txt (Robots Exclusion Protocol) parser.
//!
//! The parser turns robots.txt text into a structured rule set and answers
//! whether a given user agent may fetch a given URL path, plus the auxiliary
//! `crawl-delay`, `sitemap` and `request-rate` directives.

pub mod entry;
pub mod laws;
pub mod numbers;
pub mod parser;
pub mod percent;
pub mod rule;
pub mod text;
pub mod urlcheck;

pub use numbers::{Delay, RequestRate};
pub use parser::RobotFileParser;
pub use rule::RuleLine;
