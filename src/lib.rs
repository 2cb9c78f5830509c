//! Verified core of a small web search pipeline: crawl politeness, robots
//! rules, link extraction and frontier rows, chunk planning for embeddings,
//! snippet selection for search hits, and start-up reconciliation.
pub mod config;
pub mod crawler;
pub mod embed;
pub mod models;
pub mod parser;
pub mod robots;
pub mod search;
pub mod text;
pub mod timer;
pub mod weburl;

pub use config::{ConfigError, Sites, SitesConfig, FOXEYE_USER_AGENT};
pub use crawler::{classify_response, CrawlMessage, CrawlUrl, Crawler, Disposition, Verdict};
pub use embed::{split_chunks, CandleEmbedBuilder, ChunkError, ChunkPlan};
pub use models::Model;
pub use parser::{missing_ids, parse_document, parse_message, ParseError, ParsedPage, SiteConfig};
pub use robots::RobotsTxt;
pub use search::{snippet, summarise, SearchInput, SummaryError};
pub use timer::Timer;
pub use weburl::WebUrl;
