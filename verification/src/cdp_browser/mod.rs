//! Browser automation over the Chrome DevTools protocol: requests, result
//! filtering and the page texts handed back.
pub mod actions;
pub mod client;
pub mod perplexity;
