//! A domain-restricted crawler core: the visited ledger, the bounded frontier
//! with its in-flight accounting and termination check, and link extraction
//! over the `url` and `scraper` crates.

pub mod visited;
pub mod links;
pub mod crawler;
