//! Verified core of a lecture-transcript survey pipeline.
//!
//! The library authenticates a browser-like session against a SAML-protected
//! learning portal (modelled as a step-by-step decision machine over fetched
//! pages), locates recording pages and their embedded configuration, resolves
//! one transcript per recording (embedded captions first, local speech
//! recognition as fallback), deduplicates caption cues, and counts a fixed
//! set of phrases in each transcript.  All network and file I/O lives outside
//! the library; the functions here are pure decisions and transformations
//! over plain values, each with a verified contract.

pub mod batch;
pub mod captions;
pub mod config;
pub mod cues;
pub mod jsontree;
pub mod locator;
pub mod markup;
pub mod patterns;
pub mod recording;
pub mod resolver;
pub mod rows;
pub mod session;
pub mod text;
