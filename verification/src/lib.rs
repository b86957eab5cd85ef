//! Verified core of the nekonote Discord bot: link recognition, rewriting of
//! percent-encoded text, scraping of Amazon product pages, grouping of tweet
//! images and the decisions the bot takes on each event.
use vstd::prelude::*;

pub mod amazon;
pub mod commands;
pub mod decoder;
pub mod event;
pub mod message_url;
pub mod patterns;
pub mod percent_encoding;
pub mod text;
pub mod twitter;
pub mod webhook;

verus! {

} // verus!
