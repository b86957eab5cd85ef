//! What the bot does on each message event.
use vstd::prelude::*;

use crate::patterns::{regex_is_match, LinkPatterns, AMAZON_LINK};

verus! {

/// The work a new message calls for.
pub struct MessageActions {
    /// Repost the message with its Amazon links as embeds and delete it.
    pub rewrite_amazon: bool,
    /// Offer image buttons for the tweets embedded in it.
    pub twitter_buttons: bool,
}

/// Decides on a new message from what is known of it: nothing for messages
/// from webhooks or bots; otherwise rewrite it when it holds an Amazon
/// product link, and offer tweet image buttons when it has embeds.
pub fn decide_message(
    from_webhook: bool,
    from_bot: bool,
    has_amazon_link: bool,
    embed_count: usize,
) -> (r: MessageActions)
    ensures
        r.rewrite_amazon == (!from_webhook && !from_bot && has_amazon_link),
        r.twitter_buttons == (!from_webhook && !from_bot && embed_count != 0),
{
    if from_webhook || from_bot {
        return MessageActions { rewrite_amazon: false, twitter_buttons: false };
    }
    MessageActions { rewrite_amazon: has_amazon_link, twitter_buttons: embed_count != 0 }
}

/// Decides on a new message: nothing for messages from webhooks or bots;
/// otherwise rewrite it when it holds an Amazon product link, and offer
/// tweet image buttons when it has embeds.
pub fn plan_message(
    patterns: &LinkPatterns,
    from_webhook: bool,
    from_bot: bool,
    content: &str,
    embed_count: usize,
) -> (r: MessageActions)
    ensures
        r.rewrite_amazon == (!from_webhook && !from_bot && regex_is_match(AMAZON_LINK@, content@)),
        r.twitter_buttons == (!from_webhook && !from_bot && embed_count != 0),
{
    if from_webhook || from_bot {
        return decide_message(from_webhook, from_bot, false, embed_count);
    }
    decide_message(from_webhook, from_bot, patterns.is_amazon_link(content), embed_count)
}

/// Decides on an edited message: offer tweet image buttons when the edit
/// carries a non-empty list of embeds.
pub fn plan_message_update(embed_count: Option<usize>) -> (r: bool)
    ensures
        r == (embed_count matches Some(n) && n != 0),
{
    match embed_count {
        Some(n) => n != 0,
        None => false,
    }
}

} // verus!
