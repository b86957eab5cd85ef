//! Which webhook the bot posts through, and under which name.
use vstd::prelude::*;

use crate::text::{decimal, spec_decimal};

verus! {

/// Whether to post through a new webhook or the channel's first one.
#[derive(PartialEq, Eq, Structural, Debug)]
pub enum WebhookChoice {
    CreateNew,
    UseFirst,
}

/// The choice when any webhook will do: the first one, or a new one in a
/// channel without webhooks.
pub fn choose_any_webhook(existing: usize) -> (r: WebhookChoice)
    ensures
        r == (if existing == 0 {
            WebhookChoice::CreateNew
        } else {
            WebhookChoice::UseFirst
        }),
{
    if existing == 0 {
        WebhookChoice::CreateNew
    } else {
        WebhookChoice::UseFirst
    }
}

/// The choice for a channel whose webhooks have a token where `has_token`
/// says so: a new webhook when none of them has a token (or there are
/// none), else the first one.
pub fn choose_webhook(has_token: &Vec<bool>) -> (r: WebhookChoice)
    ensures
        r == (if forall|i: int| 0 <= i < has_token@.len() ==> !#[trigger] has_token@[i] {
            WebhookChoice::CreateNew
        } else {
            WebhookChoice::UseFirst
        }),
        r == WebhookChoice::UseFirst ==> has_token@.len() > 0,
{
    for i in 0..has_token.len()
        invariant
            forall|k: int| 0 <= k < i ==> !#[trigger] has_token@[k],
    {
        if has_token[i] {
            return WebhookChoice::UseFirst;
        }
    }
    WebhookChoice::CreateNew
}

/// The name a reposted message is shown under: the author's name, `#` and
/// the discriminator.
pub fn webhook_username(name: &str, discriminator: u16) -> (r: String)
    ensures
        r@ == name@ + "#"@ + spec_decimal(discriminator as nat),
{
    let mut r = String::from_str(name);
    r.append("#");
    let d = decimal(discriminator as u64);
    r.append(d.as_str());
    r
}

} // verus!
